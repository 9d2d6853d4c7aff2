use catmd::paths::{is_markdown_path, should_render_markdown, RunConfig};

fn config(plain: bool, force_markdown: bool, stdout_is_tty: bool) -> RunConfig {
    RunConfig {
        plain,
        force_markdown,
        theme: "base16-ocean.dark".to_owned(),
        stdout_is_tty,
    }
}

#[test]
fn markdown_extension_detection_is_case_insensitive() {
    assert!(is_markdown_path("README.md"));
    assert!(is_markdown_path("README.MARKDOWN"));
    assert!(is_markdown_path("notes.MdOwN"));
}

#[test]
fn non_markdown_extension_is_not_detected() {
    assert!(!is_markdown_path("main.rs"));
    assert!(!is_markdown_path("LICENSE"));
}

#[test]
fn markdown_rendering_requires_tty_by_default() {
    let config = RunConfig {
        plain: false,
        force_markdown: false,
        theme: "base16-ocean.dark".to_owned(),
        stdout_is_tty: false,
    };

    assert!(!should_render_markdown(Some("README.md"), &config));
}

#[test]
fn markdown_flag_forces_rendering() {
    let config = RunConfig {
        plain: false,
        force_markdown: true,
        theme: "base16-ocean.dark".to_owned(),
        stdout_is_tty: false,
    };

    assert!(should_render_markdown(None, &config));
}

#[test]
fn plain_mode_disables_markdown_even_when_forced() {
    let config = RunConfig {
        plain: true,
        force_markdown: true,
        theme: "base16-ocean.dark".to_owned(),
        stdout_is_tty: true,
    };

    assert!(!should_render_markdown(Some("README.md"), &config));
}

#[test]
fn all_four_extensions_are_markdown() {
    assert!(is_markdown_path("a.md"));
    assert!(is_markdown_path("a.markdown"));
    assert!(is_markdown_path("a.mdown"));
    assert!(is_markdown_path("a.MKD"));
    assert!(!is_markdown_path("a.mdx"));
    assert!(!is_markdown_path("a.m"));
}

#[test]
fn extension_is_taken_from_the_file_name() {
    assert!(is_markdown_path("docs/guide.md"));
    assert!(!is_markdown_path("docs.md/guide"));
    assert!(is_markdown_path("dir/notes.tar.md"));
    assert!(is_markdown_path("notes.md/"));
    assert!(!is_markdown_path("md"));
    assert!(!is_markdown_path(""));
}

#[test]
fn hidden_file_without_extension_is_not_markdown() {
    assert!(!is_markdown_path(".md"));
    assert!(!is_markdown_path("dir/.markdown"));
    assert!(is_markdown_path(".notes.md"));
    assert!(!is_markdown_path("notes."));
}

#[test]
fn terminal_renders_markdown_files_only() {
    let cfg = config(false, false, true);
    assert!(should_render_markdown(Some("README.md"), &cfg));
    assert!(!should_render_markdown(Some("notes.txt"), &cfg));
    assert!(!should_render_markdown(None, &cfg));
}

#[test]
fn forced_markdown_renders_any_input() {
    let cfg = config(false, true, true);
    assert!(should_render_markdown(Some("notes.txt"), &cfg));
    assert!(should_render_markdown(None, &cfg));
}

#[test]
fn plain_mode_prints_everything_raw() {
    for tty in [false, true] {
        for force in [false, true] {
            let cfg = config(true, force, tty);
            assert!(!should_render_markdown(Some("README.md"), &cfg));
            assert!(!should_render_markdown(None, &cfg));
        }
    }
}
