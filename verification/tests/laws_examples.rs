use catmd::markdown::render_markdown;
use catmd::highlight::DEFAULT_THEME;
use catmd::paths::{is_markdown_path, should_render_markdown, RunConfig};
use catmd::style::ListState;

#[test]
fn stdin_is_rendered_only_when_forced() {
    for plain in [false, true] {
        for force in [false, true] {
            for tty in [false, true] {
                let cfg = RunConfig { plain, force_markdown: force, theme: String::new(), stdout_is_tty: tty };
                assert_eq!(should_render_markdown(None, &cfg), !plain && force);
            }
        }
    }
}

#[test]
fn lower_casing_keeps_markdown_names() {
    for name in ["a.MD", "a.Markdown", "a.MDOWN", "a.mKd", "a.TXT"] {
        assert_eq!(is_markdown_path(name), is_markdown_path(&name.to_ascii_lowercase()));
    }
}

#[test]
fn markers_count_up_consecutively() {
    let mut list = ListState::new(Some(98));
    let markers: Vec<String> = (0..4).map(|_| list.marker()).collect();
    assert_eq!(markers, vec!["98. ", "99. ", "100. ", "101. "]);
}

#[test]
fn rendering_of_a_prefix_begins_the_rendering() {
    let whole = render_markdown("# A\n\ntext **b**\n", DEFAULT_THEME);
    let first = render_markdown("# A\n", DEFAULT_THEME);
    assert!(whole.starts_with(&first));
}

#[test]
fn closing_a_span_restores_the_style() {
    assert_eq!(render_markdown("**a** b", DEFAULT_THEME), "\x1b[1ma\x1b[0m b\n");
    assert_eq!(render_markdown("*~~a~~* b", DEFAULT_THEME), "\x1b[3;9ma\x1b[0m b\n");
}

#[test]
fn link_destination_follows_link_text() {
    let out = render_markdown("[x](a) [y](b)", DEFAULT_THEME);
    assert_eq!(out, "x\x1b[2m (a)\x1b[0m y\x1b[2m (b)\x1b[0m\n");
}

#[test]
fn theme_only_matters_for_code_blocks() {
    let input = "# A\n\n- *b*\n";
    assert_eq!(render_markdown(input, DEFAULT_THEME), render_markdown(input, "InspiredGitHub"));
    let with_code = "```rust\nfn f() {}\n```\n";
    assert_ne!(render_markdown(with_code, DEFAULT_THEME), render_markdown(with_code, "InspiredGitHub"));
}
