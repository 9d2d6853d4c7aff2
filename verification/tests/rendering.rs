use catmd::events::{markdown_options, parse_markdown, MdEvent, MdTag};
use catmd::highlight::{choose_theme, render_code_block, Highlighting, DEFAULT_THEME};
use catmd::markdown::{decode_input, render_markdown, try_write_markdown, write_markdown};
use catmd::render::{check_markers_fit, collect_code_blocks, render_events};

const RULE: &str = "\x1b[38;5;244m----------------------------------------\x1b[0m\n";

#[test]
fn renders_heading_with_ansi() {
    let rendered = render_markdown("# Hello", DEFAULT_THEME);
    assert!(rendered.contains("\x1b[1;38;5;39mHello\x1b[0m"));
}

#[test]
fn renders_inline_code() {
    let rendered = render_markdown("Use `catmd`", DEFAULT_THEME);
    assert!(rendered.contains("catmd"));
    assert!(rendered.contains("\x1b[48;5;236m"));
}

#[test]
fn heading_is_rendered_exactly() {
    assert_eq!(render_markdown("# Hello", DEFAULT_THEME), "\x1b[1;38;5;39mHello\x1b[0m\n");
}

#[test]
fn paragraph_with_inline_styles() {
    let rendered = render_markdown("a **b** *c* ~~d~~ `e`", DEFAULT_THEME);
    assert_eq!(
        rendered,
        "a \x1b[1mb\x1b[0m \x1b[3mc\x1b[0m \x1b[9md\x1b[0m \x1b[48;5;236m\x1b[38;5;223m e \x1b[0m\n"
    );
}

#[test]
fn ordered_list_is_numbered() {
    let rendered = render_markdown("3. a\n4. b\n", DEFAULT_THEME);
    assert_eq!(rendered, "3. a\n4. b\n");
}

#[test]
fn nested_list_is_indented() {
    let rendered = render_markdown("- a\n  - b\n", DEFAULT_THEME);
    assert_eq!(rendered, "- a  - b\n\n");
}

#[test]
fn lists_stay_open_for_indentation() {
    let rendered = render_markdown("- a\n\npara\n\n- b\n", DEFAULT_THEME);
    assert_eq!(rendered, "- a\npara\n  - b\n");
}

#[test]
fn task_markers_and_links_and_rules() {
    let rendered = render_markdown("- [x] done\n- [ ] todo\n", DEFAULT_THEME);
    assert_eq!(rendered, "- [x] done\n- [ ] todo\n");
    let link = render_markdown("[site](https://example.com)", DEFAULT_THEME);
    assert_eq!(link, "site\x1b[2m (https://example.com)\x1b[0m\n");
    assert_eq!(render_markdown("---", DEFAULT_THEME), RULE);
}

#[test]
fn footnote_reference_is_bracketed() {
    let rendered = render_markdown("x[^1]\n\n[^1]: note\n", DEFAULT_THEME);
    assert!(rendered.starts_with("x[^1]\n"));
}

#[test]
fn fenced_code_is_highlighted_and_followed_by_blank_line() {
    let rendered = render_markdown("```rust\nfn main() {}\n```\n", DEFAULT_THEME);
    assert!(rendered.contains("\x1b[38;2;"));
    assert!(rendered.contains("main"));
    assert!(rendered.ends_with("\n\n"));
}

#[test]
fn parser_events_for_a_heading() {
    let events = parse_markdown("# Hi", markdown_options());
    assert_eq!(events.len(), 3);
    assert!(matches!(events[0], MdEvent::Start(MdTag::Heading)));
    assert!(matches!(&events[1], MdEvent::Text(t) if t == "Hi"));
    assert!(matches!(events[2], MdEvent::End(MdTag::Heading)));
}

#[test]
fn parser_events_for_a_fenced_block() {
    let events = parse_markdown("```py\nx = 1\n```\n", markdown_options());
    assert!(matches!(&events[0], MdEvent::Start(MdTag::FencedCodeBlock(info)) if info == "py"));
    let blocks = collect_code_blocks(&events);
    assert_eq!(blocks.len(), 1);
    assert_eq!(blocks[0].language.as_deref(), Some("py"));
    assert_eq!(blocks[0].content, "x = 1\n");
}

fn code_events(info: Option<&str>, lines: &[&str]) -> Vec<MdEvent> {
    let tag = || match info {
        Some(i) => MdTag::FencedCodeBlock(i.to_owned()),
        None => MdTag::IndentedCodeBlock,
    };
    let mut events = vec![MdEvent::Start(tag())];
    for (k, l) in lines.iter().enumerate() {
        if k > 0 {
            events.push(MdEvent::SoftBreak);
        }
        events.push(MdEvent::Text((*l).to_owned()));
    }
    events.push(MdEvent::End(tag()));
    events
}

#[test]
fn code_blocks_are_collected_with_their_language() {
    let mut events = code_events(Some("  "), &["a", "b"]);
    events.push(MdEvent::Text("outside".to_owned()));
    events.extend(code_events(None, &["c"]));
    events.extend(code_events(Some("rust ignore"), &["d"]));
    let blocks = collect_code_blocks(&events);
    assert_eq!(blocks.len(), 3);
    assert_eq!(blocks[0].language, None);
    assert_eq!(blocks[0].content, "a\nb");
    assert_eq!(blocks[1].language, None);
    assert_eq!(blocks[1].content, "c");
    assert_eq!(blocks[2].language.as_deref(), Some("rust ignore"));
}

#[test]
fn rendered_blocks_are_placed_in_order() {
    let mut events = code_events(Some("x"), &["a"]);
    events.push(MdEvent::Text("mid".to_owned()));
    events.extend(code_events(Some("y"), &["b"]));
    let blocks = vec!["A".to_owned(), "B\n".to_owned()];
    assert_eq!(render_events(&events, &blocks), "A\n\nmidB\n\n");
}

#[test]
fn events_inside_code_are_not_rendered() {
    let mut events = code_events(Some("x"), &["a"]);
    events.insert(1, MdEvent::Rule);
    events.insert(1, MdEvent::Start(MdTag::Strong));
    let blocks = vec!["Z".to_owned()];
    assert_eq!(render_events(&events, &blocks), "Z\n\n");
    let after = vec![MdEvent::Text("t".to_owned())];
    let mut all = events;
    all.extend(after);
    assert_eq!(render_events(&all, &blocks), "Z\n\nt");
}

#[test]
fn unbalanced_ends_are_harmless() {
    let events = vec![
        MdEvent::End(MdTag::Strong),
        MdEvent::End(MdTag::Link("x".to_owned())),
        MdEvent::Text("t".to_owned()),
        MdEvent::End(MdTag::List(None)),
        MdEvent::End(MdTag::List(None)),
        MdEvent::Start(MdTag::Item),
        MdEvent::HardBreak,
        MdEvent::TaskListMarker(true),
        MdEvent::FootnoteReference("n".to_owned()),
        MdEvent::Html("<b>".to_owned()),
    ];
    assert_eq!(render_events(&events, &vec![]), "t\n- \n[x] [^n]<b>");
}

#[test]
fn list_numbering_overflow_is_detected() {
    let item = || MdEvent::Start(MdTag::Item);
    let near = vec![MdEvent::Start(MdTag::List(Some(u64::MAX - 1))), item(), item()];
    assert!(!check_markers_fit(&near));
    let fits = vec![MdEvent::Start(MdTag::List(Some(u64::MAX - 1))), item()];
    assert!(check_markers_fit(&fits));
    let bullets = vec![MdEvent::Start(MdTag::List(None)), item(), item()];
    assert!(check_markers_fit(&bullets));
    let in_code = vec![
        MdEvent::Start(MdTag::IndentedCodeBlock),
        MdEvent::Start(MdTag::List(Some(u64::MAX))),
        item(),
        MdEvent::End(MdTag::IndentedCodeBlock),
    ];
    assert!(check_markers_fit(&in_code));
}

#[test]
fn theme_choice_falls_back() {
    let names: Vec<String> = vec!["b".to_owned(), DEFAULT_THEME.to_owned(), "z".to_owned()];
    assert_eq!(choose_theme(&names, "z"), Some("z".to_owned()));
    assert_eq!(choose_theme(&names, "missing"), Some(DEFAULT_THEME.to_owned()));
    let others: Vec<String> = vec!["b".to_owned(), "c".to_owned()];
    assert_eq!(choose_theme(&others, "missing"), Some("b".to_owned()));
    assert_eq!(choose_theme(&vec![], "missing"), None);
}

fn strip_escapes(s: &str) -> String {
    let mut out = String::new();
    let mut chars = s.chars().peekable();
    while let Some(c) = chars.next() {
        if c == '\x1b' && chars.peek() == Some(&'[') {
            for d in chars.by_ref() {
                if d == 'm' {
                    break;
                }
            }
        } else {
            out.push(c);
        }
    }
    out
}

#[test]
fn code_block_is_highlighted_line_by_line() {
    let hl = Highlighting::load_defaults();
    let out = render_code_block("a\nb\n", None, "no-such-theme", &hl);
    assert_eq!(out.matches("\x1b[38;2;").count(), 2);
    assert!(out.starts_with("\x1b[38;2;"));
    assert_eq!(strip_escapes(&out), "a\nb\n");
}

#[test]
fn highlighted_code_keeps_its_text() {
    let hl = Highlighting::load_defaults();
    let code = "fn main() {\n    println!(\"hi\");\n}\n";
    let out = render_code_block(code, Some("rust"), DEFAULT_THEME, &hl);
    assert!(out.matches("\x1b[38;2;").count() > 3);
    assert_eq!(strip_escapes(&out), code);
}

#[test]
fn unknown_theme_uses_the_default() {
    let hl = Highlighting::load_defaults();
    let code = "let x = 1;\n";
    assert_eq!(
        render_code_block(code, Some("rust"), "no-such-theme", &hl),
        render_code_block(code, Some("rust"), DEFAULT_THEME, &hl)
    );
    assert_ne!(
        render_code_block(code, Some("rust"), "InspiredGitHub", &hl),
        render_code_block(code, Some("rust"), DEFAULT_THEME, &hl)
    );
}

#[test]
fn unknown_language_is_plain_text() {
    let hl = Highlighting::load_defaults();
    let code = "let x = 1;\n";
    assert_eq!(
        render_code_block(code, Some("no-such-language"), DEFAULT_THEME, &hl),
        render_code_block(code, None, DEFAULT_THEME, &hl)
    );
    assert_ne!(
        render_code_block(code, Some("rs"), DEFAULT_THEME, &hl),
        render_code_block(code, None, DEFAULT_THEME, &hl)
    );
    assert_eq!(
        render_code_block(code, Some("RUST"), DEFAULT_THEME, &hl),
        render_code_block(code, Some("rs"), DEFAULT_THEME, &hl)
    );
}

#[test]
fn default_syntaxes_include_plain_text() {
    let hl = Highlighting::load_defaults();
    let entries = hl.syntax_entries();
    assert!(entries.iter().any(|e| e.name == "Plain Text"));
    assert!(entries.iter().any(|e| e.name == "Rust" && e.extensions.iter().any(|x| x == "rs")));
    let names = hl.theme_names();
    assert_eq!(names.len(), 7);
    assert_eq!(names[0], "InspiredGitHub");
}

#[test]
fn fenced_block_text_is_kept_verbatim() {
    let rendered = render_markdown("```\n**a** `b`\n```", DEFAULT_THEME);
    assert_eq!(strip_escapes(&rendered), "**a** `b`\n\n");
}

#[test]
fn input_bytes_are_decoded_lossily() {
    assert_eq!(decode_input(b"# Hi"), "# Hi");
    assert_eq!(decode_input(&[b'a', 0xff, b'b']), "a\u{FFFD}b");
}

#[test]
fn markdown_is_written_as_utf8() {
    let mut out = b"> ".to_vec();
    write_markdown(b"*\xc3\xa9*", DEFAULT_THEME, &mut out);
    assert_eq!(out, "> \x1b[3m\u{e9}\x1b[0m\n".as_bytes());
    let mut direct = Vec::new();
    write_markdown("# T\n\n```rust\nfn f() {}\n```\n".as_bytes(), "Solarized (dark)", &mut direct);
    assert_eq!(direct, render_markdown("# T\n\n```rust\nfn f() {}\n```\n", "Solarized (dark)").into_bytes());
    let mut out2 = Vec::new();
    assert!(try_write_markdown(&[b'#', b' ', 0xff], DEFAULT_THEME, &mut out2));
    assert_eq!(String::from_utf8(out2).unwrap(), "\x1b[1;38;5;39m\u{FFFD}\x1b[0m\n");
}
