//! What each kind of event does to the rendering, stated as laws over the
//! renderer's state and output.

use vstd::prelude::*;
use crate::events::{MdEvent, MdTag};
use crate::highlight::code_block_output;
use crate::markdown::highlighted_blocks;
use crate::render::{code_blocks, emit, fence_language, initial_state, newline_unless_ended, rendered, state_after, step, BlockView, RenderState};
use crate::style::{InlineStyle, ListState};
use crate::text::{decimal, ends_with_newline, is_blank, repeat};

verus! {

/// Opening a heading switches the heading style on and keeps every other
/// part of the style; nothing is written.
pub proof fn law_heading_start(s: RenderState, out: Seq<char>, blocks: Seq<Seq<char>>)
    requires
        s.code is None,
    ensures
        step(s, MdEvent::Start(MdTag::Heading)).style.heading,
        step(s, MdEvent::Start(MdTag::Heading)).style.strong == s.style.strong,
        step(s, MdEvent::Start(MdTag::Heading)).style.emphasis == s.style.emphasis,
        step(s, MdEvent::Start(MdTag::Heading)).style.strikethrough == s.style.strikethrough,
        emit(s, out, MdEvent::Start(MdTag::Heading), blocks).len() == 0,
{
}

/// Closing a heading switches the heading style off, keeps the rest of the
/// style, and ends the line.
pub proof fn law_heading_end(s: RenderState, out: Seq<char>, blocks: Seq<Seq<char>>)
    requires
        s.code is None,
    ensures
        !step(s, MdEvent::End(MdTag::Heading)).style.heading,
        step(s, MdEvent::End(MdTag::Heading)).style.strong == s.style.strong,
        step(s, MdEvent::End(MdTag::Heading)).style.emphasis == s.style.emphasis,
        step(s, MdEvent::End(MdTag::Heading)).style.strikethrough == s.style.strikethrough,
        emit(s, out, MdEvent::End(MdTag::Heading), blocks) == seq!['\n'],
{
    reveal_strlit("\n");
}

/// After a heading closes, text outside any other span is written exactly
/// as it is.
pub proof fn law_text_after_heading_is_plain(
    s: RenderState,
    out: Seq<char>,
    t: String,
    blocks: Seq<Seq<char>>,
)
    requires
        s.code is None,
        s.style.strong == 0,
        s.style.emphasis == 0,
        s.style.strikethrough == 0,
    ensures
        emit(step(s, MdEvent::End(MdTag::Heading)), out, MdEvent::Text(t), blocks) == t@,
{
}

/// Opening a strong, emphasis or strikethrough span counts it as open, and
/// closing one counts it as closed (never below zero); nothing else of the
/// style changes and nothing is written.
pub proof fn law_span_counters(s: RenderState, out: Seq<char>, blocks: Seq<Seq<char>>)
    requires
        s.code is None,
        s.style.strong < usize::MAX,
        s.style.emphasis < usize::MAX,
        s.style.strikethrough < usize::MAX,
    ensures
        step(s, MdEvent::Start(MdTag::Strong)).style
            == (InlineStyle { strong: (s.style.strong + 1) as usize, ..s.style }),
        step(s, MdEvent::Start(MdTag::Emphasis)).style
            == (InlineStyle { emphasis: (s.style.emphasis + 1) as usize, ..s.style }),
        step(s, MdEvent::Start(MdTag::Strikethrough)).style
            == (InlineStyle { strikethrough: (s.style.strikethrough + 1) as usize, ..s.style }),
        step(s, MdEvent::End(MdTag::Strong)).style.strong
            == (if s.style.strong > 0 { s.style.strong - 1 } else { 0 }),
        step(s, MdEvent::End(MdTag::Emphasis)).style.emphasis
            == (if s.style.emphasis > 0 { s.style.emphasis - 1 } else { 0 }),
        step(s, MdEvent::End(MdTag::Strikethrough)).style.strikethrough
            == (if s.style.strikethrough > 0 { s.style.strikethrough - 1 } else { 0 }),
        step(s, MdEvent::End(MdTag::Strong)).style.heading == s.style.heading,
        step(s, MdEvent::End(MdTag::Emphasis)).style.heading == s.style.heading,
        step(s, MdEvent::End(MdTag::Strikethrough)).style.heading == s.style.heading,
        emit(s, out, MdEvent::Start(MdTag::Strong), blocks).len() == 0,
        emit(s, out, MdEvent::End(MdTag::Strong), blocks).len() == 0,
{
}

/// The SGR codes follow the style: bold (`1`) for a heading or strong
/// text, colour 39 for a heading, italic (`3`) for emphasis, crossed out
/// (`9`) for strikethrough; a style with nothing open has no escape.
pub proof fn law_style_codes(style: InlineStyle)
    ensures
        style.ansi_codes().contains("38;5;39"@) <==> style.heading,
        style.ansi_codes().contains("1"@) <==> (style.heading || style.strong > 0),
        style.ansi_codes().contains("3"@) <==> style.emphasis > 0,
        style.ansi_codes().contains("9"@) <==> style.strikethrough > 0,
        style.spec_ansi_prefix() is None <==> (!style.heading && style.strong == 0
            && style.emphasis == 0 && style.strikethrough == 0),
{
    reveal_strlit("38;5;39");
    reveal_strlit("1");
    reveal_strlit("3");
    reveal_strlit("9");
    let a: Seq<Seq<char>> = if style.heading { seq!["1"@, "38;5;39"@] } else { Seq::empty() };
    let b: Seq<Seq<char>> = if style.strong > 0 { seq!["1"@] } else { Seq::empty() };
    let c: Seq<Seq<char>> = if style.emphasis > 0 { seq!["3"@] } else { Seq::empty() };
    let d: Seq<Seq<char>> = if style.strikethrough > 0 { seq!["9"@] } else { Seq::empty() };
    let codes = style.ansi_codes();
    assert(codes == a + b + c + d);
    assert(codes.contains("38;5;39"@) <==> style.heading) by {
        if style.heading {
            assert(codes[1] == "38;5;39"@);
        }
        if codes.contains("38;5;39"@) {
            let i = choose|i: int| 0 <= i < codes.len() && codes[i] == "38;5;39"@;
            if !style.heading {
                assert(codes[i].len() == 1);
            }
        }
    }
    assert(codes.contains("1"@) <==> (style.heading || style.strong > 0)) by {
        if style.heading {
            assert(codes[0] == "1"@);
        } else if style.strong > 0 {
            assert(codes[0] == "1"@);
        }
        if codes.contains("1"@) {
            let i = choose|i: int| 0 <= i < codes.len() && codes[i] == "1"@;
            if !style.heading && style.strong == 0 {
                assert(codes[i][0] != '1');
            }
        }
    }
    assert(codes.contains("3"@) <==> style.emphasis > 0) by {
        if style.emphasis > 0 {
            assert(codes[(a.len() + b.len()) as int] == "3"@);
        }
        if codes.contains("3"@) {
            let i = choose|i: int| 0 <= i < codes.len() && codes[i] == "3"@;
            if style.emphasis == 0 {
                assert(codes[i][0] != '3' || codes[i].len() != 1);
            }
        }
    }
    assert(codes.contains("9"@) <==> style.strikethrough > 0) by {
        if style.strikethrough > 0 {
            assert(codes[(a.len() + b.len() + c.len()) as int] == "9"@);
        }
        if codes.contains("9"@) {
            let i = choose|i: int| 0 <= i < codes.len() && codes[i] == "9"@;
            if style.strikethrough == 0 {
                assert(codes[i][0] != '9' || codes[i].len() != 1);
            }
        }
    }
}

/// Text and HTML outside code blocks are written as they are when no style
/// is open, and otherwise between the style's escape and a reset.
pub proof fn law_text_is_written_styled(s: RenderState, out: Seq<char>, t: String, blocks: Seq<Seq<char>>)
    requires
        s.code is None,
    ensures
        emit(s, out, MdEvent::Text(t), blocks) == match s.style.spec_ansi_prefix() {
            None => t@,
            Some(p) => p + t@ + "\x1b[0m"@,
        },
        emit(s, out, MdEvent::Html(t), blocks) == emit(s, out, MdEvent::Text(t), blocks),
        step(s, MdEvent::Text(t)) == s,
{
}

/// Inline code is written with its text between a dark background escape
/// with a space, and a space with a reset.
pub proof fn law_inline_code(s: RenderState, out: Seq<char>, t: String, blocks: Seq<Seq<char>>)
    requires
        s.code is None,
    ensures
        emit(s, out, MdEvent::Code(t), blocks) == "\x1b[48;5;236m\x1b[38;5;223m "@ + t@ + " \x1b[0m"@,
{
}

/// Outside code blocks, a soft or hard line break writes exactly one line
/// feed and changes nothing else.
pub proof fn law_breaks_write_a_line_feed(s: RenderState, out: Seq<char>, blocks: Seq<Seq<char>>)
    requires
        s.code is None,
    ensures
        emit(s, out, MdEvent::SoftBreak, blocks) == seq!['\n'],
        emit(s, out, MdEvent::HardBreak, blocks) == seq!['\n'],
        step(s, MdEvent::SoftBreak) == s,
        step(s, MdEvent::HardBreak) == s,
{
    reveal_strlit("\n");
}

/// Paragraph and item ends write one line feed; a list end writes one
/// only when the text does not already end a line.
pub proof fn law_block_ends(s: RenderState, out: Seq<char>, start: Option<u64>, blocks: Seq<Seq<char>>)
    requires
        s.code is None,
    ensures
        emit(s, out, MdEvent::End(MdTag::Paragraph), blocks) == seq!['\n'],
        emit(s, out, MdEvent::End(MdTag::Item), blocks) == seq!['\n'],
        ends_with_newline(out) ==> emit(s, out, MdEvent::End(MdTag::List(start)), blocks).len() == 0,
        !ends_with_newline(out) ==> emit(s, out, MdEvent::End(MdTag::List(start)), blocks) == seq!['\n'],
        ends_with_newline(out + emit(s, out, MdEvent::End(MdTag::List(start)), blocks)),
{
    reveal_strlit("\n");
    if !ends_with_newline(out) {
        assert((out + seq!['\n']).last() == '\n');
    } else {
        assert(out + Seq::<char>::empty() =~= out);
    }
}

/// A rule is a dim line of forty dashes; task markers are `[x] ` and
/// `[ ] `; a footnote reference is its name in `[^` and `]`.
pub proof fn law_markers_and_rules(s: RenderState, out: Seq<char>, name: String, blocks: Seq<Seq<char>>)
    requires
        s.code is None,
    ensures
        emit(s, out, MdEvent::Rule, blocks)
            == "\x1b[38;5;244m"@ + repeat("-"@, 40) + "\x1b[0m\n"@,
        emit(s, out, MdEvent::TaskListMarker(true), blocks) == "[x] "@,
        emit(s, out, MdEvent::TaskListMarker(false), blocks) == "[ ] "@,
        emit(s, out, MdEvent::FootnoteReference(name), blocks) == "[^"@ + name@ + "]"@,
{
    reveal_strlit("\x1b[38;5;244m----------------------------------------\x1b[0m\n");
    reveal_strlit("\x1b[38;5;244m");
    reveal_strlit("\x1b[0m\n");
    reveal_strlit("-");
    reveal_with_fuel(repeat, 41);
    assert(emit(s, out, MdEvent::Rule, blocks) =~= "\x1b[38;5;244m"@ + repeat("-"@, 40) + "\x1b[0m\n"@);
}

/// Opening a list pushes a list numbered from its start (from 1 for a
/// bulleted list) and keeps the lists open before it; nothing is written.
pub proof fn law_list_start(s: RenderState, out: Seq<char>, start: Option<u64>, blocks: Seq<Seq<char>>)
    requires
        s.code is None,
    ensures
        step(s, MdEvent::Start(MdTag::List(start))).lists.len() == s.lists.len() + 1,
        step(s, MdEvent::Start(MdTag::List(start))).lists.drop_last() == s.lists,
        step(s, MdEvent::Start(MdTag::List(start))).lists.last().ordered == (start is Some),
        step(s, MdEvent::Start(MdTag::List(start))).lists.last().next
            == match start { Some(n) => n, None => 1u64 },
        emit(s, out, MdEvent::Start(MdTag::List(start)), blocks).len() == 0,
{
    assert(s.lists.push(ListState::spec_new(start)).drop_last() =~= s.lists);
}

/// An item is written as two spaces for every list opened before the
/// innermost one, then the innermost list's marker: its number and `. `
/// when ordered, `- ` otherwise. Only the innermost list advances; the
/// lists around it are left as they were.
pub proof fn law_item_uses_innermost_list(s: RenderState, out: Seq<char>, blocks: Seq<Seq<char>>)
    requires
        s.code is None,
        s.lists.len() > 0,
        s.lists.last().ordered ==> s.lists.last().next < u64::MAX,
    ensures
        ({
            let inner = s.lists.last();
            let t = step(s, MdEvent::Start(MdTag::Item));
            &&& emit(s, out, MdEvent::Start(MdTag::Item), blocks) == repeat("  "@, (s.lists.len() - 1) as nat)
                + if inner.ordered { decimal(inner.next as nat) + ". "@ } else { "- "@ }
            &&& t.lists.len() == s.lists.len()
            &&& forall|i: int| 0 <= i < s.lists.len() - 1 ==> t.lists[i] == s.lists[i]
            &&& t.lists.last().ordered == inner.ordered
            &&& t.lists.last().next == if inner.ordered { (inner.next + 1) as u64 } else { inner.next }
        }),
{
}

/// Consecutive items of the innermost ordered list are numbered `n` and
/// `n + 1`, whatever lists are open around it.
pub proof fn law_consecutive_items_count_up(
    s: RenderState,
    out1: Seq<char>,
    out2: Seq<char>,
    blocks: Seq<Seq<char>>,
)
    requires
        s.code is None,
        s.lists.len() > 0,
        s.lists.last().ordered,
        s.lists.last().next < u64::MAX - 1,
    ensures
        ({
            let n = s.lists.last().next as nat;
            let indent = repeat("  "@, (s.lists.len() - 1) as nat);
            &&& emit(s, out1, MdEvent::Start(MdTag::Item), blocks) == indent + decimal(n) + ". "@
            &&& emit(step(s, MdEvent::Start(MdTag::Item)), out2, MdEvent::Start(MdTag::Item), blocks)
                == indent + decimal((n + 1) as nat) + ". "@
        }),
{
}

/// An item outside any list is written as a bullet.
pub proof fn law_item_without_list(s: RenderState, out: Seq<char>, blocks: Seq<Seq<char>>)
    requires
        s.code is None,
        s.lists.len() == 0,
    ensures
        emit(s, out, MdEvent::Start(MdTag::Item), blocks) == "- "@,
        step(s, MdEvent::Start(MdTag::Item)) == s,
{
    assert(repeat("  "@, 0) + "- "@ =~= "- "@);
}

/// Opening a fenced code block starts collecting it with the fence's info
/// string as its language (none when the info string is blank); an
/// indented block has no language. Nothing is written.
pub proof fn law_code_block_start(s: RenderState, out: Seq<char>, info: String, blocks: Seq<Seq<char>>)
    requires
        s.code is None,
    ensures
        step(s, MdEvent::Start(MdTag::FencedCodeBlock(info))).code
            == Some(BlockView { language: if is_blank(info@) { None } else { Some(info@) }, content: Seq::empty() }),
        step(s, MdEvent::Start(MdTag::IndentedCodeBlock)).code
            == Some(BlockView { language: None, content: Seq::empty() }),
        step(s, MdEvent::Start(MdTag::FencedCodeBlock(info))).done == s.done,
        emit(s, out, MdEvent::Start(MdTag::FencedCodeBlock(info)), blocks).len() == 0,
{
}

/// Inside a code block, text, inline code and HTML are added to the
/// block's text, breaks add a line feed, and nothing is written until the
/// block ends; the block's language is kept.
pub proof fn law_code_block_collects(s: RenderState, out: Seq<char>, t: String, blocks: Seq<Seq<char>>)
    requires
        s.code is Some,
    ensures
        ({
            let b = s.code->0;
            &&& step(s, MdEvent::Text(t)).code == Some(BlockView { language: b.language, content: b.content + t@ })
            &&& step(s, MdEvent::Code(t)).code == Some(BlockView { language: b.language, content: b.content + t@ })
            &&& step(s, MdEvent::Html(t)).code == Some(BlockView { language: b.language, content: b.content + t@ })
            &&& step(s, MdEvent::SoftBreak).code
                == Some(BlockView { language: b.language, content: b.content.push('\n') })
            &&& step(s, MdEvent::HardBreak).code
                == Some(BlockView { language: b.language, content: b.content.push('\n') })
            &&& emit(s, out, MdEvent::Text(t), blocks).len() == 0
            &&& emit(s, out, MdEvent::SoftBreak, blocks).len() == 0
            &&& emit(s, out, MdEvent::Rule, blocks).len() == 0
            &&& step(s, MdEvent::Rule) == s
            &&& step(s, MdEvent::Start(MdTag::Strong)) == s
        }),
{
    reveal_strlit("\n");
    let b = s.code->0;
    assert(b.content + "\n"@ =~= b.content.push('\n'));
}

/// Closing a code block finishes it: the collected block is added to the
/// finished ones and the next code block starts afresh; what is written is
/// the block's rendering, in position among the finished blocks.
pub proof fn law_code_block_end(s: RenderState, out: Seq<char>, info: String, blocks: Seq<Seq<char>>)
    requires
        s.code is Some,
    ensures
        step(s, MdEvent::End(MdTag::FencedCodeBlock(info))).code is None,
        step(s, MdEvent::End(MdTag::FencedCodeBlock(info))).done == s.done.push(s.code->0),
        step(s, MdEvent::End(MdTag::IndentedCodeBlock)).done == s.done.push(s.code->0),
        emit(s, out, MdEvent::End(MdTag::FencedCodeBlock(info)), blocks).len() >= blocks[s.done.len() as int].len(),
        emit(s, out, MdEvent::End(MdTag::FencedCodeBlock(info)), blocks)
            .take(blocks[s.done.len() as int].len() as int) == blocks[s.done.len() as int],
{
    let piece = blocks[s.done.len() as int];
    let e = emit(s, out, MdEvent::End(MdTag::FencedCodeBlock(info)), blocks);
    assert(e.take(piece.len() as int) =~= piece);
}

proof fn lemma_push_event(events: Seq<MdEvent>, e: MdEvent, blocks: Seq<Seq<char>>)
    ensures
        state_after(events.push(e)) == step(state_after(events), e),
        rendered(events.push(e), blocks)
            == rendered(events, blocks) + emit(state_after(events), rendered(events, blocks), e, blocks),
{
    assert(events.push(e).drop_last() =~= events);
}

/// A paragraph of two lines joined by a soft break is written as the two
/// lines, each ended by a line feed: the break keeps the line apart.
pub proof fn law_soft_break_keeps_lines(first: String, second: String, blocks: Seq<Seq<char>>)
    ensures
        rendered(
            seq![
                MdEvent::Start(MdTag::Paragraph),
                MdEvent::Text(first),
                MdEvent::SoftBreak,
                MdEvent::Text(second),
                MdEvent::End(MdTag::Paragraph),
            ],
            blocks,
        ) == first@ + "\n"@ + second@ + "\n"@,
{
    reveal_strlit("\n");
    let e0 = Seq::<MdEvent>::empty();
    let e1 = e0.push(MdEvent::Start(MdTag::Paragraph));
    let e2 = e1.push(MdEvent::Text(first));
    let e3 = e2.push(MdEvent::SoftBreak);
    let e4 = e3.push(MdEvent::Text(second));
    let e5 = e4.push(MdEvent::End(MdTag::Paragraph));
    lemma_push_event(e0, MdEvent::Start(MdTag::Paragraph), blocks);
    lemma_push_event(e1, MdEvent::Text(first), blocks);
    lemma_push_event(e2, MdEvent::SoftBreak, blocks);
    lemma_push_event(e3, MdEvent::Text(second), blocks);
    lemma_push_event(e4, MdEvent::End(MdTag::Paragraph), blocks);
    assert(state_after(e0) == initial_state());
    assert(rendered(e0, blocks) == Seq::<char>::empty());
    assert(InlineStyle::spec_plain().ansi_codes() =~= Seq::<Seq<char>>::empty());
    assert(rendered(e1, blocks) =~= Seq::<char>::empty());
    assert(rendered(e2, blocks) =~= first@);
    assert(rendered(e3, blocks) =~= first@ + "\n"@);
    assert(rendered(e4, blocks) =~= first@ + "\n"@ + second@);
    assert(rendered(e5, blocks) =~= first@ + "\n"@ + second@ + "\n"@);
    assert(e5 =~= seq![
        MdEvent::Start(MdTag::Paragraph),
        MdEvent::Text(first),
        MdEvent::SoftBreak,
        MdEvent::Text(second),
        MdEvent::End(MdTag::Paragraph),
    ]);
}

/// A heading followed by a paragraph: the title is written bold and in
/// colour 39, the line ends, and the paragraph after it is written plain,
/// as it is: closing the heading switches its style off.
pub proof fn law_heading_then_paragraph(title: String, body: String, blocks: Seq<Seq<char>>)
    ensures
        rendered(
            seq![
                MdEvent::Start(MdTag::Heading),
                MdEvent::Text(title),
                MdEvent::End(MdTag::Heading),
                MdEvent::Start(MdTag::Paragraph),
                MdEvent::Text(body),
                MdEvent::End(MdTag::Paragraph),
            ],
            blocks,
        ) == "\x1b[1;38;5;39m"@ + title@ + "\x1b[0m"@ + "\n"@ + body@ + "\n"@,
{
    reveal_strlit("\n");
    reveal_strlit("\x1b[1;38;5;39m");
    reveal_strlit("\x1b[");
    reveal_strlit("1");
    reveal_strlit(";");
    reveal_strlit("38;5;39");
    reveal_strlit("1;38;5;39");
    reveal_strlit("m");
    let e0 = Seq::<MdEvent>::empty();
    let e1 = e0.push(MdEvent::Start(MdTag::Heading));
    let e2 = e1.push(MdEvent::Text(title));
    let e3 = e2.push(MdEvent::End(MdTag::Heading));
    let e4 = e3.push(MdEvent::Start(MdTag::Paragraph));
    let e5 = e4.push(MdEvent::Text(body));
    let e6 = e5.push(MdEvent::End(MdTag::Paragraph));
    lemma_push_event(e0, MdEvent::Start(MdTag::Heading), blocks);
    lemma_push_event(e1, MdEvent::Text(title), blocks);
    lemma_push_event(e2, MdEvent::End(MdTag::Heading), blocks);
    lemma_push_event(e3, MdEvent::Start(MdTag::Paragraph), blocks);
    lemma_push_event(e4, MdEvent::Text(body), blocks);
    lemma_push_event(e5, MdEvent::End(MdTag::Paragraph), blocks);
    assert(state_after(e0) == initial_state());
    assert(rendered(e0, blocks) == Seq::<char>::empty());
    let heading = state_after(e1).style;
    assert(heading == InlineStyle { strong: 0, emphasis: 0, strikethrough: 0, heading: true });
    let codes = heading.ansi_codes();
    assert(codes =~= seq!["1"@, "38;5;39"@]);
    assert(codes.drop_last() =~= seq!["1"@]);
    assert(crate::style::seq_join(codes.drop_last(), ";"@) == "1"@);
    assert(crate::style::seq_join(codes, ";"@) == "1"@ + ";"@ + "38;5;39"@);
    assert(crate::style::seq_join(codes, ";"@) =~= "1;38;5;39"@);
    assert("\x1b["@ + "1;38;5;39"@ + "m"@ =~= "\x1b[1;38;5;39m"@);
    assert(heading.spec_ansi_prefix() == Some("\x1b[1;38;5;39m"@));
    assert(state_after(e3).style == InlineStyle::spec_plain());
    assert(InlineStyle::spec_plain().ansi_codes() =~= Seq::<Seq<char>>::empty());
    assert(rendered(e1, blocks) =~= Seq::<char>::empty());
    assert(rendered(e2, blocks) =~= "\x1b[1;38;5;39m"@ + title@ + "\x1b[0m"@);
    assert(rendered(e3, blocks) =~= "\x1b[1;38;5;39m"@ + title@ + "\x1b[0m"@ + "\n"@);
    assert(rendered(e5, blocks) =~= "\x1b[1;38;5;39m"@ + title@ + "\x1b[0m"@ + "\n"@ + body@);
    assert(rendered(e6, blocks) =~= "\x1b[1;38;5;39m"@ + title@ + "\x1b[0m"@ + "\n"@ + body@ + "\n"@);
    assert(e6 =~= seq![
        MdEvent::Start(MdTag::Heading),
        MdEvent::Text(title),
        MdEvent::End(MdTag::Heading),
        MdEvent::Start(MdTag::Paragraph),
        MdEvent::Text(body),
        MdEvent::End(MdTag::Paragraph),
    ]);
}

/// An ordered list nested in the first item of another: the inner items
/// are indented and counted from the inner list's own start, one after
/// the other (`n`, then `n + 1`), while the outer list keeps its own
/// numbering; each item ends its line.
#[verifier::spinoff_prover]
#[verifier::rlimit(50)]
pub proof fn law_nested_list_counts_its_own_items(
    m: u64,
    n: u64,
    a: String,
    x: String,
    y: String,
    blocks: Seq<Seq<char>>,
)
    requires
        m < u64::MAX,
        n < u64::MAX - 1,
    ensures
        rendered(
            seq![
                MdEvent::Start(MdTag::List(Some(m))),
                MdEvent::Start(MdTag::Item),
                MdEvent::Text(a),
                MdEvent::Start(MdTag::List(Some(n))),
                MdEvent::Start(MdTag::Item),
                MdEvent::Text(x),
                MdEvent::End(MdTag::Item),
                MdEvent::Start(MdTag::Item),
                MdEvent::Text(y),
                MdEvent::End(MdTag::Item),
                MdEvent::End(MdTag::List(Some(n))),
                MdEvent::End(MdTag::Item),
                MdEvent::End(MdTag::List(Some(m))),
            ],
            blocks,
        ) == decimal(m as nat) + ". "@ + a@ + "  "@ + decimal(n as nat) + ". "@ + x@ + "\n"@
            + "  "@ + decimal((n + 1) as nat) + ". "@ + y@ + "\n"@ + "\n"@,
{
    reveal_strlit("\n");
    reveal_strlit("  ");
    let ev = seq![
        MdEvent::Start(MdTag::List(Some(m))),
        MdEvent::Start(MdTag::Item),
        MdEvent::Text(a),
        MdEvent::Start(MdTag::List(Some(n))),
        MdEvent::Start(MdTag::Item),
        MdEvent::Text(x),
        MdEvent::End(MdTag::Item),
        MdEvent::Start(MdTag::Item),
        MdEvent::Text(y),
        MdEvent::End(MdTag::Item),
        MdEvent::End(MdTag::List(Some(n))),
        MdEvent::End(MdTag::Item),
        MdEvent::End(MdTag::List(Some(m))),
    ];
    let outer = ListState { next: m, ordered: true };
    let outer2 = ListState { next: (m + 1) as u64, ordered: true };
    let inner = ListState { next: n, ordered: true };
    let inner2 = ListState { next: (n + 1) as u64, ordered: true };
    let inner3 = ListState { next: (n + 2) as u64, ordered: true };
    let base = initial_state();
    let e0 = Seq::<MdEvent>::empty();
    assert(state_after(e0) == base);
    assert(rendered(e0, blocks) == Seq::<char>::empty());
    assert(InlineStyle::spec_plain().ansi_codes() =~= Seq::<Seq<char>>::empty());
    assert(repeat("  "@, 0) =~= Seq::<char>::empty());
    assert(repeat("  "@, 1) =~= "  "@) by {
        assert(repeat("  "@, 1) == repeat("  "@, 0) + "  "@);
    }
    let e1 = e0.push(ev[0]);
    let e2 = e1.push(ev[1]);
    let e3 = e2.push(ev[2]);
    let e4 = e3.push(ev[3]);
    let e5 = e4.push(ev[4]);
    let e6 = e5.push(ev[5]);
    let e7 = e6.push(ev[6]);
    let e8 = e7.push(ev[7]);
    let e9 = e8.push(ev[8]);
    let e10 = e9.push(ev[9]);
    let e11 = e10.push(ev[10]);
    let e12 = e11.push(ev[11]);
    let e13 = e12.push(ev[12]);
    let r2 = decimal(m as nat) + ". "@;
    let r3 = r2 + a@;
    let r5 = r3 + "  "@ + decimal(n as nat) + ". "@;
    let r6 = r5 + x@;
    let r7 = r6 + "\n"@;
    let r8 = r7 + "  "@ + decimal((n + 1) as nat) + ". "@;
    let r9 = r8 + y@;
    let r10 = r9 + "\n"@;
    let r12 = r10 + "\n"@;
    assert(state_after(e1) == RenderState { lists: seq![outer], ..base } && rendered(e1, blocks)
        == Seq::<char>::empty()) by {
        lemma_push_event(e0, ev[0], blocks);
        assert(base.lists.push(outer) =~= seq![outer]);
    }
    assert(state_after(e2) == RenderState { lists: seq![outer2], ..base } && rendered(e2, blocks) == r2) by {
        lemma_push_event(e1, ev[1], blocks);
        assert(seq![outer].update(0, outer2) =~= seq![outer2]);
        assert(Seq::<char>::empty() + (repeat("  "@, 0) + outer.spec_marker()) =~= r2);
    }
    assert(state_after(e3) == RenderState { lists: seq![outer2], ..base } && rendered(e3, blocks) == r3) by {
        lemma_push_event(e2, ev[2], blocks);
    }
    assert(state_after(e4) == RenderState { lists: seq![outer2, inner], ..base } && rendered(e4, blocks) == r3) by {
        lemma_push_event(e3, ev[3], blocks);
        assert(seq![outer2].push(inner) =~= seq![outer2, inner]);
        assert(r3 + Seq::<char>::empty() =~= r3);
    }
    assert(state_after(e5) == RenderState { lists: seq![outer2, inner2], ..base } && rendered(e5, blocks) == r5) by {
        lemma_push_event(e4, ev[4], blocks);
        assert(seq![outer2, inner].update(1, inner2) =~= seq![outer2, inner2]);
        assert(r3 + (repeat("  "@, 1) + inner.spec_marker()) =~= r5);
    }
    assert(state_after(e6) == RenderState { lists: seq![outer2, inner2], ..base } && rendered(e6, blocks) == r6) by {
        lemma_push_event(e5, ev[5], blocks);
    }
    assert(state_after(e7) == RenderState { lists: seq![outer2, inner2], ..base } && rendered(e7, blocks) == r7) by {
        lemma_push_event(e6, ev[6], blocks);
    }
    assert(state_after(e8) == RenderState { lists: seq![outer2, inner3], ..base } && rendered(e8, blocks) == r8) by {
        lemma_push_event(e7, ev[7], blocks);
        assert(seq![outer2, inner2].update(1, inner3) =~= seq![outer2, inner3]);
        assert(r7 + (repeat("  "@, 1) + inner2.spec_marker()) =~= r8);
    }
    assert(state_after(e9) == RenderState { lists: seq![outer2, inner3], ..base } && rendered(e9, blocks) == r9) by {
        lemma_push_event(e8, ev[8], blocks);
    }
    assert(state_after(e10) == RenderState { lists: seq![outer2, inner3], ..base } && rendered(e10, blocks) == r10) by {
        lemma_push_event(e9, ev[9], blocks);
    }
    assert(state_after(e11) == RenderState { lists: seq![outer2, inner3], ..base } && rendered(e11, blocks) == r10) by {
        lemma_push_event(e10, ev[10], blocks);
        assert(r10.last() == '\n');
        assert(r10 + Seq::<char>::empty() =~= r10);
    }
    assert(state_after(e12) == RenderState { lists: seq![outer2, inner3], ..base } && rendered(e12, blocks) == r12) by {
        lemma_push_event(e11, ev[11], blocks);
    }
    assert(rendered(e13, blocks) == r12) by {
        lemma_push_event(e12, ev[12], blocks);
        assert(r12.last() == '\n');
        assert(r12 + Seq::<char>::empty() =~= r12);
    }
    assert(r12 =~= decimal(m as nat) + ". "@ + a@ + "  "@ + decimal(n as nat) + ". "@ + x@ + "\n"@
            + "  "@ + decimal((n + 1) as nat) + ". "@ + y@ + "\n"@ + "\n"@);
    assert(e13 =~= ev);
}

/// A fenced block is collected with its fence's language and written as
/// its code highlighted for that language: a block fenced with `rust` is
/// highlighted as Rust, not as the same code without a language.
pub proof fn law_fenced_block_is_highlighted_for_its_language(info: String, code: String, theme: Seq<char>)
    ensures
        ({
            let ev = seq![
                MdEvent::Start(MdTag::FencedCodeBlock(info)),
                MdEvent::Text(code),
                MdEvent::End(MdTag::FencedCodeBlock(info)),
            ];
            let piece = code_block_output(code@, fence_language(info@), theme);
            &&& code_blocks(ev) == seq![BlockView { language: fence_language(info@), content: code@ }]
            &&& rendered(ev, highlighted_blocks(code_blocks(ev), theme))
                == piece + newline_unless_ended(piece) + "\n"@
        }),
{
    let ev = seq![
        MdEvent::Start(MdTag::FencedCodeBlock(info)),
        MdEvent::Text(code),
        MdEvent::End(MdTag::FencedCodeBlock(info)),
    ];
    let block = BlockView { language: fence_language(info@), content: code@ };
    let e0 = Seq::<MdEvent>::empty();
    let e1 = e0.push(ev[0]);
    let e2 = e1.push(ev[1]);
    let e3 = e2.push(ev[2]);
    assert(e3 =~= ev);
    assert(state_after(e0) == initial_state());
    assert(state_after(e1).code == Some(BlockView { language: fence_language(info@), content: Seq::empty() })) by {
        lemma_push_event(e0, ev[0], Seq::empty());
    }
    assert(state_after(e2).code == Some(block) && state_after(e2).done.len() == 0) by {
        lemma_push_event(e1, ev[1], Seq::empty());
        assert(Seq::<char>::empty() + code@ =~= code@);
    }
    assert(code_blocks(ev) == seq![block]) by {
        lemma_push_event(e2, ev[2], Seq::empty());
        assert(state_after(e2).done.push(block) =~= seq![block]);
    }
    let blocks = highlighted_blocks(code_blocks(ev), theme);
    let piece = code_block_output(code@, fence_language(info@), theme);
    assert(blocks[0] == piece);
    assert(rendered(e0, blocks) == Seq::<char>::empty());
    assert(rendered(e1, blocks) =~= Seq::<char>::empty()) by {
        lemma_push_event(e0, ev[0], blocks);
    }
    assert(rendered(e2, blocks) =~= Seq::<char>::empty()) by {
        lemma_push_event(e1, ev[1], blocks);
        lemma_push_event(e0, ev[0], Seq::empty());
        lemma_push_event(e0, ev[0], blocks);
    }
    assert(rendered(e3, blocks) == piece + newline_unless_ended(piece) + "\n"@) by {
        lemma_push_event(e2, ev[2], blocks);
        lemma_push_event(e1, ev[1], blocks);
        lemma_push_event(e0, ev[0], blocks);
        assert(Seq::<char>::empty() + piece =~= piece);
        assert(Seq::<char>::empty() + (piece + newline_unless_ended(piece) + "\n"@)
            =~= piece + newline_unless_ended(piece) + "\n"@);
    }
}

} // verus!
