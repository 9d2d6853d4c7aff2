//! Properties of the library as a whole, each proved from the contracts'
//! own spec functions.

use vstd::prelude::*;
use crate::events::{spec_markdown_options, MdEvent, MdTag};
use crate::highlight::{
    blend, block_output, chosen_syntax, chosen_theme, code_block_output, default_syntaxes, default_theme_keys,
    escaped, has_extension, last_by_extension, last_by_name, line_highlighting, line_split, lines_concat, pieces_cover_lines, syntax_by_token, texts,
    StyledPiece, SyntaxKey, DEFAULT_THEME,
};
use crate::markdown::{document_events, input_text, markdown_output};
use vstd::utf8::*;
use crate::render::code_blocks;
use crate::paths::{is_markdown_extension, path_extension, spec_is_markdown_path, spec_should_render};
use crate::render::{emit, closes_code_block, rendered, step, RenderState};
use crate::style::{InlineStyle, ListState, styled_text};
use crate::text::{ascii_lower, ascii_lowercase, decimal, digit_char};

verus! {

/// Plain mode never renders, whatever else is asked.
pub proof fn law_plain_never_renders(path: Option<Seq<char>>, force: bool, tty: bool)
    ensures
        !spec_should_render(path, true, force, tty),
{
}

/// Forced Markdown renders every input, standard input included, whether
/// or not standard output is a terminal, unless plain mode is on.
pub proof fn law_forced_markdown_renders(path: Option<Seq<char>>, tty: bool)
    ensures
        spec_should_render(path, false, true, tty),
{
}

/// Without forcing, nothing is rendered when standard output is not a
/// terminal.
pub proof fn law_no_terminal_no_rendering(path: Option<Seq<char>>)
    ensures
        !spec_should_render(path, false, false, false),
{
}

/// Standard input is rendered exactly when Markdown is forced and plain
/// mode is off.
pub proof fn law_stdin_rendered_only_when_forced(plain: bool, force: bool, tty: bool)
    ensures
        spec_should_render(None, plain, force, tty) == (!plain && force),
{
}

/// On a terminal, by default, a file is rendered exactly when its name
/// marks it as Markdown; every other file is printed as it is.
pub proof fn law_terminal_renders_markdown_files(path: Seq<char>)
    ensures
        spec_should_render(Some(path), false, false, true) == spec_is_markdown_path(path),
{
}

proof fn lemma_ascii_lower_idempotent(c: char)
    ensures
        ascii_lower(ascii_lower(c)) == ascii_lower(c),
{
    if 'A' <= c && c <= 'Z' {
        let u: u32 = ((c as u32) + 32) as u32;
        assert((u as char) as u32 == u);
    }
}

/// Markdown extensions are recognised without regard to ASCII case:
/// lower-casing an extension does not change whether it is one.
pub proof fn law_extension_case_insensitive(ext: Seq<char>)
    ensures
        is_markdown_extension(ascii_lowercase(ext)) == is_markdown_extension(ext),
{
    assert forall|i: int| 0 <= i < ext.len() implies
        #[trigger] ascii_lowercase(ascii_lowercase(ext))[i] == ascii_lowercase(ext)[i] by {
        lemma_ascii_lower_idempotent(ext[i]);
    }
    assert(ascii_lowercase(ascii_lowercase(ext)) =~= ascii_lowercase(ext));
}

/// The four Markdown extensions: `md`, `markdown`, `mdown` and `mkd`.
pub open spec fn is_one_of_markdown_extensions(lower: Seq<char>) -> bool {
    lower == seq!['m', 'd'] || lower == seq!['m', 'a', 'r', 'k', 'd', 'o', 'w', 'n']
        || lower == seq!['m', 'd', 'o', 'w', 'n'] || lower == seq!['m', 'k', 'd']
}

/// An extension marks a Markdown file exactly when, lower-cased in ASCII,
/// it is one of `md`, `markdown`, `mdown` and `mkd`; any other extension
/// (`py`, `txt`, `rs`, ...) does not.
pub proof fn law_only_markdown_extensions(ext: Seq<char>)
    ensures
        is_markdown_extension(ext) <==> is_one_of_markdown_extensions(ascii_lowercase(ext)),
{
    reveal_strlit("md");
    reveal_strlit("markdown");
    reveal_strlit("mdown");
    reveal_strlit("mkd");
    assert("md"@ =~= seq!['m', 'd']);
    assert("markdown"@ =~= seq!['m', 'a', 'r', 'k', 'd', 'o', 'w', 'n']);
    assert("mdown"@ =~= seq!['m', 'd', 'o', 'w', 'n']);
    assert("mkd"@ =~= seq!['m', 'k', 'd']);
}

/// On a terminal, by default, a file is rendered exactly when its name has
/// an extension that is `md`, `markdown`, `mdown` or `mkd` in some ASCII
/// case; a file with any other extension, or none, is printed as it is.
pub proof fn law_only_markdown_files_render(path: Seq<char>)
    ensures
        spec_should_render(Some(path), false, false, true) <==> (path_extension(path) matches Some(e)
            && is_one_of_markdown_extensions(ascii_lowercase(e))),
{
    if let Some(e) = path_extension(path) {
        law_only_markdown_extensions(e);
    }
}

/// The value of a string of decimal digits.
pub open spec fn decimal_value(s: Seq<char>) -> int
    decreases s.len(),
{
    if s.len() == 0 {
        0
    } else {
        decimal_value(s.drop_last()) * 10 + digit_value(s.last())
    }
}

pub open spec fn digit_value(c: char) -> int {
    if c == '0' { 0 }
    else if c == '1' { 1 }
    else if c == '2' { 2 }
    else if c == '3' { 3 }
    else if c == '4' { 4 }
    else if c == '5' { 5 }
    else if c == '6' { 6 }
    else if c == '7' { 7 }
    else if c == '8' { 8 }
    else { 9 }
}

/// Reading back the decimal notation of a number gives the number, and
/// the notation of a positive number does not start with a zero.
pub proof fn law_decimal_reads_back(n: nat)
    ensures
        decimal_value(decimal(n)) == n,
        decimal(n).len() > 0,
        n > 0 ==> decimal(n)[0] != '0',
    decreases n,
{
    if n < 10 {
        assert(decimal(n).drop_last() =~= Seq::<char>::empty());
        assert(decimal_value(Seq::<char>::empty()) == 0);
        assert(digit_value(digit_char(n as int)) == n);
    } else {
        law_decimal_reads_back(n / 10);
        assert(decimal(n).drop_last() =~= decimal(n / 10));
        assert(decimal(n)[0] == decimal(n / 10)[0]);
        assert(n == (n / 10) * 10 + n % 10);
        assert(digit_value(digit_char((n % 10) as int)) == n % 10);
        assert(decimal(n).last() == digit_char((n % 10) as int));
    }
}

/// A list state after `k` markers.
pub open spec fn after_markers(l: ListState, k: nat) -> ListState
    decreases k,
{
    if k == 0 {
        l
    } else {
        after_markers(l, (k - 1) as nat).spec_after_marker()
    }
}

/// The items of an ordered list are numbered consecutively from its start:
/// the `k`-th marker is the start plus `k`, followed by `. `.
pub proof fn law_ordered_items_count_up(start: u64, k: nat)
    requires
        start + k <= u64::MAX,
    ensures
        after_markers(ListState::spec_new(Some(start)), k).ordered,
        after_markers(ListState::spec_new(Some(start)), k).next == start + k,
        after_markers(ListState::spec_new(Some(start)), k).spec_marker()
            == decimal((start + k) as nat) + ". "@,
    decreases k,
{
    if k > 0 {
        law_ordered_items_count_up(start, (k - 1) as nat);
    }
}

/// Every item of a bulleted list gets the marker `- `.
pub proof fn law_bullets_stay_bullets(k: nat)
    ensures
        !after_markers(ListState::spec_new(None), k).ordered,
        after_markers(ListState::spec_new(None), k).spec_marker() == "- "@,
    decreases k,
{
    if k > 0 {
        law_bullets_stay_bullets((k - 1) as nat);
    }
}

/// Text in the plain style is written as it is; in any other style it is
/// written between the style's escape sequence and a reset.
pub proof fn law_styled_text_keeps_text(text: Seq<char>, style: InlineStyle)
    ensures
        styled_text(text, InlineStyle::spec_plain()) == text,
        style.spec_ansi_prefix() matches Some(p) ==> styled_text(text, style) == p + text + "\x1b[0m"@,
{
}

/// A theme that is not among the defaults gives the output of the default
/// theme.
pub proof fn law_unknown_theme_falls_back(code: Seq<char>, language: Option<Seq<char>>, theme: Seq<char>)
    requires
        !default_theme_keys().contains(theme),
    ensures
        code_block_output(code, language, theme) == code_block_output(code, language, DEFAULT_THEME@),
{
    reveal_strlit("base16-ocean.dark");
    assert(default_theme_keys()[5] == DEFAULT_THEME@);
}

/// A language that finds no syntax is highlighted as plain text, as a
/// block without a language is.
pub proof fn law_unknown_language_is_plain_text(code: Seq<char>, token: Seq<char>, theme: Seq<char>)
    requires
        syntax_by_token(default_syntaxes(), token) is None,
    ensures
        code_block_output(code, Some(token), theme) == code_block_output(code, None, theme),
{
}

proof fn lemma_line_split(s: Seq<char>)
    ensures
        lines_concat(line_split(s)) == s,
        forall|i: int| 0 <= i < line_split(s).len() ==> (#[trigger] line_split(s)[i]).len() > 0,
    decreases s.len(),
{
    if s.len() > 0 {
        let prev = line_split(s.drop_last());
        lemma_line_split(s.drop_last());
        if prev.len() == 0 || prev.last().last() == '\n' {
            assert(prev.push(seq![s.last()]).drop_last() =~= prev);
        } else {
            let next = prev.update(prev.len() - 1, prev.last().push(s.last()));
            assert(next.drop_last() =~= prev.drop_last());
            assert(lines_concat(prev) == lines_concat(prev.drop_last()) + prev.last());
        }
        assert(s =~= s.drop_last().push(s.last()));
    }
}

/// A block's text with the escapes left out: for each line, the texts of
/// its pieces where it highlights, the line itself otherwise.
pub open spec fn block_text(syntax: nat, theme: Seq<char>, lines: Seq<Seq<char>>) -> Seq<char>
    decreases lines.len(),
{
    if lines.len() == 0 {
        Seq::empty()
    } else {
        block_text(syntax, theme, lines.drop_last()) + match line_highlighting(
            syntax,
            theme,
            lines.drop_last(),
            lines.last(),
        ) {
            Some(v) => texts(v),
            None => lines.last(),
        }
    }
}

proof fn lemma_block_text(syntax: nat, theme: Seq<char>, lines: Seq<Seq<char>>)
    requires
        pieces_cover_lines(syntax, theme, lines),
    ensures
        block_text(syntax, theme, lines) == lines_concat(lines),
    decreases lines.len(),
{
    if lines.len() > 0 {
        let prev = lines.drop_last();
        assert forall|i: int| 0 <= i < prev.len() implies
            ((#[trigger] line_highlighting(syntax, theme, prev.take(i), prev[i])) matches Some(v)
            ==> texts(v) == prev[i]) by {
            assert(prev.take(i) =~= lines.take(i));
            assert(line_highlighting(syntax, theme, lines.take(i), lines[i]) matches Some(v) ==> texts(v) == lines[i]);
        }
        lemma_block_text(syntax, theme, prev);
        let k = lines.len() - 1;
        assert(lines.take(k) =~= prev);
        assert(line_highlighting(syntax, theme, lines.take(k), lines[k]) matches Some(v) ==> texts(v) == lines[k]);
    }
}

/// Highlighting keeps the code: a highlighted block with its escapes left
/// out is the code, whatever syntax and theme were used.
pub proof fn law_highlighting_keeps_code(syntax: nat, theme: Seq<char>, code: Seq<char>)
    requires
        pieces_cover_lines(syntax, theme, line_split(code)),
    ensures
        block_text(syntax, theme, line_split(code)) == code,
{
    lemma_line_split(code);
    lemma_block_text(syntax, theme, line_split(code));
}

proof fn lemma_escaped_prefix(v: Seq<StyledPiece>)
    requires
        v.len() > 0,
    ensures
        escaped(v).len() >= 7,
        escaped(v).take(7) == "\x1b[38;2;"@,
    decreases v.len(),
{
    reveal_strlit("\x1b[38;2;");
    if v.len() > 1 {
        lemma_escaped_prefix(v.drop_last());
        assert(escaped(v).take(7) =~= escaped(v.drop_last()).take(7));
    } else {
        assert(v.drop_last() =~= Seq::<StyledPiece>::empty());
        assert(escaped(v.drop_last()) == Seq::<char>::empty());
        let p = v.last();
        let f = p.foreground;
        let b = p.background;
        let (r, g, bl) = if f.a == 255 {
            (f.r as nat, f.g as nat, f.b as nat)
        } else {
            (crate::highlight::blend(f.r, b.r, f.a), crate::highlight::blend(f.g, b.g, f.a),
                crate::highlight::blend(f.b, b.b, f.a))
        };
        let rest = decimal(r) + ";"@ + decimal(g) + ";"@ + decimal(bl) + "m"@ + p.text;
        assert(crate::highlight::piece_escaped(p) =~= "\x1b[38;2;"@ + rest);
        assert(escaped(v) =~= "\x1b[38;2;"@ + rest);
        assert(("\x1b[38;2;"@ + rest).take(7) =~= "\x1b[38;2;"@);
    }
}

/// Every line of a block that highlights is written starting with a 24-bit
/// foreground colour escape.
pub proof fn law_highlighted_lines_are_coloured(syntax: nat, theme: Seq<char>, code: Seq<char>, i: int)
    requires
        pieces_cover_lines(syntax, theme, line_split(code)),
        0 <= i < line_split(code).len(),
        line_highlighting(syntax, theme, line_split(code).take(i), line_split(code)[i]) is Some,
    ensures
        ({
            let v = line_highlighting(syntax, theme, line_split(code).take(i), line_split(code)[i])->0;
            escaped(v).len() >= 7 && escaped(v).take(7) == "\x1b[38;2;"@
        }),
{
    lemma_line_split(code);
    let lines = line_split(code);
    let v = line_highlighting(syntax, theme, lines.take(i), lines[i])->0;
    assert(lines[i].len() > 0);
    assert(texts(v) == lines[i]);
    if v.len() == 0 {
        assert(texts(v) =~= Seq::<char>::empty());
    }
    lemma_escaped_prefix(v);
}

/// Without code blocks, the theme does not matter.
pub proof fn law_theme_only_affects_code_blocks(input: Seq<char>, t1: Seq<char>, t2: Seq<char>)
    requires
        code_blocks(document_events(input)).len() == 0,
    ensures
        markdown_output(input, t1) == markdown_output(input, t2),
{
    let code = code_blocks(document_events(input));
    assert(crate::markdown::highlighted_blocks(code, t1) =~= crate::markdown::highlighted_blocks(code, t2));
}

/// Each code block is highlighted with the language of its own fence: the
/// rendering of a document is the renderer's text for its events, the
/// k-th code block written as its text highlighted for the language the
/// k-th block collected and the chosen theme.
pub proof fn law_blocks_use_their_language(input: Seq<char>, theme: Seq<char>)
    ensures
        ({
            let events = document_events(input);
            let cb = code_blocks(events);
            markdown_output(input, theme) == rendered(
                events,
                Seq::new(cb.len(), |k: int| code_block_output(cb[k].content, cb[k].language, theme)),
            )
        }),
{
    let events = document_events(input);
    let cb = code_blocks(events);
    assert(crate::markdown::highlighted_blocks(cb, theme)
        =~= Seq::new(cb.len(), |k: int| code_block_output(cb[k].content, cb[k].language, theme)));
}

/// A block whose language finds a syntax is highlighted with that syntax,
/// line by line, in the chosen theme.
pub proof fn law_language_picks_its_syntax(code: Seq<char>, token: Seq<char>, theme: Seq<char>, i: nat)
    requires
        syntax_by_token(default_syntaxes(), token) == Some(i),
    ensures
        chosen_syntax(default_syntaxes(), Some(token)) == i,
        chosen_theme(default_theme_keys(), theme) matches Some(t)
            ==> code_block_output(code, Some(token), theme) == block_output(i, t, line_split(code)),
{
}

proof fn lemma_last_by_extension(keys: Seq<SyntaxKey>, token: Seq<char>)
    ensures
        match last_by_extension(keys, token) {
            Some(i) => i < keys.len() && has_extension(keys[i as int], token)
                && forall|j: int| i < j < keys.len() ==> !has_extension(#[trigger] keys[j], token),
            None => forall|j: int| 0 <= j < keys.len() ==> !has_extension(#[trigger] keys[j], token),
        },
    decreases keys.len(),
{
    if keys.len() > 0 {
        let prev = keys.drop_last();
        lemma_last_by_extension(prev, token);
        if !has_extension(keys.last(), token) {
            let lo: int = match last_by_extension(prev, token) {
                Some(i) => i as int,
                None => -1,
            };
            assert forall|j: int| lo < j < keys.len() implies !has_extension(#[trigger] keys[j], token) by {
                if j < keys.len() - 1 {
                    assert(prev[j] == keys[j]);
                }
            }
            if let Some(i) = last_by_extension(prev, token) {
                assert(prev[i as int] == keys[i as int]);
            }
        }
    }
}

proof fn lemma_last_by_name(keys: Seq<SyntaxKey>, token: Seq<char>)
    ensures
        match last_by_name(keys, token) {
            Some(i) => i < keys.len() && ascii_lowercase(keys[i as int].name) == ascii_lowercase(token)
                && forall|j: int| i < j < keys.len()
                    ==> ascii_lowercase(#[trigger] keys[j].name) != ascii_lowercase(token),
            None => forall|j: int| 0 <= j < keys.len()
                ==> ascii_lowercase(#[trigger] keys[j].name) != ascii_lowercase(token),
        },
    decreases keys.len(),
{
    if keys.len() > 0 {
        let prev = keys.drop_last();
        lemma_last_by_name(prev, token);
        if ascii_lowercase(keys.last().name) != ascii_lowercase(token) {
            let lo: int = match last_by_name(prev, token) {
                Some(i) => i as int,
                None => -1,
            };
            assert forall|j: int| lo < j < keys.len()
                implies ascii_lowercase(#[trigger] keys[j].name) != ascii_lowercase(token) by {
                if j < keys.len() - 1 {
                    assert(prev[j] == keys[j]);
                }
            }
            if let Some(i) = last_by_name(prev, token) {
                assert(prev[i as int] == keys[i as int]);
            }
        }
    }
}

/// The syntax a language finds: the last syntax that lists the language
/// among its extensions, ASCII case ignored; when no syntax does, the last
/// syntax so named, ASCII case ignored; when neither, none.
pub proof fn law_syntax_lookup(keys: Seq<SyntaxKey>, token: Seq<char>)
    ensures
        ({
            let by_ext = exists|j: int| 0 <= j < keys.len() && has_extension(#[trigger] keys[j], token);
            match syntax_by_token(keys, token) {
                Some(i) => i < keys.len() && if by_ext {
                    has_extension(keys[i as int], token)
                        && forall|j: int| i < j < keys.len() ==> !has_extension(#[trigger] keys[j], token)
                } else {
                    ascii_lowercase(keys[i as int].name) == ascii_lowercase(token)
                        && forall|j: int| i < j < keys.len()
                            ==> ascii_lowercase(#[trigger] keys[j].name) != ascii_lowercase(token)
                },
                None => forall|j: int| 0 <= j < keys.len() ==> !has_extension(#[trigger] keys[j], token)
                    && ascii_lowercase(keys[j].name) != ascii_lowercase(token),
            }
        }),
{
    lemma_last_by_extension(keys, token);
    lemma_last_by_name(keys, token);
}

/// The theme chosen among `names`: the requested one when it is there;
/// otherwise the default theme when that is there; otherwise the first
/// name; none only when there are no names. The chosen theme is always
/// one of the names.
pub proof fn law_theme_choice(names: Seq<Seq<char>>, requested: Seq<char>)
    ensures
        names.contains(requested) ==> chosen_theme(names, requested) == Some(requested),
        !names.contains(requested) && names.contains(DEFAULT_THEME@)
            ==> chosen_theme(names, requested) == Some(DEFAULT_THEME@),
        !names.contains(requested) && !names.contains(DEFAULT_THEME@) && names.len() > 0
            ==> chosen_theme(names, requested) == Some(names[0]),
        chosen_theme(names, requested) is None <==> names.len() == 0,
        chosen_theme(names, requested) matches Some(t) ==> names.contains(t),
{
    if names.len() > 0 {
        assert(names.contains(names[0]));
    }
}

/// An input in valid UTF-8 is read as exactly its text: encoding what was
/// read gives the input's bytes back.
pub proof fn law_valid_input_round_trips(bytes: Seq<u8>)
    requires
        valid_utf8(bytes),
    ensures
        encode_utf8(input_text(bytes)) == bytes,
{
    decode_utf8_encode_utf8(bytes);
}

/// Blending a foreground channel over a background: fully opaque gives
/// the foreground, fully transparent the background, and anything between
/// lies between the two.
pub proof fn law_blend_between(fg: u8, bg: u8, alpha: u8)
    ensures
        blend(fg, bg, 255) == fg,
        blend(fg, bg, 0) == bg,
        fg <= bg ==> fg <= blend(fg, bg, alpha) <= bg,
        bg <= fg ==> bg <= blend(fg, bg, alpha) <= fg,
{
    assert((fg * 255 + bg * (255 - 255)) / 255 == fg) by (nonlinear_arith);
    assert((fg * 0 + bg * (255 - 0)) / 255 == bg) by (nonlinear_arith);
    let a = alpha as int;
    let f = fg as int;
    let b = bg as int;
    assert(f <= b ==> f * 255 <= f * a + b * (255 - a) <= b * 255) by (nonlinear_arith)
        requires 0 <= a <= 255;
    assert(b <= f ==> b * 255 <= f * a + b * (255 - a) <= f * 255) by (nonlinear_arith)
        requires 0 <= a <= 255;
    assert(forall|x: int, y: int| 0 <= x <= y ==> #[trigger] (x / 255) <= #[trigger] (y / 255)) by {
        assert forall|x: int, y: int| 0 <= x <= y implies #[trigger] (x / 255) <= #[trigger] (y / 255) by {
            vstd::arithmetic::div_mod::lemma_div_is_ordered(x, y, 255);
        }
    }
    assert((f * 255) / 255 == f) by (nonlinear_arith);
    assert((b * 255) / 255 == b) by (nonlinear_arith);
    assert(0 <= f * a) by (nonlinear_arith) requires 0 <= f, 0 <= a;
    assert(0 <= b * (255 - a)) by (nonlinear_arith) requires 0 <= b, 0 <= 255 - a;
}

proof fn lemma_lowercase_twice(t: Seq<char>)
    ensures
        ascii_lowercase(ascii_lowercase(t)) == ascii_lowercase(t),
{
    assert forall|i: int| 0 <= i < t.len() implies
        #[trigger] ascii_lowercase(ascii_lowercase(t))[i] == ascii_lowercase(t)[i] by {
        lemma_ascii_lower_idempotent(t[i]);
    }
    assert(ascii_lowercase(ascii_lowercase(t)) =~= ascii_lowercase(t));
}

proof fn lemma_lookup_lowercase(keys: Seq<SyntaxKey>, token: Seq<char>)
    ensures
        last_by_extension(keys, ascii_lowercase(token)) == last_by_extension(keys, token),
        last_by_name(keys, ascii_lowercase(token)) == last_by_name(keys, token),
    decreases keys.len(),
{
    lemma_lowercase_twice(token);
    if keys.len() > 0 {
        lemma_lookup_lowercase(keys.drop_last(), token);
        assert(has_extension(keys.last(), ascii_lowercase(token)) == has_extension(keys.last(), token));
    }
}

/// Looking a language up ignores its ASCII case: `Rust`, `RUST` and
/// `rust` find the same syntax.
pub proof fn law_lookup_ignores_case(keys: Seq<SyntaxKey>, token: Seq<char>)
    ensures
        syntax_by_token(keys, ascii_lowercase(token)) == syntax_by_token(keys, token),
{
    lemma_lookup_lowercase(keys, token);
}

/// Documents are parsed with exactly four extensions switched on: tables
/// (bit 1), footnotes (bit 2), strikethrough (bit 3) and task lists
/// (bit 4); smart punctuation and heading attributes stay off.
pub proof fn law_parser_extensions()
    ensures
        spec_markdown_options() == 30u32,
        spec_markdown_options() & 2u32 != 0,
        spec_markdown_options() & 4u32 != 0,
        spec_markdown_options() & 8u32 != 0,
        spec_markdown_options() & 16u32 != 0,
{
    assert(8u32 | 16u32 | 2u32 | 4u32 == 30u32) by (bit_vector);
    assert(30u32 & 2u32 != 0 && 30u32 & 4u32 != 0 && 30u32 & 8u32 != 0 && 30u32 & 16u32 != 0)
        by (bit_vector);
}

/// Rendering only ever appends: the text written for the first `i` events
/// begins the text written for all of them.
pub proof fn law_rendering_appends(events: Seq<MdEvent>, blocks: Seq<Seq<char>>, i: int)
    requires
        0 <= i <= events.len(),
    ensures
        rendered(events.take(i), blocks).len() <= rendered(events, blocks).len(),
        rendered(events, blocks).subrange(0, rendered(events.take(i), blocks).len() as int)
            == rendered(events.take(i), blocks),
    decreases events.len() - i,
{
    if i == events.len() {
        assert(events.take(i) =~= events);
    } else {
        law_rendering_appends(events, blocks, i + 1);
        assert(events.take(i + 1).drop_last() =~= events.take(i));
        let a = rendered(events.take(i), blocks);
        let b = rendered(events.take(i + 1), blocks);
        let c = rendered(events, blocks);
        assert(b.subrange(0, a.len() as int) =~= a);
        assert(c.subrange(0, a.len() as int) =~= b.subrange(0, a.len() as int));
    }
}

/// A finished code block is followed by a blank line: the text written up
/// to its end ends with two line feeds.
pub proof fn law_code_block_ends_with_blank_line(
    s: RenderState,
    out: Seq<char>,
    e: MdEvent,
    blocks: Seq<Seq<char>>,
)
    requires
        s.code is Some,
        closes_code_block(e),
    ensures
        ({
            let written = out + emit(s, out, e, blocks);
            written.len() >= 2 && written.last() == '\n' && written[written.len() - 2] == '\n'
        }),
{
    reveal_strlit("\n");
    let piece = blocks[s.done.len() as int];
    let before = out + piece;
    let written = out + emit(s, out, e, blocks);
    if before.len() > 0 && before.last() == '\n' {
        assert(written =~= before + "\n"@);
    } else {
        assert(written =~= before + "\n"@ + "\n"@);
    }
}

/// Closing a strong, emphasis or strikethrough span undoes opening it: the
/// style is as it was before the span.
pub proof fn law_span_end_undoes_start(s: RenderState)
    requires
        s.code is None,
        s.style.strong < usize::MAX,
        s.style.emphasis < usize::MAX,
        s.style.strikethrough < usize::MAX,
    ensures
        step(step(s, MdEvent::Start(MdTag::Strong)), MdEvent::End(MdTag::Strong)).style == s.style,
        step(step(s, MdEvent::Start(MdTag::Emphasis)), MdEvent::End(MdTag::Emphasis)).style == s.style,
        step(step(s, MdEvent::Start(MdTag::Strikethrough)), MdEvent::End(MdTag::Strikethrough)).style
            == s.style,
{
}

/// A link's destination is written, dimmed and in parentheses, where the
/// link ends, and the open links are then as they were before it.
pub proof fn law_link_destination_follows_link(
    s: RenderState,
    out: Seq<char>,
    dest: String,
    any: String,
    blocks: Seq<Seq<char>>,
)
    requires
        s.code is None,
    ensures
        ({
            let opened = step(s, MdEvent::Start(MdTag::Link(dest)));
            &&& emit(opened, out, MdEvent::End(MdTag::Link(any)), blocks)
                == "\x1b[2m ("@ + dest@ + ")\x1b[0m"@
            &&& step(opened, MdEvent::End(MdTag::Link(any))).links == s.links
        }),
{
    let opened = step(s, MdEvent::Start(MdTag::Link(dest)));
    assert(opened.links.drop_last() =~= s.links);
}

/// Whether `s` holds no escape character.
pub open spec fn has_no_escape(s: Seq<char>) -> bool {
    forall|i: int| 0 <= i < s.len() ==> #[trigger] s[i] != '\x1b'
}

/// The first `m` in `s` at or after position `i`, or -1.
pub open spec fn first_m(s: Seq<char>, i: int) -> int
    decreases s.len() - i,
{
    if i < 0 || i >= s.len() {
        -1
    } else if s[i] == 'm' {
        i
    } else {
        first_m(s, i + 1)
    }
}

/// `s` with its SGR escape sequences (`ESC [` up to the next `m`) removed.
pub open spec fn strip_sgr(s: Seq<char>) -> Seq<char>
    decreases s.len(),
{
    if s.len() == 0 {
        Seq::empty()
    } else if s.len() >= 2 && s[0] == '\x1b' && s[1] == '[' && 0 <= first_m(s, 2) < s.len() {
        strip_sgr(s.skip(first_m(s, 2) + 1))
    } else {
        seq![s[0]] + strip_sgr(s.drop_first())
    }
}

proof fn lemma_first_m(s: Seq<char>, i: int, j: int)
    requires
        0 <= i <= j < s.len(),
        s[j] == 'm',
        forall|k: int| i <= k < j ==> s[k] != 'm',
    ensures
        first_m(s, i) == j,
    decreases j - i,
{
    if i < j {
        lemma_first_m(s, i + 1, j);
    }
}

proof fn lemma_strip_plain(t: Seq<char>, rest: Seq<char>)
    requires
        has_no_escape(t),
    ensures
        strip_sgr(t + rest) == t + strip_sgr(rest),
    decreases t.len(),
{
    if t.len() == 0 {
        assert(t + rest =~= rest);
    } else {
        assert((t + rest)[0] == t[0]);
        assert((t + rest).drop_first() =~= t.drop_first() + rest);
        lemma_strip_plain(t.drop_first(), rest);
        assert(t =~= seq![t[0]] + t.drop_first());
    }
}

proof fn lemma_decimal_plain(n: nat)
    ensures
        forall|i: int| 0 <= i < decimal(n).len() ==> #[trigger] decimal(n)[i] != 'm' && decimal(n)[i] != '\x1b',
    decreases n,
{
    if n >= 10 {
        lemma_decimal_plain(n / 10);
        assert forall|i: int| 0 <= i < decimal(n).len() implies #[trigger] decimal(n)[i] != 'm' && decimal(n)[i] != '\x1b' by {
            if i < decimal(n / 10).len() {
                assert(decimal(n)[i] == decimal(n / 10)[i]);
            }
        }
    }
}

proof fn lemma_strip_escape(r: nat, g: nat, b: nat, rest: Seq<char>)
    ensures
        strip_sgr("\x1b[38;2;"@ + decimal(r) + ";"@ + decimal(g) + ";"@ + decimal(b) + "m"@ + rest)
            == strip_sgr(rest),
{
    reveal_strlit("\x1b[38;2;");
    reveal_strlit(";");
    reveal_strlit("m");
    lemma_decimal_plain(r);
    lemma_decimal_plain(g);
    lemma_decimal_plain(b);
    let e = "\x1b[38;2;"@ + decimal(r) + ";"@ + decimal(g) + ";"@ + decimal(b) + "m"@;
    let s = e + rest;
    assert(s =~= "\x1b[38;2;"@ + decimal(r) + ";"@ + decimal(g) + ";"@ + decimal(b) + "m"@ + rest);
    let j = e.len() - 1;
    assert forall|k: int| 2 <= k < j implies s[k] != 'm' by {
        let a = 7int;
        let b1 = a + decimal(r).len();
        let b2 = b1 + 1;
        let b3 = b2 + decimal(g).len();
        let b4 = b3 + 1;
        if k < a {
        } else if k < b1 {
            assert(s[k] == decimal(r)[k - a]);
        } else if k < b2 {
        } else if k < b3 {
            assert(s[k] == decimal(g)[k - b2]);
        } else if k < b4 {
        } else {
            assert(s[k] == decimal(b)[k - b4]);
        }
    }
    assert(s[j] == 'm');
    lemma_first_m(s, 2, j);
    assert(s.skip(j + 1) =~= rest);
}

proof fn lemma_strip_escaped(v: Seq<StyledPiece>, rest: Seq<char>)
    requires
        has_no_escape(texts(v)),
    ensures
        strip_sgr(escaped(v) + rest) == texts(v) + strip_sgr(rest),
    decreases v.len(),
{
    if v.len() == 0 {
        assert(escaped(v) + rest =~= rest);
        assert(texts(v) + strip_sgr(rest) =~= strip_sgr(rest));
    } else {
        let p = v.last();
        let dl = v.drop_last();
        assert forall|i: int| 0 <= i < texts(dl).len() implies #[trigger] texts(dl)[i] != '\x1b' by {
            assert(texts(v)[i] == texts(dl)[i]);
        }
        assert forall|i: int| 0 <= i < p.text.len() implies #[trigger] p.text[i] != '\x1b' by {
            assert(texts(v)[texts(dl).len() + i] == p.text[i]);
        }
        let f = p.foreground;
        let bg = p.background;
        let (r, g, b) = if f.a == 255 {
            (f.r as nat, f.g as nat, f.b as nat)
        } else {
            (crate::highlight::blend(f.r, bg.r, f.a), crate::highlight::blend(f.g, bg.g, f.a),
                crate::highlight::blend(f.b, bg.b, f.a))
        };
        let e = "\x1b[38;2;"@ + decimal(r) + ";"@ + decimal(g) + ";"@ + decimal(b) + "m"@;
        assert(crate::highlight::piece_escaped(p) =~= e + p.text);
        lemma_strip_escape(r, g, b, p.text + rest);
        assert(e + (p.text + rest) =~= "\x1b[38;2;"@ + decimal(r) + ";"@ + decimal(g) + ";"@ + decimal(b) + "m"@ + (p.text + rest));
        lemma_strip_plain(p.text, rest);
        lemma_strip_escaped(dl, crate::highlight::piece_escaped(p) + rest);
        assert(escaped(v) + rest =~= escaped(dl) + (crate::highlight::piece_escaped(p) + rest));
        assert(crate::highlight::piece_escaped(p) + rest =~= e + (p.text + rest));
        assert(texts(v) + strip_sgr(rest) =~= texts(dl) + (p.text + strip_sgr(rest)));
    }
}

proof fn lemma_strip_block(syntax: nat, theme: Seq<char>, lines: Seq<Seq<char>>, rest: Seq<char>)
    requires
        pieces_cover_lines(syntax, theme, lines),
        has_no_escape(lines_concat(lines)),
    ensures
        strip_sgr(block_output(syntax, theme, lines) + rest) == lines_concat(lines) + strip_sgr(rest),
    decreases lines.len(),
{
    if lines.len() == 0 {
        assert(block_output(syntax, theme, lines) + rest =~= rest);
        assert(lines_concat(lines) + strip_sgr(rest) =~= strip_sgr(rest));
    } else {
        let prev = lines.drop_last();
        let line = lines.last();
        let k = lines.len() - 1;
        assert(lines.take(k) =~= prev);
        assert forall|i: int| 0 <= i < prev.len() implies
            ((#[trigger] line_highlighting(syntax, theme, prev.take(i), prev[i])) matches Some(v)
            ==> texts(v) == prev[i]) by {
            assert(prev.take(i) =~= lines.take(i));
            assert(line_highlighting(syntax, theme, lines.take(i), lines[i]) matches Some(v) ==> texts(v) == lines[i]);
        }
        assert(line_highlighting(syntax, theme, lines.take(k), lines[k]) matches Some(v) ==> texts(v) == lines[k]);
        assert forall|i: int| 0 <= i < lines_concat(prev).len() implies #[trigger] lines_concat(prev)[i] != '\x1b' by {
            assert(lines_concat(lines)[i] == lines_concat(prev)[i]);
        }
        assert forall|i: int| 0 <= i < line.len() implies #[trigger] line[i] != '\x1b' by {
            assert(lines_concat(lines)[lines_concat(prev).len() + i] == line[i]);
        }
        let out = crate::highlight::line_output(line, line_highlighting(syntax, theme, prev, line));
        match line_highlighting(syntax, theme, prev, line) {
            Some(v) => {
                lemma_strip_escaped(v, rest);
            },
            None => {
                lemma_strip_plain(line, rest);
            },
        }
        lemma_strip_block(syntax, theme, prev, out + rest);
        assert(block_output(syntax, theme, lines) + rest =~= block_output(syntax, theme, prev) + (out + rest));
        assert(lines_concat(lines) + strip_sgr(rest) =~= lines_concat(prev) + (line + strip_sgr(rest)));
    }
}

/// A highlighted code block with its colour escapes removed is the code,
/// for code that holds no escape character itself.
#[verifier::spinoff_prover]
#[verifier::rlimit(40)]
pub proof fn law_stripped_block_is_code(code: Seq<char>, language: Option<Seq<char>>, theme: Seq<char>)
    requires
        has_no_escape(code),
        pieces_cover_lines(
            chosen_syntax(default_syntaxes(), language),
            chosen_theme(default_theme_keys(), theme)->0,
            line_split(code),
        ),
    ensures
        strip_sgr(code_block_output(code, language, theme)) == code,
{
    reveal_strlit("base16-ocean.dark");
    assert(default_theme_keys()[5] == DEFAULT_THEME@);
    lemma_line_split(code);
    lemma_strip_block(
        chosen_syntax(default_syntaxes(), language),
        chosen_theme(default_theme_keys(), theme)->0,
        line_split(code),
        Seq::empty(),
    );
    assert(strip_sgr(Seq::<char>::empty()) == Seq::<char>::empty());
    assert(code_block_output(code, language, theme) + Seq::<char>::empty()
        =~= code_block_output(code, language, theme));
    assert(code + Seq::<char>::empty() =~= code);
}

} // verus!
