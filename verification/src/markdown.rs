//! Rendering a Markdown document for the terminal.

use vstd::prelude::*;
use vstd::utf8::*;
use crate::events::{MdEvent, markdown_events, markdown_options, parse_markdown, spec_markdown_options};
use crate::highlight::{code_block_output, render_code_block, Highlighting};
use crate::render::{BlockView, CodeBlockBuffer, check_markers_fit, code_blocks, collect_code_blocks, markers_fit, render_events, rendered};

verus! {

/// The events of a document, read with the renderer's parser options.
pub open spec fn document_events(input: Seq<char>) -> Seq<MdEvent> {
    markdown_events(input, spec_markdown_options())
}

/// Each code block highlighted with the theme `theme`.
pub open spec fn highlighted_blocks(blocks: Seq<BlockView>, theme: Seq<char>) -> Seq<Seq<char>> {
    Seq::new(blocks.len(), |i: int| code_block_output(blocks[i].content, blocks[i].language, theme))
}

/// The rendering of a document: the renderer's text for its events, each
/// code block highlighted with `theme`.
pub open spec fn markdown_output(input: Seq<char>, theme: Seq<char>) -> Seq<char> {
    let events = document_events(input);
    rendered(events, highlighted_blocks(code_blocks(events), theme))
}

/// Renders a Markdown document as ANSI-styled terminal text, highlighting
/// code blocks with the theme `theme_name` (or a fallback). The numbering
/// of ordered lists must stay within `u64`.
pub fn render_markdown(input: &str, theme_name: &str) -> (out: String)
    requires
        markers_fit(document_events(input@)),
    ensures
        out@ == markdown_output(input@, theme_name@),
{
    let events = parse_markdown(input, markdown_options());
    let code = collect_code_blocks(&events);
    let ghost code_views = code@.map_values(|b: CodeBlockBuffer| b.view_block());
    let hl = Highlighting::load_defaults();
    let mut blocks: Vec<String> = Vec::new();
    let mut i: usize = 0;
    while i < code.len()
        invariant
            i <= code.len(),
            code_views == code@.map_values(|b: CodeBlockBuffer| b.view_block()),
            blocks.len() == i,
            forall|j: int| 0 <= j < i ==> (#[trigger] blocks@[j])@
                == code_block_output(code_views[j].content, code_views[j].language, theme_name@),
        decreases code.len() - i,
    {
        let language = match &code[i].language {
            Some(lang) => Some(lang.as_str()),
            None => None,
        };
        let piece = render_code_block(code[i].content.as_str(), language, theme_name, &hl);
        blocks.push(piece);
        i = i + 1;
    }
    let out = render_events(&events, &blocks);
    assert(blocks@.map_values(|b: String| b@) =~= highlighted_blocks(code_views, theme_name@));
    out
}

/// The text of an input: its bytes decoded as UTF-8, or, when they are
/// not valid UTF-8, decoded with invalid sequences replaced.
pub open spec fn input_text(bytes: Seq<u8>) -> Seq<char> {
    if valid_utf8(bytes) {
        decode_utf8(bytes)
    } else {
        lossy_utf8(bytes)
    }
}

/// What `String::from_utf8_lossy` gives for `bytes`.
pub uninterp spec fn lossy_utf8(bytes: Seq<u8>) -> Seq<char>;

/// Calls `std::str::from_utf8`; the contract claims what its documentation
/// says: the text when the bytes are valid UTF-8, nothing otherwise.
#[verifier::external_body]
fn str_from_utf8(bytes: &[u8]) -> (text: Option<&str>)
    ensures
        text is Some <==> valid_utf8(bytes@),
        text matches Some(t) ==> t@ == decode_utf8(bytes@),
{
    std::str::from_utf8(bytes).ok()
}

/// Calls `String::from_utf8_lossy`; the contract only names the result.
#[verifier::external_body]
fn string_from_utf8_lossy(bytes: &[u8]) -> (text: String)
    ensures
        text@ == lossy_utf8(bytes@),
{
    String::from_utf8_lossy(bytes).into_owned()
}

/// Decodes an input for rendering.
pub fn decode_input(bytes: &[u8]) -> (text: String)
    ensures
        text@ == input_text(bytes@),
{
    match str_from_utf8(bytes) {
        Some(text) => text.to_owned(),
        None => string_from_utf8_lossy(bytes),
    }
}

/// Renders the Markdown document in `bytes` and appends the rendering, in
/// UTF-8, to `out`.
pub fn write_markdown(bytes: &[u8], theme: &str, out: &mut Vec<u8>)
    requires
        markers_fit(document_events(input_text(bytes@))),
    ensures
        final(out)@ == old(out)@ + encode_utf8(markdown_output(input_text(bytes@), theme@)),
{
    let content = decode_input(bytes);
    let rendered = render_markdown(content.as_str(), theme);
    let encoded = rendered.as_str().as_bytes();
    let ghost before = out@;
    out.extend_from_slice(encoded);
    assert(out@ =~= before + encode_utf8(rendered@));
}

/// Renders the Markdown document in `bytes` into `out` when the numbering
/// of its ordered lists stays within `u64`, and says whether it did; `out`
/// is left as it was otherwise.
pub fn try_write_markdown(bytes: &[u8], theme: &str, out: &mut Vec<u8>) -> (ok: bool)
    ensures
        ok == markers_fit(document_events(input_text(bytes@))),
        ok ==> final(out)@ == old(out)@ + encode_utf8(markdown_output(input_text(bytes@), theme@)),
        !ok ==> final(out)@ == old(out)@,
{
    let content = decode_input(bytes);
    let events = parse_markdown(content.as_str(), markdown_options());
    if !check_markers_fit(&events) {
        return false;
    }
    write_markdown(bytes, theme, out);
    true
}

} // verus!
