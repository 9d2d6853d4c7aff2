//! The renderer: a state machine over the Markdown event stream that
//! writes ANSI-styled text.

use vstd::prelude::*;
use vstd::string::*;
use crate::events::{MdEvent, MdTag};
use crate::style::{InlineStyle, ListState, styled_text, push_styled_text};
use crate::text::{ends_with_newline, is_blank, blank, repeat, push_repeated, str_ends_with_newline};

verus! {

/// A code block as the renderer collects it: the language of its fence (if
/// the info string is not blank) and its text.
#[derive(Debug)]
pub struct CodeBlockBuffer {
    pub language: Option<String>,
    pub content: String,
}

/// A code block, as text.
pub struct BlockView {
    pub language: Option<Seq<char>>,
    pub content: Seq<char>,
}

/// The text of an optional string.
pub open spec fn opt_view(o: Option<String>) -> Option<Seq<char>> {
    match o {
        Some(s) => Some(s@),
        None => None,
    }
}

impl CodeBlockBuffer {
    pub open spec fn view_block(self) -> BlockView {
        BlockView { language: opt_view(self.language), content: self.content@ }
    }
}

/// Everything the renderer remembers between events, apart from the text
/// written so far: the inline style, the lists opened so far (the end of a
/// list only ends the line, so every later item is indented by all lists
/// opened before it), the destinations of open links, the code block being
/// collected, and the code blocks finished so far.
pub struct RenderState {
    pub style: InlineStyle,
    pub lists: Seq<ListState>,
    pub links: Seq<Seq<char>>,
    pub code: Option<BlockView>,
    pub done: Seq<BlockView>,
}

pub open spec fn initial_state() -> RenderState {
    RenderState {
        style: InlineStyle::spec_plain(),
        lists: Seq::empty(),
        links: Seq::empty(),
        code: None,
        done: Seq::empty(),
    }
}

/// The language of a code block whose fence carries `info`: the whole info
/// string, unless it is blank.
pub open spec fn fence_language(info: Seq<char>) -> Option<Seq<char>> {
    if is_blank(info) {
        None
    } else {
        Some(info)
    }
}

pub open spec fn is_code_block_tag(tag: MdTag) -> bool {
    tag is FencedCodeBlock || tag is IndentedCodeBlock
}

pub open spec fn sat_dec(n: usize) -> usize {
    if n > 0 { (n - 1) as usize } else { 0 }
}

/// How one event changes the state. Inside a code block, text, inline
/// code and HTML are collected, breaks become line feeds, the end of the
/// block finishes it, and everything else is ignored.
pub open spec fn step(s: RenderState, e: MdEvent) -> RenderState {
    match s.code {
        Some(b) => match e {
            MdEvent::End(tag) => if is_code_block_tag(tag) {
                RenderState { code: None, done: s.done.push(b), ..s }
            } else {
                s
            },
            MdEvent::Text(t) => RenderState {
                code: Some(BlockView { content: b.content + t@, ..b }), ..s },
            MdEvent::Code(t) => RenderState {
                code: Some(BlockView { content: b.content + t@, ..b }), ..s },
            MdEvent::Html(t) => RenderState {
                code: Some(BlockView { content: b.content + t@, ..b }), ..s },
            MdEvent::SoftBreak => RenderState {
                code: Some(BlockView { content: b.content + "\n"@, ..b }), ..s },
            MdEvent::HardBreak => RenderState {
                code: Some(BlockView { content: b.content + "\n"@, ..b }), ..s },
            _ => s,
        },
        None => match e {
            MdEvent::Start(tag) => match tag {
                MdTag::Heading => RenderState {
                    style: InlineStyle { heading: true, ..s.style }, ..s },
                MdTag::Strong => RenderState {
                    style: InlineStyle { strong: (s.style.strong + 1) as usize, ..s.style }, ..s },
                MdTag::Emphasis => RenderState {
                    style: InlineStyle { emphasis: (s.style.emphasis + 1) as usize, ..s.style }, ..s },
                MdTag::Strikethrough => RenderState {
                    style: InlineStyle { strikethrough: (s.style.strikethrough + 1) as usize, ..s.style }, ..s },
                MdTag::FencedCodeBlock(info) => RenderState {
                    code: Some(BlockView { language: fence_language(info@), content: Seq::empty() }), ..s },
                MdTag::IndentedCodeBlock => RenderState {
                    code: Some(BlockView { language: None, content: Seq::empty() }), ..s },
                MdTag::List(start) => RenderState { lists: s.lists.push(ListState::spec_new(start)), ..s },
                MdTag::Item => if s.lists.len() > 0 {
                    RenderState {
                        lists: s.lists.update(s.lists.len() - 1, s.lists.last().spec_after_marker()),
                        ..s
                    }
                } else {
                    s
                },
                MdTag::Link(dest) => RenderState { links: s.links.push(dest@), ..s },
                _ => s,
            },
            MdEvent::End(tag) => match tag {
                MdTag::Heading => RenderState {
                    style: InlineStyle { heading: false, ..s.style }, ..s },
                MdTag::Strong => RenderState {
                    style: InlineStyle { strong: sat_dec(s.style.strong), ..s.style }, ..s },
                MdTag::Emphasis => RenderState {
                    style: InlineStyle { emphasis: sat_dec(s.style.emphasis), ..s.style }, ..s },
                MdTag::Strikethrough => RenderState {
                    style: InlineStyle { strikethrough: sat_dec(s.style.strikethrough), ..s.style }, ..s },
                MdTag::Link(_) => if s.links.len() > 0 {
                    RenderState { links: s.links.drop_last(), ..s }
                } else {
                    s
                },
                _ => s,
            },
            _ => s,
        },
    }
}

/// Whether an event closes a code block.
pub open spec fn closes_code_block(e: MdEvent) -> bool {
    e matches MdEvent::End(tag) && is_code_block_tag(tag)
}

/// The text of a horizontal rule.
pub open spec fn rule_text() -> Seq<char> {
    "\x1b[38;5;244m----------------------------------------\x1b[0m\n"@
}

/// A line feed if `out` does not end with one, nothing otherwise.
pub open spec fn newline_unless_ended(out: Seq<char>) -> Seq<char> {
    if ends_with_newline(out) { Seq::empty() } else { "\n"@ }
}

/// What one event writes, given the state before it, the text written so
/// far, and the rendered code blocks: a finished code block writes its
/// rendering, a line feed unless that already ends the text, and a blank
/// line; an item writes its indentation and marker; ends of headings,
/// paragraphs and items write a line feed; the end of a list ends the
/// line; the end of a link writes its destination dimmed; text and HTML
/// are written in the current style; inline code on a dark background;
/// rules, breaks, task markers and footnote references as themselves.
pub open spec fn emit(s: RenderState, out: Seq<char>, e: MdEvent, blocks: Seq<Seq<char>>) -> Seq<char> {
    match s.code {
        Some(b) => match e {
            MdEvent::End(tag) => if is_code_block_tag(tag) {
                let piece = blocks[s.done.len() as int];
                piece + newline_unless_ended(out + piece) + "\n"@
            } else {
                Seq::empty()
            },
            _ => Seq::empty(),
        },
        None => match e {
            MdEvent::Start(tag) => match tag {
                MdTag::Item => repeat("  "@, if s.lists.len() > 0 { (s.lists.len() - 1) as nat } else { 0 })
                    + (if s.lists.len() > 0 { s.lists.last().spec_marker() } else { "- "@ }),
                _ => Seq::empty(),
            },
            MdEvent::End(tag) => match tag {
                MdTag::Heading => "\n"@,
                MdTag::Paragraph => "\n"@,
                MdTag::Item => "\n"@,
                MdTag::List(_) => newline_unless_ended(out),
                MdTag::Link(_) => if s.links.len() > 0 {
                    "\x1b[2m ("@ + s.links.last() + ")\x1b[0m"@
                } else {
                    Seq::empty()
                },
                _ => Seq::empty(),
            },
            MdEvent::Text(t) => styled_text(t@, s.style),
            MdEvent::Html(t) => styled_text(t@, s.style),
            MdEvent::Code(t) => "\x1b[48;5;236m\x1b[38;5;223m "@ + t@ + " \x1b[0m"@,
            MdEvent::Rule => rule_text(),
            MdEvent::SoftBreak => "\n"@,
            MdEvent::HardBreak => "\n"@,
            MdEvent::TaskListMarker(checked) => if checked { "[x] "@ } else { "[ ] "@ },
            MdEvent::FootnoteReference(name) => "[^"@ + name@ + "]"@,
        },
    }
}

/// The state after a sequence of events.
pub open spec fn state_after(events: Seq<MdEvent>) -> RenderState
    decreases events.len(),
{
    if events.len() == 0 {
        initial_state()
    } else {
        step(state_after(events.drop_last()), events.last())
    }
}

/// The text written for a sequence of events, code blocks rendered as
/// `blocks` gives them, in order.
pub open spec fn rendered(events: Seq<MdEvent>, blocks: Seq<Seq<char>>) -> Seq<char>
    decreases events.len(),
{
    if events.len() == 0 {
        Seq::empty()
    } else {
        let prev = rendered(events.drop_last(), blocks);
        prev + emit(state_after(events.drop_last()), prev, events.last(), blocks)
    }
}

/// The code blocks of a sequence of events, in order.
pub open spec fn code_blocks(events: Seq<MdEvent>) -> Seq<BlockView> {
    state_after(events).done
}

/// Whether an event can be taken in a state without the numbering of an
/// ordered list running past `u64::MAX`.
pub open spec fn marker_fits(s: RenderState, e: MdEvent) -> bool {
    let takes_number = s.code is None && (e matches MdEvent::Start(MdTag::Item))
        && s.lists.len() > 0 && s.lists.last().ordered;
    takes_number ==> s.lists.last().next < u64::MAX
}

/// Whether no item of a sequence of events numbers past `u64::MAX`.
pub open spec fn markers_fit(events: Seq<MdEvent>) -> bool
    decreases events.len(),
{
    events.len() == 0 || (markers_fit(events.drop_last())
        && marker_fits(state_after(events.drop_last()), events.last()))
}

proof fn lemma_take_step(events: Seq<MdEvent>, i: int)
    requires
        0 < i <= events.len(),
    ensures
        events.take(i).drop_last() == events.take(i - 1),
        events.take(i).last() == events[i - 1],
        state_after(events.take(i)) == step(state_after(events.take(i - 1)), events[i - 1]),
{
    assert(events.take(i).drop_last() =~= events.take(i - 1));
}

proof fn lemma_done_grows(events: Seq<MdEvent>, i: int, j: int)
    requires
        0 <= i <= j <= events.len(),
    ensures
        state_after(events.take(i)).done.len() <= state_after(events.take(j)).done.len(),
    decreases j - i,
{
    if i < j {
        lemma_done_grows(events, i, j - 1);
        lemma_take_step(events, j);
    }
}

proof fn lemma_markers_fit_prefix(events: Seq<MdEvent>, i: int)
    requires
        markers_fit(events),
        0 <= i <= events.len(),
    ensures
        markers_fit(events.take(i)),
    decreases events.len() - i,
{
    if i == events.len() {
        assert(events.take(i) =~= events);
    } else {
        lemma_markers_fit_prefix(events, i + 1);
        lemma_take_step(events, i + 1);
    }
}

/// The working state of one rendering: what `RenderState` describes, with
/// only the number of finished code blocks kept, and the text written.
struct Renderer {
    style: InlineStyle,
    lists: Vec<ListState>,
    links: Vec<String>,
    in_code: bool,
    code_language: Option<String>,
    code_content: String,
    blocks_done: usize,
    out: String,
}

impl Renderer {
    spec fn matches(self, st: RenderState) -> bool {
        &&& self.style == st.style
        &&& self.lists@ == st.lists
        &&& self.links@.map_values(|l: String| l@) == st.links
        &&& (self.in_code <==> st.code is Some)
        &&& (st.code matches Some(b) ==> b.language == opt_view(self.code_language)
            && b.content == self.code_content@)
        &&& self.blocks_done == st.done.len()
    }

    fn new() -> (r: Renderer)
        ensures
            r.matches(initial_state()),
            r.out@ == Seq::<char>::empty(),
    {
        let r = Renderer {
            style: InlineStyle::plain(),
            lists: Vec::new(),
            links: Vec::new(),
            in_code: false,
            code_language: None,
            code_content: String::new(),
            blocks_done: 0,
            out: String::new(),
        };
        assert(r.links@.map_values(|l: String| l@) =~= Seq::<Seq<char>>::empty());
        r
    }

    /// Opens a tag outside code blocks.
    fn start_tag(&mut self, tag: &MdTag, Ghost(st): Ghost<RenderState>)
        requires
            old(self).matches(st),
            st.code is None,
            st.style.strong < usize::MAX,
            st.style.emphasis < usize::MAX,
            st.style.strikethrough < usize::MAX,
            marker_fits(st, MdEvent::Start(*tag)),
        ensures
            final(self).matches(step(st, MdEvent::Start(*tag))),
            final(self).out@ == old(self).out@ + emit(st, old(self).out@,
                MdEvent::Start(*tag), Seq::empty()),
    {
        let ghost out0 = self.out@;
        match tag {
            MdTag::Heading => {
                self.style.heading = true;
            },
            MdTag::Strong => {
                self.style.strong = self.style.strong + 1;
            },
            MdTag::Emphasis => {
                self.style.emphasis = self.style.emphasis + 1;
            },
            MdTag::Strikethrough => {
                self.style.strikethrough = self.style.strikethrough + 1;
            },
            MdTag::FencedCodeBlock(info) => {
                let language = if blank(info.as_str()) {
                    None
                } else {
                    Some(info.clone())
                };
                self.code_language = language;
                self.code_content = String::new();
                self.in_code = true;
            },
            MdTag::IndentedCodeBlock => {
                self.code_language = None;
                self.code_content = String::new();
                self.in_code = true;
            },
            MdTag::List(start) => {
                self.lists.push(ListState::new(*start));
            },
            MdTag::Item => {
                let n = self.lists.len();
                let depth = if n > 0 { n - 1 } else { 0 };
                push_repeated(&mut self.out, "  ", depth);
                if n > 0 {
                    let mut top = ListState { next: self.lists[n - 1].next, ordered: self.lists[n - 1].ordered };
                    let m = top.marker();
                    self.out.append(m.as_str());
                    self.lists.set(n - 1, top);
                } else {
                    self.out.append("- ");
                }
            },
            MdTag::Link(destination) => {
                let ghost links0 = self.links@;
                self.links.push(destination.clone());
                assert(self.links@.map_values(|l: String| l@)
                    =~= links0.map_values(|l: String| l@).push(destination@));
            },
            _ => {},
        }
        assert(self.out@ =~= out0 + emit(st, out0, MdEvent::Start(*tag), Seq::empty()));
    }

    /// Closes a tag outside code blocks.
    fn end_tag(&mut self, tag: &MdTag, Ghost(st): Ghost<RenderState>)
        requires
            old(self).matches(st),
            st.code is None,
        ensures
            final(self).matches(step(st, MdEvent::End(*tag))),
            final(self).out@ == old(self).out@ + emit(st, old(self).out@,
                MdEvent::End(*tag), Seq::empty()),
    {
        let ghost out0 = self.out@;
        match tag {
            MdTag::Heading => {
                self.style.heading = false;
                self.out.append("\n");
            },
            MdTag::Strong => {
                self.style.strong = if self.style.strong > 0 { self.style.strong - 1 } else { 0 };
            },
            MdTag::Emphasis => {
                self.style.emphasis = if self.style.emphasis > 0 { self.style.emphasis - 1 } else { 0 };
            },
            MdTag::Strikethrough => {
                self.style.strikethrough =
                    if self.style.strikethrough > 0 { self.style.strikethrough - 1 } else { 0 };
            },
            MdTag::Paragraph => {
                self.out.append("\n");
            },
            MdTag::Item => {
                self.out.append("\n");
            },
            MdTag::List(_) => {
                if !str_ends_with_newline(self.out.as_str()) {
                    self.out.append("\n");
                }
            },
            MdTag::Link(_) => {
                let ghost links0 = self.links@;
                if let Some(target) = self.links.pop() {
                    assert(self.links@.map_values(|l: String| l@)
                        =~= links0.map_values(|l: String| l@).drop_last());
                    assert(links0.map_values(|l: String| l@).last() == target@);
                    self.out.append("\x1b[2m (");
                    self.out.append(target.as_str());
                    self.out.append(")\x1b[0m");
                }
            },
            _ => {},
        }
        assert(self.out@ =~= out0 + emit(st, out0, MdEvent::End(*tag), Seq::empty()));
    }

    /// Takes one event outside code blocks.
    fn feed_text(&mut self, e: &MdEvent, Ghost(st): Ghost<RenderState>)
        requires
            old(self).matches(st),
            st.code is None,
            st.style.strong < usize::MAX,
            st.style.emphasis < usize::MAX,
            st.style.strikethrough < usize::MAX,
            marker_fits(st, *e),
        ensures
            final(self).matches(step(st, *e)),
            final(self).out@ == old(self).out@ + emit(st, old(self).out@, *e, Seq::empty()),
    {
        let ghost out0 = self.out@;
        match e {
            MdEvent::Start(tag) => {
                self.start_tag(tag, Ghost(st));
            },
            MdEvent::End(tag) => {
                self.end_tag(tag, Ghost(st));
            },
            MdEvent::Text(t) => {
                push_styled_text(&mut self.out, t.as_str(), self.style);
            },
            MdEvent::Html(t) => {
                push_styled_text(&mut self.out, t.as_str(), self.style);
            },
            MdEvent::Code(t) => {
                self.out.append("\x1b[48;5;236m\x1b[38;5;223m ");
                self.out.append(t.as_str());
                self.out.append(" \x1b[0m");
            },
            MdEvent::Rule => {
                self.out.append("\x1b[38;5;244m----------------------------------------\x1b[0m\n");
            },
            MdEvent::SoftBreak => {
                self.out.append("\n");
            },
            MdEvent::HardBreak => {
                self.out.append("\n");
            },
            MdEvent::TaskListMarker(checked) => {
                if *checked {
                    self.out.append("[x] ");
                } else {
                    self.out.append("[ ] ");
                }
            },
            MdEvent::FootnoteReference(name) => {
                self.out.append("[^");
                self.out.append(name.as_str());
                self.out.append("]");
            },
        }
        assert(self.out@ =~= out0 + emit(st, out0, *e, Seq::empty()));
    }

    /// Takes one event inside a code block.
    fn feed_code(&mut self, e: &MdEvent, blocks: &Vec<String>, Ghost(st): Ghost<RenderState>)
        requires
            old(self).matches(st),
            st.code is Some,
            (*e matches MdEvent::End(tag) && is_code_block_tag(tag)) ==> st.done.len() < blocks.len(),
        ensures
            final(self).matches(step(st, *e)),
            final(self).out@ == old(self).out@ + emit(st, old(self).out@,
                *e, blocks@.map_values(|b: String| b@)),
    {
        let ghost bv = blocks@.map_values(|b: String| b@);
        let ghost out0 = self.out@;
        proof { reveal_strlit("\n"); }
        match e {
            MdEvent::End(tag) => {
                let ends = match tag {
                    MdTag::FencedCodeBlock(_) => true,
                    MdTag::IndentedCodeBlock => true,
                    _ => false,
                };
                if ends {
                    let piece = &blocks[self.blocks_done];
                    assert(bv[st.done.len() as int] == piece@);
                    self.out.append(piece.as_str());
                    if !str_ends_with_newline(self.out.as_str()) {
                        self.out.append("\n");
                    }
                    self.out.append("\n");
                    self.in_code = false;
                    self.blocks_done = self.blocks_done + 1;
                }
            },
            MdEvent::Text(t) => {
                self.code_content.append(t.as_str());
            },
            MdEvent::Code(t) => {
                self.code_content.append(t.as_str());
            },
            MdEvent::Html(t) => {
                self.code_content.append(t.as_str());
            },
            MdEvent::SoftBreak => {
                self.code_content.append("\n");
            },
            MdEvent::HardBreak => {
                self.code_content.append("\n");
            },
            _ => {},
        }
        assert(self.out@ =~= out0 + emit(st, out0, *e, bv));
    }
}

/// Renders a sequence of events, writing `blocks[k]` for the `k`-th code
/// block: exactly the text `rendered` describes.
pub fn render_events(events: &Vec<MdEvent>, blocks: &Vec<String>) -> (out: String)
    requires
        markers_fit(events@),
        blocks.len() == code_blocks(events@).len(),
    ensures
        out@ == rendered(events@, blocks@.map_values(|b: String| b@)),
{
    let ghost bv = blocks@.map_values(|b: String| b@);
    let mut r = Renderer::new();
    let mut i: usize = 0;
    assert(events@.take(0) =~= Seq::<MdEvent>::empty());
    while i < events.len()
        invariant
            i <= events.len(),
            markers_fit(events@),
            blocks.len() == code_blocks(events@).len(),
            bv == blocks@.map_values(|b: String| b@),
            r.matches(state_after(events@.take(i as int))),
            r.out@ == rendered(events@.take(i as int), bv),
            r.style.strong <= i,
            r.style.emphasis <= i,
            r.style.strikethrough <= i,
        decreases events.len() - i,
    {
        let ghost st = state_after(events@.take(i as int));
        proof {
            lemma_take_step(events@, i + 1);
            lemma_markers_fit_prefix(events@, i + 1);
            lemma_done_grows(events@, i + 1, events@.len() as int);
            assert(events@.take(events@.len() as int) =~= events@);
        }
        let e = &events[i];
        if r.in_code {
            r.feed_code(e, blocks, Ghost(st));
        } else {
            r.feed_text(e, Ghost(st));
        }
        i = i + 1;
    }
    assert(events@.take(events@.len() as int) =~= events@);
    r.out
}

/// The code blocks of a sequence of events, in order, each with the
/// language of its fence and its collected text.
pub fn collect_code_blocks(events: &Vec<MdEvent>) -> (blocks: Vec<CodeBlockBuffer>)
    ensures
        blocks@.map_values(|b: CodeBlockBuffer| b.view_block()) == code_blocks(events@),
{
    let mut blocks: Vec<CodeBlockBuffer> = Vec::new();
    let mut in_code = false;
    let mut language: Option<String> = None;
    let mut content = String::new();
    let mut i: usize = 0;
    assert(events@.take(0) =~= Seq::<MdEvent>::empty());
    assert(blocks@.map_values(|b: CodeBlockBuffer| b.view_block()) =~= Seq::<BlockView>::empty());
    while i < events.len()
        invariant
            i <= events.len(),
            blocks@.map_values(|b: CodeBlockBuffer| b.view_block())
                == state_after(events@.take(i as int)).done,
            in_code <==> state_after(events@.take(i as int)).code is Some,
            state_after(events@.take(i as int)).code matches Some(b) ==>
                b.language == opt_view(language) && b.content == content@,
        decreases events.len() - i,
    {
        proof {
            lemma_take_step(events@, i + 1);
            reveal_strlit("\n");
        }
        let ghost before = blocks@;
        match &events[i] {
            MdEvent::Start(MdTag::FencedCodeBlock(info)) => {
                if !in_code {
                    language = if blank(info.as_str()) { None } else { Some(info.clone()) };
                    content = String::new();
                    in_code = true;
                }
            },
            MdEvent::Start(MdTag::IndentedCodeBlock) => {
                if !in_code {
                    language = None;
                    content = String::new();
                    in_code = true;
                }
            },
            MdEvent::End(MdTag::FencedCodeBlock(_)) | MdEvent::End(MdTag::IndentedCodeBlock) => {
                if in_code {
                    let finished = CodeBlockBuffer { language: language, content: content };
                    blocks.push(finished);
                    assert(blocks@.map_values(|b: CodeBlockBuffer| b.view_block())
                        =~= before.map_values(|b: CodeBlockBuffer| b.view_block()).push(finished.view_block()));
                    language = None;
                    content = String::new();
                    in_code = false;
                }
            },
            MdEvent::Text(t) | MdEvent::Code(t) | MdEvent::Html(t) => {
                if in_code {
                    content.append(t.as_str());
                }
            },
            MdEvent::SoftBreak | MdEvent::HardBreak => {
                if in_code {
                    content.append("\n");
                }
            },
            _ => {},
        }
        i = i + 1;
    }
    assert(events@.take(events@.len() as int) =~= events@);
    blocks
}

/// Whether no item of `events` numbers past `u64::MAX`.
pub fn check_markers_fit(events: &Vec<MdEvent>) -> (r: bool)
    ensures
        r == markers_fit(events@),
{
    let mut lists: Vec<ListState> = Vec::new();
    let mut in_code = false;
    let mut i: usize = 0;
    assert(events@.take(0) =~= Seq::<MdEvent>::empty());
    while i < events.len()
        invariant
            i <= events.len(),
            markers_fit(events@.take(i as int)),
            lists@ == state_after(events@.take(i as int)).lists,
            in_code <==> state_after(events@.take(i as int)).code is Some,
        decreases events.len() - i,
    {
        proof {
            lemma_take_step(events@, i + 1);
        }
        match &events[i] {
            MdEvent::Start(MdTag::FencedCodeBlock(_)) | MdEvent::Start(MdTag::IndentedCodeBlock) => {
                in_code = true;
            },
            MdEvent::End(MdTag::FencedCodeBlock(_)) | MdEvent::End(MdTag::IndentedCodeBlock) => {
                in_code = false;
            },
            MdEvent::Start(MdTag::List(start)) => {
                if !in_code {
                    lists.push(ListState::new(*start));
                }
            },
            MdEvent::Start(MdTag::Item) => {
                if !in_code {
                    let n = lists.len();
                    if n > 0 {
                        if lists[n - 1].ordered {
                            if lists[n - 1].next == u64::MAX {
                                proof {
                                    if markers_fit(events@) {
                                        lemma_markers_fit_prefix(events@, i + 1);
                                    }
                                }
                                return false;
                            }
                            let top = ListState { next: lists[n - 1].next + 1, ordered: true };
                            lists.set(n - 1, top);
                        }
                    }
                }
            },
            _ => {},
        }
        i = i + 1;
    }
    assert(events@.take(events@.len() as int) =~= events@);
    true
}

} // verus!
