//! Inline ANSI styling and list markers.

use vstd::prelude::*;
use vstd::string::*;
use crate::text::decimal;
use crate::text::u64_to_decimal;

verus! {

/// Elements are joined with `sep` between neighbours, as `[&str]::join` does.
pub open spec fn seq_join(list: Seq<Seq<char>>, sep: Seq<char>) -> Seq<char>
    decreases list.len(),
{
    if list.len() == 0 {
        Seq::empty()
    } else if list.len() == 1 {
        list[0]
    } else {
        seq_join(list.drop_last(), sep) + sep + list.last()
    }
}

/// The styling in force at a point of the inline text: how many strong,
/// emphasis and strikethrough spans are open, and whether we are inside a
/// heading.
#[derive(Debug, Clone, Copy)]
pub struct InlineStyle {
    pub strong: usize,
    pub emphasis: usize,
    pub strikethrough: usize,
    pub heading: bool,
}

impl InlineStyle {
    /// The style with nothing open.
    pub fn plain() -> (s: InlineStyle)
        ensures
            s == InlineStyle::spec_plain(),
    {
        InlineStyle { strong: 0, emphasis: 0, strikethrough: 0, heading: false }
    }

    pub open spec fn spec_plain() -> InlineStyle {
        InlineStyle { strong: 0, emphasis: 0, strikethrough: 0, heading: false }
    }

    /// The SGR codes of this style, in order: bold and colour 39 for a
    /// heading, bold for strong text, italic for emphasis, crossed-out for
    /// strikethrough.
    pub open spec fn ansi_codes(self) -> Seq<Seq<char>> {
        (if self.heading { seq!["1"@, "38;5;39"@] } else { Seq::empty() })
            + (if self.strong > 0 { seq!["1"@] } else { Seq::empty() })
            + (if self.emphasis > 0 { seq!["3"@] } else { Seq::empty() })
            + (if self.strikethrough > 0 { seq!["9"@] } else { Seq::empty() })
    }

    /// The escape sequence that switches this style on; `None` for the
    /// plain style.
    pub open spec fn spec_ansi_prefix(self) -> Option<Seq<char>> {
        let codes = self.ansi_codes();
        if codes.len() == 0 {
            None
        } else {
            Some("\x1b["@ + seq_join(codes, ";"@) + "m"@)
        }
    }

    /// Builds the escape sequence that switches this style on.
    pub fn ansi_prefix(self) -> (r: Option<String>)
        ensures
            r matches Some(s) ==> self.spec_ansi_prefix() == Some(s@),
            r is None <==> self.spec_ansi_prefix() is None,
    {
        let mut codes: Vec<&'static str> = Vec::new();
        if self.heading {
            codes.push("1");
            codes.push("38;5;39");
        }
        if self.strong > 0 {
            codes.push("1");
        }
        if self.emphasis > 0 {
            codes.push("3");
        }
        if self.strikethrough > 0 {
            codes.push("9");
        }
        let ghost views = codes@.map_values(|c: &str| c@);
        assert(views =~= self.ansi_codes());
        if codes.len() == 0 {
            None
        } else {
            let mut s = "\x1b[".to_owned();
            let joined = join_with_semicolons(&codes);
            s.append(joined.as_str());
            s.append("m");
            Some(s)
        }
    }
}

/// Joins the codes with `;`.
fn join_with_semicolons(codes: &Vec<&'static str>) -> (s: String)
    ensures
        s@ == seq_join(codes@.map_values(|c: &str| c@), ";"@),
{
    let ghost views = codes@.map_values(|c: &str| c@);
    let mut s = "".to_owned();
    proof {
        reveal_strlit("");
        assert(views.take(0) =~= Seq::<Seq<char>>::empty());
    }
    let mut i: usize = 0;
    while i < codes.len()
        invariant
            views == codes@.map_values(|c: &str| c@),
            i <= codes.len(),
            s@ == seq_join(views.take(i as int), ";"@),
        decreases codes.len() - i,
    {
        assert(views.take(i + 1).drop_last() =~= views.take(i as int));
        if i > 0 {
            s.append(";");
        }
        s.append(codes[i]);
        i = i + 1;
    }
    assert(views.take(codes.len() as int) =~= views);
    s
}

/// `text` wrapped in the escape sequences of `style`: the prefix, the text,
/// and a reset; the text alone when the style is plain.
pub open spec fn styled_text(text: Seq<char>, style: InlineStyle) -> Seq<char> {
    match style.spec_ansi_prefix() {
        Some(prefix) => prefix + text + "\x1b[0m"@,
        None => text,
    }
}

/// Appends `text` to `out` in the given style.
pub fn push_styled_text(out: &mut String, text: &str, style: InlineStyle)
    ensures
        final(out)@ == old(out)@ + styled_text(text@, style),
{
    match style.ansi_prefix() {
        Some(prefix) => {
            out.append(prefix.as_str());
            out.append(text);
            out.append("\x1b[0m");
        },
        None => {
            out.append(text);
        },
    }
}

/// The numbering state of one open list.
#[derive(Debug)]
pub struct ListState {
    /// The number of the next ordered item.
    pub next: u64,
    /// Whether the list is numbered.
    pub ordered: bool,
}

impl ListState {
    /// The state of a list that starts at `start` (`None` for a bulleted
    /// list).
    pub open spec fn spec_new(start: Option<u64>) -> ListState {
        ListState {
            next: match start { Some(n) => n, None => 1 },
            ordered: start is Some,
        }
    }

    /// A list starting at `start`; bulleted lists count from 1.
    pub fn new(start: Option<u64>) -> (s: ListState)
        ensures
            s == ListState::spec_new(start),
    {
        ListState {
            next: match start { Some(n) => n, None => 1 },
            ordered: start.is_some(),
        }
    }

    /// The marker of the next item: its number and `. ` when ordered, `- `
    /// otherwise.
    pub open spec fn spec_marker(self) -> Seq<char> {
        if self.ordered {
            decimal(self.next as nat) + ". "@
        } else {
            "- "@
        }
    }

    /// The state after one marker was taken.
    pub open spec fn spec_after_marker(self) -> ListState {
        if self.ordered {
            ListState { next: (self.next + 1) as u64, ordered: true }
        } else {
            self
        }
    }

    /// Takes the marker of the next item, advancing the numbering of an
    /// ordered list.
    pub fn marker(&mut self) -> (m: String)
        requires
            old(self).ordered ==> old(self).next < u64::MAX,
        ensures
            m@ == old(self).spec_marker(),
            *final(self) == old(self).spec_after_marker(),
    {
        if self.ordered {
            let mut m = u64_to_decimal(self.next);
            m.append(". ");
            self.next = self.next + 1;
            m
        } else {
            "- ".to_owned()
        }
    }
}

} // verus!
