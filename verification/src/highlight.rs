//! Syntax highlighting of fenced code blocks, through `syntect`'s default
//! syntaxes and themes.

use vstd::prelude::*;
use vstd::string::*;
use syntect::easy::HighlightLines;
use syntect::highlighting::{Color, FontStyle, Style, Theme, ThemeSet};
use syntect::parsing::SyntaxSet;
use crate::render::opt_view;
use crate::text::{ascii_lowercase, decimal, eq_ignore_ascii_case, u64_to_decimal};

verus! {

/// The theme used when the requested one is not available.
pub const DEFAULT_THEME: &'static str = "base16-ocean.dark";

#[verifier::external_type_specification]
#[verifier::external_body]
pub struct ExSyntaxSet(SyntaxSet);

#[verifier::external_type_specification]
#[verifier::external_body]
pub struct ExThemeSet(ThemeSet);

#[verifier::external_type_specification]
#[verifier::external_body]
pub struct ExTheme(Theme);

#[verifier::external_type_specification]
#[verifier::external_body]
pub struct ExHighlightLines<'a>(HighlightLines<'a>);

#[verifier::external_type_specification]
#[verifier::external_body]
pub struct ExStyle(Style);

/// An RGBA colour.
#[derive(Debug, Clone, Copy)]
pub struct Rgba {
    pub r: u8,
    pub g: u8,
    pub b: u8,
    pub a: u8,
}

/// A piece of a highlighted line with its style: foreground, background,
/// font style bits, and the text.
#[derive(Debug)]
pub struct StyledText {
    pub foreground: Rgba,
    pub background: Rgba,
    pub font_style: u8,
    pub text: String,
}

/// A styled piece, with its text as characters.
pub struct StyledPiece {
    pub foreground: Rgba,
    pub background: Rgba,
    pub font_style: u8,
    pub text: Seq<char>,
}

impl StyledText {
    pub open spec fn piece(self) -> StyledPiece {
        StyledPiece {
            foreground: self.foreground,
            background: self.background,
            font_style: self.font_style,
            text: self.text@,
        }
    }
}

pub open spec fn pieces(v: Seq<StyledText>) -> Seq<StyledPiece> {
    v.map_values(|t: StyledText| t.piece())
}

/// What a syntax is looked up by: its name and its file extensions.
#[derive(Debug)]
pub struct SyntaxEntry {
    pub name: String,
    pub extensions: Vec<String>,
}

/// A syntax's name and extensions as characters.
pub struct SyntaxKey {
    pub name: Seq<char>,
    pub extensions: Seq<Seq<char>>,
}

impl SyntaxEntry {
    pub open spec fn key(self) -> SyntaxKey {
        SyntaxKey { name: self.name@, extensions: self.extensions@.map_values(|e: String| e@) }
    }
}

/// The syntax at position `index` of `SyntaxSet::load_defaults_newlines()`
/// (its name and file extensions), `None` past the last one.
pub uninterp spec fn default_syntax(index: nat) -> Option<SyntaxKey>;

/// What `HighlightLines::highlight_line` gives for `line` with a
/// highlighter made from the default syntax at position `syntax` and the
/// default theme named `theme`, after the lines `before` were highlighted
/// with it: each piece with its style, or `None` when highlighting fails.
pub uninterp spec fn line_highlighting(
    syntax: nat,
    theme: Seq<char>,
    before: Seq<Seq<char>>,
    line: Seq<char>,
) -> Option<Seq<StyledPiece>>;

/// Whether `keys` are the default syntaxes, in order.
pub open spec fn are_default_syntaxes(keys: Seq<SyntaxKey>) -> bool {
    &&& forall|i: int| 0 <= i < keys.len() ==> default_syntax(i as nat) == Some(#[trigger] keys[i])
    &&& default_syntax(keys.len()) is None
}

/// The number of default syntaxes.
pub open spec fn default_syntax_count() -> nat {
    choose|n: nat| default_syntax(n) is None && forall|i: nat| i < n ==> (#[trigger] default_syntax(i)) is Some
}

/// The default syntaxes, in order.
pub open spec fn default_syntaxes() -> Seq<SyntaxKey> {
    Seq::new(default_syntax_count(), |i: int| default_syntax(i as nat)->0)
}

proof fn lemma_default_syntaxes(keys: Seq<SyntaxKey>)
    requires
        are_default_syntaxes(keys),
    ensures
        keys == default_syntaxes(),
{
    let n = keys.len();
    assert forall|i: nat| i < n implies (#[trigger] default_syntax(i)) is Some by {
        assert(default_syntax(i as nat) == Some(keys[i as int]));
    }
    let m = default_syntax_count();
    if m < n {
        assert(default_syntax(m) == Some(keys[m as int]));
    }
    if m > n {
        assert(default_syntax(n) is Some);
    }
    assert(keys =~= default_syntaxes());
}

/// The keys of `ThemeSet::load_defaults().themes`, in the map's order: the
/// seven themes its documentation lists.
pub open spec fn default_theme_keys() -> Seq<Seq<char>> {
    seq![
        "InspiredGitHub"@,
        "Solarized (dark)"@,
        "Solarized (light)"@,
        "base16-eighties.dark"@,
        "base16-mocha.dark"@,
        "base16-ocean.dark"@,
        "base16-ocean.light"@,
    ]
}

/// Calls `SyntaxSet::load_defaults_newlines`. Nothing is claimed of the
/// set here; `Highlighting` reads it.
#[verifier::external_body]
fn load_syntaxes() -> (syntaxes: SyntaxSet)
{
    SyntaxSet::load_defaults_newlines()
}

/// Calls `ThemeSet::load_defaults`. Nothing is claimed of the set here;
/// `Highlighting` reads it.
#[verifier::external_body]
fn load_themes() -> (themes: ThemeSet)
{
    ThemeSet::load_defaults()
}

/// `syntect`'s default syntaxes and themes. The fields are private and
/// `load_defaults` is the only way to make one, so every value holds the
/// default sets; the contracts of its methods speak of those.
pub struct Highlighting {
    syntaxes: SyntaxSet,
    themes: ThemeSet,
}

impl Highlighting {
    /// Loads the default syntaxes (for lines that keep their line feeds)
    /// and the default themes.
    pub fn load_defaults() -> (h: Highlighting) {
        Highlighting { syntaxes: load_syntaxes(), themes: load_themes() }
    }

    /// Walks `SyntaxSet::syntaxes()` and takes each syntax's name and file
    /// extensions. The contract claims they are the default syntaxes, in
    /// order, and, as `find_syntax_plain_text`'s documentation says of
    /// them, that one is named `Plain Text`.
    #[verifier::external_body]
    pub fn syntax_entries(&self) -> (entries: Vec<SyntaxEntry>)
        ensures
            forall|i: int| 0 <= i < entries.len() ==> default_syntax(i as nat) == Some(#[trigger] entries@[i].key()),
            default_syntax(entries.len() as nat) is None,
            exists|i: int| 0 <= i < entries.len() && (#[trigger] entries@[i]).name@ == "Plain Text"@,
    {
        self.syntaxes.syntaxes().iter().map(|s| SyntaxEntry {
            name: s.name.clone(),
            extensions: s.file_extensions.clone(),
        }).collect()
    }

    /// Walks the keys of `ThemeSet.themes` (a `BTreeMap`, so in ascending
    /// order). The contract claims the keys that `ThemeSet::load_defaults`
    /// documents.
    #[verifier::external_body]
    pub fn theme_names(&self) -> (names: Vec<String>)
        ensures
            names@.map_values(|n: String| n@) == default_theme_keys(),
    {
        self.themes.themes.keys().cloned().collect()
    }

    /// Looks `theme` up in `ThemeSet.themes` with `BTreeMap::get` and calls
    /// `HighlightLines::new` with the default syntax at position `syntax`.
    /// The contract claims a highlighter comes back exactly when the theme
    /// is a key, made for that syntax and theme, with nothing highlighted
    /// yet. The highlighter keeps the syntax set it must be used with.
    #[verifier::external_body]
    pub fn highlighter<'a>(&'a self, syntax: usize, theme: &str) -> (h: Option<LineHighlighter<'a>>)
        requires
            default_syntax(syntax as nat) is Some,
        ensures
            h is Some <==> default_theme_keys().contains(theme@),
            h matches Some(h) ==> h.syntax() == syntax && h.theme() == theme@
                && h.history() == Seq::<Seq<char>>::empty(),
    {
        self.themes.themes.get(theme).map(|t| LineHighlighter {
            lines: HighlightLines::new(&self.syntaxes.syntaxes()[syntax], t),
            syntaxes: &self.syntaxes,
            syntax: Ghost(syntax as nat),
            theme: Ghost(theme@),
            history: Ghost(Seq::empty()),
        })
    }
}

/// A highlighter for one code block, tied to the syntax set it was made
/// from. It remembers which default syntax and theme it uses and the lines
/// it has highlighted so far.
pub struct LineHighlighter<'a> {
    lines: HighlightLines<'a>,
    syntaxes: &'a SyntaxSet,
    syntax: Ghost<nat>,
    theme: Ghost<Seq<char>>,
    history: Ghost<Seq<Seq<char>>>,
}

impl<'a> LineHighlighter<'a> {
    pub closed spec fn syntax(self) -> nat {
        self.syntax@
    }

    pub closed spec fn theme(self) -> Seq<char> {
        self.theme@
    }

    pub closed spec fn history(self) -> Seq<Seq<char>> {
        self.history@
    }

    /// Calls `HighlightLines::highlight_line` with the highlighter's own
    /// syntax set and takes each piece's style as plain values. The
    /// contract names the result, and claims what `HighlightIterator`
    /// documents: the pieces' texts, concatenated, make the line.
    #[verifier::external_body]
    pub fn highlight_line(&mut self, line: &str) -> (r: Option<Vec<StyledText>>)
        ensures
            final(self).syntax() == old(self).syntax(),
            final(self).theme() == old(self).theme(),
            final(self).history() == old(self).history().push(line@),
            match r {
                Some(v) => line_highlighting(old(self).syntax(), old(self).theme(), old(self).history(), line@)
                    == Some(pieces(v@)) && texts(pieces(v@)) == line@,
                None => line_highlighting(old(self).syntax(), old(self).theme(), old(self).history(), line@)
                    is None,
            },
    {
        match self.lines.highlight_line(line, self.syntaxes) {
            Ok(ranges) => Some(ranges.into_iter().map(|(s, t)| styled_text(s, t)).collect()),
            Err(_) => None,
        }
    }
}

/// Takes a `syntect` `Style` and its text as a `StyledText`, field for
/// field. Nothing is claimed of the result.
#[verifier::external_body]
fn styled_text(style: Style, text: &str) -> StyledText {
    StyledText {
        foreground: Rgba { r: style.foreground.r, g: style.foreground.g, b: style.foreground.b, a: style.foreground.a },
        background: Rgba { r: style.background.r, g: style.background.g, b: style.background.b, a: style.background.a },
        font_style: style.font_style.bits(),
        text: text.to_string(),
    }
}

/// Takes a `StyledText`'s style back as a `syntect` `Style`, field for
/// field. Nothing is claimed of the result.
#[verifier::external_body]
fn to_style(t: &StyledText) -> Style {
    Style {
        foreground: Color { r: t.foreground.r, g: t.foreground.g, b: t.foreground.b, a: t.foreground.a },
        background: Color { r: t.background.r, g: t.background.g, b: t.background.b, a: t.background.a },
        font_style: FontStyle::from_bits_truncate(t.font_style),
    }
}

/// The pieces' texts, concatenated.
pub open spec fn texts(v: Seq<StyledPiece>) -> Seq<char>
    decreases v.len(),
{
    if v.len() == 0 {
        Seq::empty()
    } else {
        texts(v.drop_last()) + v.last().text
    }
}

/// One channel of the foreground shown over the background, as
/// `syntect`'s `blend_fg_color` computes it.
pub open spec fn blend(fg: u8, bg: u8, alpha: u8) -> nat {
    ((fg * alpha + bg * (255 - alpha)) / 255) as nat
}

/// The 24-bit colour escape of a piece followed by its text: the
/// foreground as it stands when opaque, blended over the background
/// otherwise.
pub open spec fn piece_escaped(p: StyledPiece) -> Seq<char> {
    let f = p.foreground;
    let b = p.background;
    let (r, g, bl) = if f.a == 255 {
        (f.r as nat, f.g as nat, f.b as nat)
    } else {
        (blend(f.r, b.r, f.a), blend(f.g, b.g, f.a), blend(f.b, b.b, f.a))
    };
    "\x1b[38;2;"@ + decimal(r) + ";"@ + decimal(g) + ";"@ + decimal(bl) + "m"@ + p.text
}

/// The pieces written with 24-bit foreground escapes.
pub open spec fn escaped(v: Seq<StyledPiece>) -> Seq<char>
    decreases v.len(),
{
    if v.len() == 0 {
        Seq::empty()
    } else {
        escaped(v.drop_last()) + piece_escaped(v.last())
    }
}

/// Calls `syntect::util::as_24_bit_terminal_escaped` without backgrounds.
/// The contract claims what its source shows: for each piece, the escape
/// `ESC [38;2;r;g;bm` with the blended foreground, then the text.
#[verifier::external_body]
fn escape_24_bit(ranges: &Vec<StyledText>) -> (s: String)
    ensures
        s@ == escaped(pieces(ranges@)),
{
    let pairs: Vec<(Style, &str)> = ranges.iter().map(|t| (to_style(t), t.text.as_str())).collect();
    syntect::util::as_24_bit_terminal_escaped(&pairs, false)
}

/// The lines concatenated.
pub open spec fn lines_concat(lines: Seq<Seq<char>>) -> Seq<char>
    decreases lines.len(),
{
    if lines.len() == 0 {
        Seq::empty()
    } else {
        lines_concat(lines.drop_last()) + lines.last()
    }
}

/// `s` cut after every line feed, as `LinesWithEndings` yields it: each
/// character joins the last line unless that line ends with a line feed or
/// there is none, in which case it starts a new one.
pub open spec fn line_split(s: Seq<char>) -> Seq<Seq<char>>
    decreases s.len(),
{
    if s.len() == 0 {
        Seq::empty()
    } else {
        let prev = line_split(s.drop_last());
        if prev.len() == 0 || prev.last().last() == '\n' {
            prev.push(seq![s.last()])
        } else {
            prev.update(prev.len() - 1, prev.last().push(s.last()))
        }
    }
}

/// Calls `syntect::util::LinesWithEndings` and collects the lines; the
/// contract claims what its source shows: the text cut after every line
/// feed.
#[verifier::external_body]
fn split_lines<'a>(code: &'a str) -> (lines: Vec<&'a str>)
    ensures
        lines@.map_values(|l: &str| l@) == line_split(code@),
{
    syntect::util::LinesWithEndings::from(code).collect()
}

/// The theme to use: the requested one if present, else the default, else
/// the first there is.
pub open spec fn chosen_theme(names: Seq<Seq<char>>, requested: Seq<char>) -> Option<Seq<char>> {
    if names.contains(requested) {
        Some(requested)
    } else if names.contains(DEFAULT_THEME@) {
        Some(DEFAULT_THEME@)
    } else if names.len() > 0 {
        Some(names[0])
    } else {
        None
    }
}

/// Whether `names` holds `name`.
fn contains_name(names: &Vec<String>, name: &String) -> (r: bool)
    ensures
        r == names@.map_values(|n: String| n@).contains(name@),
{
    let ghost views = names@.map_values(|n: String| n@);
    let mut i: usize = 0;
    while i < names.len()
        invariant
            i <= names.len(),
            views == names@.map_values(|n: String| n@),
            forall|j: int| 0 <= j < i ==> views[j] != name@,
        decreases names.len() - i,
    {
        if names[i] == *name {
            assert(views[i as int] == name@);
            return true;
        }
        i = i + 1;
    }
    false
}

/// Picks the theme to highlight with, by name.
pub fn choose_theme(names: &Vec<String>, requested: &str) -> (r: Option<String>)
    ensures
        opt_view(r) == chosen_theme(names@.map_values(|n: String| n@), requested@),
{
    let requested = requested.to_owned();
    if contains_name(names, &requested) {
        return Some(requested);
    }
    let default = DEFAULT_THEME.to_owned();
    if contains_name(names, &default) {
        return Some(default);
    }
    if names.len() > 0 {
        Some(names[0].clone())
    } else {
        None
    }
}

/// Whether one of the extensions is `token`, ignoring ASCII case.
pub open spec fn has_extension(key: SyntaxKey, token: Seq<char>) -> bool {
    exists|j: int| 0 <= j < key.extensions.len()
        && ascii_lowercase(#[trigger] key.extensions[j]) == ascii_lowercase(token)
}

/// The last position whose syntax has `token` as an extension.
pub open spec fn last_by_extension(keys: Seq<SyntaxKey>, token: Seq<char>) -> Option<nat>
    decreases keys.len(),
{
    if keys.len() == 0 {
        None
    } else if has_extension(keys.last(), token) {
        Some((keys.len() - 1) as nat)
    } else {
        last_by_extension(keys.drop_last(), token)
    }
}

/// The last position whose syntax is named `token`, ignoring ASCII case.
pub open spec fn last_by_name(keys: Seq<SyntaxKey>, token: Seq<char>) -> Option<nat>
    decreases keys.len(),
{
    if keys.len() == 0 {
        None
    } else if ascii_lowercase(keys.last().name) == ascii_lowercase(token) {
        Some((keys.len() - 1) as nat)
    } else {
        last_by_name(keys.drop_last(), token)
    }
}

/// The last position whose syntax is named exactly `name`.
pub open spec fn last_named(keys: Seq<SyntaxKey>, name: Seq<char>) -> Option<nat>
    decreases keys.len(),
{
    if keys.len() == 0 {
        None
    } else if keys.last().name == name {
        Some((keys.len() - 1) as nat)
    } else {
        last_named(keys.drop_last(), name)
    }
}

/// The syntax `SyntaxSet::find_syntax_by_token` finds: by extension first,
/// then by name, the last match winning, ASCII case ignored.
pub open spec fn syntax_by_token(keys: Seq<SyntaxKey>, token: Seq<char>) -> Option<nat> {
    match last_by_extension(keys, token) {
        Some(i) => Some(i),
        None => last_by_name(keys, token),
    }
}

/// The syntax for a block: the one its language finds, else plain text.
pub open spec fn chosen_syntax(keys: Seq<SyntaxKey>, language: Option<Seq<char>>) -> nat {
    let plain = match last_named(keys, "Plain Text"@) {
        Some(i) => i,
        None => 0,
    };
    match language {
        Some(token) => match syntax_by_token(keys, token) {
            Some(i) => i,
            None => plain,
        },
        None => plain,
    }
}

proof fn lemma_last_bounded(keys: Seq<SyntaxKey>, token: Seq<char>)
    ensures
        last_by_extension(keys, token) matches Some(i) ==> i < keys.len()
            && has_extension(keys[i as int], token),
        last_by_name(keys, token) matches Some(i) ==> i < keys.len()
            && ascii_lowercase(keys[i as int].name) == ascii_lowercase(token),
        last_named(keys, token) matches Some(i) ==> i < keys.len() && keys[i as int].name == token,
        last_named(keys, token) is None ==> forall|i: int| 0 <= i < keys.len() ==> #[trigger] keys[i].name != token,
    decreases keys.len(),
{
    if keys.len() > 0 {
        lemma_last_bounded(keys.drop_last(), token);
        if last_named(keys, token) is None {
            assert forall|i: int| 0 <= i < keys.len() implies #[trigger] keys[i].name != token by {
                if i < keys.len() - 1 {
                    assert(keys.drop_last()[i] == keys[i]);
                }
            }
        }
    }
}

/// The last position whose entry has `token` as an extension, ignoring
/// ASCII case.
fn find_by_extension(entries: &Vec<SyntaxEntry>, token: &str) -> (r: Option<usize>)
    ensures
        opt_nat(r) == last_by_extension(entries@.map_values(|e: SyntaxEntry| e.key()), token@),
{
    let ghost keys = entries@.map_values(|e: SyntaxEntry| e.key());
    let mut i: usize = entries.len();
    assert(keys.take(i as int) =~= keys);
    while i > 0
        invariant
            i <= entries.len(),
            keys == entries@.map_values(|e: SyntaxEntry| e.key()),
            last_by_extension(keys, token@) == last_by_extension(keys.take(i as int), token@),
        decreases i,
    {
        let ghost prefix = keys.take(i as int);
        assert(prefix.last() == entries@[i - 1].key());
        assert(prefix.drop_last() =~= keys.take(i - 1));
        if matches_extension(&entries[i - 1], token) {
            return Some(i - 1);
        }
        i = i - 1;
    }
    None
}

/// The last position whose entry is named `token`, ignoring ASCII case.
fn find_by_name(entries: &Vec<SyntaxEntry>, token: &str) -> (r: Option<usize>)
    ensures
        opt_nat(r) == last_by_name(entries@.map_values(|e: SyntaxEntry| e.key()), token@),
{
    let ghost keys = entries@.map_values(|e: SyntaxEntry| e.key());
    let mut i: usize = entries.len();
    assert(keys.take(i as int) =~= keys);
    while i > 0
        invariant
            i <= entries.len(),
            keys == entries@.map_values(|e: SyntaxEntry| e.key()),
            last_by_name(keys, token@) == last_by_name(keys.take(i as int), token@),
        decreases i,
    {
        let ghost prefix = keys.take(i as int);
        assert(prefix.last() == entries@[i - 1].key());
        assert(prefix.drop_last() =~= keys.take(i - 1));
        if eq_ignore_ascii_case(entries[i - 1].name.as_str(), token) {
            return Some(i - 1);
        }
        i = i - 1;
    }
    None
}

/// The last position whose entry is named exactly `name`.
fn find_named(entries: &Vec<SyntaxEntry>, name: &String) -> (r: Option<usize>)
    ensures
        opt_nat(r) == last_named(entries@.map_values(|e: SyntaxEntry| e.key()), name@),
{
    let ghost keys = entries@.map_values(|e: SyntaxEntry| e.key());
    let mut i: usize = entries.len();
    assert(keys.take(i as int) =~= keys);
    while i > 0
        invariant
            i <= entries.len(),
            keys == entries@.map_values(|e: SyntaxEntry| e.key()),
            last_named(keys, name@) == last_named(keys.take(i as int), name@),
        decreases i,
    {
        let ghost prefix = keys.take(i as int);
        assert(prefix.last() == entries@[i - 1].key());
        assert(prefix.drop_last() =~= keys.take(i - 1));
        if entries[i - 1].name == *name {
            return Some(i - 1);
        }
        i = i - 1;
    }
    None
}

pub open spec fn opt_nat(o: Option<usize>) -> Option<nat> {
    match o {
        Some(i) => Some(i as nat),
        None => None,
    }
}

/// Whether one of the entry's extensions is `token`, ignoring ASCII case.
fn matches_extension(entry: &SyntaxEntry, token: &str) -> (r: bool)
    ensures
        r == has_extension(entry.key(), token@),
{
    let ghost exts = entry.extensions@.map_values(|e: String| e@);
    assert(entry.key().extensions == exts);
    let mut j: usize = 0;
    while j < entry.extensions.len()
        invariant
            j <= entry.extensions.len(),
            exts == entry.extensions@.map_values(|e: String| e@),
            forall|k: int| 0 <= k < j ==> ascii_lowercase(#[trigger] exts[k]) != ascii_lowercase(token@),
        decreases entry.extensions.len() - j,
    {
        if eq_ignore_ascii_case(entry.extensions[j].as_str(), token) {
            assert(ascii_lowercase(entry.key().extensions[j as int]) == ascii_lowercase(token@));
            return true;
        }
        j = j + 1;
    }
    false
}

/// The default syntax for a code block's language.
fn syntax_for(entries: &Vec<SyntaxEntry>, language: Option<&str>) -> (r: usize)
    requires
        exists|i: int| 0 <= i < entries.len() && (#[trigger] entries@[i]).name@ == "Plain Text"@,
    ensures
        r < entries.len(),
        r == chosen_syntax(entries@.map_values(|e: SyntaxEntry| e.key()), match language {
            Some(l) => Some(l@),
            None => None,
        }),
{
    let ghost keys = entries@.map_values(|e: SyntaxEntry| e.key());
    proof {
        reveal_strlit("Plain Text");
        lemma_last_bounded(keys, "Plain Text"@);
        let i = choose|i: int| 0 <= i < entries.len() && (#[trigger] entries@[i]).name@ == "Plain Text"@;
        assert(keys[i].name == "Plain Text"@);
    }
    let plain_name = "Plain Text".to_owned();
    let plain = match find_named(entries, &plain_name) {
        Some(i) => i,
        None => 0,
    };
    match language {
        Some(token) => {
            proof {
                lemma_last_bounded(keys, token@);
            }
            match find_by_extension(entries, token) {
                Some(i) => i,
                None => match find_by_name(entries, token) {
                    Some(i) => i,
                    None => plain,
                },
            }
        },
        None => plain,
    }
}

/// What is written for a line: its escaped pieces when it highlights, the
/// line itself otherwise.
pub open spec fn line_output(line: Seq<char>, h: Option<Seq<StyledPiece>>) -> Seq<char> {
    match h {
        Some(v) => escaped(v),
        None => line,
    }
}

/// The lines of a block highlighted in turn with one highlighter.
pub open spec fn block_output(syntax: nat, theme: Seq<char>, lines: Seq<Seq<char>>) -> Seq<char>
    decreases lines.len(),
{
    if lines.len() == 0 {
        Seq::empty()
    } else {
        block_output(syntax, theme, lines.drop_last())
            + line_output(lines.last(), line_highlighting(syntax, theme, lines.drop_last(), lines.last()))
    }
}

/// Every line that highlights is cut into pieces whose texts make it.
pub open spec fn pieces_cover_lines(syntax: nat, theme: Seq<char>, lines: Seq<Seq<char>>) -> bool {
    forall|i: int| 0 <= i < lines.len() ==>
        ((#[trigger] line_highlighting(syntax, theme, lines.take(i), lines[i])) matches Some(v)
        ==> texts(v) == lines[i])
}

/// The highlighting of a code block: with the syntax its language finds
/// (plain text otherwise) and the chosen theme among the defaults, each
/// line highlighted in turn, and written as it is where highlighting
/// fails; the code unchanged when no theme can be chosen.
pub open spec fn code_block_output(code: Seq<char>, language: Option<Seq<char>>, theme: Seq<char>) -> Seq<char> {
    match chosen_theme(default_theme_keys(), theme) {
        Some(t) => block_output(chosen_syntax(default_syntaxes(), language), t, line_split(code)),
        None => code,
    }
}

/// Highlights a code block for the terminal with the default syntaxes and
/// themes.
#[verifier::rlimit(60)]
pub fn render_code_block(code: &str, language: Option<&str>, theme_name: &str, hl: &Highlighting) -> (out: String)
    ensures
        out@ == code_block_output(code@, match language { Some(l) => Some(l@), None => None }, theme_name@),
        pieces_cover_lines(
            chosen_syntax(default_syntaxes(), match language { Some(l) => Some(l@), None => None }),
            chosen_theme(default_theme_keys(), theme_name@)->0,
            line_split(code@),
        ),
{
    let entries = hl.syntax_entries();
    proof {
        lemma_default_syntaxes(entries@.map_values(|e: SyntaxEntry| e.key()));
    }
    let syntax = syntax_for(&entries, language);
    assert(default_syntax(syntax as nat) is Some) by {
        let keys = entries@.map_values(|e: SyntaxEntry| e.key());
        assert(default_syntax(syntax as nat) == Some(keys[syntax as int]));
    }
    let names = hl.theme_names();
    let chosen = choose_theme(&names, theme_name);
    proof {
        reveal_strlit("base16-ocean.dark");
        assert(default_theme_keys()[5] == DEFAULT_THEME@);
    }
    let name = match chosen {
        Some(name) => name,
        None => {
            return code.to_owned();
        },
    };
    let mut h = match hl.highlighter(syntax, name.as_str()) {
        Some(h) => h,
        None => {
            return code.to_owned();
        },
    };
    let lines = split_lines(code);
    highlight_lines(&mut h, &lines)
}

/// Highlights the lines of a block in turn with a fresh highlighter.
fn highlight_lines(h: &mut LineHighlighter, lines: &Vec<&str>) -> (out: String)
    requires
        old(h).history() == Seq::<Seq<char>>::empty(),
    ensures
        out@ == block_output(old(h).syntax(), old(h).theme(), lines@.map_values(|l: &str| l@)),
        pieces_cover_lines(old(h).syntax(), old(h).theme(), lines@.map_values(|l: &str| l@)),
{
    let ghost views = lines@.map_values(|l: &str| l@);
    let ghost syntax = h.syntax();
    let ghost t = h.theme();
    let mut out = String::new();
    let mut i: usize = 0;
    assert(views.take(0) =~= Seq::<Seq<char>>::empty());
    while i < lines.len()
        invariant
            i <= lines.len(),
            views == lines@.map_values(|l: &str| l@),
            h.syntax() == syntax,
            h.theme() == t,
            h.history() == views.take(i as int),
            out@ == block_output(syntax, t, views.take(i as int)),
            forall|j: int| 0 <= j < i ==>
                ((#[trigger] line_highlighting(syntax, t, views.take(j), views[j])) matches Some(v)
                ==> texts(v) == views[j]),
        decreases lines.len() - i,
    {
        let line = lines[i];
        let ghost before = h.history();
        match h.highlight_line(line) {
            Some(ranges) => {
                let escaped_line = escape_24_bit(&ranges);
                out.append(escaped_line.as_str());
            },
            None => {
                out.append(line);
            },
        }
        proof {
            assert(views.take(i + 1).drop_last() =~= views.take(i as int));
            assert(views.take(i + 1).last() == views[i as int]);
            assert(before.push(line@) =~= views.take(i + 1));
        }
        i = i + 1;
    }
    assert(views.take(lines.len() as int) =~= views);
    out
}

} // verus!
