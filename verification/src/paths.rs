//! Deciding which inputs are Markdown and whether to render them.

use vstd::prelude::*;
use vstd::string::*;
use crate::text::{ascii_lowercase, eq_ascii_lowercase};

verus! {

/// What `std::path::Path::file_name` gives for the path written as `path`
/// (the final normal component, `None` when the path ends in `..` or has
/// no such component), taken as text. Component boundaries follow the
/// separator rules of the target platform.
pub uninterp spec fn path_file_name(path: Seq<char>) -> Option<Seq<char>>;

/// Calls `Path::new(path).file_name()` and reads the component back as text.
/// The contract only names the result: what a file name is, is left to
/// `std::path`.
#[verifier::external_body]
fn file_name(path: &str) -> (name: Option<&str>)
    ensures
        name is Some <==> path_file_name(path@) is Some,
        name matches Some(n) ==> path_file_name(path@) == Some(n@),
{
    std::path::Path::new(path).file_name().and_then(|n| n.to_str())
}

/// The index of the last `.` in `s`, or `-1` when there is none.
pub open spec fn last_dot(s: Seq<char>) -> int
    decreases s.len(),
{
    if s.len() == 0 {
        -1
    } else if s.last() == '.' {
        s.len() - 1
    } else {
        last_dot(s.drop_last())
    }
}

/// The extension of a file name, as `Path::extension` documents it: none
/// when the name has no `.`, none when its only `.` is its first character,
/// and otherwise everything after the final `.`.
pub open spec fn extension_of(name: Seq<char>) -> Option<Seq<char>> {
    let k = last_dot(name);
    if k <= 0 {
        None
    } else {
        Some(name.subrange(k + 1, name.len() as int))
    }
}

/// The extension of a path.
pub open spec fn path_extension(path: Seq<char>) -> Option<Seq<char>> {
    match path_file_name(path) {
        Some(name) => extension_of(name),
        None => None,
    }
}

/// The extensions that mark a Markdown file, compared without regard to
/// ASCII case.
pub open spec fn is_markdown_extension(ext: Seq<char>) -> bool {
    let lower = ascii_lowercase(ext);
    lower == "md"@ || lower == "markdown"@ || lower == "mdown"@ || lower == "mkd"@
}

/// Whether a path names a Markdown file by its extension.
pub open spec fn spec_is_markdown_path(path: Seq<char>) -> bool {
    match path_extension(path) {
        Some(ext) => is_markdown_extension(ext),
        None => false,
    }
}

proof fn lemma_last_dot(s: Seq<char>, i: int)
    requires
        0 <= i <= s.len(),
        forall|j: int| i <= j < s.len() ==> s[j] != '.',
        i == 0 || s[i - 1] == '.',
    ensures
        last_dot(s) == i - 1,
    decreases s.len(),
{
    if s.len() > 0 && i < s.len() {
        assert(s.last() != '.');
        lemma_last_dot(s.drop_last(), i);
    }
}

/// The extension of a file name, or `None`.
fn extension(name: &str) -> (ext: Option<&str>)
    ensures
        ext is Some <==> extension_of(name@) is Some,
        ext matches Some(e) ==> extension_of(name@) == Some(e@),
{
    let n = name.unicode_len();
    let mut i: usize = n;
    while i > 0
        invariant
            n == name@.len(),
            i <= n,
            forall|j: int| i <= j < n ==> name@[j] != '.',
        ensures
            i <= n,
            forall|j: int| i <= j < n ==> name@[j] != '.',
            i == 0 || name@[i - 1] == '.',
        decreases i,
    {
        if name.get_char(i - 1) == '.' {
            break;
        }
        i = i - 1;
    }
    proof {
        lemma_last_dot(name@, i as int);
    }
    if i <= 1 {
        None
    } else {
        Some(name.substring_char(i, n))
    }
}

/// Whether `path` names a Markdown file: its extension is `md`,
/// `markdown`, `mdown` or `mkd` in any ASCII case.
pub fn is_markdown_path(path: &str) -> (r: bool)
    ensures
        r == spec_is_markdown_path(path@),
{
    proof {
        reveal_strlit("md");
        reveal_strlit("markdown");
        reveal_strlit("mdown");
        reveal_strlit("mkd");
    }
    match file_name(path) {
        None => false,
        Some(name) => match extension(name) {
            None => false,
            Some(ext) => {
                eq_ascii_lowercase(ext, "md") || eq_ascii_lowercase(ext, "markdown")
                    || eq_ascii_lowercase(ext, "mdown") || eq_ascii_lowercase(ext, "mkd")
            },
        },
    }
}

/// How one run of the program treats its inputs.
#[derive(Debug)]
pub struct RunConfig {
    /// Print every input raw.
    pub plain: bool,
    /// Render every input as Markdown, stdin included.
    pub force_markdown: bool,
    /// Theme for fenced code blocks.
    pub theme: String,
    /// Whether standard output is a terminal.
    pub stdout_is_tty: bool,
}

/// The rendering rule: plain mode never renders; forced Markdown always
/// does; otherwise only a Markdown-named file is rendered, and only when
/// standard output is a terminal. `None` stands for standard input.
pub open spec fn spec_should_render(path: Option<Seq<char>>, plain: bool, force: bool, tty: bool) -> bool {
    if plain {
        false
    } else if force {
        true
    } else if !tty {
        false
    } else {
        match path {
            Some(p) => spec_is_markdown_path(p),
            None => false,
        }
    }
}

/// Whether the input at `path` (`None` for standard input) is rendered as
/// Markdown under `config`.
pub fn should_render_markdown(path: Option<&str>, config: &RunConfig) -> (r: bool)
    ensures
        r == spec_should_render(
            match path { Some(p) => Some(p@), None => None },
            config.plain,
            config.force_markdown,
            config.stdout_is_tty,
        ),
{
    if config.plain {
        return false;
    }
    if config.force_markdown {
        return true;
    }
    if !config.stdout_is_tty {
        return false;
    }
    match path {
        Some(p) => is_markdown_path(p),
        None => false,
    }
}

/// The exit status of a run: 1 when any input failed, 0 otherwise.
pub fn exit_status(had_errors: bool) -> (code: u8)
    ensures
        code == (if had_errors { 1u8 } else { 0u8 }),
{
    if had_errors { 1 } else { 0 }
}

} // verus!
