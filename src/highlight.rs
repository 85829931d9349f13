//! Syntax highlighting of text files, through syntect's bundled syntaxes and theme.

use vstd::prelude::*;
use syntect::highlighting::Theme;
use syntect::parsing::SyntaxSet;
use crate::text::{extension, extension_text, first_line, first_line_text};

verus! {

#[verifier::external_type_specification]
#[verifier::external_body]
pub struct ExSyntaxSet(SyntaxSet);

#[verifier::external_type_specification]
#[verifier::external_body]
pub struct ExTheme(Theme);

/// The name of the syntax of syntect's bundled set that `find_syntax_by_extension`
/// gives for `token`, if any.
pub uninterp spec fn syntax_for_token(token: Seq<char>) -> Option<Seq<char>>;

/// The name of the syntax of syntect's bundled set that `find_syntax_by_first_line`
/// gives for `line`, if any.
pub uninterp spec fn syntax_for_first_line(line: Seq<char>) -> Option<Seq<char>>;

/// The markup that `highlighted_html_for_string` gives for `text` with the bundled syntax
/// named `syntax` and the bundled theme "InspiredGitHub"; `None` where the set has no
/// such syntax or the highlighter fails.
pub uninterp spec fn highlighted_markup(syntax: Seq<char>, text: Seq<char>) -> Option<Seq<char>>;

pub open spec fn plain_text_syntax() -> Seq<char> {
    "Plain Text"@
}

/// The syntax for the file `file_name` holding `text`: the first found by the exact
/// file name, by its extension, by the first line; plain text where none is.
pub open spec fn chosen_syntax(file_name: Seq<char>, text: Seq<char>) -> Seq<char> {
    let by_name = syntax_for_token(file_name);
    let by_extension = syntax_for_token(extension(file_name));
    let by_line = syntax_for_first_line(first_line(text));
    if by_name is Some {
        by_name->Some_0
    } else if by_extension is Some {
        by_extension->Some_0
    } else if by_line is Some {
        by_line->Some_0
    } else {
        plain_text_syntax()
    }
}

/// The highlighted markup for the file `file_name` holding `text`.
pub open spec fn highlighted(file_name: Seq<char>, text: Seq<char>) -> Option<Seq<char>> {
    highlighted_markup(chosen_syntax(file_name, text), text)
}

/// syntect's bundled syntaxes (for text with line endings) and its theme "InspiredGitHub".
/// No other value of this type exists: it is made only from those defaults.
pub struct Highlighter {
    syntax_set: SyntaxSet,
    theme: Theme,
}

/// Relies on `SyntaxSet::load_defaults_newlines` and `ThemeSet::load_defaults`, of
/// which the theme "InspiredGitHub" is taken; `None` where that theme is missing.
#[verifier::external_body]
fn load_defaults() -> (r: Option<Highlighter>) {
    let mut themes = syntect::highlighting::ThemeSet::load_defaults();
    themes.themes.remove("InspiredGitHub").map(
        |theme| Highlighter { syntax_set: SyntaxSet::load_defaults_newlines(), theme },
    )
}

/// Relies on `SyntaxSet::find_syntax_by_extension` on the bundled set: the syntax that
/// claims `token` (without regard to ASCII case) as an extension or a file name,
/// given by its name.
#[verifier::external_body]
fn syntax_by_extension(h: &Highlighter, token: &str) -> (r: Option<String>)
    ensures
        r matches Some(n) ==> syntax_for_token(token@) == Some(n@),
        r is None ==> syntax_for_token(token@) is None,
{
    h.syntax_set.find_syntax_by_extension(token).map(|s| s.name.clone())
}

/// Relies on `SyntaxSet::find_syntax_by_first_line` on the bundled set: the syntax whose
/// first-line pattern (a shebang, a mode line) matches `line`, given by its name.
#[verifier::external_body]
fn syntax_by_first_line(h: &Highlighter, line: &str) -> (r: Option<String>)
    ensures
        r matches Some(n) ==> syntax_for_first_line(line@) == Some(n@),
        r is None ==> syntax_for_first_line(line@) is None,
{
    h.syntax_set.find_syntax_by_first_line(line).map(|s| s.name.clone())
}

/// Relies on `syntect::html::highlighted_html_for_string` with the bundled theme: `text`
/// as a `<pre>` block of styled spans. `SyntaxSet::find_syntax_by_name` turns the
/// syntax's name back into the syntax.
#[verifier::external_body]
fn highlight_as(h: &Highlighter, syntax: &str, text: &str) -> (r: Option<String>)
    ensures
        r matches Some(m) ==> highlighted_markup(syntax@, text@) == Some(m@),
        r is None ==> highlighted_markup(syntax@, text@) is None,
{
    h.syntax_set.find_syntax_by_name(syntax).and_then(
        |s| syntect::html::highlighted_html_for_string(text, &h.syntax_set, s, &h.theme).ok(),
    )
}

impl Highlighter {
    /// The bundled syntaxes and theme; `None` where the theme is missing.
    pub fn new() -> (r: Option<Self>) {
        load_defaults()
    }

    /// `text`, the content of the file `file_name`, as highlighted markup, with the syntax
    /// looked up by the exact file name, then by its extension, then by the first line,
    /// and plain text where none is found. `None` where the highlighter fails.
    pub fn highlight(&self, file_name: &str, text: &str) -> (r: Option<String>)
        ensures
            r matches Some(m) ==> highlighted(file_name@, text@) == Some(m@),
            r is None ==> highlighted(file_name@, text@) is None,
    {
        let by_name = syntax_by_extension(self, file_name);
        let ext = extension_text(file_name);
        let by_extension = syntax_by_extension(self, ext.as_str());
        let line = first_line_text(text);
        let by_line = syntax_by_first_line(self, line.as_str());
        let syntax = match by_name {
            Some(s) => s,
            None => match by_extension {
                Some(s) => s,
                None => match by_line {
                    Some(s) => s,
                    None => "Plain Text".to_owned(),
                },
            },
        };
        highlight_as(self, syntax.as_str(), text)
    }
}

} // verus!
