//! The forms in which a puzzle can be written out, and their names.

use vstd::prelude::*;
use vstd::string::*;

verus! {

/// A form of output.
#[derive(Copy, Clone, PartialEq, Eq, Debug, Structural)]
pub enum PrintLayout {
    /// Plain lines of text.
    Text,
    /// A web page.
    Html,
    /// A pipe table.
    Markdown,
}

/// The layout that `name` names, if it names one.
pub open spec fn layout_named(name: Seq<char>) -> Option<PrintLayout> {
    if name == "text"@ {
        Some(PrintLayout::Text)
    } else if name == "html"@ {
        Some(PrintLayout::Html)
    } else if name == "md"@ {
        Some(PrintLayout::Markdown)
    } else {
        None
    }
}

/// The `==` of the standard library on two string slices: whether they hold
/// the same characters.
#[verifier::external_body]
fn same_text(a: &str, b: &str) -> (same: bool)
    ensures
        same == (a@ == b@),
{
    a == b
}

impl PrintLayout {
    /// The name of the layout.
    pub open spec fn spec_name(self) -> Seq<char> {
        match self {
            PrintLayout::Text => "text"@,
            PrintLayout::Html => "html"@,
            PrintLayout::Markdown => "md"@,
        }
    }

    /// The name of the layout: `text`, `html` or `md`.
    pub fn name(&self) -> (name: &'static str)
        ensures
            name@ == self.spec_name(),
            layout_named(name@) == Some(*self),
    {
        proof {
            reveal_strlit("text");
            reveal_strlit("html");
            reveal_strlit("md");
            assert("text"@[0] != "html"@[0]);
            assert("text"@.len() != "md"@.len());
        }
        match self {
            PrintLayout::Text => "text",
            PrintLayout::Html => "html",
            PrintLayout::Markdown => "md",
        }
    }

    /// The layout that `s` names. Any other string is an error, whose message
    /// quotes it.
    pub fn parse(s: &str) -> (res: Result<PrintLayout, String>)
        ensures
            match layout_named(s@) {
                Some(layout) => res == Ok::<PrintLayout, String>(layout),
                None => res is Err && res->Err_0@ == "Unknown print layout: "@ + s@,
            },
    {
        if same_text(s, "text") {
            Ok(PrintLayout::Text)
        } else if same_text(s, "html") {
            Ok(PrintLayout::Html)
        } else if same_text(s, "md") {
            Ok(PrintLayout::Markdown)
        } else {
            Err(String::from_str("Unknown print layout: ").concat(s))
        }
    }
}

impl std::str::FromStr for PrintLayout {
    type Err = String;

    /// The layout that `s` names, as `parse` gives it: `text`, `html` and `md`
    /// name a layout, and any other string is an error whose message quotes
    /// it.
    fn from_str(s: &str) -> (res: Result<PrintLayout, String>)
        ensures
            match layout_named(s@) {
                Some(layout) => res == Ok::<PrintLayout, String>(layout),
                None => res is Err && res->Err_0@ == "Unknown print layout: "@ + s@,
            },
    {
        PrintLayout::parse(s)
    }
}

} // verus!
