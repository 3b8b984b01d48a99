//! Reading the filename generator's reply: the description it produced stands
//! between an `<output>` tag and the next `</output>` tag.

use vstd::prelude::*;

verus! {

pub open spec fn open_tag() -> Seq<char> {
    "<output>"@
}

pub open spec fn close_tag() -> Seq<char> {
    "</output>"@
}

/// `tag` occurs in `s` at `i`.
pub open spec fn tag_at(s: Seq<char>, i: int, tag: Seq<char>) -> bool {
    0 <= i && i + tag.len() <= s.len() && s.subrange(i, i + tag.len()) == tag
}

/// An opening tag at `i` and a closing tag at `j` after it.
pub open spec fn tagged_span(s: Seq<char>, i: int, j: int) -> bool {
    tag_at(s, i, open_tag()) && j >= i + open_tag().len() && tag_at(s, j, close_tag())
}

/// The span the leftmost-first, lazy match of `<output>(.*?)</output>` takes:
/// the first opening tag that some closing tag follows, and the first closing
/// tag after it.
pub open spec fn first_tagged_span(s: Seq<char>, i: int, j: int) -> bool {
    &&& tagged_span(s, i, j)
    &&& forall|i2: int, j2: int| 0 <= i2 < i ==> !tagged_span(s, i2, j2)
    &&& forall|j2: int| i + open_tag().len() <= j2 < j ==> !tag_at(s, j2, close_tag())
}

/// `t` is the text between the tags of the first tagged span of `s`.
pub open spec fn is_output_section(s: Seq<char>, t: Seq<char>) -> bool {
    exists|i: int, j: int| first_tagged_span(s, i, j) && t == s.subrange(i + open_tag().len(), j)
}

/// Relies on regex's `Regex::new` and `Regex::captures` with the pattern
/// `<output>([\s\S]*?)</output>`: the leftmost match, whose lazy group (any
/// characters, line breaks included) ends at the first closing tag after the
/// opening one. The pattern is a constant that compiles, so `Regex::new` does not
/// fail; an error would be the description of a pattern that does not compile.
#[verifier::external_body]
fn capture_output(text: &str) -> (r: Result<Option<String>, String>)
    ensures
        r is Ok,
        r matches Ok(c) ==> match c {
            Some(t) => is_output_section(text@, t@),
            None => forall|i: int, j: int| !tagged_span(text@, i, j),
        },
{
    let re = regex::Regex::new(r"<output>([\s\S]*?)</output>").map_err(|e| e.to_string())?;
    Ok(re.captures(text).and_then(|c| c.get(1)).map(|m| m.as_str().to_string()))
}

/// Why no output section could be read.
pub enum SectionError {
    /// No `<output>` tag is followed by a `</output>` tag.
    NoOutputTags,
    /// The pattern did not compile; the description of the failure.
    Pattern(String),
}

impl SectionError {
    /// The text that reports the error.
    pub fn message(&self) -> (r: String)
        ensures
            self is NoOutputTags ==> r@ == "No output tags found"@,
            self matches SectionError::Pattern(d) ==> r@ == d@,
    {
        match self {
            SectionError::NoOutputTags => String::from_str("No output tags found"),
            SectionError::Pattern(description) => description.clone(),
        }
    }
}

/// The text between the first `<output>` tag that a `</output>` tag follows and
/// the first such closing tag.
pub fn extract_output_section(text: &str) -> (r: Result<String, SectionError>)
    ensures
        r matches Ok(t) ==> is_output_section(text@, t@),
        r matches Err(SectionError::NoOutputTags) ==> forall|i: int, j: int| !tagged_span(text@, i, j),
        (forall|i: int, j: int| !tagged_span(text@, i, j)) ==> r is Err,
        (exists|i: int, j: int| tagged_span(text@, i, j)) ==> r is Ok,
{
    match capture_output(text) {
        Ok(Some(t)) => Ok(t),
        Ok(None) => Err(SectionError::NoOutputTags),
        Err(e) => Err(SectionError::Pattern(e)),
    }
}

} // verus!
