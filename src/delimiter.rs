//! The delimiter pattern that splits a line into fields.
use vstd::prelude::*;

use vstd::string::StringSliceAdditionalSpecFns;

use crate::field::spans_ordered;
use crate::text::as_text;
use vstd::utf8::valid_utf8;

verus! {

#[verifier::external_type_specification]
#[verifier::external_body]
pub struct ExRegex(regex::Regex);

/// Whether a pattern is accepted by the regular-expression compiler.
pub uninterp spec fn pattern_compiles(p: Seq<char>) -> bool;

/// The successive non-overlapping matches `(start, end)` of a pattern in a
/// text, as byte offsets.
pub uninterp spec fn delimiter_matches(p: Seq<char>, text: Seq<u8>) -> Seq<(usize, usize)>;

/// The default delimiter: a run of tabs, newlines and spaces.
pub const DELIMITER_STR: &'static str = "[\\t\\n ]+";

pub open spec fn default_pattern() -> Seq<char> {
    seq!['[', '\\', 't', '\\', 'n', ' ', ']', '+']
}

/// A compiled delimiter pattern together with its source text.
#[derive(Debug)]
pub struct Delimiter {
    pattern: String,
    re: regex::Regex,
}

impl View for Delimiter {
    type V = Seq<char>;

    closed spec fn view(&self) -> Seq<char> {
        self.pattern@
    }
}

/// Relies on regex::Regex::new: whether it succeeds depends on the
/// pattern alone, and the default whitespace-run pattern is accepted.
#[verifier::external_body]
fn compile_pattern(p: &str) -> (r: Option<Delimiter>)
    ensures
        r is Some <==> pattern_compiles(p@),
        r matches Some(d) ==> d@ == p@,
        p@ == default_pattern() ==> r is Some,
{
    match regex::Regex::new(p) {
        Ok(re) => Some(Delimiter { pattern: p.to_string(), re }),
        Err(_) => None,
    }
}

/// The delimiter matches that split a line into fields: those of the
/// pattern when the line is text, none otherwise.
pub open spec fn field_delims(p: Seq<char>, line: Seq<u8>) -> Seq<(usize, usize)> {
    if valid_utf8(line) { delimiter_matches(p, line) } else { seq![] }
}

/// Relies on regex::Regex::find_iter: the successive non-overlapping
/// matches of the pattern, in order, inside the text, as byte offsets,
/// collected into a vector (whose allocation stays under `isize::MAX` bytes).
#[verifier::external_body]
fn find_spans(d: &Delimiter, text: &str) -> (r: Vec<(usize, usize)>)
    ensures
        r@ == delimiter_matches(d@, text.spec_bytes()),
        spans_ordered(r@, text.spec_bytes().len() as int),
        r@.len() < usize::MAX,
{
    d.re.find_iter(text).map(|m| (m.start(), m.end())).collect()
}

impl Delimiter {
    /// Compiles `p`; `None` when the pattern is malformed.
    pub fn new(p: &str) -> (r: Option<Delimiter>)
        ensures
            r is Some <==> pattern_compiles(p@),
            r matches Some(d) ==> d@ == p@,
    {
        compile_pattern(p)
    }

    /// The default delimiter, a run of whitespace.
    pub fn whitespace() -> (r: Delimiter)
        ensures
            r@ == default_pattern(),
    {
        proof {
            reveal_strlit("[\\t\\n ]+");
        }
        let d = compile_pattern(DELIMITER_STR);
        assert(DELIMITER_STR@ =~= default_pattern());
        match d {
            Some(d) => d,
            None => vstd::pervasive::unreached(),
        }
    }

    /// The pattern this delimiter was compiled from.
    pub fn pattern(&self) -> (r: &str)
        ensures
            r@ == self@,
    {
        self.pattern.as_str()
    }

    /// Byte spans of the delimiter's matches in `text`; none when it is not
    /// UTF-8 text.
    pub fn spans(&self, text: &[u8]) -> (r: Vec<(usize, usize)>)
        ensures
            r@ == field_delims(self@, text@),
            spans_ordered(r@, text@.len() as int),
            r@.len() < usize::MAX,
    {
        match as_text(text) {
            Some(s) => find_spans(self, s),
            None => Vec::new(),
        }
    }
}

} // verus!
