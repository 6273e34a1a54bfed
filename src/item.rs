//! Items: the matchable units built from single lines.
use vstd::prelude::*;

use crate::delimiter::{field_delims, Delimiter};
use crate::field::{concat_spans, select_spans, selected_spans, text_of_spans, FieldRange};

verus! {

/// Per-stream settings of the field-aware item builder.
#[derive(Clone)]
pub struct BuildOptions<'a> {
    pub ansi_enabled: bool,
    pub trans_fields: &'a [FieldRange],
    pub matching_fields: &'a [FieldRange],
    pub delimiter: &'a Delimiter,
}

/// How lines become items: verbatim, or through the field-aware builder.
#[derive(Clone)]
pub enum SendRawOrBuild<'a> {
    Raw,
    Build(BuildOptions<'a>),
}

/// An item built from a line, with its display text and matching spans.
#[derive(Debug)]
pub struct BuiltItem {
    orig: Vec<u8>,
    text: Vec<u8>,
    matching: Option<Vec<(usize, usize)>>,
    ansi: bool,
}

/// One matchable unit, derived from a single input line.
#[derive(Debug)]
pub enum Item {
    /// The line verbatim.
    Raw(Vec<u8>),
    /// The line with the fields selected for display and for matching.
    Built(BuiltItem),
}

/// The text that `trans` selects from `line`, fields split by `pattern`;
/// the line itself when no field is selected for display.
pub open spec fn display_text(line: Seq<u8>, pattern: Seq<char>, trans: Seq<FieldRange>) -> Seq<u8> {
    if trans.len() == 0 {
        line
    } else {
        text_of_spans(line, selected_spans(field_delims(pattern, line), line.len() as int, trans))
    }
}

/// The byte spans of `text` that take part in matching: all of it when no
/// matching field is selected, else the fields that `matching` selects.
pub open spec fn matching_spans(text: Seq<u8>, pattern: Seq<char>, matching: Seq<FieldRange>) -> Option<Seq<(int, int)>> {
    if matching.len() == 0 {
        None
    } else {
        Some(selected_spans(field_delims(pattern, text), text.len() as int, matching))
    }
}

pub open spec fn int_spans(v: Seq<(usize, usize)>) -> Seq<(int, int)> {
    v.map_values(|p: (usize, usize)| (p.0 as int, p.1 as int))
}

impl BuiltItem {
    pub closed spec fn orig_view(&self) -> Seq<u8> {
        self.orig@
    }

    pub closed spec fn text_view(&self) -> Seq<u8> {
        self.text@
    }

    pub closed spec fn matching_view(&self) -> Option<Seq<(int, int)>> {
        match self.matching {
            Some(v) => Some(int_spans(v@)),
            None => None,
        }
    }

    pub closed spec fn ansi_view(&self) -> bool {
        self.ansi
    }

    #[verifier::type_invariant]
    pub closed spec fn wf(&self) -> bool {
        self.matching matches Some(v) ==> forall|i: int|
            0 <= i < v@.len() ==> (#[trigger] v@[i]).0 <= v@[i].1 && v@[i].1 <= self.text@.len()
    }
}

/// Whether `item` is what the builder makes of `line` under `opts`.
pub open spec fn built_from(item: Item, line: Seq<u8>, opts: SendRawOrBuild) -> bool {
    match opts {
        SendRawOrBuild::Raw => item matches Item::Raw(t) && t@ == line,
        SendRawOrBuild::Build(o) => item matches Item::Built(b) && b.wf() && b.orig_view() == line
            && b.text_view() == display_text(line, o.delimiter@, o.trans_fields@)
            && b.matching_view() == matching_spans(b.text_view(), o.delimiter@, o.matching_fields@)
            && b.ansi_view() == o.ansi_enabled,
    }
}

impl Item {
    /// The text shown for the item.
    pub open spec fn text_view(&self) -> Seq<u8> {
        match self {
            Item::Raw(t) => t@,
            Item::Built(b) => b.text_view(),
        }
    }

    /// The line the item was built from.
    pub open spec fn output_view(&self) -> Seq<u8> {
        match self {
            Item::Raw(t) => t@,
            Item::Built(b) => b.orig_view(),
        }
    }

    /// The text shown for the item.
    pub fn text(&self) -> (r: &[u8])
        ensures
            r@ == self.text_view(),
    {
        match self {
            Item::Raw(t) => t.as_slice(),
            Item::Built(b) => b.text.as_slice(),
        }
    }

    /// The line the item was built from.
    pub fn output(&self) -> (r: &[u8])
        ensures
            r@ == self.output_view(),
    {
        match self {
            Item::Raw(t) => t.as_slice(),
            Item::Built(b) => b.orig.as_slice(),
        }
    }

    /// The byte spans of the text that take part in matching; `None` when the
    /// whole text does.
    pub fn matching_ranges(&self) -> (r: Option<&[(usize, usize)]>)
        ensures
            self matches Item::Raw(_) ==> r is None,
            self matches Item::Built(b) ==> (r matches Some(v) ==> b.matching_view() == Some(int_spans(v@)))
                && (r is None <==> b.matching_view() is None),
    {
        match self {
            Item::Raw(_) => None,
            Item::Built(b) => match &b.matching {
                Some(v) => Some(v.as_slice()),
                None => None,
            },
        }
    }

    /// The bytes that take part in matching, in order.
    pub fn matching_text(&self) -> (r: Vec<u8>)
        ensures
            self matches Item::Raw(t) ==> r@ == t@,
            self matches Item::Built(b) ==> r@ == match b.matching_view() {
                Some(s) => text_of_spans(b.text_view(), s),
                None => b.text_view(),
            },
    {
        match self {
            Item::Raw(t) => t.clone(),
            Item::Built(b) => match &b.matching {
                Some(v) => {
                    proof {
                        use_type_invariant(b);
                    }
                    concat_spans(b.text.as_slice(), v)
                },
                None => b.text.clone(),
            },
        }
    }

    /// Whether the item's text is to be read for colour escapes.
    pub fn ansi_enabled(&self) -> (r: bool)
        ensures
            r == (self matches Item::Built(b) && b.ansi_view()),
    {
        match self {
            Item::Raw(_) => false,
            Item::Built(b) => b.ansi,
        }
    }
}

/// With colour off and no field selected for display or for matching, the
/// field-aware builder and the raw one both show the line exactly as it came,
/// and match on all of it.
pub proof fn lemma_plain_build_is_raw(line: Seq<u8>, o: BuildOptions, raw: Item, built: Item)
    requires
        !o.ansi_enabled,
        o.trans_fields@.len() == 0,
        o.matching_fields@.len() == 0,
        built_from(raw, line, SendRawOrBuild::Raw),
        built_from(built, line, SendRawOrBuild::Build(o)),
    ensures
        raw.text_view() == line,
        built.text_view() == line,
        built.output_view() == line,
        built matches Item::Built(b) && b.matching_view() is None,
{
}

/// Builds the item for one line.
pub fn build_item(line: &[u8], opts: &SendRawOrBuild) -> (r: Item)
    ensures
        built_from(r, line@, *opts),
{
    match opts {
        SendRawOrBuild::Raw => Item::Raw(vstd::slice::slice_to_vec(line)),
        SendRawOrBuild::Build(o) => {
            let text = if o.trans_fields.len() == 0 {
                vstd::slice::slice_to_vec(line)
            } else {
                let spans = o.delimiter.spans(line);
                let sel = select_spans(&spans, line.len(), o.trans_fields);
                concat_spans(line, &sel)
            };
            let matching = if o.matching_fields.len() == 0 {
                None
            } else {
                let spans = o.delimiter.spans(text.as_slice());
                Some(select_spans(&spans, text.len(), o.matching_fields))
            };
            Item::Built(BuiltItem { orig: vstd::slice::slice_to_vec(line), text, matching, ansi: o.ansi_enabled })
        },
    }
}

} // verus!
