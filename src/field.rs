//! Field ranges: which delimiter-separated tokens of a line take part in
//! display or in matching.
use vstd::prelude::*;

verus! {

/// A range of fields, numbered from 1; a negative number counts from the end
/// (-1 is the last field).
#[derive(Clone, Copy, Debug, PartialEq, Eq, Structural)]
pub enum FieldRange {
    /// One field: `N`.
    Single(i32),
    /// Fields from the first up to `N`: `..N`.
    LeftInf(i32),
    /// Fields from `N` to the last: `N..`.
    RightInf(i32),
    /// Fields from `L` up to `R`: `L..R`.
    Both(i32, i32),
}

/// A field number turned into a 1-based position among `length` fields
/// (0 stands for "before the first").
pub open spec fn translate_neg(idx: int, length: int) -> int {
    let i = if idx < 0 { idx + length + 1 } else { idx };
    if i < 0 { 0 } else { i }
}

/// The 0-based half-open span `[start, stop)` of fields that `r` selects out
/// of `length` fields, or `None` when it selects none.
pub open spec fn index_pair(r: FieldRange, length: int) -> Option<(int, int)> {
    match r {
        FieldRange::Single(n) => {
            let n = translate_neg(n as int, length);
            if n == 0 || n > length { None } else { Some((n - 1, n)) }
        },
        FieldRange::LeftInf(n) => {
            let n = translate_neg(n as int, length);
            if length == 0 || n == 0 { None } else if n > length { Some((0, length)) } else { Some((0, n)) }
        },
        FieldRange::RightInf(n) => {
            let n = translate_neg(n as int, length);
            if n == 0 || n > length { None } else { Some((n - 1, length)) }
        },
        FieldRange::Both(l, r) => {
            let l = translate_neg(l as int, length);
            let r = translate_neg(r as int, length);
            if l == 0 || l > r || l > length { None } else {
                Some((l - 1, if r < length { r } else { length }))
            }
        },
    }
}

fn translate(idx: i32, length: usize) -> (r: usize)
    ensures
        r as int == translate_neg(idx as int, length as int),
{
    if idx < 0 {
        let neg: usize = (-(idx as i64)) as usize;
        if neg <= length { length - neg + 1 } else { 0 }
    } else {
        idx as usize
    }
}

impl FieldRange {
    /// The 0-based half-open span of fields selected out of `length` fields.
    pub fn to_index_pair(&self, length: usize) -> (r: Option<(usize, usize)>)
        ensures
            r matches Some(p) ==> index_pair(*self, length as int) == Some((p.0 as int, p.1 as int)),
            r is None <==> index_pair(*self, length as int) is None,
    {
        match *self {
            FieldRange::Single(n) => {
                let n = translate(n, length);
                if n == 0 || n > length { None } else { Some((n - 1, n)) }
            },
            FieldRange::LeftInf(n) => {
                let n = translate(n, length);
                if length == 0 || n == 0 { None } else if n > length { Some((0, length)) } else { Some((0, n)) }
            },
            FieldRange::RightInf(n) => {
                let n = translate(n, length);
                if n == 0 || n > length { None } else { Some((n - 1, length)) }
            },
            FieldRange::Both(l, r) => {
                let l = translate(l, length);
                let r = translate(r, length);
                if l == 0 || l > r || l > length { None } else {
                    Some((l - 1, if r < length { r } else { length }))
                }
            },
        }
    }
}

/// Delimiter matches `(start, end)` inside a text of `len` bytes: within
/// bounds, in order, and without overlap.
pub open spec fn spans_ordered(spans: Seq<(usize, usize)>, len: int) -> bool {
    &&& forall|i: int| 0 <= i < spans.len() ==> (#[trigger] spans[i]).0 <= spans[i].1 && spans[i].1 <= len
    &&& forall|i: int, j: int| 0 <= i < j < spans.len() ==> #[trigger] spans[i].1 <= #[trigger] spans[j].0
}

/// Byte offset at which field `k` (0-based) begins: the start of the text,
/// or the end of the delimiter before it. Each field runs up to the start of
/// the next one, its trailing delimiter included.
pub open spec fn field_begin(spans: Seq<(usize, usize)>, k: int) -> int {
    if k <= 0 { 0 } else { spans[k - 1].1 as int }
}

/// The byte span `[begin, end)` of the text that `r` selects, given the
/// delimiter matches of a text of `len` bytes.
pub open spec fn field_span(spans: Seq<(usize, usize)>, len: int, r: FieldRange) -> Option<(int, int)> {
    let n = spans.len() + 1int;
    match index_pair(r, n) {
        Some(p) => Some((field_begin(spans, p.0), if p.1 < n { field_begin(spans, p.1) } else { len })),
        None => None,
    }
}

/// The byte spans that the ranges select, in the order of the ranges, those
/// that select nothing left out.
pub open spec fn selected_spans(spans: Seq<(usize, usize)>, len: int, ranges: Seq<FieldRange>) -> Seq<(int, int)>
    decreases ranges.len(),
{
    if ranges.len() == 0 {
        seq![]
    } else {
        let head = match field_span(spans, len, ranges[0]) {
            Some(p) => seq![p],
            None => seq![],
        };
        head + selected_spans(spans, len, ranges.drop_first())
    }
}

/// The text of the given spans of `text`, one after the other.
pub open spec fn text_of_spans(text: Seq<u8>, spans: Seq<(int, int)>) -> Seq<u8>
    decreases spans.len(),
{
    if spans.len() == 0 {
        seq![]
    } else {
        text.subrange(spans[0].0, spans[0].1) + text_of_spans(text, spans.drop_first())
    }
}

proof fn lemma_index_pair_bounds(r: FieldRange, n: int)
    requires
        n >= 1,
    ensures
        index_pair(r, n) matches Some(p) ==> 0 <= p.0 < p.1 <= n,
{
}

proof fn lemma_field_begin_mono(spans: Seq<(usize, usize)>, len: int, a: int, b: int)
    requires
        spans_ordered(spans, len),
        0 <= len,
        0 <= a <= b <= spans.len(),
    ensures
        0 <= field_begin(spans, a) <= field_begin(spans, b) <= len,
{
    if b > 0 {
        assert(spans[b - 1].0 <= spans[b - 1].1 <= len);
        if a > 0 && a < b {
            assert(spans[a - 1].1 <= spans[b - 1].0);
        }
    }
}

/// Byte span of the text that `r` selects; `spans` are the delimiter matches
/// of a text of `len` bytes.
pub fn field_span_of(spans: &Vec<(usize, usize)>, len: usize, r: &FieldRange) -> (res: Option<(usize, usize)>)
    requires
        spans_ordered(spans@, len as int),
        spans@.len() < usize::MAX,
    ensures
        res matches Some(p) ==> field_span(spans@, len as int, *r) == Some((p.0 as int, p.1 as int))
            && p.0 <= p.1 <= len,
        res is None <==> field_span(spans@, len as int, *r) is None,
{
    let n = spans.len() + 1;
    proof {
        lemma_index_pair_bounds(*r, n as int);
    }
    match r.to_index_pair(n) {
        Some((a, b)) => {
            proof {
                let e = if b < n { b as int } else { spans@.len() as int };
                lemma_field_begin_mono(spans@, len as int, a as int, e);
            }
            let begin = if a == 0 { 0 } else { spans[a - 1].1 };
            let end = if b < n {
                if b == 0 { 0 } else { spans[b - 1].1 }
            } else {
                len
            };
            Some((begin, end))
        },
        None => None,
    }
}

/// The byte spans of `text` that `ranges` select, in order; `spans` are the
/// delimiter matches of `text`.
pub fn select_spans(spans: &Vec<(usize, usize)>, len: usize, ranges: &[FieldRange]) -> (res: Vec<(usize, usize)>)
    requires
        spans_ordered(spans@, len as int),
        spans@.len() < usize::MAX,
    ensures
        res@.map_values(|p: (usize, usize)| (p.0 as int, p.1 as int)) == selected_spans(spans@, len as int, ranges@),
        forall|i: int| 0 <= i < res@.len() ==> (#[trigger] res@[i]).0 <= res@[i].1 && res@[i].1 <= len,
{
    let mut out: Vec<(usize, usize)> = Vec::new();
    let mut i: usize = ranges.len();
    proof {
        assert(ranges@.skip(ranges@.len() as int) =~= Seq::<FieldRange>::empty());
    }
    // built from the back, so that each step prepends one range's span
    let mut rev: Vec<(usize, usize)> = Vec::new();
    while i > 0
        invariant
            i <= ranges@.len(),
            spans_ordered(spans@, len as int),
            spans@.len() < usize::MAX,
            rev@.reverse().map_values(|p: (usize, usize)| (p.0 as int, p.1 as int))
                == selected_spans(spans@, len as int, ranges@.skip(i as int)),
            forall|k: int| 0 <= k < rev@.len() ==> (#[trigger] rev@[k]).0 <= rev@[k].1 && rev@[k].1 <= len,
        decreases i,
    {
        i = i - 1;
        let ghost tail = ranges@.skip(i as int);
        proof {
            assert(tail.drop_first() =~= ranges@.skip(i + 1));
            assert(tail[0] == ranges@[i as int]);
        }
        let ghost old_rev = rev@;
        match field_span_of(spans, len, &ranges[i]) {
            Some(p) => {
                rev.push(p);
                proof {
                    assert(rev@.reverse() =~= seq![p] + old_rev.reverse());
                    assert(rev@.reverse().map_values(|p: (usize, usize)| (p.0 as int, p.1 as int))
                        =~= seq![(p.0 as int, p.1 as int)] + old_rev.reverse().map_values(
                        |p: (usize, usize)| (p.0 as int, p.1 as int),
                    ));
                }
            },
            None => {
                proof {
                    assert(seq![] + selected_spans(spans@, len as int, tail.drop_first())
                        =~= selected_spans(spans@, len as int, tail.drop_first()));
                }
            },
        }
    }
    let mut j: usize = rev.len();
    while j > 0
        invariant
            j <= rev@.len(),
            out@ =~= rev@.reverse().take((rev@.len() - j) as int),
        decreases j,
    {
        j = j - 1;
        out.push(rev[j]);
        proof {
            assert(out@ =~= rev@.reverse().take((rev@.len() - j) as int));
        }
    }
    proof {
        assert(ranges@.skip(0) =~= ranges@);
        assert(out@ =~= rev@.reverse());
        assert forall|k: int| 0 <= k < out@.len() implies (#[trigger] out@[k]).0 <= out@[k].1 && out@[k].1 <= len by {
            assert(out@[k] == rev@[rev@.len() - 1 - k]);
        }
    }
    out
}

/// The bytes of `text` in the given spans, one after the other.
pub fn concat_spans(text: &[u8], spans: &Vec<(usize, usize)>) -> (res: Vec<u8>)
    requires
        forall|i: int| 0 <= i < spans@.len() ==> (#[trigger] spans@[i]).0 <= spans@[i].1 && spans@[i].1 <= text@.len(),
    ensures
        res@ == text_of_spans(text@, spans@.map_values(|p: (usize, usize)| (p.0 as int, p.1 as int))),
{
    let ghost all = spans@.map_values(|p: (usize, usize)| (p.0 as int, p.1 as int));
    let mut out: Vec<u8> = Vec::new();
    let mut i: usize = 0;
    proof {
        assert(all.skip(0) =~= all);
    }
    while i < spans.len()
        invariant
            i <= spans@.len(),
            all == spans@.map_values(|p: (usize, usize)| (p.0 as int, p.1 as int)),
            forall|k: int| 0 <= k < spans@.len() ==> (#[trigger] spans@[k]).0 <= spans@[k].1 && spans@[k].1 <= text@.len(),
            out@ + text_of_spans(text@, all.skip(i as int)) == text_of_spans(text@, all),
        decreases spans@.len() - i,
    {
        let (b, e) = spans[i];
        let ghost before = out@;
        let mut k: usize = b;
        while k < e
            invariant
                b <= k <= e <= text@.len(),
                out@ == before + text@.subrange(b as int, k as int),
            decreases e - k,
        {
            out.push(text[k]);
            k = k + 1;
            proof {
                assert(out@ =~= before + text@.subrange(b as int, k as int));
            }
        }
        proof {
            let rest = all.skip(i as int);
            assert(rest[0] == (b as int, e as int));
            assert(rest.drop_first() =~= all.skip(i + 1));
            assert(out@ + text_of_spans(text@, all.skip(i + 1)) =~= before + text_of_spans(text@, rest));
        }
        i = i + 1;
    }
    proof {
        assert(all.skip(spans@.len() as int) =~= Seq::<(int, int)>::empty());
        assert(out@ + text_of_spans(text@, Seq::<(int, int)>::empty()) =~= out@);
    }
    out
}

} // verus!
