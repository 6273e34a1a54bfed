//! Splitting a byte stream into terminator-delimited lines.
use vstd::prelude::*;

verus! {

/// Number of leading bytes of `s` before the first `t` (the whole length when
/// `s` holds no `t`).
pub open spec fn prefix_len(s: Seq<u8>, t: u8) -> nat
    decreases s.len(),
{
    if s.len() == 0 {
        0
    } else if s[0] == t {
        0
    } else {
        1 + prefix_len(s.drop_first(), t)
    }
}

/// The lines of `s`: the segments between terminators `t`, terminators
/// removed. A trailing segment without a terminator is a line when it is not
/// empty; an empty one is not.
pub open spec fn lines_of(s: Seq<u8>, t: u8) -> Seq<Seq<u8>>
    decreases s.len(),
{
    if s.len() == 0 {
        seq![]
    } else {
        let p = prefix_len(s, t);
        if p >= s.len() {
            seq![s]
        } else {
            seq![s.take(p as int)] + lines_of(s.skip(p + 1int), t)
        }
    }
}

/// Number of terminators `t` in `s`.
pub open spec fn count_of(s: Seq<u8>, t: u8) -> nat
    decreases s.len(),
{
    if s.len() == 0 {
        0
    } else {
        (if s[0] == t { 1nat } else { 0nat }) + count_of(s.drop_first(), t)
    }
}

/// Whether `s` ends in a segment that no terminator closes.
pub open spec fn has_open_tail(s: Seq<u8>, t: u8) -> bool {
    s.len() > 0 && s.last() != t
}

/// The bytes of a sequence of chunks, one after the other.
pub open spec fn concat_all(chunks: Seq<Seq<u8>>) -> Seq<u8>
    decreases chunks.len(),
{
    if chunks.len() == 0 {
        seq![]
    } else {
        chunks[0] + concat_all(chunks.drop_first())
    }
}

/// The lines of each chunk taken alone, one chunk after the other.
pub open spec fn lines_per_chunk(chunks: Seq<Seq<u8>>, t: u8) -> Seq<Seq<u8>>
    decreases chunks.len(),
{
    if chunks.len() == 0 {
        seq![]
    } else {
        lines_of(chunks[0], t) + lines_per_chunk(chunks.drop_first(), t)
    }
}

/// Every chunk but the last is closed by a terminator.
pub open spec fn closed_chunks(chunks: Seq<Seq<u8>>, t: u8) -> bool {
    forall|i: int|
        0 <= i < chunks.len() - 1 ==> #[trigger] chunks[i].len() > 0 && chunks[i].last() == t
}

/// The byte views of a sequence of byte vectors.
pub open spec fn views(v: Seq<Vec<u8>>) -> Seq<Seq<u8>> {
    v.map_values(|b: Vec<u8>| b@)
}

proof fn lemma_prefix_len_props(s: Seq<u8>, t: u8)
    ensures
        prefix_len(s, t) <= s.len(),
        forall|j: int| 0 <= j < prefix_len(s, t) ==> s[j] != t,
        prefix_len(s, t) < s.len() ==> s[prefix_len(s, t) as int] == t,
    decreases s.len(),
{
    if s.len() > 0 && s[0] != t {
        lemma_prefix_len_props(s.drop_first(), t);
        assert forall|j: int| 0 <= j < prefix_len(s, t) implies s[j] != t by {
            if j > 0 {
                assert(s[j] == s.drop_first()[j - 1]);
            }
        }
    }
}

proof fn lemma_prefix_len_is(s: Seq<u8>, t: u8, k: nat)
    requires
        k <= s.len(),
        forall|j: int| 0 <= j < k ==> s[j] != t,
        k < s.len() ==> s[k as int] == t,
    ensures
        prefix_len(s, t) == k,
    decreases s.len(),
{
    if s.len() > 0 && k > 0 {
        assert forall|j: int| 0 <= j < (k - 1) as nat implies s.drop_first()[j] != t by {
            assert(s.drop_first()[j] == s[j + 1]);
        }
        lemma_prefix_len_is(s.drop_first(), t, (k - 1) as nat);
    }
}

proof fn lemma_count_concat(a: Seq<u8>, b: Seq<u8>, t: u8)
    ensures
        count_of(a + b, t) == count_of(a, t) + count_of(b, t),
    decreases a.len(),
{
    if a.len() > 0 {
        assert((a + b).drop_first() =~= a.drop_first() + b);
        lemma_count_concat(a.drop_first(), b, t);
    } else {
        assert(a + b =~= b);
    }
}

proof fn lemma_count_free(s: Seq<u8>, t: u8)
    requires
        forall|j: int| 0 <= j < s.len() ==> s[j] != t,
    ensures
        count_of(s, t) == 0,
    decreases s.len(),
{
    if s.len() > 0 {
        assert forall|j: int| 0 <= j < s.drop_first().len() implies s.drop_first()[j] != t by {
            assert(s.drop_first()[j] == s[j + 1]);
        }
        lemma_count_free(s.drop_first(), t);
    }
}

/// The lines of `a + b`, where `a` is closed by a terminator, are the lines
/// of `a` followed by the lines of `b`.
pub proof fn lemma_lines_concat(a: Seq<u8>, b: Seq<u8>, t: u8)
    requires
        a.len() > 0,
        a.last() == t,
    ensures
        lines_of(a + b, t) == lines_of(a, t) + lines_of(b, t),
    decreases a.len(),
{
    let ab = a + b;
    lemma_prefix_len_props(a, t);
    let p = prefix_len(a, t);
    assert(p < a.len()) by {
        if p >= a.len() {
            assert(a[a.len() - 1] != t);
        }
    }
    assert forall|j: int| 0 <= j < p implies ab[j] != t by {
        assert(ab[j] == a[j]);
    }
    assert(ab[p as int] == a[p as int]);
    lemma_prefix_len_is(ab, t, p);
    assert(ab.take(p as int) =~= a.take(p as int));
    assert(ab.skip(p + 1int) =~= a.skip(p + 1int) + b);
    let rest = a.skip(p + 1int);
    if rest.len() == 0 {
        assert(rest + b =~= b);
        assert(lines_of(rest, t) =~= seq![]);
        assert(lines_of(a, t) =~= seq![a.take(p as int)]);
        assert(lines_of(ab, t) =~= seq![a.take(p as int)] + lines_of(b, t));
    } else {
        assert(rest.last() == a.last());
        lemma_lines_concat(rest, b, t);
        assert(lines_of(ab, t) =~= seq![a.take(p as int)] + (lines_of(rest, t) + lines_of(b, t)));
        assert(lines_of(a, t) =~= seq![a.take(p as int)] + lines_of(rest, t));
    }
}

/// Buffer-boundary insensitivity: cutting a stream into chunks, each but the
/// last closed by a terminator, and splitting every chunk on its own yields
/// the same lines, in the same order, as splitting the whole stream at once.
pub proof fn lemma_chunking_keeps_lines(chunks: Seq<Seq<u8>>, t: u8)
    requires
        closed_chunks(chunks, t),
    ensures
        lines_of(concat_all(chunks), t) == lines_per_chunk(chunks, t),
    decreases chunks.len(),
{
    if chunks.len() == 0 {
        assert(lines_of(concat_all(chunks), t) =~= seq![]);
    } else if chunks.len() == 1 {
        assert(concat_all(chunks.drop_first()) =~= seq![]);
        assert(concat_all(chunks) =~= chunks[0]);
        assert(lines_per_chunk(chunks.drop_first(), t) =~= seq![]);
        assert(lines_per_chunk(chunks, t) =~= lines_of(chunks[0], t));
    } else {
        let rest = chunks.drop_first();
        assert forall|i: int| 0 <= i < rest.len() - 1 implies #[trigger] rest[i].len() > 0
            && rest[i].last() == t by {
            assert(rest[i] == chunks[i + 1]);
        }
        lemma_chunking_keeps_lines(rest, t);
        assert(chunks[0].len() > 0 && chunks[0].last() == t);
        lemma_lines_concat(chunks[0], concat_all(rest), t);
    }
}

/// One line per terminator-closed segment, plus one for a non-empty trailing
/// segment without a terminator; no line holds a terminator, and the trailing
/// segment, when there is one, is the last line as it stands.
pub proof fn lemma_one_line_per_segment(s: Seq<u8>, t: u8)
    ensures
        lines_of(s, t).len() == count_of(s, t) + (if has_open_tail(s, t) { 1nat } else { 0nat }),
        forall|i: int, j: int|
            0 <= i < lines_of(s, t).len() && 0 <= j < lines_of(s, t)[i].len()
                ==> #[trigger] lines_of(s, t)[i][j] != t,
        has_open_tail(s, t) ==> lines_of(s, t).last().len() <= s.len(),
        has_open_tail(s, t) ==> lines_of(s, t).last() == s.skip(
            s.len() - lines_of(s, t).last().len(),
        ),
    decreases s.len(),
{
    if s.len() > 0 {
        lemma_prefix_len_props(s, t);
        let p = prefix_len(s, t);
        if p >= s.len() {
            lemma_count_free(s, t);
            assert(s.skip(0) =~= s);
            assert(s.last() == s[s.len() - 1]);
            assert(has_open_tail(s, t));
        } else {
            let rest = s.skip(p + 1int);
            lemma_one_line_per_segment(rest, t);
            let head = s.take(p as int);
            assert(s =~= head + (seq![t] + rest));
            lemma_count_concat(head, seq![t] + rest, t);
            lemma_count_concat(seq![t], rest, t);
            assert(seq![t].drop_first() =~= Seq::<u8>::empty());
            assert(count_of(Seq::<u8>::empty(), t) == 0);
            assert(count_of(seq![t], t) == 1);
            lemma_count_free(head, t);
            let ls = lines_of(s, t);
            assert(ls =~= seq![head] + lines_of(rest, t));
            assert forall|i: int, j: int|
                0 <= i < ls.len() && 0 <= j < ls[i].len() implies #[trigger] ls[i][j] != t by {
                if i > 0 {
                    assert(ls[i] == lines_of(rest, t)[i - 1]);
                }
            }
            if rest.len() > 0 {
                assert(rest.last() == s.last());
            } else {
                assert(s.last() == s[p as int]);
            }
            assert(has_open_tail(s, t) == has_open_tail(rest, t));
            if has_open_tail(s, t) {
                let n = lines_of(rest, t).last().len();
                assert(rest.skip(rest.len() - n) =~= s.skip(s.len() - n));
            }
        }
    }
}

/// Splits `buf` into its lines at the terminator `t`.
pub fn split_lines(buf: &[u8], t: u8) -> (r: Vec<Vec<u8>>)
    ensures
        views(r@) == lines_of(buf@, t),
{
    let mut out: Vec<Vec<u8>> = Vec::new();
    let mut cur: Vec<u8> = Vec::new();
    let mut start: usize = 0;
    let mut i: usize = 0;
    proof {
        assert(buf@.skip(0) =~= buf@);
        assert(views(out@) + lines_of(buf@, t) =~= lines_of(buf@, t));
    }
    while i < buf.len()
        invariant
            start <= i <= buf@.len(),
            cur@ == buf@.subrange(start as int, i as int),
            forall|j: int| start <= j < i ==> buf@[j] != t,
            views(out@) + lines_of(buf@.skip(start as int), t) == lines_of(buf@, t),
        decreases buf@.len() - i,
    {
        if buf[i] == t {
            proof {
                let rest = buf@.skip(start as int);
                let k = (i - start) as nat;
                assert forall|j: int| 0 <= j < k implies rest[j] != t by {
                    assert(rest[j] == buf@[start + j]);
                }
                lemma_prefix_len_is(rest, t, k);
                assert(rest.take(k as int) =~= cur@);
                assert(rest.skip(k + 1int) =~= buf@.skip(i + 1));
                assert(lines_of(rest, t) == seq![cur@] + lines_of(buf@.skip(i + 1), t));
                assert(views(out@.push(cur)) =~= views(out@).push(cur@));
                assert(views(out@).push(cur@) + lines_of(buf@.skip(i + 1), t) =~= views(out@)
                    + lines_of(rest, t));
            }
            out.push(cur);
            cur = Vec::new();
            start = i + 1;
        } else {
            cur.push(buf[i]);
        }
        i = i + 1;
        proof {
            assert(cur@ =~= buf@.subrange(start as int, i as int));
        }
    }
    let ghost rest = buf@.skip(start as int);
    if start < buf.len() {
        proof {
            assert forall|j: int| 0 <= j < rest.len() implies rest[j] != t by {
                assert(rest[j] == buf@[start + j]);
            }
            lemma_prefix_len_is(rest, t, rest.len());
            assert(cur@ =~= rest);
            assert(lines_of(rest, t) == seq![rest]);
            assert(views(out@.push(cur)) =~= views(out@) + seq![rest]);
        }
        out.push(cur);
    } else {
        proof {
            assert(lines_of(rest, t) =~= seq![]);
            assert(views(out@) + lines_of(rest, t) =~= views(out@));
        }
    }
    out
}

} // verus!
