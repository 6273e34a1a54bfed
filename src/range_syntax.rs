//! Reading field ranges from their textual form (`2`, `2..`, `..3`, `1..-1`,
//! several joined by commas).
use vstd::prelude::*;

use crate::field::FieldRange;

verus! {

pub open spec fn is_digit(c: char) -> bool {
    '0' <= c && c <= '9'
}

/// Length of the run of decimal digits that starts `s`.
pub open spec fn digit_run(s: Seq<char>) -> nat
    decreases s.len(),
{
    if s.len() > 0 && is_digit(s[0]) { 1 + digit_run(s.drop_first()) } else { 0 }
}

/// Length of the number (`-?[0-9]+`) that starts `s`, 0 if there is none.
pub open spec fn num_len(s: Seq<char>) -> nat {
    if s.len() > 0 && s[0] == '-' {
        let d = digit_run(s.drop_first());
        if d > 0 { d + 1 } else { 0 }
    } else {
        digit_run(s)
    }
}

/// Value of a run of decimal digits.
pub open spec fn dec_value(s: Seq<char>) -> int
    decreases s.len(),
{
    if s.len() == 0 { 0 } else { dec_value(s.drop_last()) * 10 + (s.last() as int - '0' as int) }
}

/// Value of a number token, or `default` when it does not fit an `i32`.
pub open spec fn num_value(tok: Seq<char>, default: i32) -> i32 {
    let v = if tok.len() > 0 && tok[0] == '-' { -dec_value(tok.drop_first()) } else { dec_value(tok) };
    if i32::MIN <= v <= i32::MAX { v as i32 } else { default }
}

/// The range that `s` spells, as `(-?[0-9]+)?(..)?(-?[0-9]+)?` taken whole;
/// an unreadable left bound counts as 1, an unreadable right bound as -1.
pub open spec fn parse_range(s: Seq<char>) -> Option<FieldRange> {
    let l = num_len(s);
    let r1 = s.skip(l as int);
    let sep = r1.len() >= 2 && r1[0] == '.' && r1[1] == '.';
    let r2 = if sep { r1.skip(2) } else { r1 };
    let rl = num_len(r2);
    if rl != r2.len() {
        None
    } else if l == 0 && rl == 0 {
        Some(FieldRange::RightInf(0))
    } else if rl == 0 {
        let left = num_value(s.take(l as int), 1);
        if sep { Some(FieldRange::RightInf(left)) } else { Some(FieldRange::Single(left)) }
    } else if l == 0 {
        let right = num_value(r2, -1i32);
        if sep { Some(FieldRange::LeftInf(right)) } else { Some(FieldRange::Single(right)) }
    } else {
        Some(FieldRange::Both(num_value(s.take(l as int), 1), num_value(r2, -1i32)))
    }
}

/// The state after reading `s` from a comma-separated list: the ranges
/// read so far and the text of the entry not yet closed.
pub open spec fn scan_list(s: Seq<char>) -> (Seq<FieldRange>, Seq<char>)
    decreases s.len(),
{
    if s.len() == 0 {
        (seq![], seq![])
    } else {
        let (done, cur) = scan_list(s.drop_last());
        if s.last() == ',' {
            (done + opt_seq(parse_range(cur)), seq![])
        } else {
            (done, cur.push(s.last()))
        }
    }
}

pub open spec fn opt_seq(r: Option<FieldRange>) -> Seq<FieldRange> {
    match r {
        Some(f) => seq![f],
        None => seq![],
    }
}

/// The ranges of a comma-separated list; entries that do not read as a
/// range are dropped.
pub open spec fn parse_list(s: Seq<char>) -> Seq<FieldRange> {
    scan_list(s).0 + opt_seq(parse_range(scan_list(s).1))
}

proof fn lemma_digit_run_is(s: Seq<char>, k: nat)
    requires
        k <= s.len(),
        forall|j: int| 0 <= j < k ==> is_digit(#[trigger] s[j]),
        k < s.len() ==> !is_digit(s[k as int]),
    ensures
        digit_run(s) == k,
    decreases s.len(),
{
    if k > 0 {
        assert forall|j: int| 0 <= j < (k - 1) as nat implies is_digit(#[trigger] s.drop_first()[j]) by {
            assert(s.drop_first()[j] == s[j + 1]);
        }
        lemma_digit_run_is(s.drop_first(), (k - 1) as nat);
    }
}

fn copy_from(s: &Vec<char>, from: usize) -> (r: Vec<char>)
    requires
        from <= s@.len(),
    ensures
        r@ == s@.skip(from as int),
{
    let mut out: Vec<char> = Vec::new();
    let mut i: usize = from;
    while i < s.len()
        invariant
            from <= i <= s@.len(),
            out@ == s@.subrange(from as int, i as int),
        decreases s@.len() - i,
    {
        out.push(s[i]);
        i = i + 1;
        proof {
            assert(out@ =~= s@.subrange(from as int, i as int));
        }
    }
    proof {
        assert(out@ =~= s@.skip(from as int));
    }
    out
}

const CAP: i64 = 2147483648;

/// Reads the number that starts `s`: its length (0 if none) and its value,
/// or `default` when it does not fit an `i32`.
fn take_number(s: &Vec<char>, default: i32) -> (r: (usize, i32))
    ensures
        r.0 == num_len(s@),
        r.0 <= s@.len(),
        r.0 > 0 ==> r.1 == num_value(s@.take(r.0 as int), default),
{
    let neg = s.len() > 0 && s[0] == '-';
    let start: usize = if neg { 1 } else { 0 };
    let mut k: usize = start;
    let mut v: i64 = 0;
    let mut over = false;
    let ghost body = s@.skip(start as int);
    while k < s.len() && '0' <= s[k] && s[k] <= '9'
        invariant
            start <= k <= s@.len(),
            body == s@.skip(start as int),
            forall|j: int| start <= j < k ==> is_digit(#[trigger] s@[j]),
            !over ==> v == dec_value(s@.subrange(start as int, k as int)) && 0 <= v <= CAP,
            over ==> dec_value(s@.subrange(start as int, k as int)) > CAP,
        decreases s@.len() - k,
    {
        let d = (s[k] as u32 - '0' as u32) as i64;
        let ghost prev = s@.subrange(start as int, k as int);
        let ghost next = s@.subrange(start as int, k + 1);
        proof {
            assert(next.drop_last() =~= prev);
            assert(next.last() == s@[k as int]);
        }
        if !over {
            if v > (CAP - d) / 10 {
                over = true;
            } else {
                v = v * 10 + d;
            }
        }
        k = k + 1;
    }
    let n = k - start;
    proof {
        assert forall|j: int| 0 <= j < n implies is_digit(#[trigger] body[j]) by {
            assert(body[j] == s@[start + j]);
        }
        if k < s@.len() {
            assert(body[n as int] == s@[k as int]);
        }
        lemma_digit_run_is(body, n as nat);
        if neg {
            assert(body =~= s@.drop_first());
        } else {
            assert(body =~= s@);
        }
    }
    if n == 0 {
        return (0, default);
    }
    let len = k;
    proof {
        let tok = s@.take(len as int);
        assert(s@.subrange(start as int, k as int) =~= if neg { tok.drop_first() } else { tok });
    }
    if over {
        (len, default)
    } else if neg {
        (len, (-v) as i32)
    } else if v <= 2147483647 {
        (len, v as i32)
    } else {
        (len, default)
    }
}

/// Reads one range from its textual form; `None` when it is malformed.
pub fn parse_field_range(s: &Vec<char>) -> (r: Option<FieldRange>)
    ensures
        r == parse_range(s@),
{
    let (l, left) = take_number(s, 1);
    let r1 = copy_from(s, l);
    let sep = r1.len() >= 2 && r1[0] == '.' && r1[1] == '.';
    let r2 = if sep { copy_from(&r1, 2) } else { r1 };
    let (rl, right) = take_number(&r2, -1);
    proof {
        if rl == r2@.len() {
            assert(r2@.take(rl as int) =~= r2@);
        }
    }
    if rl != r2.len() {
        None
    } else if l == 0 && rl == 0 {
        Some(FieldRange::RightInf(0))
    } else if rl == 0 {
        if sep { Some(FieldRange::RightInf(left)) } else { Some(FieldRange::Single(left)) }
    } else if l == 0 {
        if sep { Some(FieldRange::LeftInf(right)) } else { Some(FieldRange::Single(right)) }
    } else {
        Some(FieldRange::Both(left, right))
    }
}

/// Reads a comma-separated list of ranges, dropping entries that are
/// malformed.
pub fn parse_field_ranges(s: &str) -> (r: Vec<FieldRange>)
    ensures
        r@ == parse_list(s@),
{
    let n = s.unicode_len();
    let mut done: Vec<FieldRange> = Vec::new();
    let mut cur: Vec<char> = Vec::new();
    let mut i: usize = 0;
    while i < n
        invariant
            n == s@.len(),
            i <= n,
            (done@, cur@) == scan_list(s@.take(i as int)),
        decreases n - i,
    {
        let c = s.get_char(i);
        proof {
            let p = s@.take(i + 1);
            assert(p.drop_last() =~= s@.take(i as int));
            assert(p.last() == c);
        }
        if c == ',' {
            match parse_field_range(&cur) {
                Some(f) => {
                    done.push(f);
                },
                None => {},
            }
            proof {
                assert(done@ =~= scan_list(s@.take(i + 1)).0);
            }
            cur = Vec::new();
            proof {
                assert(cur@ =~= scan_list(s@.take(i + 1)).1);
            }
        } else {
            cur.push(c);
        }
        i = i + 1;
    }
    proof {
        assert(s@.take(n as int) =~= s@);
    }
    match parse_field_range(&cur) {
        Some(f) => {
            done.push(f);
        },
        None => {},
    }
    proof {
        assert(done@ =~= parse_list(s@));
    }
    done
}

} // verus!
