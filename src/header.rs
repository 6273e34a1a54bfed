//! The fixed header shown above (or below) the list of items.
use vstd::prelude::*;

use vstd::string::{StrSliceExecFns, StringSliceAdditionalSpecFns};

use crate::lines::{lines_of, split_lines, views};
use crate::range_syntax::{dec_value, digit_run, is_digit};

verus! {

/// The value that `s` spells as an unsigned decimal (an optional `+`, then
/// digits), when it fits a `usize`.
pub open spec fn parse_usize(s: Seq<char>) -> Option<nat> {
    let body = if s.len() > 0 && s[0] == '+' { s.drop_first() } else { s };
    if body.len() > 0 && digit_run(body) == body.len() && dec_value(body) <= usize::MAX {
        Some(dec_value(body) as nat)
    } else {
        None
    }
}

/// The tab width that an option text asks for: its value, at least 1, or 8
/// when it does not read as a number.
pub open spec fn tabstop_of(s: Seq<char>) -> nat {
    match parse_usize(s) {
        Some(n) => if n == 0 { 1 } else { n },
        None => 8,
    }
}

proof fn lemma_digits_all(s: Seq<char>)
    requires
        forall|j: int| 0 <= j < s.len() ==> is_digit(#[trigger] s[j]),
    ensures
        digit_run(s) == s.len(),
    decreases s.len(),
{
    if s.len() > 0 {
        assert forall|j: int| 0 <= j < s.drop_first().len() implies is_digit(#[trigger] s.drop_first()[j]) by {
            assert(s.drop_first()[j] == s[j + 1]);
        }
        lemma_digits_all(s.drop_first());
    }
}

proof fn lemma_digits_stop(s: Seq<char>, k: int)
    requires
        0 <= k < s.len(),
        !is_digit(s[k]),
    ensures
        digit_run(s) <= k,
    decreases s.len(),
{
    if k > 0 && s.len() > 0 && is_digit(s[0]) {
        assert(s.drop_first()[k - 1] == s[k]);
        lemma_digits_stop(s.drop_first(), k - 1);
    }
}

proof fn lemma_dec_nonneg(s: Seq<char>)
    requires
        forall|j: int| 0 <= j < s.len() ==> is_digit(#[trigger] s[j]),
    ensures
        dec_value(s) >= 0,
    decreases s.len(),
{
    if s.len() > 0 {
        assert forall|j: int| 0 <= j < s.drop_last().len() implies is_digit(#[trigger] s.drop_last()[j]) by {
            assert(s.drop_last()[j] == s[j]);
        }
        lemma_dec_nonneg(s.drop_last());
        assert(is_digit(s[s.len() - 1]));
    }
}

proof fn lemma_dec_grows(s: Seq<char>, k: int)
    requires
        0 <= k <= s.len(),
        forall|j: int| 0 <= j < s.len() ==> is_digit(#[trigger] s[j]),
    ensures
        dec_value(s.take(k)) <= dec_value(s),
    decreases s.len() - k,
{
    if k < s.len() {
        let n = s.take(k + 1);
        assert(n.drop_last() =~= s.take(k));
        assert(is_digit(n.last()));
        assert forall|j: int| 0 <= j < s.take(k).len() implies is_digit(#[trigger] s.take(k)[j]) by {
            assert(s.take(k)[j] == s[j]);
        }
        lemma_dec_nonneg(s.take(k));
        lemma_dec_grows(s, k + 1);
    } else {
        assert(s.take(k) =~= s);
    }
}

/// Reads an unsigned decimal, as `str::parse::<usize>` does.
pub fn parse_decimal(s: &str) -> (r: Option<usize>)
    ensures
        r matches Some(v) ==> parse_usize(s@) == Some(v as nat),
        r is None <==> parse_usize(s@) is None,
{
    let n = s.unicode_len();
    let start: usize = if n > 0 && s.get_char(0) == '+' { 1 } else { 0 };
    let ghost body = if s@.len() > 0 && s@[0] == '+' { s@.drop_first() } else { s@ };
    proof {
        assert(body =~= s@.skip(start as int));
    }
    if start == n {
        return None;
    }
    let mut v: usize = 0;
    let mut i: usize = start;
    while i < n
        invariant
            start <= i <= n,
            n == s@.len(),
            body == s@.skip(start as int),
            forall|j: int| start <= j < i ==> is_digit(#[trigger] s@[j]),
            v as int == dec_value(s@.subrange(start as int, i as int)),
            start == (if s@.len() > 0 && s@[0] == '+' { 1int } else { 0int }),
            body == (if s@.len() > 0 && s@[0] == '+' { s@.drop_first() } else { s@ }),
            start < n,
        decreases n - i,
    {
        let c = s.get_char(i);
        if !('0' <= c && c <= '9') {
            proof {
                assert(body[i - start] == c);
                lemma_digits_stop(body, i - start);
            }
            return None;
        }
        let d = (c as u32 - '0' as u32) as usize;
        let ghost prev = s@.subrange(start as int, i as int);
        let ghost next = s@.subrange(start as int, i + 1);
        proof {
            assert(next.drop_last() =~= prev);
            assert(next.last() == c);
        }
        if v > (usize::MAX - d) / 10 {
            proof {
                assert(v * 10 + d > usize::MAX) by (nonlinear_arith)
                    requires
                        v > (usize::MAX - d) / 10,
                        d <= 9,
                ;
                assert(is_digit(s@[i as int]));
            }
            return parse_overflowed(s, start, i, n);
        }
        v = v * 10 + d;
        i = i + 1;
    }
    proof {
        assert(s@.subrange(start as int, n as int) =~= body);
        assert forall|j: int| 0 <= j < body.len() implies is_digit(#[trigger] body[j]) by {
            assert(body[j] == s@[start + j]);
        }
        lemma_digits_all(body);
    }
    Some(v)
}

/// The rest of `parse_decimal` once the value is known to be too large for a
/// `usize`: `None` in any case, the digits still checked for the contract.
fn parse_overflowed(s: &str, start: usize, i: usize, n: usize) -> (r: Option<usize>)
    requires
        start < n,
        n == s@.len(),
        start <= i < n,
        start == (if s@.len() > 0 && s@[0] == '+' { 1int } else { 0int }),
        forall|j: int| start <= j <= i ==> is_digit(#[trigger] s@[j]),
        dec_value(s@.subrange(start as int, i + 1)) > usize::MAX,
    ensures
        r is None,
        parse_usize(s@) is None,
{
    let ghost body = if s@.len() > 0 && s@[0] == '+' { s@.drop_first() } else { s@ };
    proof {
        assert(body =~= s@.skip(start as int));
        if digit_run(body) == body.len() {
            assert forall|j: int| 0 <= j < body.len() implies is_digit(#[trigger] body[j]) by {
                lemma_digit_run_all(body, j);
            }
            lemma_dec_grows(body, i + 1 - start);
            assert(body.take(i + 1 - start) =~= s@.subrange(start as int, i + 1));
        }
    }
    None
}

proof fn lemma_digit_run_all(s: Seq<char>, j: int)
    requires
        digit_run(s) == s.len(),
        0 <= j < s.len(),
    ensures
        is_digit(s[j]),
    decreases s.len(),
{
    if j > 0 {
        assert(s.drop_first()[j - 1] == s[j]);
        lemma_digit_run_all(s.drop_first(), j - 1);
    }
}

/// Header lines given by the user, the tab width, the layout direction,
/// and the number of reserved header items still held by the item store.
pub struct Header {
    header: Vec<Vec<u8>>,
    tabstop: usize,
    reverse: bool,
    reserved: Option<usize>,
}

impl Header {
    pub closed spec fn lines_view(&self) -> Seq<Seq<u8>> {
        views(self.header@)
    }

    pub closed spec fn tabstop_view(&self) -> nat {
        self.tabstop as nat
    }

    pub closed spec fn reverse_view(&self) -> bool {
        self.reverse
    }

    pub closed spec fn reserved_view(&self) -> Option<usize> {
        self.reserved
    }

    /// No header lines, tab width 8, top-down layout, no item store.
    pub fn new() -> (r: Self)
        ensures
            r.lines_view().len() == 0,
            r.tabstop_view() == 8,
            !r.reverse_view(),
            r.reserved_view() is None,
    {
        let h = Header { header: Vec::new(), tabstop: 8, reverse: false, reserved: None };
        proof {
            assert(views(h.header@) =~= Seq::<Seq<u8>>::empty());
        }
        h
    }

    /// Reserved header items held by the store: their number, or `None`
    /// once the store is gone.
    pub fn item_pool(self, reserved: Option<usize>) -> (r: Self)
        ensures
            r.reserved_view() == reserved,
            r.lines_view() == self.lines_view(),
            r.tabstop_view() == self.tabstop_view(),
            r.reverse_view() == self.reverse_view(),
    {
        Header { reserved, ..self }
    }

    /// Number of reserved header items in the store; none once the store is
    /// gone.
    pub fn upgrade(&self) -> (r: usize)
        ensures
            r == match self.reserved_view() {
                Some(n) => n,
                None => 0,
            },
    {
        match self.reserved {
            Some(n) => n,
            None => 0,
        }
    }

    /// Applies the user's options: tab width, layout, header text.
    pub fn with_options(self, tabstop: Option<&str>, layout: &str, header: Option<&str>) -> (r: Self)
        ensures
            r.tabstop_view() == match tabstop {
                Some(t) => tabstop_of(t@),
                None => self.tabstop_view(),
            },
            r.reverse_view() == (self.reverse_view() || (layout@.len() >= 7 && layout@.take(7) =~= seq![
                'r',
                'e',
                'v',
                'e',
                'r',
                's',
                'e',
            ])),
            r.lines_view() == match header {
                Some(h) => if h@.len() == 0 { self.lines_view() } else { lines_of(h.spec_bytes(), 10u8) },
                None => self.lines_view(),
            },
            r.reserved_view() == self.reserved_view(),
    {
        let mut s = self;
        match tabstop {
            Some(t) => {
                s.tabstop = match parse_decimal(t) {
                    Some(n) => if n == 0 { 1 } else { n },
                    None => 8,
                };
            },
            None => {},
        }
        if starts_with_reverse(layout) {
            s.reverse = true;
        }
        match header {
            Some(h) => {
                if h.unicode_len() > 0 {
                    let bytes = h.as_bytes_vec();
                    s.header = split_lines(bytes.as_slice(), 10u8);
                }
            },
            None => {},
        }
        s
    }

    /// Lines the header takes: its own, plus the reserved items while the
    /// store holds them.
    pub fn lines_of_header(&self) -> (r: usize)
        requires
            self.lines_view().len() + match self.reserved_view() {
                Some(n) => n as int,
                None => 0int,
            } <= usize::MAX,
        ensures
            r == self.lines_view().len() + match self.reserved_view() {
                Some(n) => n as int,
                None => 0int,
            },
    {
        match self.reserved {
            Some(n) => self.header.len() + n,
            None => self.header.len(),
        }
    }

    /// Screen row of the header's line `index`: counted from the top in the
    /// reverse layout, from the bottom otherwise.
    pub fn adjust_row(&self, index: usize, screen_height: usize) -> (r: usize)
        requires
            index < screen_height,
        ensures
            r == if self.reverse_view() { index as int } else { screen_height - index - 1 },
    {
        if self.reverse { index } else { screen_height - index - 1 }
    }
}

fn starts_with_reverse(layout: &str) -> (r: bool)
    ensures
        r == (layout@.len() >= 7 && layout@.take(7) =~= seq!['r', 'e', 'v', 'e', 'r', 's', 'e']),
{
    let word = "reverse";
    proof {
        reveal_strlit("reverse");
    }
    if layout.unicode_len() < 7 {
        return false;
    }
    let mut i: usize = 0;
    while i < 7
        invariant
            i <= 7,
            layout@.len() >= 7,
            word@ == seq!['r', 'e', 'v', 'e', 'r', 's', 'e'],
            forall|j: int| 0 <= j < i ==> layout@[j] == word@[j],
        decreases 7 - i,
    {
        if layout.get_char(i) != word.get_char(i) {
            proof {
                assert(layout@.take(7)[i as int] != seq!['r', 'e', 'v', 'e', 'r', 's', 'e'][i as int]);
            }
            return false;
        }
        i = i + 1;
    }
    proof {
        assert(layout@.take(7) =~= seq!['r', 'e', 'v', 'e', 'r', 's', 'e']);
    }
    true
}

} // verus!
