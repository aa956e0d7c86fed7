//! Reading the small text values that the system's device metadata exposes:
//! a single decimal number or a flag, surrounded by ASCII whitespace.
use vstd::prelude::*;

verus! {

/// ASCII whitespace: space, tab, line feed, vertical tab, form feed, carriage return.
pub open spec fn is_space(b: u8) -> bool {
    b == 0x20u8 || (0x09u8 <= b && b <= 0x0du8)
}

pub open spec fn is_digit(b: u8) -> bool {
    0x30u8 <= b && b <= 0x39u8
}

/// `s` without its leading whitespace.
pub open spec fn trim_front(s: Seq<u8>) -> Seq<u8>
    decreases s.len(),
{
    if s.len() > 0 && is_space(s[0]) {
        trim_front(s.drop_first())
    } else {
        s
    }
}

/// `s` without its trailing whitespace.
pub open spec fn trim_back(s: Seq<u8>) -> Seq<u8>
    decreases s.len(),
{
    if s.len() > 0 && is_space(s.last()) {
        trim_back(s.drop_last())
    } else {
        s
    }
}

/// `s` without leading and trailing whitespace.
pub open spec fn trimmed(s: Seq<u8>) -> Seq<u8> {
    trim_back(trim_front(s))
}

/// A non-empty run of decimal digits.
pub open spec fn is_decimal(s: Seq<u8>) -> bool {
    s.len() > 0 && forall|i: int| 0 <= i < s.len() ==> is_digit(#[trigger] s[i])
}

/// The number that a run of decimal digits writes, most significant digit first.
pub open spec fn decimal_value(s: Seq<u8>) -> nat
    decreases s.len(),
{
    if s.len() == 0 {
        0
    } else {
        decimal_value(s.drop_last()) * 10 + (s.last() - 0x30u8) as nat
    }
}

/// The number that an attribute holds: one run of digits between optional
/// whitespace, whose value fits in `usize`.
pub open spec fn attribute_number(s: Seq<u8>) -> Option<nat> {
    let t = trimmed(s);
    if is_decimal(t) && decimal_value(t) <= usize::MAX {
        Some(decimal_value(t))
    } else {
        None
    }
}

/// A flag attribute is set when it holds `1` between optional whitespace.
pub open spec fn attribute_flag(s: Seq<u8>) -> bool {
    trimmed(s) == seq![0x31u8]
}

proof fn lemma_trim_front(s: Seq<u8>, i: int)
    requires
        0 <= i <= s.len(),
        forall|k: int| 0 <= k < i ==> is_space(#[trigger] s[k]),
        i == s.len() || !is_space(s[i]),
    ensures
        trim_front(s) == s.subrange(i, s.len() as int),
    decreases i,
{
    if i == 0 {
        assert(s.subrange(0, s.len() as int) =~= s);
    } else {
        let t = s.drop_first();
        assert forall|k: int| 0 <= k < i - 1 implies is_space(#[trigger] t[k]) by {
            assert(t[k] == s[k + 1]);
        }
        if i < s.len() {
            assert(t[i - 1] == s[i]);
        }
        lemma_trim_front(t, i - 1);
        assert(t.subrange(i - 1, t.len() as int) =~= s.subrange(i, s.len() as int));
    }
}

proof fn lemma_trim_back(s: Seq<u8>, j: int)
    requires
        0 <= j <= s.len(),
        forall|k: int| j <= k < s.len() ==> is_space(#[trigger] s[k]),
        j == 0 || !is_space(s[j - 1]),
    ensures
        trim_back(s) == s.subrange(0, j),
    decreases s.len() - j,
{
    if j == s.len() {
        assert(s.subrange(0, j) =~= s);
    } else {
        let t = s.drop_last();
        assert forall|k: int| j <= k < t.len() implies is_space(#[trigger] t[k]) by {
            assert(t[k] == s[k]);
        }
        if j > 0 {
            assert(t[j - 1] == s[j - 1]);
        }
        lemma_trim_back(t, j);
        assert(t.subrange(0, j) =~= s.subrange(0, j));
    }
}

/// A prefix of a run of digits never writes a larger number than the whole run.
proof fn lemma_prefix_value(s: Seq<u8>, m: int)
    requires
        0 <= m <= s.len(),
    ensures
        decimal_value(s.subrange(0, m)) <= decimal_value(s),
    decreases s.len(),
{
    if m == s.len() {
        assert(s.subrange(0, m) =~= s);
    } else {
        let t = s.drop_last();
        lemma_prefix_value(t, m);
        assert(t.subrange(0, m) =~= s.subrange(0, m));
    }
}

/// Positions `(start, end)` such that `b[start..end]` is `b` without leading
/// and trailing whitespace.
pub fn trim_bounds(b: &[u8]) -> (r: (usize, usize))
    ensures
        r.0 <= r.1 <= b@.len(),
        trimmed(b@) == b@.subrange(r.0 as int, r.1 as int),
{
    let n = b.len();
    let mut i: usize = 0;
    while i < n && (b[i] == 0x20u8 || (0x09u8 <= b[i] && b[i] <= 0x0du8))
        invariant
            i <= n,
            n == b@.len(),
            forall|k: int| 0 <= k < i ==> is_space(#[trigger] b@[k]),
        decreases n - i,
    {
        i = i + 1;
    }
    let mut j: usize = n;
    while j > i && (b[j - 1] == 0x20u8 || (0x09u8 <= b[j - 1] && b[j - 1] <= 0x0du8))
        invariant
            i <= j <= n,
            n == b@.len(),
            forall|k: int| j <= k < n ==> is_space(#[trigger] b@[k]),
        decreases j,
    {
        j = j - 1;
    }
    proof {
        lemma_trim_front(b@, i as int);
        let t = b@.subrange(i as int, n as int);
        assert forall|k: int| j - i <= k < t.len() implies is_space(#[trigger] t[k]) by {
            assert(t[k] == b@[k + i]);
        }
        if j > i {
            assert(t[j - i - 1] == b@[j - 1]);
        }
        lemma_trim_back(t, j - i);
        assert(t.subrange(0, j - i) =~= b@.subrange(i as int, j as int));
    }
    (i, j)
}

/// Reads a numeric attribute: `None` unless it is one run of decimal digits,
/// between optional whitespace, whose value fits in `usize`.
pub fn parse_number(b: &[u8]) -> (r: Option<usize>)
    ensures
        match r {
            Some(v) => attribute_number(b@) == Some(v as nat),
            None => attribute_number(b@) is None,
        },
{
    let (start, end) = trim_bounds(b);
    let ghost t = b@.subrange(start as int, end as int);
    if start == end {
        return None;
    }
    let mut acc: usize = 0;
    let mut k: usize = start;
    while k < end
        invariant
            start <= k <= end,
            end <= b@.len(),
            t == b@.subrange(start as int, end as int),
            trimmed(b@) == t,
            forall|m: int| 0 <= m < k - start ==> is_digit(#[trigger] t[m]),
            acc as nat == decimal_value(t.subrange(0, k - start)),
        decreases end - k,
    {
        let c = b[k];
        if !(0x30u8 <= c && c <= 0x39u8) {
            assert(!is_digit(t[k - start]));
            return None;
        }
        let d = (c - 0x30u8) as usize;
        let ghost p = t.subrange(0, k - start + 1);
        assert(p.drop_last() =~= t.subrange(0, k - start));
        assert(p.last() == c);
        if acc > (usize::MAX - d) / 10 {
            proof {
                assert(acc * 10 + d > usize::MAX) by (nonlinear_arith)
                    requires acc > (usize::MAX - d) / 10, d <= 9;
                if is_decimal(t) {
                    lemma_prefix_value(t, k - start + 1);
                }
            }
            return None;
        }
        assert(acc * 10 + d <= usize::MAX) by (nonlinear_arith)
            requires acc <= (usize::MAX - d) / 10, d <= 9;
        acc = acc * 10 + d;
        k = k + 1;
    }
    assert(t.subrange(0, end - start) =~= t);
    Some(acc)
}

/// Reads a flag attribute: true when it holds `1` between optional whitespace.
pub fn parse_flag(b: &[u8]) -> (r: bool)
    ensures
        r == attribute_flag(b@),
{
    let (start, end) = trim_bounds(b);
    let ghost t = b@.subrange(start as int, end as int);
    if end - start == 1 && b[start] == 0x31u8 {
        assert(t =~= seq![0x31u8]);
        true
    } else {
        assert(t.len() != 1 || t[0] != 0x31u8);
        false
    }
}

} // verus!
