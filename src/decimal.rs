use vstd::prelude::*;
use vstd::string::StrSliceExecFns;

verus! {

pub open spec fn is_digit(c: char) -> bool {
    '0' <= c && c <= '9'
}

pub open spec fn digit_value(c: char) -> nat {
    (c as nat - '0' as nat) as nat
}

/// The value of a string of decimal digits.
pub open spec fn digits_value(s: Seq<char>) -> nat
    decreases s.len(),
{
    if s.len() == 0 {
        0
    } else {
        10 * digits_value(s.drop_last()) + digit_value(s.last())
    }
}

/// The digits of an unsigned decimal: the text without its one optional leading `+`.
pub open spec fn unsigned_digits(s: Seq<char>) -> Seq<char> {
    if s.len() > 0 && s[0] == '+' {
        s.drop_first()
    } else {
        s
    }
}

/// The value that `u128`'s decimal parsing gives for `s`: an optional `+`,
/// then one or more digits, with a value that fits in a `u128`.
pub open spec fn parsed_u128(s: Seq<char>) -> Option<u128> {
    let d = unsigned_digits(s);
    if d.len() > 0 && (forall|i: int| 0 <= i < d.len() ==> is_digit(#[trigger] d[i]))
        && digits_value(d) <= u128::MAX {
        Some(digits_value(d) as u128)
    } else {
        None
    }
}

/// Parses an amount written in decimal, as `str::parse::<u128>` does.
pub fn parse_u128(s: &str) -> (r: Option<u128>)
    ensures
        r == parsed_u128(s@),
{
    let n = s.unicode_len();
    let mut start: usize = 0;
    if n > 0 && s.get_char(0) == '+' {
        start = 1;
    }
    let ghost d = unsigned_digits(s@);
    assert(d =~= s@.subrange(start as int, n as int));
    if start >= n {
        return None;
    }
    let mut v: u128 = 0;
    let mut i: usize = start;
    while i < n
        invariant
            start <= i <= n,
            n == s@.len(),
            d =~= s@.subrange(start as int, n as int),
            d == unsigned_digits(s@),
            forall|j: int| 0 <= j < i - start ==> is_digit(#[trigger] d[j]),
            v as nat == digits_value(d.subrange(0, i - start)),
        decreases n - i,
    {
        let c = s.get_char(i);
        proof {
            assert(d.subrange(0, i - start + 1).drop_last() =~= d.subrange(0, i - start));
            assert(d[i - start] == c);
        }
        if c < '0' || c > '9' {
            assert(!is_digit(d[i - start]));
            return None;
        }
        let dv = (c as u32 - '0' as u32) as u128;
        assert(dv as nat == digit_value(c));
        if v > (u128::MAX - dv) / 10 {
            assert(10 * v + dv > u128::MAX) by (nonlinear_arith)
                requires
                    v > (u128::MAX - dv) / 10,
                    dv <= 9,
            ;
            proof {
                lemma_digits_too_large(d, (i - start) as int);
            }
            return None;
        }
        v = v * 10 + dv;
        i = i + 1;
    }
    assert(d.subrange(0, n - start) =~= d);
    Some(v)
}

proof fn lemma_digits_grow(d: Seq<char>, k: int, m: int)
    requires
        0 <= k <= m <= d.len(),
        forall|j: int| 0 <= j < d.len() ==> is_digit(#[trigger] d[j]),
    ensures
        digits_value(d.subrange(0, k)) <= digits_value(d.subrange(0, m)),
    decreases m - k,
{
    if k < m {
        lemma_digits_grow(d, k, m - 1);
        assert(d.subrange(0, m).drop_last() =~= d.subrange(0, m - 1));
    }
}

proof fn lemma_digits_too_large(d: Seq<char>, k: int)
    requires
        0 <= k < d.len(),
        10 * digits_value(d.subrange(0, k)) + digit_value(d[k]) > u128::MAX,
    ensures
        !((forall|j: int| 0 <= j < d.len() ==> is_digit(#[trigger] d[j])) && digits_value(d)
            <= u128::MAX),
{
    if forall|j: int| 0 <= j < d.len() ==> is_digit(#[trigger] d[j]) {
        assert(d.subrange(0, k + 1).drop_last() =~= d.subrange(0, k));
        lemma_digits_grow(d, k + 1, d.len() as int);
        assert(d.subrange(0, d.len() as int) =~= d);
    }
}

} // verus!
