//! Reading a relevance rating typed by a person.
use crate::text::{chars_of, is_whitespace_char, is_ws};
use vstd::prelude::*;

verus! {

/// What a typed answer to the rating prompt means.
#[derive(Debug, Clone, Copy, PartialEq, Eq, Structural)]
pub enum RatingAnswer {
    /// The answer was `/q`: the item is skipped.
    Skip,
    /// A rating from 1 to 5.
    Rating(u64),
    /// A number outside 1 to 5.
    OutOfRange,
    /// Not a number.
    NotANumber,
}

/// The lowest accepted rating.
pub const MIN_RATING: u64 = 1;

/// The highest accepted rating.
pub const MAX_RATING: u64 = 5;

/// Number of leading whitespace characters of `s`.
pub open spec fn leading_ws(s: Seq<char>) -> nat
    decreases s.len(),
{
    if s.len() > 0 && is_ws(s[0]) {
        1 + leading_ws(s.drop_first())
    } else {
        0
    }
}

/// Number of trailing whitespace characters of `s`.
pub open spec fn trailing_ws(s: Seq<char>) -> nat
    decreases s.len(),
{
    if s.len() > 0 && is_ws(s.last()) {
        1 + trailing_ws(s.drop_last())
    } else {
        0
    }
}

/// `s` without leading and trailing whitespace.
pub open spec fn trimmed(s: Seq<char>) -> Seq<char> {
    let front = s.subrange(leading_ws(s) as int, s.len() as int);
    front.subrange(0, front.len() - trailing_ws(front))
}

/// Whether `c` is an ASCII digit.
pub open spec fn is_digit(c: char) -> bool {
    '0' <= c && c <= '9'
}

/// The value of a string of ASCII digits.
pub open spec fn digits_value(s: Seq<char>) -> nat
    decreases s.len(),
{
    if s.len() == 0 {
        0
    } else {
        digits_value(s.drop_last()) * 10 + ((s.last() as u32) - ('0' as u32)) as nat
    }
}

/// `t` without a leading `+`.
pub open spec fn unsigned_digits(t: Seq<char>) -> Seq<char> {
    if t.len() > 0 && t[0] == '+' {
        t.drop_first()
    } else {
        t
    }
}

/// The unsigned integer written by `t`: an optional `+`, then one or more
/// ASCII digits, of a value that fits in 64 bits.
pub open spec fn u64_value(t: Seq<char>) -> Option<nat> {
    let d = unsigned_digits(t);
    if d.len() > 0 && (forall|i: int| 0 <= i < d.len() ==> is_digit(#[trigger] d[i]))
        && digits_value(d) <= u64::MAX {
        Some(digits_value(d))
    } else {
        None
    }
}

/// The meaning of an answer: `/q` skips, a number from 1 to 5 is a rating,
/// another number is out of range, anything else is not a number. Leading
/// and trailing whitespace is ignored.
pub open spec fn answer_of(s: Seq<char>) -> RatingAnswer {
    let t = trimmed(s);
    if t == seq!['/', 'q'] {
        RatingAnswer::Skip
    } else {
        match u64_value(t) {
            Some(v) => if MIN_RATING <= v <= MAX_RATING {
                RatingAnswer::Rating(v as u64)
            } else {
                RatingAnswer::OutOfRange
            },
            None => RatingAnswer::NotANumber,
        }
    }
}

fn trim_chars(s: &Vec<char>) -> (r: Vec<char>)
    ensures
        r@ == trimmed(s@),
{
    let n = s.len();
    let mut start: usize = 0;
    assert(s@.subrange(0, n as int) =~= s@);
    while start < n && is_whitespace_char(s[start])
        invariant
            n == s@.len(),
            start <= n,
            leading_ws(s@) == start + leading_ws(s@.subrange(start as int, n as int)),
        decreases n - start,
    {
        proof {
            let rest = s@.subrange(start as int, n as int);
            assert(rest.drop_first() =~= s@.subrange(start + 1, n as int));
        }
        start += 1;
    }
    let ghost front = s@.subrange(start as int, n as int);
    proof {
        assert(s@.subrange(0, n as int) =~= s@);
        if start < n {
            assert(front[0] == s@[start as int]);
        }
    }
    let mut end: usize = n;
    while end > start && is_whitespace_char(s[end - 1])
        invariant
            n == s@.len(),
            start <= end <= n,
            front == s@.subrange(start as int, n as int),
            trailing_ws(front) == (n - end) + trailing_ws(s@.subrange(start as int, end as int)),
        decreases end - start,
    {
        proof {
            let cur = s@.subrange(start as int, end as int);
            assert(cur.drop_last() =~= s@.subrange(start as int, end - 1));
            assert(cur.last() == s@[end - 1]);
        }
        end -= 1;
    }
    proof {
        let cur = s@.subrange(start as int, end as int);
        if end > start {
            assert(cur.last() == s@[end - 1]);
        }
        assert(trailing_ws(cur) == 0);
        assert(front.subrange(0, front.len() - trailing_ws(front)) =~= cur);
    }
    let mut r: Vec<char> = Vec::new();
    let mut i: usize = start;
    while i < end
        invariant
            start <= i <= end <= n,
            n == s@.len(),
            r@ =~= s@.subrange(start as int, i as int),
        decreases end - i,
    {
        r.push(s[i]);
        i += 1;
    }
    r
}

/// The value written by `t`, as `u64_value` reads it.
fn read_u64(t: &Vec<char>) -> (r: Option<u64>)
    ensures
        match r {
            Some(v) => u64_value(t@) == Some(v as nat),
            None => u64_value(t@) is None,
        },
{
    let start: usize = if t.len() > 0 && t[0] == '+' {
        1
    } else {
        0
    };
    let ghost d = unsigned_digits(t@);
    proof {
        if start == 1 {
            assert(d =~= t@.subrange(1, t@.len() as int));
        } else {
            assert(d =~= t@.subrange(0, t@.len() as int));
        }
    }
    if start >= t.len() {
        return None;
    }
    let mut value: u64 = 0;
    let mut i: usize = start;
    assert(d.subrange(0, 0) =~= Seq::<char>::empty());
    while i < t.len()
        invariant
            start <= i <= t@.len(),
            d == t@.subrange(start as int, t@.len() as int),
            d == unsigned_digits(t@),
            forall|j: int| 0 <= j < i - start ==> is_digit(#[trigger] d[j]),
            value == digits_value(d.subrange(0, i - start)),
        decreases t@.len() - i,
    {
        let c = t[i];
        if !('0' <= c && c <= '9') {
            proof {
                assert(d[i - start] == c);
                assert(!is_digit(d[i - start]));
                assert(!(forall|j: int| 0 <= j < d.len() ==> is_digit(#[trigger] d[j])));
                assert(u64_value(t@) is None);
            }
            return None;
        }
        let digit = (c as u32 - '0' as u32) as u64;
        proof {
            let next = d.subrange(0, i - start + 1);
            assert(next.drop_last() =~= d.subrange(0, i - start));
            assert(next.last() == c);
        }
        if value > (u64::MAX - digit) / 10 {
            proof {
                let next = d.subrange(0, i - start + 1);
                assert(digits_value(next) > u64::MAX) by (nonlinear_arith)
                    requires
                        digits_value(next) == value * 10 + digit,
                        value > (u64::MAX - digit) / 10,
                        digit <= 9,
                ;
                if forall|j: int| 0 <= j < d.len() ==> is_digit(#[trigger] d[j]) {
                    lemma_digits_value_grows(d, i - start + 1);
                }
                assert(u64_value(t@) is None);
            }
            return None;
        }
        value = value * 10 + digit;
        i += 1;
    }
    assert(d.subrange(0, d.len() as int) =~= d);
    Some(value)
}

proof fn lemma_digits_value_grows(d: Seq<char>, k: int)
    requires
        0 <= k <= d.len(),
        forall|j: int| 0 <= j < d.len() ==> is_digit(#[trigger] d[j]),
    ensures
        digits_value(d) >= digits_value(d.subrange(0, k)),
    decreases d.len() - k,
{
    if k < d.len() {
        lemma_digits_value_grows(d, k + 1);
        let next = d.subrange(0, k + 1);
        assert(next.drop_last() =~= d.subrange(0, k));
        assert(is_digit(next.last()));
    } else {
        assert(d.subrange(0, k) =~= d);
    }
}

/// The meaning of an answer typed at the rating prompt.
pub fn parse_rating(answer: &str) -> (r: RatingAnswer)
    ensures
        r == answer_of(answer@),
{
    let t = trim_chars(&chars_of(answer));
    if t.len() == 2 && t[0] == '/' && t[1] == 'q' {
        assert(t@ =~= seq!['/', 'q']);
        return RatingAnswer::Skip;
    }
    assert(t@ != seq!['/', 'q']);
    match read_u64(&t) {
        Some(v) => {
            if MIN_RATING <= v && v <= MAX_RATING {
                RatingAnswer::Rating(v)
            } else {
                RatingAnswer::OutOfRange
            }
        },
        None => RatingAnswer::NotANumber,
    }
}

} // verus!
