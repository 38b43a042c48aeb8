//! Sørensen–Dice similarity over character bigrams, decided exactly against
//! the fixed threshold 3/4.
//!
//! The coefficient of two words `a` and `b` is computed on the words with all
//! whitespace removed. Equal words score 1. A word shorter than two bytes
//! scores 0 against any other word. Otherwise the score is `2 * p / (la + lb - 2)`,
//! where `la` and `lb` are the UTF-8 byte lengths and `p` is the number of
//! bigrams of `b` that can be paired one to one with equal bigrams of `a`.
//! These are the rules of `strsim::sorensen_dice`. Since that function
//! returns a float, the comparison with 3/4 is made here over integers:
//! `2 * p / d >= 3 / 4` exactly when `8 * p >= 3 * d`.
use crate::text::{is_whitespace_char, is_ws};
use vstd::prelude::*;

verus! {

/// `s` without its whitespace characters.
pub open spec fn stripped(s: Seq<char>) -> Seq<char> {
    s.filter(|c: char| !is_ws(c))
}

/// Number of bytes of `c` in UTF-8.
pub open spec fn utf8_width(c: char) -> nat {
    let u = c as u32;
    if u < 0x80 {
        1
    } else if u < 0x800 {
        2
    } else if u < 0x10000 {
        3
    } else {
        4
    }
}

/// Number of bytes of `s` in UTF-8.
pub open spec fn byte_len(s: Seq<char>) -> nat
    decreases s.len(),
{
    if s.len() == 0 {
        0
    } else {
        byte_len(s.drop_last()) + utf8_width(s.last())
    }
}

/// The adjacent character pairs of `s`, in order.
pub open spec fn bigrams(s: Seq<char>) -> Seq<(char, char)> {
    Seq::new(if s.len() > 0 { (s.len() - 1) as nat } else { 0 }, |i: int| (s[i], s[i + 1]))
}

/// Number of items of `ys` that can be paired, one to one and in order, with
/// equal items of `xs`: each item of `ys` takes the first unpaired equal item
/// of `xs`, if any.
pub open spec fn paired(xs: Seq<(char, char)>, ys: Seq<(char, char)>) -> nat
    decreases ys.len(),
{
    if ys.len() == 0 {
        0
    } else if xs.contains(ys[0]) {
        1 + paired(xs.remove_value(ys[0]), ys.drop_first())
    } else {
        paired(xs, ys.drop_first())
    }
}

/// Whether the Sørensen–Dice coefficient of `a` and `b` is at least 3/4.
pub open spec fn dice_similar(a: Seq<char>, b: Seq<char>) -> bool {
    let sa = stripped(a);
    let sb = stripped(b);
    let la = byte_len(sa);
    let lb = byte_len(sb);
    sa == sb || (la >= 2 && lb >= 2 && 8 * paired(bigrams(sa), bigrams(sb)) >= 3 * (la + lb
        - 2))
}

fn strip_whitespace(s: &Vec<char>) -> (r: Vec<char>)
    ensures
        r@ == stripped(s@),
{
    let mut r: Vec<char> = Vec::new();
    let mut i: usize = 0;
    assert(s@.subrange(0, 0) =~= Seq::<char>::empty());
    proof {
        reveal(Seq::filter);
    }
    while i < s.len()
        invariant
            i <= s@.len(),
            r@ == stripped(s@.subrange(0, i as int)),
        decreases s@.len() - i,
    {
        let c = s[i];
        proof {
            reveal(Seq::filter);
            let next = s@.subrange(0, i + 1);
            assert(next.drop_last() =~= s@.subrange(0, i as int));
            assert(next.last() == c);
            assert(stripped(next) == if !is_ws(c) {
                stripped(s@.subrange(0, i as int)).push(c)
            } else {
                stripped(s@.subrange(0, i as int))
            });
        }
        if !is_whitespace_char(c) {
            r.push(c);
        }
        i += 1;
    }
    assert(s@.subrange(0, s@.len() as int) =~= s@);
    r
}

fn utf8_width_of(c: char) -> (r: u64)
    ensures
        r == utf8_width(c),
{
    let u = c as u32;
    if u < 0x80 {
        1
    } else if u < 0x800 {
        2
    } else if u < 0x10000 {
        3
    } else {
        4
    }
}

fn byte_len_of(s: &Vec<char>) -> (r: u128)
    ensures
        r == byte_len(s@),
        r <= 4 * (usize::MAX as int),
{
    let mut r: u128 = 0;
    let mut i: usize = 0;
    let n = s.len();
    assert(s@.subrange(0, 0) =~= Seq::<char>::empty());
    while i < n
        invariant
            n == s@.len(),
            i <= n,
            r == byte_len(s@.subrange(0, i as int)),
            r <= 4 * i,
            i <= usize::MAX,
        decreases s@.len() - i,
    {
        proof {
            assert(s@.subrange(0, i + 1).drop_last() =~= s@.subrange(0, i as int));
        }
        r = r + utf8_width_of(s[i]) as u128;
        i += 1;
    }
    assert(s@.subrange(0, s@.len() as int) =~= s@);
    r
}

fn bigrams_of(s: &Vec<char>) -> (r: Vec<(char, char)>)
    ensures
        r@ == bigrams(s@),
{
    let mut r: Vec<(char, char)> = Vec::new();
    if s.len() == 0 {
        assert(r@ =~= bigrams(s@));
        return r;
    }
    let mut i: usize = 0;
    let last = s.len() - 1;
    while i < last
        invariant
            last == s@.len() - 1,
            i <= last,
            r@ =~= Seq::new(i as nat, |j: int| (s@[j], s@[j + 1])),
        decreases s@.len() - i,
    {
        r.push((s[i], s[i + 1]));
        i += 1;
    }
    assert(r@ =~= bigrams(s@));
    r
}

fn same_chars(a: &Vec<char>, b: &Vec<char>) -> (r: bool)
    ensures
        r == (a@ == b@),
{
    if a.len() != b.len() {
        return false;
    }
    let mut i: usize = 0;
    while i < a.len()
        invariant
            a@.len() == b@.len(),
            i <= a@.len(),
            forall|j: int| 0 <= j < i ==> a@[j] == b@[j],
        decreases a@.len() - i,
    {
        if a[i] != b[i] {
            return false;
        }
        i += 1;
    }
    assert(a@ =~= b@);
    true
}

/// Position of the first item of `v` equal to `x`, if any.
fn find_first(v: &Vec<(char, char)>, x: (char, char)) -> (r: Option<usize>)
    ensures
        match r {
            Some(k) => k < v@.len() && v@[k as int] == x && forall|j: int|
                0 <= j < k ==> v@[j] != x,
            None => !v@.contains(x),
        },
{
    let mut k: usize = 0;
    while k < v.len()
        invariant
            k <= v@.len(),
            forall|j: int| 0 <= j < k ==> v@[j] != x,
        decreases v@.len() - k,
    {
        if v[k].0 == x.0 && v[k].1 == x.1 {
            return Some(k);
        }
        k += 1;
    }
    None
}

proof fn lemma_remove_first(v: Seq<(char, char)>, x: (char, char), k: int)
    requires
        0 <= k < v.len(),
        v[k] == x,
        forall|j: int| 0 <= j < k ==> v[j] != x,
    ensures
        v.contains(x),
        v.remove_value(x) == v.remove(k),
{
    v.index_of_first_ensures(x);
    match v.index_of_first(x) {
        Some(i) => {
            if i < k {
                assert(v[i] != x);
            }
            if k < i {
                assert(v[k] != x);
            }
        },
        None => {
            assert(v[k] == x);
        },
    }
}

fn paired_count(xs: Vec<(char, char)>, ys: &Vec<(char, char)>) -> (r: u128)
    ensures
        r == paired(xs@, ys@),
        r <= usize::MAX,
{
    let mut rest = xs;
    let mut count: u128 = 0;
    let mut j: usize = 0;
    let n = ys.len();
    assert(ys@.subrange(0, ys@.len() as int) =~= ys@);
    while j < n
        invariant
            n == ys@.len(),
            j <= n,
            count <= j,
            count + paired(rest@, ys@.subrange(j as int, ys@.len() as int)) == paired(xs@, ys@),
        decreases ys@.len() - j,
    {
        let y = ys[j];
        let ghost tail = ys@.subrange(j as int, ys@.len() as int);
        assert(tail[0] == y);
        assert(tail.drop_first() =~= ys@.subrange(j + 1, ys@.len() as int));
        match find_first(&rest, y) {
            Some(k) => {
                proof {
                    lemma_remove_first(rest@, y, k as int);
                }
                rest.remove(k);
                count += 1;
            },
            None => {},
        }
        j += 1;
    }
    assert(ys@.subrange(0, ys@.len() as int) =~= ys@);
    assert(ys@.subrange(ys@.len() as int, ys@.len() as int) =~= Seq::<(char, char)>::empty());
    count
}

/// Whether the Sørensen–Dice coefficient of `a` and `b` is at least 3/4.
pub fn is_dice_similar(a: &Vec<char>, b: &Vec<char>) -> (r: bool)
    ensures
        r == dice_similar(a@, b@),
{
    let sa = strip_whitespace(a);
    let sb = strip_whitespace(b);
    if same_chars(&sa, &sb) {
        return true;
    }
    let la = byte_len_of(&sa);
    let lb = byte_len_of(&sb);
    if la < 2 || lb < 2 {
        return false;
    }
    let ba = bigrams_of(&sa);
    let bb = bigrams_of(&sb);
    let p = paired_count(ba, &bb);
    8 * p >= 3 * (la + lb - 2)
}

} // verus!
