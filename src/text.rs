//! Character-level text helpers: whitespace, tokenising and substring search.
use vstd::prelude::*;

verus! {

/// The Unicode `White_Space` property, as used by `char::is_whitespace`.
pub open spec fn is_ws(c: char) -> bool {
    let u = c as u32;
    (0x9 <= u && u <= 0xD) || u == 0x20 || u == 0x85 || u == 0xA0 || u == 0x1680 || (0x2000 <= u
        && u <= 0x200A) || u == 0x2028 || u == 0x2029 || u == 0x202F || u == 0x205F || u == 0x3000
}

/// Whether `c` is a whitespace character.
pub fn is_whitespace_char(c: char) -> (r: bool)
    ensures
        r == is_ws(c),
{
    let u = c as u32;
    (0x9 <= u && u <= 0xD) || u == 0x20 || u == 0x85 || u == 0xA0 || u == 0x1680 || (0x2000 <= u
        && u <= 0x200A) || u == 0x2028 || u == 0x2029 || u == 0x202F || u == 0x205F || u == 0x3000
}

/// The characters of `s`, in order.
pub fn chars_of(s: &str) -> (r: Vec<char>)
    ensures
        r@ == s@,
{
    let mut r: Vec<char> = Vec::new();
    for c in it: s.chars()
        invariant
            it.seq() == s@,
            r@ == it.seq().subrange(0, it.index() as int),
    {
        r.push(c);
    }
    r
}

/// Relies on `String::from_iter` over characters: a `String` holding exactly
/// the given characters, in order.
#[verifier::external_body]
pub(crate) fn string_of_chars(cs: &Vec<char>) -> (r: String)
    ensures
        r@ == cs@,
{
    cs.iter().collect()
}

/// The views of a sequence of character vectors.
pub open spec fn views(v: Seq<Vec<char>>) -> Seq<Seq<char>> {
    v.map_values(|x: Vec<char>| x@)
}

/// The state of a whitespace split after reading the first `n` characters of `s`:
/// the words completed so far and the word being read.
pub open spec fn word_state(s: Seq<char>, n: int) -> (Seq<Seq<char>>, Seq<char>)
    decreases n,
{
    if n <= 0 {
        (Seq::empty(), Seq::empty())
    } else {
        let prev = word_state(s, n - 1);
        let c = s[n - 1];
        if is_ws(c) {
            if prev.1.len() > 0 {
                (prev.0.push(prev.1), Seq::empty())
            } else {
                (prev.0, Seq::empty())
            }
        } else {
            (prev.0, prev.1.push(c))
        }
    }
}

/// The maximal runs of non-whitespace characters of `s`, in order
/// (what `str::split_whitespace` yields).
pub open spec fn words(s: Seq<char>) -> Seq<Seq<char>> {
    let st = word_state(s, s.len() as int);
    if st.1.len() > 0 {
        st.0.push(st.1)
    } else {
        st.0
    }
}

/// The state of a split on `sep` after reading the first `n` characters of `s`.
pub open spec fn field_state(s: Seq<char>, sep: char, n: int) -> (Seq<Seq<char>>, Seq<char>)
    decreases n,
{
    if n <= 0 {
        (Seq::empty(), Seq::empty())
    } else {
        let prev = field_state(s, sep, n - 1);
        let c = s[n - 1];
        if c == sep {
            (prev.0.push(prev.1), Seq::empty())
        } else {
            (prev.0, prev.1.push(c))
        }
    }
}

/// The pieces of `s` between occurrences of `sep`, empty pieces included
/// (what `str::split` yields for a one-character pattern).
pub open spec fn fields(s: Seq<char>, sep: char) -> Seq<Seq<char>> {
    let st = field_state(s, sep, s.len() as int);
    st.0.push(st.1)
}

/// Splits `s` into its whitespace-separated words.
pub fn split_words(s: &Vec<char>) -> (r: Vec<Vec<char>>)
    ensures
        views(r@) == words(s@),
        r@.len() <= s@.len(),
{
    let mut done: Vec<Vec<char>> = Vec::new();
    let mut cur: Vec<char> = Vec::new();
    let mut i: usize = 0;
    while i < s.len()
        invariant
            i <= s@.len(),
            views(done@) == word_state(s@, i as int).0,
            cur@ == word_state(s@, i as int).1,
            done@.len() + cur@.len() <= i,
        decreases s@.len() - i,
    {
        let c = s[i];
        if is_whitespace_char(c) {
            if cur.len() > 0 {
                let ghost before = done@;
                done.push(cur);
                assert(views(done@) =~= views(before).push(word_state(s@, i as int).1));
                cur = Vec::new();
            }
        } else {
            cur.push(c);
        }
        i += 1;
    }
    if cur.len() > 0 {
        let ghost before = done@;
        done.push(cur);
        assert(views(done@) =~= views(before).push(word_state(s@, s@.len() as int).1));
    }
    done
}

/// Splits `s` at every occurrence of `sep`.
pub fn split_fields(s: &Vec<char>, sep: char) -> (r: Vec<Vec<char>>)
    ensures
        views(r@) == fields(s@, sep),
        r@.len() <= s@.len() + 1,
{
    let mut done: Vec<Vec<char>> = Vec::new();
    let mut cur: Vec<char> = Vec::new();
    let mut i: usize = 0;
    while i < s.len()
        invariant
            i <= s@.len(),
            views(done@) == field_state(s@, sep, i as int).0,
            cur@ == field_state(s@, sep, i as int).1,
            done@.len() + cur@.len() <= i,
        decreases s@.len() - i,
    {
        let c = s[i];
        if c == sep {
            let ghost before = done@;
            done.push(cur);
            assert(views(done@) =~= views(before).push(field_state(s@, sep, i as int).1));
            cur = Vec::new();
        } else {
            cur.push(c);
        }
        i += 1;
    }
    let ghost before = done@;
    done.push(cur);
    assert(views(done@) =~= views(before).push(field_state(s@, sep, s@.len() as int).1));
    done
}

/// Whether `needle` occurs in `hay` as a contiguous run of characters.
pub open spec fn contains_seq(hay: Seq<char>, needle: Seq<char>) -> bool {
    exists|i: int|
        0 <= i && i + needle.len() <= hay.len() && #[trigger] hay.subrange(i, i + needle.len())
            == needle
}

/// Substring search: whether `needle` occurs in `hay`.
pub fn contains_chars(hay: &Vec<char>, needle: &Vec<char>) -> (r: bool)
    ensures
        r == contains_seq(hay@, needle@),
{
    let n = needle.len();
    if n > hay.len() {
        assert(!contains_seq(hay@, needle@));
        return false;
    }
    if n == 0 {
        assert(hay@.subrange(0int, 0int + needle@.len()) =~= needle@);
        return true;
    }
    let last = hay.len() - n;
    let mut i: usize = 0;
    while i <= last
        invariant
            n == needle@.len(),
            0 < n <= hay@.len() <= usize::MAX,
            last == hay@.len() - n,
            i <= last + 1,
            forall|j: int| 0 <= j < i ==> #[trigger] hay@.subrange(j, j + needle@.len()) != needle@,
        decreases last + 1 - i,
    {
        let mut k: usize = 0;
        let mut same = true;
        while k < n
            invariant
                n == needle@.len(),
                0 < n <= hay@.len() <= usize::MAX,
                last == hay@.len() - n,
                i <= last,
                k <= n,
                same ==> forall|m: int| 0 <= m < k ==> hay@[i + m] == needle@[m],
                !same ==> hay@.subrange(i as int, i + n) != needle@,
            decreases n - k,
        {
            if hay[i + k] != needle[k] {
                assert(hay@.subrange(i as int, i + n)[k as int] != needle@[k as int]);
                same = false;
            }
            k += 1;
        }
        if same {
            assert(hay@.subrange(i as int, i + needle@.len()) =~= needle@);
            return true;
        }
        i += 1;
    }
    assert forall|j: int|
        0 <= j && j + needle@.len() <= hay@.len() implies #[trigger] hay@.subrange(
        j,
        j + needle@.len(),
    ) != needle@ by {
        assert(j < i);
    }
    false
}

/// Whether `s` begins with `pat`.
pub open spec fn starts_with(s: Seq<char>, pat: Seq<char>) -> bool {
    pat.len() <= s.len() && s.subrange(0, pat.len() as int) == pat
}

/// `s` with every occurrence of the non-empty `pat` replaced by `rep`,
/// occurrences taken from left to right without overlap (as `str::replace`
/// does).
pub open spec fn replaced(s: Seq<char>, pat: Seq<char>, rep: Seq<char>) -> Seq<char>
    decreases s.len(),
{
    if s.len() == 0 || pat.len() == 0 {
        s
    } else if starts_with(s, pat) {
        rep + replaced(s.subrange(pat.len() as int, s.len() as int), pat, rep)
    } else {
        seq![s[0]] + replaced(s.drop_first(), pat, rep)
    }
}

/// Whether `pat` occurs in `s` at position `at`.
fn occurs_at(s: &Vec<char>, pat: &Vec<char>, at: usize) -> (r: bool)
    requires
        at <= s@.len(),
    ensures
        r == starts_with(s@.subrange(at as int, s@.len() as int), pat@),
{
    let ghost rest = s@.subrange(at as int, s@.len() as int);
    if pat.len() > s.len() - at {
        return false;
    }
    let mut k: usize = 0;
    while k < pat.len()
        invariant
            at + pat@.len() <= s@.len() <= usize::MAX,
            k <= pat@.len(),
            rest == s@.subrange(at as int, s@.len() as int),
            forall|m: int| 0 <= m < k ==> s@[at + m] == pat@[m],
        decreases pat@.len() - k,
    {
        if s[at + k] != pat[k] {
            assert(rest.subrange(0, pat@.len() as int)[k as int] != pat@[k as int]);
            return false;
        }
        k += 1;
    }
    assert(rest.subrange(0, pat@.len() as int) =~= pat@);
    true
}

/// `s` with every occurrence of `pat` replaced by `rep`, left to right.
pub fn replace_all(s: &str, pat: &str, rep: &str) -> (r: String)
    requires
        pat@.len() > 0,
    ensures
        r@ == replaced(s@, pat@, rep@),
{
    let cs = chars_of(s);
    let p = chars_of(pat);
    let q = chars_of(rep);
    let n = cs.len();
    let mut out: Vec<char> = Vec::new();
    let mut i: usize = 0;
    assert(cs@.subrange(0, n as int) =~= cs@);
    while i < n
        invariant
            n == cs@.len(),
            cs@ == s@,
            p@ == pat@,
            q@ == rep@,
            p@.len() > 0,
            i <= n,
            out@ + replaced(cs@.subrange(i as int, n as int), p@, q@) == replaced(cs@, p@, q@),
        decreases n - i,
    {
        let ghost rest = cs@.subrange(i as int, n as int);
        if occurs_at(&cs, &p, i) {
            let ghost before = out@;
            let mut k: usize = 0;
            while k < q.len()
                invariant
                    k <= q@.len(),
                    out@ == before + q@.subrange(0, k as int),
                decreases q@.len() - k,
            {
                out.push(q[k]);
                assert(q@.subrange(0, k + 1) =~= q@.subrange(0, k as int).push(q@[k as int]));
                k += 1;
            }
            assert(q@.subrange(0, q@.len() as int) =~= q@);
            assert(rest.subrange(p@.len() as int, rest.len() as int) =~= cs@.subrange(
                i + p@.len(),
                n as int,
            ));
            assert(out@ + replaced(cs@.subrange(i + p@.len(), n as int), p@, q@) =~= before + (q@
                + replaced(cs@.subrange(i + p@.len(), n as int), p@, q@)));
            i = i + p.len();
        } else {
            let ghost before = out@;
            out.push(cs[i]);
            assert(rest[0] == cs@[i as int]);
            assert(rest.drop_first() =~= cs@.subrange(i + 1, n as int));
            assert(out@ + replaced(cs@.subrange(i + 1, n as int), p@, q@) =~= before + (seq![
                cs@[i as int],
            ] + replaced(cs@.subrange(i + 1, n as int), p@, q@)));
            i += 1;
        }
    }
    assert(cs@.subrange(n as int, n as int) =~= Seq::<char>::empty());
    assert(out@ + Seq::<char>::empty() =~= out@);
    string_of_chars(&out)
}

} // verus!
