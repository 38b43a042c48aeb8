//! Markdown anchors for titles.
use crate::items::{lower_of, to_lower};
use crate::text::{chars_of, string_of_chars};
use vstd::prelude::*;
use vstd::string::StringExecFns;

verus! {

/// The runs of characters that an anchor replaces with one dash.
pub const SLUG_PATTERN: &'static str = r"[^a-z0-9]+";

/// The text with every match of `pattern` replaced by `with`, where
/// `pattern` is a valid regular expression.
pub uninterp spec fn regex_replaced(pattern: Seq<char>, text: Seq<char>, with: Seq<char>) -> Option<
    Seq<char>,
>;

/// Relies on `regex::Regex::new` and `Regex::replace_all`: the text with every
/// match of the compiled pattern replaced, or `None` where the pattern does
/// not compile. The result depends on the three texts alone.
#[verifier::external_body]
fn regex_replace_all(pattern: &str, text: &str, with: &str) -> (r: Option<String>)
    ensures
        match r {
            Some(s) => regex_replaced(pattern@, text@, with@) == Some(s@),
            None => regex_replaced(pattern@, text@, with@) is None,
        },
{
    match regex::Regex::new(pattern) {
        Ok(re) => Some(re.replace_all(text, with).to_string()),
        Err(_) => None,
    }
}

/// Number of leading `c` of `s`.
pub open spec fn leading_count(s: Seq<char>, c: char) -> nat
    decreases s.len(),
{
    if s.len() > 0 && s[0] == c {
        1 + leading_count(s.drop_first(), c)
    } else {
        0
    }
}

/// Number of trailing `c` of `s`.
pub open spec fn trailing_count(s: Seq<char>, c: char) -> nat
    decreases s.len(),
{
    if s.len() > 0 && s.last() == c {
        1 + trailing_count(s.drop_last(), c)
    } else {
        0
    }
}

/// `s` without leading and trailing `c`.
pub open spec fn trim_char(s: Seq<char>, c: char) -> Seq<char> {
    let front = s.subrange(leading_count(s, c) as int, s.len() as int);
    front.subrange(0, front.len() - trailing_count(front, c))
}

/// The anchor for a slug: `#`, then the slug without leading and trailing
/// dashes.
pub open spec fn anchor_of_slug(slug: Seq<char>) -> Seq<char> {
    "#"@ + trim_char(slug, '-')
}

/// The slug of a title: its lower-case form with every run of characters
/// other than `a`-`z` and `0`-`9` replaced by one dash.
pub open spec fn slug_of(title: Seq<char>) -> Seq<char> {
    match regex_replaced(SLUG_PATTERN@, lower_of(title), "-"@) {
        Some(s) => s,
        None => lower_of(title),
    }
}

fn trim_dashes(s: &Vec<char>) -> (r: Vec<char>)
    ensures
        r@ == trim_char(s@, '-'),
{
    let n = s.len();
    let mut start: usize = 0;
    assert(s@.subrange(0, n as int) =~= s@);
    while start < n && s[start] == '-'
        invariant
            n == s@.len(),
            start <= n,
            leading_count(s@, '-') == start + leading_count(s@.subrange(start as int, n as int), '-'),
        decreases n - start,
    {
        proof {
            let rest = s@.subrange(start as int, n as int);
            assert(rest.drop_first() =~= s@.subrange(start + 1, n as int));
        }
        start += 1;
    }
    let ghost front = s@.subrange(start as int, n as int);
    proof {
        if start < n {
            assert(front[0] == s@[start as int]);
        }
    }
    let mut end: usize = n;
    while end > start && s[end - 1] == '-'
        invariant
            n == s@.len(),
            start <= end <= n,
            front == s@.subrange(start as int, n as int),
            trailing_count(front, '-') == (n - end) + trailing_count(
                s@.subrange(start as int, end as int),
                '-',
            ),
        decreases end - start,
    {
        proof {
            let cur = s@.subrange(start as int, end as int);
            assert(cur.drop_last() =~= s@.subrange(start as int, end - 1));
            assert(cur.last() == s@[end - 1]);
        }
        end -= 1;
    }
    proof {
        let cur = s@.subrange(start as int, end as int);
        if end > start {
            assert(cur.last() == s@[end - 1]);
        }
        assert(trailing_count(cur, '-') == 0);
        assert(front.subrange(0, front.len() - trailing_count(front, '-')) =~= cur);
    }
    let mut r: Vec<char> = Vec::new();
    let mut i: usize = start;
    while i < end
        invariant
            start <= i <= end <= n,
            n == s@.len(),
            r@ =~= s@.subrange(start as int, i as int),
        decreases end - i,
    {
        r.push(s[i]);
        i += 1;
    }
    r
}

/// The anchor for a slug: `#`, then the slug without leading and trailing
/// dashes.
pub fn anchor_from_slug(slug: &str) -> (r: String)
    ensures
        r@ == anchor_of_slug(slug@),
{
    let trimmed = trim_dashes(&chars_of(slug));
    let mut r = String::from_str("#");
    r.append(string_of_chars(&trimmed).as_str());
    r
}

/// The Markdown anchor of a title.
pub fn generate_anchor(title: &str) -> (r: String)
    ensures
        r@ == anchor_of_slug(slug_of(title@)),
{
    let lower = to_lower(title);
    match regex_replace_all(SLUG_PATTERN, lower.as_str(), "-") {
        Some(slug) => anchor_from_slug(slug.as_str()),
        None => anchor_from_slug(lower.as_str()),
    }
}

} // verus!
