//! The lines of a feed list that name a feed.
use crate::text::chars_of;
use vstd::prelude::*;

verus! {

/// The pattern that a feed line must contain: an `http` or `https` URL.
pub const URL_PATTERN: &'static str = r"(http|https)://[^\s/$.?#].[^\s]*";

/// Whether `pattern` is a valid regular expression with a match somewhere in
/// `text`; `None` where `pattern` is not a valid expression.
pub uninterp spec fn regex_finds(pattern: Seq<char>, text: Seq<char>) -> Option<bool>;

/// Relies on `regex::Regex::new` and `Regex::is_match`: whether the compiled
/// pattern matches somewhere in the text, or `None` where the pattern does not
/// compile. The result depends on the two texts alone.
#[verifier::external_body]
fn regex_is_match(pattern: &str, text: &str) -> (r: Option<bool>)
    ensures
        r == regex_finds(pattern@, text@),
{
    match regex::Regex::new(pattern) {
        Ok(re) => Some(re.is_match(text)),
        Err(_) => None,
    }
}

/// Whether a line of a feed list names a feed, given whether it holds a URL:
/// it must be non-empty, not a `#` comment, and hold a URL.
pub open spec fn feed_line_accepted(line: Seq<char>, has_url: bool) -> bool {
    line.len() > 0 && line[0] != '#' && has_url
}

/// Whether a line of a feed list names a feed, given whether it holds a URL.
pub fn accept_line(line: &str, has_url: bool) -> (r: bool)
    ensures
        r == feed_line_accepted(line@, has_url),
{
    let cs = chars_of(line);
    cs.len() > 0 && cs[0] != '#' && has_url
}

/// Whether a line of a feed list names a feed: non-empty, not a `#` comment,
/// and holding an `http` or `https` URL.
pub fn accept_feed_line(line: &str) -> (r: bool)
    ensures
        r == feed_line_accepted(line@, regex_finds(URL_PATTERN@, line@) == Some(true)),
{
    let found = regex_is_match(URL_PATTERN, line);
    let has_url = match found {
        Some(b) => b,
        None => false,
    };
    accept_line(line, has_url)
}

} // verus!
