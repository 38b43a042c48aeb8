//! Building news items from feed fields, and the item-level operations of the
//! pipeline.
use crate::common::{NewsItem, PipelineError};
use crate::ranking::relevance_key;
use crate::text::{chars_of, fields, replace_all, replaced, split_fields, string_of_chars, views};
use vstd::prelude::*;
use vstd::string::StringExecFns;

verus! {

/// The lower-case form of a text, as `str::to_lowercase` gives it.
pub uninterp spec fn lower_of(s: Seq<char>) -> Seq<char>;

/// Relies on `str::to_lowercase`: the Unicode lower-case mapping of the text,
/// which depends on the text alone.
#[verifier::external_body]
pub(crate) fn to_lower(s: &str) -> (r: String)
    ensures
        r@ == lower_of(s@),
{
    s.to_lowercase()
}

/// The pieces of `parts` joined with `sep` between each two.
pub open spec fn joined(parts: Seq<Seq<char>>, sep: Seq<char>) -> Seq<char>
    decreases parts.len(),
{
    if parts.len() == 0 {
        Seq::empty()
    } else if parts.len() == 1 {
        parts[0]
    } else {
        joined(parts.drop_last(), sep) + sep + parts.last()
    }
}

/// The pieces of `parts` joined with `sep` between each two.
fn join_texts(parts: &Vec<Vec<char>>, sep: &str) -> (r: String)
    ensures
        r@ == joined(views(parts@), sep@),
{
    let mut r = String::new();
    let mut i: usize = 0;
    while i < parts.len()
        invariant
            i <= parts@.len(),
            r@ == joined(views(parts@).subrange(0, i as int), sep@),
        decreases parts@.len() - i,
    {
        proof {
            let next = views(parts@).subrange(0, i + 1);
            assert(next.drop_last() =~= views(parts@).subrange(0, i as int));
            assert(next.last() == parts@[i as int]@);
            if i == 0 {
                assert(next[0] == parts@[0]@);
            }
        }
        if i > 0 {
            r.append(sep);
        }
        let piece = string_of_chars(&parts[i]);
        r.append(piece.as_str());
        i += 1;
    }
    assert(views(parts@).subrange(0, parts@.len() as int) =~= views(parts@));
    r
}

/// A feed's publication date in the form that RFC 2822 parsers read: every
/// `GMT` zone written as `+0000`.
pub fn normalize_pub_date(date: &str) -> (r: String)
    ensures
        r@ == replaced(date@, "GMT"@, "+0000"@),
{
    proof {
        reveal_strlit("GMT");
    }
    replace_all(date, "GMT", "+0000")
}

/// The name of the feed extension that carries keywords.
pub const KEYWORDS_EXTENSION: &'static str = "media:keywords";

/// Whether every extension entry is a keywords entry with a value.
pub open spec fn all_keyword_entries(entries: Seq<(String, Option<String>)>) -> bool {
    forall|i: int|
        0 <= i < entries.len() ==> (#[trigger] entries[i]).0@ == KEYWORDS_EXTENSION@
            && entries[i].1 is Some
}

/// The keywords of a feed entry from its keyword extension entries, given as
/// name and value: the values, in order, where every entry is a keywords
/// entry with a value; none otherwise.
pub fn keywords_from_extensions(entries: &Vec<(String, Option<String>)>) -> (r: Option<
    Vec<String>,
>)
    ensures
        r is Some <==> all_keyword_entries(entries@),
        r matches Some(v) ==> v@.len() == entries@.len() && forall|i: int|
            0 <= i < v@.len() ==> entries@[i].1 == Some(#[trigger] v@[i]),
{
    let name = chars_of(KEYWORDS_EXTENSION);
    let mut values: Vec<String> = Vec::new();
    let mut i: usize = 0;
    while i < entries.len()
        invariant
            name@ == KEYWORDS_EXTENSION@,
            i <= entries@.len(),
            values@.len() == i,
            forall|j: int| 0 <= j < i ==> (#[trigger] entries@[j]).0@ == KEYWORDS_EXTENSION@
                && entries@[j].1 == Some(values@[j]),
        decreases entries@.len() - i,
    {
        let entry = &entries[i];
        if !same_text(&chars_of(entry.0.as_str()), &name) {
            assert(!all_keyword_entries(entries@)) by {
                assert(entries@[i as int].0@ != KEYWORDS_EXTENSION@);
            }
            return None;
        }
        match &entry.1 {
            Some(v) => values.push(v.clone()),
            None => {
                assert(!all_keyword_entries(entries@)) by {
                    assert(entries@[i as int].1 is None);
                }
                return None;
            },
        }
        i += 1;
    }
    Some(values)
}

/// Why a feed entry cannot become a news item.
#[derive(Debug, Clone, Copy, PartialEq, Eq, Structural)]
pub enum ItemError {
    NoTitle,
    NoLink,
    NoDescription,
}

/// The lower-cased forms of `names`, joined with commas.
pub open spec fn lowered_joined(names: Seq<String>) -> Seq<char> {
    joined(names.map_values(|n: String| lower_of(n@)), ","@)
}

/// The texts of `names`, joined with commas.
pub open spec fn plain_joined(names: Seq<String>) -> Seq<char> {
    joined(names.map_values(|n: String| n@), ","@)
}

/// The lower-cased forms of `names`, joined with commas.
fn lower_join(names: &Vec<String>) -> (r: String)
    ensures
        r@ == lowered_joined(names@),
{
    let mut parts: Vec<Vec<char>> = Vec::new();
    let mut i: usize = 0;
    while i < names.len()
        invariant
            i <= names@.len(),
            views(parts@) =~= names@.map_values(|n: String| lower_of(n@)).subrange(0, i as int),
        decreases names@.len() - i,
    {
        let low = to_lower(names[i].as_str());
        let ghost before = views(parts@);
        parts.push(chars_of(low.as_str()));
        assert(views(parts@) =~= before.push(lower_of(names@[i as int]@)));
        assert(names@.map_values(|n: String| lower_of(n@)).subrange(0, i + 1) =~= names@.map_values(
            |n: String| lower_of(n@),
        ).subrange(0, i as int).push(lower_of(names@[i as int]@)));
        i += 1;
    }
    assert(views(parts@) =~= names@.map_values(|n: String| lower_of(n@)));
    join_texts(&parts, ",")
}

/// The texts of `names`, joined with commas.
fn plain_join(names: &Vec<String>) -> (r: String)
    ensures
        r@ == plain_joined(names@),
{
    let mut parts: Vec<Vec<char>> = Vec::new();
    let mut i: usize = 0;
    while i < names.len()
        invariant
            i <= names@.len(),
            views(parts@) =~= names@.map_values(|n: String| n@).subrange(0, i as int),
        decreases names@.len() - i,
    {
        let ghost before = views(parts@);
        parts.push(chars_of(names[i].as_str()));
        assert(views(parts@) =~= before.push(names@[i as int]@));
        assert(names@.map_values(|n: String| n@).subrange(0, i + 1) =~= names@.map_values(
            |n: String| n@,
        ).subrange(0, i as int).push(names@[i as int]@));
        i += 1;
    }
    assert(views(parts@) =~= names@.map_values(|n: String| n@));
    join_texts(&parts, ",")
}

/// The pieces of an optional field, split at commas, after lower-casing.
pub open spec fn lowered_pieces(o: Option<String>) -> Seq<Seq<char>> {
    match o {
        Some(s) => fields(lower_of(s@), ','),
        None => Seq::empty(),
    }
}

/// The bag of words of an item: the distinct lower-cased comma-separated
/// pieces of its keywords, then of its categories, in order of first
/// appearance, joined with single spaces.
pub open spec fn bag_of_words(item: NewsItem) -> Seq<char> {
    joined(
        (lowered_pieces(item.keywords) + lowered_pieces(item.categories)).remove_duplicates(
            Seq::empty(),
        ),
        " "@,
    )
}

fn lowered_pieces_of(o: &Option<String>) -> (r: Vec<Vec<char>>)
    ensures
        views(r@) == lowered_pieces(*o),
{
    match o {
        Some(s) => {
            let low = to_lower(s.as_str());
            split_fields(&chars_of(low.as_str()), ',')
        },
        None => {
            let r: Vec<Vec<char>> = Vec::new();
            assert(views(r@) =~= Seq::<Seq<char>>::empty());
            r
        },
    }
}

fn same_text(a: &Vec<char>, b: &Vec<char>) -> (r: bool)
    ensures
        r == (a@ == b@),
{
    if a.len() != b.len() {
        return false;
    }
    let mut i: usize = 0;
    while i < a.len()
        invariant
            a@.len() == b@.len(),
            i <= a@.len(),
            forall|j: int| 0 <= j < i ==> a@[j] == b@[j],
        decreases a@.len() - i,
    {
        if a[i] != b[i] {
            return false;
        }
        i += 1;
    }
    assert(a@ =~= b@);
    true
}

fn contains_text(v: &Vec<Vec<char>>, x: &Vec<char>) -> (r: bool)
    ensures
        r == views(v@).contains(x@),
{
    let mut i: usize = 0;
    while i < v.len()
        invariant
            i <= v@.len(),
            forall|j: int| 0 <= j < i ==> views(v@)[j] != x@,
        decreases v@.len() - i,
    {
        if same_text(&v[i], x) {
            assert(views(v@)[i as int] == x@);
            return true;
        }
        i += 1;
    }
    false
}

/// The distinct pieces of `all`, in order of first appearance.
fn distinct_pieces(all: &Vec<Vec<char>>) -> (r: Vec<Vec<char>>)
    ensures
        views(r@) == views(all@).remove_duplicates(Seq::empty()),
{
    let mut kept: Vec<Vec<char>> = Vec::new();
    let mut i: usize = 0;
    let ghost whole = views(all@);
    assert(whole.subrange(0, whole.len() as int) =~= whole);
    while i < all.len()
        invariant
            i <= all@.len(),
            whole == views(all@),
            whole.remove_duplicates(Seq::empty()) == whole.subrange(
                i as int,
                whole.len() as int,
            ).remove_duplicates(views(kept@)),
        decreases all@.len() - i,
    {
        let ghost rest = whole.subrange(i as int, whole.len() as int);
        assert(rest[0] == all@[i as int]@);
        assert(rest.skip(1) =~= whole.subrange(i + 1, whole.len() as int));
        if !contains_text(&kept, &all[i]) {
            let ghost before = views(kept@);
            let piece = all[i].clone();
            kept.push(piece);
            assert(views(kept@) =~= before + seq![all@[i as int]@]);
        }
        i += 1;
    }
    assert(whole.subrange(whole.len() as int, whole.len() as int) =~= Seq::<Seq<char>>::empty());
    kept
}

/// The text of an optional field, empty where it is absent.
fn text_or_blank(o: &Option<String>) -> (r: &str)
    ensures
        r@ == match o {
            Some(s) => s@,
            None => ""@,
        },
{
    match o {
        Some(s) => s.as_str(),
        None => "",
    }
}

/// The text stored for an item's error: its variant name, or `None`.
pub open spec fn error_column(e: Option<PipelineError>) -> Seq<char> {
    match e {
        Some(err) => crate::common::variant_name(err@),
        None => "None"@,
    }
}

impl NewsItem {
    /// The named parameters of the item's database row: each column's
    /// placeholder with the item's text for it, absent fields as empty text,
    /// and the error as its variant name or `None`.
    pub fn binds(&self) -> (r: [(&str, &str); 10])
        ensures
            r[0].0@ == ":channel"@ && r[0].1@ == self.channel@,
            r[1].0@ == ":title"@ && r[1].1@ == self.title@,
            r[2].0@ == ":link"@ && r[2].1@ == self.link@,
            r[3].0@ == ":description"@ && r[3].1@ == self.description@,
            r[4].0@ == ":creators"@ && r[4].1@ == self.creators@,
            r[5].0@ == ":pub_date"@ && r[5].1@ == crate::ranking::text_or_empty(self.pub_date),
            r[6].0@ == ":categories"@ && r[6].1@ == crate::ranking::text_or_empty(self.categories),
            r[7].0@ == ":keywords"@ && r[7].1@ == crate::ranking::text_or_empty(self.keywords),
            r[8].0@ == ":clean_content"@ && r[8].1@ == crate::ranking::text_or_empty(
                self.clean_content,
            ),
            r[9].0@ == ":error"@ && r[9].1@ == error_column(self.error),
    {
        let error = match &self.error {
            Some(e) => e.as_str(),
            None => "None",
        };
        proof {
            reveal_strlit("");
        }
        [
            (":channel", self.channel.as_str()),
            (":title", self.title.as_str()),
            (":link", self.link.as_str()),
            (":description", self.description.as_str()),
            (":creators", self.creators.as_str()),
            (":pub_date", text_or_blank(&self.pub_date)),
            (":categories", text_or_blank(&self.categories)),
            (":keywords", text_or_blank(&self.keywords)),
            (":clean_content", text_or_blank(&self.clean_content)),
            (":error", error),
        ]
    }

    /// A sample item with the given relevance.
    pub fn default(relevance: Option<u64>) -> (r: NewsItem)
        ensures
            r.channel@ == "Channel"@,
            r.title@ == "Title"@,
            r.link@ == "http://example.com"@,
            r.description@ == "Description"@,
            r.creators@ == "Creator1, Creator2"@,
            r.pub_date matches Some(d) && d@ == "2021-01-01T00:00:00+0000"@,
            r.categories matches Some(c) && c@ == "Category1, Category2"@,
            r.keywords matches Some(k) && k@ == "Keyword1, Keyword2"@,
            r.clean_content matches Some(c) && c@ == "Content"@,
            r.error is None,
            r.relevance == relevance,
    {
        NewsItem {
            channel: String::from_str("Channel"),
            title: String::from_str("Title"),
            link: String::from_str("http://example.com"),
            description: String::from_str("Description"),
            creators: String::from_str("Creator1, Creator2"),
            pub_date: Some(String::from_str("2021-01-01T00:00:00+0000")),
            categories: Some(String::from_str("Category1, Category2")),
            keywords: Some(String::from_str("Keyword1, Keyword2")),
            clean_content: Some(String::from_str("Content")),
            error: None,
            relevance,
        }
    }

    /// Compares two items by relevance; an absent relevance is below every
    /// present one, and two absent ones are equal.
    pub fn cmp_relevance(&self, other: &NewsItem) -> (r: std::cmp::Ordering)
        ensures
            r == (if relevance_key(self.relevance) < relevance_key(other.relevance) {
                std::cmp::Ordering::Less
            } else if relevance_key(self.relevance) > relevance_key(other.relevance) {
                std::cmp::Ordering::Greater
            } else {
                std::cmp::Ordering::Equal
            }),
    {
        match (self.relevance, other.relevance) {
            (Some(a), Some(b)) => {
                if a < b {
                    std::cmp::Ordering::Less
                } else if a > b {
                    std::cmp::Ordering::Greater
                } else {
                    std::cmp::Ordering::Equal
                }
            },
            (Some(_), None) => std::cmp::Ordering::Greater,
            (None, Some(_)) => std::cmp::Ordering::Less,
            (None, None) => std::cmp::Ordering::Equal,
        }
    }

    /// The bag of words of the item, which feeds the embedding of its topics.
    pub fn get_bow(&self) -> (r: String)
        ensures
            r@ == bag_of_words(*self),
    {
        let mut all = lowered_pieces_of(&self.keywords);
        let mut cats = lowered_pieces_of(&self.categories);
        let ghost a = views(all@);
        let ghost c = views(cats@);
        all.append(&mut cats);
        assert(views(all@) =~= a + c);
        let distinct = distinct_pieces(&all);
        join_texts(&distinct, " ")
    }

    /// A news item from the fields of a feed entry: the title, link and
    /// description are required; category names and keywords are lower-cased
    /// and joined with commas; creators are joined with commas. The item has
    /// no content, error or relevance yet.
    pub fn from_fields(
        channel: &str,
        title: Option<String>,
        link: Option<String>,
        description: Option<String>,
        creators: &Vec<String>,
        pub_date: Option<String>,
        categories: &Vec<String>,
        keywords: Option<Vec<String>>,
    ) -> (r: Result<NewsItem, ItemError>)
        ensures
            title is None ==> r == Err::<NewsItem, ItemError>(ItemError::NoTitle),
            title is Some && link is None ==> r == Err::<NewsItem, ItemError>(ItemError::NoLink),
            title is Some && link is Some && description is None ==> r == Err::<
                NewsItem,
                ItemError,
            >(ItemError::NoDescription),
            r matches Ok(item) ==> {
                &&& title matches Some(t) && item.title == t
                &&& link matches Some(l) && item.link == l
                &&& description matches Some(d) && item.description == d
                &&& item.channel@ == channel@
                &&& item.creators@ == plain_joined(creators@)
                &&& item.pub_date == pub_date
                &&& (if categories@.len() == 0 {
                    item.categories is None
                } else {
                    item.categories matches Some(c) && c@ == lowered_joined(categories@)
                })
                &&& (match keywords {
                    Some(k) => item.keywords matches Some(kw) && kw@ == lowered_joined(k@),
                    None => item.keywords is None,
                })
                &&& item.clean_content is None
                &&& item.error is None
                &&& item.relevance is None
            },
            (title is Some && link is Some && description is Some) ==> r is Ok,
    {
        let title = match title {
            Some(t) => t,
            None => return Err(ItemError::NoTitle),
        };
        let link = match link {
            Some(l) => l,
            None => return Err(ItemError::NoLink),
        };
        let description = match description {
            Some(d) => d,
            None => return Err(ItemError::NoDescription),
        };
        let cats = if categories.len() == 0 {
            None
        } else {
            Some(lower_join(categories))
        };
        let kws = match &keywords {
            Some(k) => Some(lower_join(k)),
            None => None,
        };
        Ok(NewsItem {
            channel: String::from_str(channel),
            title,
            link,
            description,
            creators: plain_join(creators),
            pub_date,
            categories: cats,
            keywords: kws,
            clean_content: None,
            error: None,
            relevance: None,
        })
    }

    /// Records the outcome of fetching and cleaning the item's page: a
    /// non-empty text becomes its content; an empty text leaves it without
    /// content and with a `NoContent` error; an error leaves it without
    /// content and with that error.
    pub fn set_clean_content(&mut self, outcome: Result<String, PipelineError>)
        ensures
            final(self).channel == old(self).channel,
            final(self).title == old(self).title,
            final(self).link == old(self).link,
            final(self).description == old(self).description,
            final(self).creators == old(self).creators,
            final(self).pub_date == old(self).pub_date,
            final(self).categories == old(self).categories,
            final(self).keywords == old(self).keywords,
            final(self).relevance == old(self).relevance,
            match outcome {
                Ok(text) => if text@.len() > 0 {
                    final(self).clean_content == Some(text) && final(self).error == old(
                        self,
                    ).error
                } else {
                    final(self).clean_content is None && final(self).error == Some(
                        PipelineError::NoContent,
                    )
                },
                Err(e) => final(self).clean_content is None && final(self).error == Some(e),
            },
    {
        match outcome {
            Ok(text) => {
                if text.as_str().is_empty() {
                    self.clean_content = None;
                    self.error = Some(PipelineError::NoContent);
                } else {
                    self.clean_content = Some(text);
                }
            },
            Err(e) => {
                self.clean_content = None;
                self.error = Some(e);
            },
        }
    }
}

} // verus!
