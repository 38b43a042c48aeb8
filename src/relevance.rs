//! The lexical relevance scorer: weighted counts of the words of an item that
//! are close to the vocabulary.
use crate::common::NewsItem;
use crate::text::{
    chars_of, field_state, fields, split_fields, split_words, string_of_chars, views, words,
};
use crate::vocabulary::{is_relevant_word, relevant, Vocabulary};
use std::time::{Duration, Instant};
use vstd::prelude::*;
use vstd::string::StringExecFns;

verus! {

/// Points for an item with a non-empty creator list.
pub const CREATOR_WEIGHT: u64 = 10;

/// Points for each relevant category.
pub const CATEGORY_WEIGHT: u64 = 5;

/// Points for each relevant keyword.
pub const KEYWORD_WEIGHT: u64 = 5;

/// Points for each relevant word of the title.
pub const TITLE_WEIGHT: u64 = 10;

/// Points for each relevant word of the description.
pub const DESCRIPTION_WEIGHT: u64 = 1;

/// Points for each relevant word of the cleaned body text.
pub const CONTENT_WEIGHT: u64 = 1;

/// The longest text, in characters, that a scored field may hold, so that
/// every score fits in 64 bits.
pub const MAX_TEXT_CHARS: u64 = 0x1_0000_0000;

/// Whether every text field of `item` is within `MAX_TEXT_CHARS`.
pub open spec fn well_sized(item: NewsItem) -> bool {
    &&& item.title@.len() <= MAX_TEXT_CHARS
    &&& item.description@.len() <= MAX_TEXT_CHARS
    &&& (item.categories matches Some(c) ==> c@.len() <= MAX_TEXT_CHARS)
    &&& (item.keywords matches Some(k) ==> k@.len() <= MAX_TEXT_CHARS)
    &&& (item.clean_content matches Some(c) ==> c@.len() <= MAX_TEXT_CHARS)
}

/// Number of the words of `ws` that are relevant to `vocab`.
pub open spec fn count_relevant(ws: Seq<Seq<char>>, vocab: Seq<Seq<char>>) -> nat
    decreases ws.len(),
{
    if ws.len() == 0 {
        0
    } else {
        count_relevant(ws.drop_last(), vocab) + if relevant(ws.last(), vocab) {
            1nat
        } else {
            0nat
        }
    }
}

/// Number of relevant comma-separated pieces of an optional field.
pub open spec fn relevant_fields(o: Option<String>, vocab: Seq<Seq<char>>) -> nat {
    match o {
        Some(s) => count_relevant(fields(s@, ','), vocab),
        None => 0,
    }
}

/// The five core components of the lexical score of `item`, with the error
/// flag first: creator, categories, keywords, title, description.
pub open spec fn lexical_core(item: NewsItem, vocab: Seq<Seq<char>>) -> (
    bool,
    nat,
    nat,
    nat,
    nat,
    nat,
) {
    if item.error is Some {
        (true, 0, 0, 0, 0, 0)
    } else {
        (
            false,
            if item.creators@.len() > 0 {
                CREATOR_WEIGHT as nat
            } else {
                0
            },
            (CATEGORY_WEIGHT * relevant_fields(item.categories, vocab)) as nat,
            (KEYWORD_WEIGHT * relevant_fields(item.keywords, vocab)) as nat,
            (TITLE_WEIGHT * count_relevant(words(item.title@), vocab)) as nat,
            (DESCRIPTION_WEIGHT * count_relevant(words(item.description@), vocab)) as nat,
        )
    }
}

/// The body-text component of the lexical score of `item`.
pub open spec fn lexical_content(item: NewsItem, vocab: Seq<Seq<char>>) -> nat {
    if item.error is Some {
        0
    } else {
        match item.clean_content {
            Some(c) => (CONTENT_WEIGHT * count_relevant(words(c@), vocab)) as nat,
            None => 0,
        }
    }
}

/// The sum of the five core components.
pub open spec fn core_total(c: (bool, nat, nat, nat, nat, nat)) -> nat {
    c.1 + c.2 + c.3 + c.4 + c.5
}

/// The net lexical relevance of `item`: the sum of all six components.
pub open spec fn lexical_net(item: NewsItem, vocab: Seq<Seq<char>>) -> nat {
    core_total(lexical_core(item, vocab)) + lexical_content(item, vocab)
}

/// The explained lexical score of an item.
#[derive(Debug, Clone, Copy, PartialEq, Eq, Structural)]
pub struct Relevance {
    /// The item carried a pipeline error; every component is then zero.
    pub error: bool,
    pub by_creator: u64,
    pub by_categories: u64,
    pub by_keywords: u64,
    pub by_title: u64,
    pub by_description: u64,
    /// Sum of the five components above.
    pub relevance_core: u64,
    /// Matches in the cleaned body text.
    pub relevance_content: u64,
    /// Time spent computing the score, in microseconds.
    pub elapsed_micros: u64,
}

/// Relies on `std::time::Instant`: an opaque reading of the monotonic clock.
#[verifier::external_type_specification]
#[verifier::external_body]
pub struct ExInstant(Instant);

/// Relies on `Instant::now`: the current reading of the monotonic clock.
#[verifier::external_body]
fn clock_now() -> (r: Instant) {
    Instant::now()
}

/// Relies on `Instant::elapsed`: the time passed since `start`.
#[verifier::external_body]
fn elapsed_since(start: &Instant) -> (r: Duration) {
    start.elapsed()
}

/// Relies on `Duration::as_micros`: the whole microseconds of a span.
#[verifier::external_body]
fn whole_micros(d: &Duration) -> (r: u128) {
    d.as_micros()
}

impl Relevance {
    /// A breakdown from its five core components, with the error flag first,
    /// the body-text component and the elapsed time.
    pub fn new(relevance_core: (bool, u64, u64, u64, u64, u64), relevance_content: u64, elapsed_micros: u64) -> (r: Relevance)
        requires
            relevance_core.1 + relevance_core.2 + relevance_core.3 + relevance_core.4
                + relevance_core.5 <= u64::MAX,
        ensures
            r.error == relevance_core.0,
            r.by_creator == relevance_core.1,
            r.by_categories == relevance_core.2,
            r.by_keywords == relevance_core.3,
            r.by_title == relevance_core.4,
            r.by_description == relevance_core.5,
            r.relevance_core == relevance_core.1 + relevance_core.2 + relevance_core.3
                + relevance_core.4 + relevance_core.5,
            r.relevance_content == relevance_content,
            r.elapsed_micros == elapsed_micros,
    {
        Relevance {
            error: relevance_core.0,
            by_creator: relevance_core.1,
            by_categories: relevance_core.2,
            by_keywords: relevance_core.3,
            by_title: relevance_core.4,
            by_description: relevance_core.5,
            relevance_core: relevance_core.1 + relevance_core.2 + relevance_core.3
                + relevance_core.4 + relevance_core.5,
            relevance_content,
            elapsed_micros,
        }
    }

    /// The net relevance: core plus body text.
    pub fn net_relevance(&self) -> (r: u64)
        requires
            self.relevance_core + self.relevance_content <= u64::MAX,
        ensures
            r == self.relevance_core + self.relevance_content,
    {
        self.relevance_core + self.relevance_content
    }

    /// The explanation of the five core components.
    pub fn explanation(&self) -> (r: String)
        ensures
            r@ == explanation_text(*self),
    {
        let mut s = String::from_str("breakdown [creator: ");
        s.append(decimal_text(self.by_creator).as_str());
        s.append(", categories: ");
        s.append(decimal_text(self.by_categories).as_str());
        s.append(", keywords: ");
        s.append(decimal_text(self.by_keywords).as_str());
        s.append(", title: ");
        s.append(decimal_text(self.by_title).as_str());
        s.append(", content: ");
        s.append(decimal_text(self.by_description).as_str());
        s.append("]");
        s
    }

    /// The breakdown as text, with its explanation.
    pub fn to_string(&self) -> (r: String)
        ensures
            r@ == relevance_text(*self),
    {
        let mut s = String::from_str("Relevance[core: ");
        s.append(decimal_text(self.relevance_core).as_str());
        s.append(", content: ");
        s.append(decimal_text(self.relevance_content).as_str());
        s.append(", explanation: '");
        s.append(self.explanation().as_str());
        s.append("']");
        s
    }

    /// Compares two breakdowns: an item without error ranks above one with an
    /// error, then the core subtotal decides, then the body-text component.
    pub fn cmp(&self, other: &Relevance) -> (r: std::cmp::Ordering)
        ensures
            r == breakdown_order(*self, *other),
    {
        if self.error != other.error {
            if self.error {
                std::cmp::Ordering::Less
            } else {
                std::cmp::Ordering::Greater
            }
        } else if self.relevance_core != other.relevance_core {
            if self.relevance_core < other.relevance_core {
                std::cmp::Ordering::Less
            } else {
                std::cmp::Ordering::Greater
            }
        } else if self.relevance_content < other.relevance_content {
            std::cmp::Ordering::Less
        } else if self.relevance_content > other.relevance_content {
            std::cmp::Ordering::Greater
        } else {
            std::cmp::Ordering::Equal
        }
    }
}

/// The decimal digit for `d`, below ten.
pub open spec fn digit_char(d: nat) -> char {
    if d == 0 {
        '0'
    } else if d == 1 {
        '1'
    } else if d == 2 {
        '2'
    } else if d == 3 {
        '3'
    } else if d == 4 {
        '4'
    } else if d == 5 {
        '5'
    } else if d == 6 {
        '6'
    } else if d == 7 {
        '7'
    } else if d == 8 {
        '8'
    } else {
        '9'
    }
}

/// The decimal notation of `n`, without leading zeros.
pub open spec fn decimal(n: nat) -> Seq<char>
    decreases n,
{
    if n < 10 {
        seq![digit_char(n)]
    } else {
        decimal(n / 10).push(digit_char(n % 10))
    }
}

fn digit_of(d: u64) -> (c: char)
    requires
        d < 10,
    ensures
        c == digit_char(d as nat),
{
    if d == 0 {
        '0'
    } else if d == 1 {
        '1'
    } else if d == 2 {
        '2'
    } else if d == 3 {
        '3'
    } else if d == 4 {
        '4'
    } else if d == 5 {
        '5'
    } else if d == 6 {
        '6'
    } else if d == 7 {
        '7'
    } else if d == 8 {
        '8'
    } else {
        '9'
    }
}

fn push_decimal(n: u64, out: &mut Vec<char>)
    ensures
        final(out)@ == old(out)@ + decimal(n as nat),
    decreases n,
{
    if n >= 10 {
        push_decimal(n / 10, out);
    }
    out.push(digit_of(n % 10));
    assert(out@ =~= old(out)@ + decimal(n as nat));
}

/// The decimal notation of `n`.
pub fn decimal_text(n: u64) -> (r: String)
    ensures
        r@ == decimal(n as nat),
{
    let mut cs: Vec<char> = Vec::new();
    push_decimal(n, &mut cs);
    assert(cs@ =~= decimal(n as nat));
    string_of_chars(&cs)
}

/// The text of the five core components of a breakdown.
pub open spec fn explanation_text(r: Relevance) -> Seq<char> {
    "breakdown [creator: "@ + decimal(r.by_creator as nat) + ", categories: "@ + decimal(
        r.by_categories as nat,
    ) + ", keywords: "@ + decimal(r.by_keywords as nat) + ", title: "@ + decimal(
        r.by_title as nat,
    ) + ", content: "@ + decimal(r.by_description as nat) + "]"@
}

/// The text of a breakdown: its core subtotal, its body-text component and
/// the explanation of its core.
pub open spec fn relevance_text(r: Relevance) -> Seq<char> {
    "Relevance[core: "@ + decimal(r.relevance_core as nat) + ", content: "@ + decimal(
        r.relevance_content as nat,
    ) + ", explanation: '"@ + explanation_text(r) + "']"@
}

/// The order of breakdowns: by error flag (no error is greater), then by core
/// subtotal, then by body-text component.
pub open spec fn breakdown_order(a: Relevance, b: Relevance) -> std::cmp::Ordering {
    if a.error != b.error {
        if a.error {
            std::cmp::Ordering::Less
        } else {
            std::cmp::Ordering::Greater
        }
    } else if a.relevance_core != b.relevance_core {
        if a.relevance_core < b.relevance_core {
            std::cmp::Ordering::Less
        } else {
            std::cmp::Ordering::Greater
        }
    } else if a.relevance_content < b.relevance_content {
        std::cmp::Ordering::Less
    } else if a.relevance_content > b.relevance_content {
        std::cmp::Ordering::Greater
    } else {
        std::cmp::Ordering::Equal
    }
}

/// Number of the words of `ws` that are relevant to `vocab`.
fn count_relevant_words(ws: &Vec<Vec<char>>, vocab: &Vocabulary) -> (r: u64)
    requires
        ws@.len() <= MAX_TEXT_CHARS + 1,
    ensures
        r == count_relevant(views(ws@), vocab@),
        r <= ws@.len(),
{
    let mut r: u64 = 0;
    let mut i: usize = 0;
    assert(views(ws@).subrange(0, 0) =~= Seq::<Seq<char>>::empty());
    while i < ws.len()
        invariant
            i <= ws@.len() <= MAX_TEXT_CHARS + 1,
            r == count_relevant(views(ws@).subrange(0, i as int), vocab@),
            r <= i,
        decreases ws@.len() - i,
    {
        let hit = is_relevant_word(&ws[i], vocab);
        proof {
            let next = views(ws@).subrange(0, i + 1);
            assert(next.drop_last() =~= views(ws@).subrange(0, i as int));
            assert(next.last() == ws@[i as int]@);
        }
        if hit {
            r += 1;
        }
        i += 1;
    }
    assert(views(ws@).subrange(0, ws@.len() as int) =~= views(ws@));
    r
}

/// Number of relevant whitespace-separated words of `s`.
fn relevant_words_of(s: &String, vocab: &Vocabulary) -> (r: u64)
    requires
        s@.len() <= MAX_TEXT_CHARS,
    ensures
        r == count_relevant(words(s@), vocab@),
        r <= MAX_TEXT_CHARS,
{
    let cs = chars_of(s.as_str());
    let ws = split_words(&cs);
    count_relevant_words(&ws, vocab)
}

/// Number of relevant comma-separated pieces of an optional field.
fn relevant_fields_of(o: &Option<String>, vocab: &Vocabulary) -> (r: u64)
    requires
        o matches Some(s) ==> s@.len() <= MAX_TEXT_CHARS,
    ensures
        r == relevant_fields(*o, vocab@),
        r <= MAX_TEXT_CHARS + 1,
{
    match o {
        Some(s) => {
            let cs = chars_of(s.as_str());
            let fs = split_fields(&cs, ',');
            count_relevant_words(&fs, vocab)
        },
        None => 0,
    }
}

/// The five core components of the lexical score of `item`, with the error
/// flag first: creator, categories, keywords, title, description.
pub fn calculate_relevance_core(item: &NewsItem, vocab: &Vocabulary) -> (r: (
    bool,
    u64,
    u64,
    u64,
    u64,
    u64,
))
    requires
        well_sized(*item),
    ensures
        r.0 == lexical_core(*item, vocab@).0,
        r.1 == lexical_core(*item, vocab@).1,
        r.2 == lexical_core(*item, vocab@).2,
        r.3 == lexical_core(*item, vocab@).3,
        r.4 == lexical_core(*item, vocab@).4,
        r.5 == lexical_core(*item, vocab@).5,
        r.1 + r.2 + r.3 + r.4 + r.5 <= 32 * (MAX_TEXT_CHARS + 1),
{
    if item.error.is_some() {
        return (true, 0, 0, 0, 0, 0);
    }
    let by_creator = if item.creators.as_str().is_empty() {
        0
    } else {
        CREATOR_WEIGHT
    };
    let by_categories = CATEGORY_WEIGHT * relevant_fields_of(&item.categories, vocab);
    let by_keywords = KEYWORD_WEIGHT * relevant_fields_of(&item.keywords, vocab);
    let by_title = TITLE_WEIGHT * relevant_words_of(&item.title, vocab);
    let by_description = DESCRIPTION_WEIGHT * relevant_words_of(&item.description, vocab);
    (false, by_creator, by_categories, by_keywords, by_title, by_description)
}

/// The body-text component of the lexical score of `item`.
pub fn calculate_relevance_content(item: &NewsItem, vocab: &Vocabulary) -> (r: u64)
    requires
        well_sized(*item),
    ensures
        r == lexical_content(*item, vocab@),
        r <= MAX_TEXT_CHARS,
{
    if item.error.is_some() {
        return 0;
    }
    match &item.clean_content {
        Some(c) => CONTENT_WEIGHT * relevant_words_of(c, vocab),
        None => 0,
    }
}

/// The lexical score of `item` with its breakdown and the time it took.
/// An item with an error scores zero in every component.
pub fn calculate_relevance(item: &NewsItem, vocab: &Vocabulary) -> (r: Relevance)
    requires
        well_sized(*item),
    ensures
        r.error == lexical_core(*item, vocab@).0,
        r.by_creator == lexical_core(*item, vocab@).1,
        r.by_categories == lexical_core(*item, vocab@).2,
        r.by_keywords == lexical_core(*item, vocab@).3,
        r.by_title == lexical_core(*item, vocab@).4,
        r.by_description == lexical_core(*item, vocab@).5,
        r.relevance_core == core_total(lexical_core(*item, vocab@)),
        r.relevance_content == lexical_content(*item, vocab@),
        r.relevance_core + r.relevance_content == lexical_net(*item, vocab@),
        r.relevance_core + r.relevance_content <= u64::MAX,
{
    let start = clock_now();
    let core = calculate_relevance_core(item, vocab);
    let content = calculate_relevance_content(item, vocab);
    let micros = whole_micros(&elapsed_since(&start));
    let elapsed = if micros > u64::MAX as u128 {
        u64::MAX
    } else {
        micros as u64
    };
    Relevance::new(core, content, elapsed)
}

/// An item with a pipeline error scores zero in all six components.
pub proof fn lemma_error_scores_zero(item: NewsItem, vocab: Seq<Seq<char>>)
    requires
        item.error is Some,
    ensures
        lexical_core(item, vocab) == (true, 0nat, 0nat, 0nat, 0nat, 0nat),
        lexical_content(item, vocab) == 0,
        lexical_net(item, vocab) == 0,
{
}

/// An item without error and with a non-empty creator list gets exactly
/// `CREATOR_WEIGHT` points for it.
pub proof fn lemma_creator_points(item: NewsItem, vocab: Seq<Seq<char>>)
    requires
        item.error is None,
        item.creators@.len() > 0,
    ensures
        lexical_core(item, vocab).1 == 10,
{
}

proof fn lemma_field_state_run(s: Seq<char>, sep: char, start: int, n: int, done: Seq<Seq<char>>)
    requires
        0 <= start <= n <= s.len(),
        field_state(s, sep, start) == (done, Seq::<char>::empty()),
        forall|i: int| start <= i < n ==> s[i] != sep,
    ensures
        field_state(s, sep, n) == (done, s.subrange(start, n)),
    decreases n,
{
    if n == start {
        assert(s.subrange(start, n) =~= Seq::<char>::empty());
    } else {
        lemma_field_state_run(s, sep, start, n - 1, done);
        assert(s.subrange(start, n - 1).push(s[n - 1]) =~= s.subrange(start, n));
    }
}

/// A text made of two pieces around one separator splits into those two
/// pieces.
pub proof fn lemma_fields_of_two(a: Seq<char>, b: Seq<char>, sep: char)
    requires
        forall|i: int| 0 <= i < a.len() ==> a[i] != sep,
        forall|i: int| 0 <= i < b.len() ==> b[i] != sep,
    ensures
        fields(a + seq![sep] + b, sep) == seq![a, b],
{
    let s = a + seq![sep] + b;
    let m = a.len() as int;
    assert(field_state(s, sep, 0) == (Seq::<Seq<char>>::empty(), Seq::<char>::empty()));
    lemma_field_state_run(s, sep, 0, m, Seq::empty());
    assert(s.subrange(0, m) =~= a);
    assert(s[m] == sep);
    assert(field_state(s, sep, m + 1) == (seq![a], Seq::<char>::empty()));
    lemma_field_state_run(s, sep, m + 1, s.len() as int, seq![a]);
    assert(s.subrange(m + 1, s.len() as int) =~= b);
    assert(seq![a].push(b) =~= seq![a, b]);
}

/// An item without error whose categories are `Presidente,Futbol`, scored
/// with a vocabulary that holds a close match of the first word and none of
/// the second, gets exactly one category's points: 5.
pub proof fn lemma_one_of_two_categories(item: NewsItem, vocab: Seq<Seq<char>>)
    requires
        item.error is None,
        item.categories matches Some(c) && c@ == "Presidente,Futbol"@,
        relevant("Presidente"@, vocab),
        !relevant("Futbol"@, vocab),
    ensures
        lexical_core(item, vocab).2 == 5,
{
    reveal_strlit("Presidente,Futbol");
    reveal_strlit("Presidente");
    reveal_strlit("Futbol");
    let p = "Presidente"@;
    let f = "Futbol"@;
    assert("Presidente,Futbol"@ =~= p + seq![','] + f);
    lemma_fields_of_two(p, f, ',');
    let ws = seq![p, f];
    assert(ws.drop_last() =~= seq![p]);
    assert(seq![p].drop_last() =~= Seq::<Seq<char>>::empty());
    assert(seq![p].last() == p);
    assert(ws.last() == f);
    assert(count_relevant(Seq::<Seq<char>>::empty(), vocab) == 0);
    assert(count_relevant(seq![p], vocab) == 1);
    assert(count_relevant(ws, vocab) == 1);
}

} // verus!
