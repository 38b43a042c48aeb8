//! The feedback scorer: the relevance of an item estimated from previously
//! rated items whose embeddings are close to its own, decayed with age.
//!
//! Embeddings are integer vectors (each component an `i16`; callers scale the
//! vectors they get from their embedding model, which leaves cosines alone).
//! A similarity threshold is given in thousandths, and the test
//! `cos(a, b) > t / 1000` is decided exactly over integers. Relevance values
//! are fixed-point integers; averages round down.
use crate::common::NewsItem;
use crate::ranking::with_relevance;
use vstd::arithmetic::div_mod::{lemma_div_is_ordered, lemma_div_multiples_vanish};
use vstd::prelude::*;

verus! {

/// Largest number of components of an embedding.
pub const MAX_DIMENSION: usize = 65536;

/// Largest magnitude of a similarity threshold, in thousandths.
pub const MAX_THRESHOLD: i64 = 100_000;

/// Seconds in a day.
pub const SECONDS_PER_DAY: i64 = 86400;

/// A previously rated item with the embeddings of its title and of its bag of
/// words. The rating is the item's `relevance`.
#[derive(Debug, Clone)]
pub struct FeedbackRecord {
    pub news_item: NewsItem,
    pub title_embedding: Vec<i16>,
    pub bow_embedding: Vec<i16>,
}

/// Which stored embedding the bag-of-words query is compared with.
#[derive(Debug, Clone, Copy, PartialEq, Eq, Structural)]
pub enum BowTarget {
    /// The record's title embedding, as the title query is.
    TitleEmbedding,
    /// The record's own bag-of-words embedding.
    BowEmbedding,
}

/// The dot product of `a` and `b` over their common length.
pub open spec fn dot(a: Seq<i16>, b: Seq<i16>) -> int
    decreases a.len(),
{
    if a.len() == 0 || b.len() == 0 {
        0
    } else {
        dot(a.drop_last(), b.subrange(0, a.len() - 1)) + a.last() * b[a.len() - 1]
    }
}

/// Whether the cosine similarity of `a` and `b` exceeds `t / 1000`. A zero
/// vector is similar to nothing.
pub open spec fn exceeds(a: Seq<i16>, b: Seq<i16>, t: int) -> bool {
    let d = dot(a, b);
    let p = dot(a, a) * dot(b, b);
    p > 0 && if t >= 0 {
        d > 0 && d * d * 1_000_000 > t * t * p
    } else {
        d >= 0 || d * d * 1_000_000 < t * t * p
    }
}

/// The rating carried by a record; an unrated record counts as zero.
pub open spec fn rating(r: FeedbackRecord) -> nat {
    match r.news_item.relevance {
        Some(x) => x as nat,
        None => 0,
    }
}

/// The stored embedding that a query is compared with.
pub open spec fn stored(r: FeedbackRecord, bow: bool, target: BowTarget) -> Seq<i16> {
    if bow && target == BowTarget::BowEmbedding {
        r.bow_embedding@
    } else {
        r.title_embedding@
    }
}

/// Sum of ratings and number of the records of `c` whose stored embedding is
/// similar to `q` beyond `t`.
pub open spec fn passing(
    q: Seq<i16>,
    c: Seq<FeedbackRecord>,
    bow: bool,
    target: BowTarget,
    t: int,
) -> (nat, nat)
    decreases c.len(),
{
    if c.len() == 0 {
        (0, 0)
    } else {
        let prev = passing(q, c.drop_last(), bow, target, t);
        if exceeds(q, stored(c.last(), bow, target), t) {
            (prev.0 + rating(c.last()), prev.1 + 1)
        } else {
            prev
        }
    }
}

/// The feedback estimate for a query: the mean rating of the records that
/// pass the threshold, rounded down, or zero where none does.
pub open spec fn estimate(
    q: Seq<i16>,
    c: Seq<FeedbackRecord>,
    bow: bool,
    target: BowTarget,
    t: int,
) -> nat {
    let p = passing(q, c, bow, target, t);
    if p.1 == 0 {
        0
    } else {
        p.0 / p.1
    }
}

/// Whether every embedding of the corpus has the length of the queries.
pub open spec fn dimensions_match(n: nat, c: Seq<FeedbackRecord>) -> bool {
    forall|i: int|
        0 <= i < c.len() ==> #[trigger] c[i].title_embedding@.len() == n
            && c[i].bow_embedding@.len() == n
}

/// The age multiplier, in tenths: one tenth less per whole day elapsed,
/// never below seven tenths and never above one.
pub open spec fn decay_tenths(days: int) -> int {
    if days <= 0 {
        10
    } else if days >= 3 {
        7
    } else {
        10 - days
    }
}

/// Whole days from `published` to `now`, both in seconds; zero if `now` is
/// not later.
pub open spec fn days_between(published: int, now: int) -> int {
    if now > published {
        (now - published) / (SECONDS_PER_DAY as int)
    } else {
        0
    }
}

/// `relevance` after the age decay of an item published at `published`
/// (seconds), seen at `now`; unchanged for an item without a date.
pub open spec fn decayed(relevance: nat, published: Option<i64>, now: i64) -> nat {
    match published {
        Some(p) => (relevance * decay_tenths(days_between(p as int, now as int)) / 10) as nat,
        None => relevance,
    }
}

/// The larger of two naturals.
pub open spec fn max_nat(a: nat, b: nat) -> nat {
    if a >= b {
        a
    } else {
        b
    }
}

/// The feedback score before decay: the larger of the title estimate and the
/// bag-of-words estimate.
pub open spec fn undecayed_score(
    title_q: Seq<i16>,
    bow_q: Seq<i16>,
    c: Seq<FeedbackRecord>,
    target: BowTarget,
    t: int,
) -> nat {
    max_nat(estimate(title_q, c, false, target, t), estimate(bow_q, c, true, target, t))
}

/// Seconds since the epoch of an RFC 2822 date, where the text is one.
pub uninterp spec fn rfc2822_seconds(s: Seq<char>) -> Option<i64>;

/// Relies on `chrono::DateTime::parse_from_rfc2822` and `DateTime::timestamp`:
/// the instant that the text names, as seconds since the epoch, or `None`
/// where the text is no RFC 2822 date. The result depends on the text alone.
#[verifier::external_body]
fn parse_rfc2822(s: &str) -> (r: Option<i64>)
    ensures
        r == rfc2822_seconds(s@),
{
    match chrono::DateTime::parse_from_rfc2822(s) {
        Ok(d) => Some(d.timestamp()),
        Err(_) => None,
    }
}

/// Relies on `chrono::Local::now` and `DateTime::timestamp`: the current time
/// as seconds since the epoch.
#[verifier::external_body]
fn now_seconds() -> (r: i64) {
    chrono::Local::now().timestamp()
}

/// The publication instant of an item, where it has a readable date.
pub open spec fn published_at(item: NewsItem) -> Option<i64> {
    match item.pub_date {
        Some(d) => rfc2822_seconds(d@),
        None => None,
    }
}

/// The feedback score of `item`: zero for an item with an error, else the
/// undecayed score, decayed by the item's age at `now`.
pub open spec fn feedback_score(
    item: NewsItem,
    title_q: Seq<i16>,
    bow_q: Seq<i16>,
    c: Seq<FeedbackRecord>,
    target: BowTarget,
    t: int,
    now: i64,
) -> nat {
    if item.error is Some {
        0
    } else {
        decayed(undecayed_score(title_q, bow_q, c, target, t), published_at(item), now)
    }
}

proof fn lemma_product_bound(x: i16, y: i16)
    ensures
        -0x4000_0000 <= x * y <= 0x4000_0000,
{
    assert(-0x4000_0000 <= x * y <= 0x4000_0000) by (nonlinear_arith)
        requires
            -0x8000 <= x <= 0x7fff,
            -0x8000 <= y <= 0x7fff,
    ;
}

/// The dot product of `a` and `b`, which have the same length.
fn dot_of(a: &Vec<i16>, b: &Vec<i16>) -> (r: i64)
    requires
        a@.len() == b@.len(),
        a@.len() <= MAX_DIMENSION,
    ensures
        r == dot(a@, b@),
        -0x4000_0000_0000 <= r <= 0x4000_0000_0000,
{
    let mut acc: i64 = 0;
    let mut i: usize = 0;
    assert(dot(a@.subrange(0, 0), b@.subrange(0, 0)) == 0);
    while i < a.len()
        invariant
            a@.len() == b@.len() <= MAX_DIMENSION,
            i <= a@.len(),
            acc == dot(a@.subrange(0, i as int), b@.subrange(0, i as int)),
            -0x4000_0000 * i <= acc <= 0x4000_0000 * i,
        decreases a@.len() - i,
    {
        let x = a[i];
        let y = b[i];
        proof {
            lemma_product_bound(x, y);
            let na = a@.subrange(0, i + 1);
            let nb = b@.subrange(0, i + 1);
            assert(na.drop_last() =~= a@.subrange(0, i as int));
            assert(nb.subrange(0, na.len() - 1) =~= b@.subrange(0, i as int));
            assert(na.last() == x);
            assert(nb[na.len() - 1] == y);
        }
        acc = acc + (x as i64) * (y as i64);
        i += 1;
    }
    assert(a@.subrange(0, a@.len() as int) =~= a@);
    assert(b@.subrange(0, b@.len() as int) =~= b@);
    acc
}

/// Whether the cosine similarity of `a` and `b` exceeds `t / 1000`.
pub fn similarity_exceeds(a: &Vec<i16>, b: &Vec<i16>, t: i64) -> (r: bool)
    requires
        a@.len() == b@.len(),
        a@.len() <= MAX_DIMENSION,
        -MAX_THRESHOLD <= t <= MAX_THRESHOLD,
    ensures
        r == exceeds(a@, b@, t as int),
{
    let d = dot_of(a, b) as i128;
    let na = dot_of(a, a) as i128;
    let nb = dot_of(b, b) as i128;
    assert(-0x4000_0000_0000 * 0x4000_0000_0000 <= na * nb <= 0x4000_0000_0000
        * 0x4000_0000_0000) by (nonlinear_arith)
        requires
            -0x4000_0000_0000 <= na <= 0x4000_0000_0000,
            -0x4000_0000_0000 <= nb <= 0x4000_0000_0000,
    ;
    let p = na * nb;
    if p <= 0 {
        return false;
    }
    let tt = t as i128;
    assert(0 <= d * d <= 0x4000_0000_0000 * 0x4000_0000_0000) by (nonlinear_arith)
        requires
            -0x4000_0000_0000 <= d <= 0x4000_0000_0000,
    ;
    assert(0 <= d * d * 1_000_000 <= 0x4000_0000_0000 * 0x4000_0000_0000 * 1_000_000) by (
    nonlinear_arith)
        requires
            0 <= d * d <= 0x4000_0000_0000 * 0x4000_0000_0000,
    ;
    assert(0 <= tt * tt <= 100_000 * 100_000) by (nonlinear_arith)
        requires
            -100_000 <= tt <= 100_000,
    ;
    let lhs = d * d * 1_000_000;
    assert(tt * tt * p <= 100_000 * 100_000 * (0x4000_0000_0000 * 0x4000_0000_0000)) by (
    nonlinear_arith)
        requires
            0 <= tt * tt <= 100_000 * 100_000,
            0 < p <= 0x4000_0000_0000 * 0x4000_0000_0000,
    ;
    let rhs = tt * tt * p;
    if t >= 0 {
        d > 0 && lhs > rhs
    } else {
        d >= 0 || lhs < rhs
    }
}

/// The embedding of `r` that a query is compared with.
fn stored_of(r: &FeedbackRecord, bow: bool, target: BowTarget) -> (e: &Vec<i16>)
    ensures
        e@ == stored(*r, bow, target),
{
    if bow && target == BowTarget::BowEmbedding {
        &r.bow_embedding
    } else {
        &r.title_embedding
    }
}

/// The feedback estimate for the query `q`: the mean rating, rounded down, of
/// the records whose stored embedding has a cosine similarity with `q` above
/// `t / 1000`; zero where no record passes.
pub fn calculate_relevance_by_cosine_similarity(
    q: &Vec<i16>,
    corpus: &Vec<FeedbackRecord>,
    bow: bool,
    target: BowTarget,
    t: i64,
) -> (r: u64)
    requires
        q@.len() <= MAX_DIMENSION,
        dimensions_match(q@.len(), corpus@),
        -MAX_THRESHOLD <= t <= MAX_THRESHOLD,
    ensures
        r == estimate(q@, corpus@, bow, target, t as int),
{
    let mut sum: u128 = 0;
    let mut count: u64 = 0;
    let mut i: usize = 0;
    let n = corpus.len();
    assert(corpus@.subrange(0, 0) =~= Seq::<FeedbackRecord>::empty());
    while i < n
        invariant
            n == corpus@.len(),
            i <= n,
            q@.len() <= MAX_DIMENSION,
            dimensions_match(q@.len(), corpus@),
            -MAX_THRESHOLD <= t <= MAX_THRESHOLD,
            (sum as nat, count as nat) == passing(
                q@,
                corpus@.subrange(0, i as int),
                bow,
                target,
                t as int,
            ),
            count <= i,
            sum <= count * (u64::MAX as int),
        decreases n - i,
    {
        let rec = &corpus[i];
        let e = stored_of(rec, bow, target);
        assert(corpus@[i as int] == *rec);
        let pass = similarity_exceeds(q, e, t);
        proof {
            let next = corpus@.subrange(0, i + 1);
            assert(next.drop_last() =~= corpus@.subrange(0, i as int));
            assert(next.last() == *rec);
        }
        if pass {
            let x: u64 = match rec.news_item.relevance {
                Some(v) => v,
                None => 0,
            };
            assert(sum + x <= (count + 1) * (u64::MAX as int)) by (nonlinear_arith)
                requires
                    sum <= count * (u64::MAX as int),
                    x <= u64::MAX,
            ;
            assert((count + 1) * (u64::MAX as int) <= 0x1_0000_0000_0000_0000 * (u64::MAX as int))
                by (nonlinear_arith)
                requires
                    count + 1 <= 0x1_0000_0000_0000_0000,
            ;
            sum = sum + x as u128;
            count = count + 1;
        }
        i += 1;
    }
    assert(corpus@.subrange(0, n as int) =~= corpus@);
    if count == 0 {
        0
    } else {
        proof {
            lemma_div_is_ordered(sum as int, count * (u64::MAX as int), count as int);
            lemma_div_multiples_vanish(u64::MAX as int, count as int);
        }
        (sum / (count as u128)) as u64
    }
}

/// The age multiplier, in tenths, after `days` whole days.
pub fn decay_multiplier(days: i64) -> (r: u64)
    ensures
        r == decay_tenths(days as int),
{
    if days <= 0 {
        10
    } else if days >= 3 {
        7
    } else {
        (10 - days) as u64
    }
}

/// `relevance` after the age decay of an item published at `published`
/// (seconds since the epoch), seen at `now`.
pub fn apply_decay(relevance: u64, published: Option<i64>, now: i64) -> (r: u64)
    ensures
        r == decayed(relevance as nat, published, now),
{
    match published {
        Some(p) => {
            let days: i64 = if now > p {
                ((now as i128 - p as i128) / (SECONDS_PER_DAY as i128)) as i64
            } else {
                0
            };
            assert(days == days_between(p as int, now as int));
            let m = decay_multiplier(days);
            assert(relevance * m / 10 <= relevance) by (nonlinear_arith)
                requires
                    m <= 10,
            ;
            ((relevance as u128) * (m as u128) / 10) as u64
        },
        None => relevance,
    }
}

/// The feedback score of `item` at the instant `now` (seconds since the
/// epoch), given the embeddings of its title and of its bag of words.
///
/// An item with an error scores zero. Otherwise the title query is compared
/// with every record's title embedding, the bag-of-words query with the
/// embedding that `target` names, each giving a feedback estimate; the larger
/// one is decayed by the item's age where its date can be read.
pub fn calculate_relevance_of_newsitem_at(
    item: &NewsItem,
    title_q: &Vec<i16>,
    bow_q: &Vec<i16>,
    corpus: &Vec<FeedbackRecord>,
    target: BowTarget,
    t: i64,
    now: i64,
) -> (r: u64)
    requires
        title_q@.len() == bow_q@.len(),
        title_q@.len() <= MAX_DIMENSION,
        dimensions_match(title_q@.len(), corpus@),
        -MAX_THRESHOLD <= t <= MAX_THRESHOLD,
    ensures
        r == feedback_score(*item, title_q@, bow_q@, corpus@, target, t as int, now),
{
    if item.error.is_some() {
        return 0;
    }
    let by_title = calculate_relevance_by_cosine_similarity(title_q, corpus, false, target, t);
    let by_bow = calculate_relevance_by_cosine_similarity(bow_q, corpus, true, target, t);
    let best = if by_title >= by_bow {
        by_title
    } else {
        by_bow
    };
    let published = match &item.pub_date {
        Some(d) => parse_rfc2822(d.as_str()),
        None => None,
    };
    apply_decay(best, published, now)
}

/// The feedback score of `item` now: `calculate_relevance_of_newsitem_at` at
/// the current time of the system clock.
pub fn calculate_relevance_of_newsitem(
    item: &NewsItem,
    title_q: &Vec<i16>,
    bow_q: &Vec<i16>,
    corpus: &Vec<FeedbackRecord>,
    target: BowTarget,
    t: i64,
) -> (r: u64)
    requires
        title_q@.len() == bow_q@.len(),
        title_q@.len() <= MAX_DIMENSION,
        dimensions_match(title_q@.len(), corpus@),
        -MAX_THRESHOLD <= t <= MAX_THRESHOLD,
    ensures
        exists|now: i64| r == feedback_score(*item, title_q@, bow_q@, corpus@, target, t as int, now),
{
    let now = now_seconds();
    calculate_relevance_of_newsitem_at(item, title_q, bow_q, corpus, target, t, now)
}

/// The age multiplier never falls below seven tenths nor rises above one, and
/// from three whole days on it is exactly seven tenths (so also for ten days
/// and more).
pub proof fn lemma_decay_floor(days: int)
    ensures
        7 <= decay_tenths(days) <= 10,
        days >= 3 ==> decay_tenths(days) == 7,
        days >= 10 ==> decay_tenths(days) == 7,
{
}

/// Decay never raises a score: future-dated items keep their score, and no
/// item loses more than three tenths of it.
pub proof fn lemma_decay_bounds(relevance: nat, published: Option<i64>, now: i64)
    ensures
        decayed(relevance, published, now) <= relevance,
        decayed(relevance, published, now) >= relevance * 7 / 10,
        (published matches Some(p) && now <= p) ==> decayed(relevance, published, now)
            == relevance,
{
    match published {
        Some(p) => {
            let m = decay_tenths(days_between(p as int, now as int));
            assert(relevance * m / 10 <= relevance) by (nonlinear_arith)
                requires
                    0 <= m <= 10,
            ;
            assert(relevance * 7 <= relevance * m) by (nonlinear_arith)
                requires
                    7 <= m,
            ;
            lemma_div_is_ordered((relevance * 7) as int, relevance * m, 10);
            if now <= p {
                assert(relevance * 10 / 10 == relevance) by (nonlinear_arith);
            }
        },
        None => {
            assert(relevance * 7 / 10 <= relevance) by (nonlinear_arith);
        },
    }
}

/// With no record passing the threshold for either query, the feedback score
/// is zero.
pub proof fn lemma_no_match_scores_zero(
    item: NewsItem,
    title_q: Seq<i16>,
    bow_q: Seq<i16>,
    c: Seq<FeedbackRecord>,
    target: BowTarget,
    t: int,
    now: i64,
)
    requires
        forall|i: int|
            0 <= i < c.len() ==> !exceeds(title_q, #[trigger] stored(c[i], false, target), t),
        forall|i: int| 0 <= i < c.len() ==> !exceeds(bow_q, #[trigger] stored(c[i], true, target), t),
    ensures
        feedback_score(item, title_q, bow_q, c, target, t, now) == 0,
{
    lemma_none_passing(title_q, c, false, target, t);
    lemma_none_passing(bow_q, c, true, target, t);
    if item.error is None {
        lemma_decay_bounds(0, published_at(item), now);
    }
}

proof fn lemma_none_passing(q: Seq<i16>, c: Seq<FeedbackRecord>, bow: bool, target: BowTarget, t: int)
    requires
        forall|i: int| 0 <= i < c.len() ==> !exceeds(q, #[trigger] stored(c[i], bow, target), t),
    ensures
        passing(q, c, bow, target, t).1 == 0,
    decreases c.len(),
{
    if c.len() > 0 {
        let d = c.drop_last();
        assert forall|i: int| 0 <= i < d.len() implies !exceeds(
            q,
            #[trigger] stored(d[i], bow, target),
            t,
        ) by {
            assert(d[i] == c[i]);
        }
        lemma_none_passing(q, d, bow, target, t);
        assert(!exceeds(q, stored(c[c.len() - 1], bow, target), t));
    }
}

/// `item` after a feedback update: unchanged where it has an error, else
/// carrying its feedback score.
pub open spec fn feedback_updated(
    item: NewsItem,
    q: (Vec<i16>, Vec<i16>),
    c: Seq<FeedbackRecord>,
    target: BowTarget,
    t: int,
    now: i64,
) -> NewsItem {
    if item.error is Some {
        item
    } else {
        with_relevance(item, Some(feedback_score(item, q.0@, q.1@, c, target, t, now) as u64))
    }
}

/// Gives every item without error its feedback score at `now`;
/// `queries[i]` holds the title and bag-of-words embeddings of `items[i]`.
/// Items with an error are left as they are.
pub fn update_relevance_of_news_items(
    items: &mut Vec<NewsItem>,
    queries: &Vec<(Vec<i16>, Vec<i16>)>,
    corpus: &Vec<FeedbackRecord>,
    target: BowTarget,
    t: i64,
    now: i64,
)
    requires
        queries@.len() == old(items)@.len(),
        forall|i: int|
            0 <= i < queries@.len() ==> (#[trigger] queries@[i]).0@.len() == queries@[i].1@.len()
                && queries@[i].0@.len() <= MAX_DIMENSION && dimensions_match(
                queries@[i].0@.len(),
                corpus@,
            ),
        -MAX_THRESHOLD <= t <= MAX_THRESHOLD,
    ensures
        final(items)@.len() == old(items)@.len(),
        forall|i: int|
            0 <= i < final(items)@.len() ==> #[trigger] final(items)@[i] == feedback_updated(
                old(items)@[i],
                queries@[i],
                corpus@,
                target,
                t as int,
                now,
            ),
{
    let ghost all = items@;
    let mut rest: Vec<NewsItem> = Vec::new();
    std::mem::swap(items, &mut rest);
    let n = rest.len();
    let mut out: Vec<NewsItem> = Vec::new();
    let mut i: usize = 0;
    while i < n
        invariant
            n == all.len(),
            queries@.len() == n,
            i <= n,
            rest@ == all.subrange(i as int, n as int),
            out@.len() == i,
            forall|j: int|
                0 <= j < queries@.len() ==> (#[trigger] queries@[j]).0@.len() == queries@[j].1@.len()
                    && queries@[j].0@.len() <= MAX_DIMENSION && dimensions_match(
                    queries@[j].0@.len(),
                    corpus@,
                ),
            -MAX_THRESHOLD <= t <= MAX_THRESHOLD,
            forall|j: int|
                0 <= j < i ==> #[trigger] out@[j] == feedback_updated(
                    all[j],
                    queries@[j],
                    corpus@,
                    target,
                    t as int,
                    now,
                ),
        decreases n - i,
    {
        let mut it = rest.remove(0);
        assert(it == all[i as int]);
        assert(rest@ =~= all.subrange(i + 1, n as int));
        if it.error.is_none() {
            let q = &queries[i];
            let score = calculate_relevance_of_newsitem_at(&it, &q.0, &q.1, corpus, target, t, now);
            it.relevance = Some(score);
        }
        out.push(it);
        i += 1;
    }
    *items = out;
}

/// Where a single record, rated `rating`, passes the threshold for the title
/// query, the bag-of-words estimate is no higher, and the item is three or
/// more whole days old, the score is seven tenths of that rating (rounded
/// down): 600 thousandths become 420.
pub proof fn lemma_single_match_after_three_days(
    item: NewsItem,
    title_q: Seq<i16>,
    bow_q: Seq<i16>,
    c: Seq<FeedbackRecord>,
    target: BowTarget,
    t: int,
    now: i64,
    rating: nat,
)
    requires
        item.error is None,
        passing(title_q, c, false, target, t) == (rating, 1nat),
        estimate(bow_q, c, true, target, t) <= rating,
        published_at(item) matches Some(p) && days_between(p as int, now as int) >= 3,
    ensures
        feedback_score(item, title_q, bow_q, c, target, t, now) == rating * 7 / 10,
        rating == 600 ==> feedback_score(item, title_q, bow_q, c, target, t, now) == 420,
{
    assert(estimate(title_q, c, false, target, t) == rating);
}

} // verus!
