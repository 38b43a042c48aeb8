//! Ranking, selection and opt-in filtering of news items, and the scoring of
//! whole batches.
use crate::common::{NewsItem, Operator};
use crate::relevance::{
    calculate_relevance, core_total, lexical_content, lexical_core, lexical_net, well_sized, Relevance,
};
use crate::text::{chars_of, contains_chars, contains_seq, views};
use crate::vocabulary::{string_views, Vocabulary};
use rand::seq::SliceRandom;
use vstd::prelude::*;

verus! {

/// Position of the first greatest key of `keys`.
pub open spec fn first_best(keys: Seq<u128>) -> int
    decreases keys.len(),
{
    if keys.len() <= 1 {
        0
    } else {
        let b = first_best(keys.drop_last());
        if keys.last() > keys[b] {
            keys.len() - 1
        } else {
            b
        }
    }
}

/// The first `n` items of `items` in decreasing order of their `keys`, items
/// with equal keys in their input order: at each step the first item with
/// the greatest key is taken out.
pub open spec fn ranked<T>(keys: Seq<u128>, items: Seq<T>, n: nat) -> Seq<T>
    decreases n,
{
    if n == 0 || items.len() == 0 {
        Seq::empty()
    } else {
        let b = first_best(keys);
        seq![items[b]] + ranked(keys.remove(b), items.remove(b), (n - 1) as nat)
    }
}

/// The ranking key of an optional relevance: an absent relevance is below
/// every present one, and two absent ones are equal.
pub open spec fn relevance_key(r: Option<u64>) -> u128 {
    match r {
        Some(x) => (x + 1) as u128,
        None => 0,
    }
}

/// The ranking keys of items, by their relevance.
pub open spec fn relevance_keys(items: Seq<NewsItem>) -> Seq<u128> {
    items.map_values(|it: NewsItem| relevance_key(it.relevance))
}

/// Whether `keys` never increases.
pub open spec fn non_increasing(keys: Seq<u128>) -> bool {
    forall|i: int, j: int| 0 <= i < j < keys.len() ==> keys[i] >= keys[j]
}

proof fn lemma_first_best_bounds(keys: Seq<u128>)
    ensures
        keys.len() > 0 ==> 0 <= first_best(keys) < keys.len(),
        forall|j: int| 0 <= j < keys.len() ==> #[trigger] keys[j] <= keys[first_best(keys)],
        forall|j: int| 0 <= j < first_best(keys) ==> #[trigger] keys[j] < keys[first_best(keys)],
    decreases keys.len(),
{
    if keys.len() > 1 {
        let d = keys.drop_last();
        lemma_first_best_bounds(d);
        assert forall|j: int| 0 <= j < d.len() implies d[j] == keys[j] by {}
    }
}

/// Position of the first greatest key of `keys`.
fn first_best_of(keys: &Vec<u128>) -> (r: usize)
    requires
        keys@.len() > 0,
    ensures
        r == first_best(keys@),
        r < keys@.len(),
{
    proof {
        lemma_first_best_bounds(keys@);
    }
    let mut b: usize = 0;
    let mut i: usize = 1;
    while i < keys.len()
        invariant
            1 <= i <= keys@.len(),
            b == first_best(keys@.subrange(0, i as int)),
            b < i,
        decreases keys@.len() - i,
    {
        proof {
            let next = keys@.subrange(0, i + 1);
            assert(next.drop_last() =~= keys@.subrange(0, i as int));
            lemma_first_best_bounds(keys@.subrange(0, i as int));
        }
        if keys[i] > keys[b] {
            b = i;
        }
        i += 1;
    }
    assert(keys@.subrange(0, keys@.len() as int) =~= keys@);
    b
}

/// The first `k` entries of `items` ranked by `keys`.
fn take_ranked(keys: Vec<u128>, items: Vec<NewsItem>, k: usize) -> (r: Vec<NewsItem>)
    requires
        keys@.len() == items@.len(),
    ensures
        r@ == ranked(keys@, items@, k as nat),
{
    let mut keys = keys;
    let mut items = items;
    let ghost k0 = keys@;
    let ghost i0 = items@;
    let mut out: Vec<NewsItem> = Vec::new();
    assert(out@ + ranked(keys@, items@, k as nat) =~= ranked(k0, i0, k as nat));
    while out.len() < k && items.len() > 0
        invariant
            keys@.len() == items@.len(),
            out@.len() <= k,
            out@ + ranked(keys@, items@, (k - out@.len()) as nat) == ranked(k0, i0, k as nat),
        decreases items@.len(),
    {
        let b = first_best_of(&keys);
        let ghost before_out = out@;
        let ghost m = (k - out@.len()) as nat;
        assert(ranked(keys@, items@, m) == seq![items@[b as int]] + ranked(
            keys@.remove(b as int),
            items@.remove(b as int),
            (m - 1) as nat,
        ));
        let it = items.remove(b);
        keys.remove(b);
        out.push(it);
        assert((k - out@.len()) as nat == (m - 1) as nat);
        assert(out@ + ranked(keys@, items@, (m - 1) as nat) =~= before_out + (seq![it] + ranked(
            keys@,
            items@,
            (m - 1) as nat,
        )));
    }
    assert(ranked(keys@, items@, (k - out@.len()) as nat) =~= Seq::<NewsItem>::empty());
    assert(out@ =~= ranked(k0, i0, k as nat));
    out
}

/// The ranking keys of `items`, by their relevance.
fn relevance_keys_of(items: &Vec<NewsItem>) -> (r: Vec<u128>)
    ensures
        r@ == relevance_keys(items@),
{
    let mut r: Vec<u128> = Vec::new();
    let mut i: usize = 0;
    while i < items.len()
        invariant
            i <= items@.len(),
            r@ =~= relevance_keys(items@).subrange(0, i as int),
        decreases items@.len() - i,
    {
        let key: u128 = match items[i].relevance {
            Some(x) => x as u128 + 1,
            None => 0,
        };
        r.push(key);
        i += 1;
    }
    r
}

/// The `k` most relevant items, most relevant first. An absent relevance
/// ranks below every present one; items of equal relevance keep their input
/// order. Where `k` exceeds the number of items, all of them are returned.
pub fn top_k(items: Vec<NewsItem>, k: usize) -> (r: Vec<NewsItem>)
    ensures
        r@ == ranked(relevance_keys(items@), items@, k as nat),
        r@.len() == if k < items@.len() {
            k as int
        } else {
            items@.len() as int
        },
{
    let keys = relevance_keys_of(&items);
    proof {
        lemma_ranked_len(keys@, items@, k as nat);
    }
    take_ranked(keys, items, k)
}

/// Ranking keeps `n` items, or all of them where there are fewer.
pub proof fn lemma_ranked_len<T>(keys: Seq<u128>, items: Seq<T>, n: nat)
    requires
        keys.len() == items.len(),
    ensures
        ranked(keys, items, n).len() == if n < items.len() {
            n as int
        } else {
            items.len() as int
        },
    decreases n,
{
    if n > 0 && items.len() > 0 {
        lemma_first_best_bounds(keys);
        let b = first_best(keys);
        lemma_ranked_len(keys.remove(b), items.remove(b), (n - 1) as nat);
    }
}

/// Ranking items that are already in non-increasing order of their keys
/// returns them unchanged, when no more than `n` of them are asked for.
pub proof fn lemma_ranked_sorted_unchanged<T>(keys: Seq<u128>, items: Seq<T>, n: nat)
    requires
        keys.len() == items.len(),
        non_increasing(keys),
        items.len() <= n,
    ensures
        ranked(keys, items, n) == items,
    decreases items.len(),
{
    if items.len() > 0 {
        lemma_first_best_bounds(keys);
        let b = first_best(keys);
        if b != 0 {
            assert(keys[0] >= keys[b]);
            assert(keys[0] < keys[b]);
        }
        let rk = keys.remove(0);
        let ri = items.remove(0);
        assert forall|i: int, j: int| 0 <= i < j < rk.len() implies rk[i] >= rk[j] by {
            assert(rk[i] == keys[i + 1]);
            assert(rk[j] == keys[j + 1]);
        }
        lemma_ranked_sorted_unchanged(rk, ri, (n - 1) as nat);
        assert(seq![items[0]] + ri =~= items);
    }
}

/// `top_k` returns a list that is already sorted by relevance, of at most `k`
/// items, unchanged.
pub proof fn lemma_top_k_sorted_unchanged(items: Seq<NewsItem>, k: nat)
    requires
        non_increasing(relevance_keys(items)),
        items.len() <= k,
    ensures
        ranked(relevance_keys(items), items, k) == items,
{
    lemma_ranked_sorted_unchanged(relevance_keys(items), items, k);
}

/// The text of an optional field, empty where it is absent.
pub open spec fn text_or_empty(o: Option<String>) -> Seq<char> {
    match o {
        Some(s) => s@,
        None => Seq::empty(),
    }
}

/// Whether `term` occurs in the categories or in the keywords of `item`.
pub open spec fn term_found(item: NewsItem, term: Seq<char>) -> bool {
    contains_seq(text_or_empty(item.categories), term) || contains_seq(
        text_or_empty(item.keywords),
        term,
    )
}

/// Whether `item` passes the opt-in filter with `terms` under `op`: always
/// where there are no terms; else every term (`AND`) or some term (`OR`) must
/// occur as a substring of its categories or of its keywords.
pub open spec fn opted_in(item: NewsItem, terms: Seq<Seq<char>>, op: Operator) -> bool {
    terms.len() == 0 || match op {
        Operator::AND => forall|i: int| 0 <= i < terms.len() ==> term_found(item, #[trigger] terms[i]),
        Operator::OR => exists|i: int| 0 <= i < terms.len() && term_found(item, #[trigger] terms[i]),
    }
}

/// Whether `term` occurs in the categories or in the keywords of `item`.
fn term_found_in(cats: &Vec<char>, kws: &Vec<char>, term: &Vec<char>) -> (r: bool)
    ensures
        r == (contains_seq(cats@, term@) || contains_seq(kws@, term@)),
{
    contains_chars(cats, term) || contains_chars(kws, term)
}

fn text_chars(o: &Option<String>) -> (r: Vec<char>)
    ensures
        r@ == text_or_empty(*o),
{
    match o {
        Some(s) => chars_of(s.as_str()),
        None => Vec::new(),
    }
}

/// Whether `item` passes the opt-in filter.
fn is_opted_in(item: &NewsItem, terms: &Vec<Vec<char>>, op: Operator) -> (r: bool)
    ensures
        r == opted_in(*item, views(terms@), op),
{
    if terms.len() == 0 {
        return true;
    }
    let cats = text_chars(&item.categories);
    let kws = text_chars(&item.keywords);
    let mut i: usize = 0;
    while i < terms.len()
        invariant
            i <= terms@.len(),
            cats@ == text_or_empty(item.categories),
            kws@ == text_or_empty(item.keywords),
            op == Operator::AND ==> forall|j: int|
                0 <= j < i ==> term_found(*item, #[trigger] views(terms@)[j]),
            op == Operator::OR ==> forall|j: int|
                0 <= j < i ==> !term_found(*item, #[trigger] views(terms@)[j]),
        decreases terms@.len() - i,
    {
        let found = term_found_in(&cats, &kws, &terms[i]);
        assert(views(terms@)[i as int] == terms@[i as int]@);
        match op {
            Operator::AND => {
                if !found {
                    return false;
                }
            },
            Operator::OR => {
                if found {
                    return true;
                }
            },
        }
        i += 1;
    }
    match op {
        Operator::AND => true,
        Operator::OR => false,
    }
}

proof fn lemma_filter_all<T>(s: Seq<T>, pred: spec_fn(T) -> bool)
    requires
        forall|i: int| 0 <= i < s.len() ==> pred(#[trigger] s[i]),
    ensures
        s.filter(pred) == s,
    decreases s.len(),
{
    reveal(Seq::filter);
    if s.len() > 0 {
        let d = s.drop_last();
        assert forall|i: int| 0 <= i < d.len() implies pred(#[trigger] d[i]) by {
            assert(d[i] == s[i]);
        }
        lemma_filter_all(d, pred);
        assert(pred(s[s.len() - 1]));
        assert(d.push(s.last()) =~= s);
    }
}

/// The items that pass the opt-in filter with `terms` under `op`, in their
/// input order. With no terms every item passes.
pub fn filter_opt_in(items: Vec<NewsItem>, terms: &Vec<String>, op: Operator) -> (r: Vec<
    NewsItem,
>)
    ensures
        r@ == items@.filter(|it: NewsItem| opted_in(it, string_views(terms@), op)),
        terms@.len() == 0 ==> r@ == items@,
{
    let ghost pred = |it: NewsItem| opted_in(it, string_views(terms@), op);
    let mut term_chars: Vec<Vec<char>> = Vec::new();
    let mut t: usize = 0;
    while t < terms.len()
        invariant
            t <= terms@.len(),
            views(term_chars@) =~= string_views(terms@).subrange(0, t as int),
        decreases terms@.len() - t,
    {
        let ghost before = term_chars@;
        term_chars.push(chars_of(terms[t].as_str()));
        assert(views(term_chars@) =~= views(before).push(terms@[t as int]@));
        t += 1;
    }
    assert(views(term_chars@) =~= string_views(terms@));
    if terms.len() == 0 {
        proof {
            lemma_filter_all(items@, pred);
        }
        return items;
    }
    let ghost all = items@;
    let mut rest = items;
    let mut kept: Vec<NewsItem> = Vec::new();
    let mut i: usize = 0;
    let n = rest.len();
    proof {
        reveal(Seq::filter);
        assert(all.subrange(0, 0) =~= Seq::<NewsItem>::empty());
        assert(all.subrange(0, n as int) =~= all);
    }
    while i < n
        invariant
            n == all.len(),
            i <= n,
            rest@ == all.subrange(i as int, n as int),
            kept@ == all.subrange(0, i as int).filter(pred),
            views(term_chars@) == string_views(terms@),
            pred == (|it: NewsItem| opted_in(it, string_views(terms@), op)),
        decreases n - i,
    {
        let it = rest.remove(0);
        assert(it == all[i as int]);
        let keep = is_opted_in(&it, &term_chars, op);
        proof {
            reveal(Seq::filter);
            let next = all.subrange(0, i + 1);
            assert(next.drop_last() =~= all.subrange(0, i as int));
            assert(next.last() == it);
            assert(rest@ =~= all.subrange(i + 1, n as int));
        }
        if keep {
            kept.push(it);
        }
        i += 1;
    }
    assert(all.subrange(0, n as int) =~= all);
    kept
}

/// Relies on `rand::seq::SliceRandom::shuffle` with `rand::thread_rng`: the
/// items come back in a random order, as a permutation of what went in.
#[verifier::external_body]
fn shuffle_items(items: &mut Vec<NewsItem>)
    ensures
        final(items)@.to_multiset() == old(items)@.to_multiset(),
{
    items.shuffle(&mut rand::thread_rng());
}

/// The items that pass the opt-in filter, in a random order that removes the
/// bias of the order of the feeds.
pub fn filter_opt_in_shuffled(items: Vec<NewsItem>, terms: &Vec<String>, op: Operator) -> (r: Vec<
    NewsItem,
>)
    ensures
        r@.to_multiset() == items@.filter(
            |it: NewsItem| opted_in(it, string_views(terms@), op),
        ).to_multiset(),
{
    let mut kept = filter_opt_in(items, terms, op);
    shuffle_items(&mut kept);
    kept
}

/// `item` with its relevance replaced by `relevance`.
pub open spec fn with_relevance(item: NewsItem, relevance: Option<u64>) -> NewsItem {
    NewsItem { relevance, ..item }
}

/// The items of `items` in reverse order, each with its net lexical
/// relevance attached.
pub open spec fn scored_lexically(items: Seq<NewsItem>, vocab: Seq<Seq<char>>) -> Seq<NewsItem> {
    Seq::new(
        items.len(),
        |i: int|
            with_relevance(
                items[items.len() - 1 - i],
                Some(lexical_net(items[items.len() - 1 - i], vocab) as u64),
            ),
    )
}

/// `item` with its net lexical relevance attached.
pub fn with_lexical_relevance(item: NewsItem, vocab: &Vocabulary) -> (r: NewsItem)
    requires
        well_sized(item),
    ensures
        r == with_relevance(item, Some(lexical_net(item, vocab@) as u64)),
{
    let mut it = item;
    let score: Relevance = calculate_relevance(&it, vocab);
    it.relevance = Some(score.net_relevance());
    it
}

/// Scores every item of `items` lexically, taking them all out of it. Each
/// item comes back with its net relevance attached; they come back in the
/// reverse of the input order. `None` where there was no item.
pub fn update_news_items_with_relevance(items: &mut Vec<NewsItem>, vocab: &Vocabulary) -> (r:
    Option<Vec<NewsItem>>)
    requires
        forall|i: int| 0 <= i < old(items)@.len() ==> well_sized(#[trigger] old(items)@[i]),
    ensures
        final(items)@.len() == 0,
        match r {
            Some(v) => old(items)@.len() > 0 && v@ == scored_lexically(old(items)@, vocab@),
            None => old(items)@.len() == 0,
        },
{
    let ghost all = items@;
    let n = items.len();
    let mut out: Vec<NewsItem> = Vec::new();
    while items.len() > 0
        invariant
            n == all.len(),
            items@.len() <= n,
            items@ == all.subrange(0, items@.len() as int),
            forall|i: int| 0 <= i < all.len() ==> well_sized(#[trigger] all[i]),
            out@ =~= scored_lexically(all, vocab@).subrange(0, n - items@.len()),
        decreases items@.len(),
    {
        let ghost m = items@.len();
        assert(items@[m - 1] == all[m - 1]);
        let it = match items.pop() {
            Some(x) => x,
            None => {
                assert(false);
                return None;
            },
        };
        assert(it == all[m - 1]);
        out.push(with_lexical_relevance(it, vocab));
    }
    if out.len() == 0 {
        None
    } else {
        Some(out)
    }
}

/// Scores every item of `items` lexically, taking them all out of it, and
/// returns the `k` most relevant ones as `top_k` ranks them.
pub fn update_news_items_with_relevance_top_k(items: &mut Vec<NewsItem>, k: usize, vocab: &Vocabulary) -> (r: Vec<NewsItem>)
    requires
        forall|i: int| 0 <= i < old(items)@.len() ==> well_sized(#[trigger] old(items)@[i]),
    ensures
        final(items)@.len() == 0,
        r@ == ranked(
            relevance_keys(scored_lexically(old(items)@, vocab@)),
            scored_lexically(old(items)@, vocab@),
            k as nat,
        ),
{
    match update_news_items_with_relevance(items, vocab) {
        Some(scored) => top_k(scored, k),
        None => {
            let empty: Vec<NewsItem> = Vec::new();
            assert(scored_lexically(old(items)@, vocab@) =~= Seq::<NewsItem>::empty());
            empty
        },
    }
}

/// The ranking key of an item by its lexical breakdown: items with an error
/// lowest, then by core subtotal, then by body-text component.
pub open spec fn breakdown_key(item: NewsItem, vocab: Seq<Seq<char>>) -> u128 {
    if lexical_core(item, vocab).0 {
        0
    } else {
        (0x10_0000_0000_0000_0000_0000_0000 + core_total(lexical_core(item, vocab))
            * 0x4_0000_0000_0000 + lexical_content(item, vocab)) as u128
    }
}

/// The ranking keys of items by their lexical breakdowns.
pub open spec fn breakdown_keys(items: Seq<NewsItem>, vocab: Seq<Seq<char>>) -> Seq<u128> {
    items.map_values(|it: NewsItem| breakdown_key(it, vocab))
}

/// The `k` items with the best lexical breakdowns, best first: items without
/// error above items with one, then by core subtotal, then by body-text
/// component; ties keep their input order.
pub fn top_k_news_items(items: Vec<NewsItem>, k: usize, vocab: &Vocabulary) -> (r: Vec<NewsItem>)
    requires
        forall|i: int| 0 <= i < items@.len() ==> well_sized(#[trigger] items@[i]),
    ensures
        r@ == ranked(breakdown_keys(items@, vocab@), items@, k as nat),
{
    let mut keys: Vec<u128> = Vec::new();
    let mut i: usize = 0;
    while i < items.len()
        invariant
            i <= items@.len(),
            forall|j: int| 0 <= j < items@.len() ==> well_sized(#[trigger] items@[j]),
            keys@ =~= breakdown_keys(items@, vocab@).subrange(0, i as int),
        decreases items@.len() - i,
    {
        let score = calculate_relevance(&items[i], vocab);
        let key: u128 = if score.error {
            0
        } else {
            0x10_0000_0000_0000_0000_0000_0000 + (score.relevance_core as u128) * 0x4_0000_0000_0000
                + score.relevance_content as u128
        };
        keys.push(key);
        i += 1;
    }
    assert(keys@ =~= breakdown_keys(items@, vocab@));
    take_ranked(keys, items, k)
}

/// Ranking by breakdown keys follows the breakdown order: between items
/// without error, a greater key means a greater core subtotal, or an equal
/// one and a greater body-text component; an item with an error has the
/// lowest key.
pub proof fn lemma_breakdown_key_order(a: NewsItem, b: NewsItem, vocab: Seq<Seq<char>>)
    requires
        well_sized(a),
        well_sized(b),
        core_total(lexical_core(a, vocab)) <= 0x40_0000_0000,
        core_total(lexical_core(b, vocab)) <= 0x40_0000_0000,
        lexical_content(a, vocab) < 0x4_0000_0000_0000,
        lexical_content(b, vocab) < 0x4_0000_0000_0000,
    ensures
        lexical_core(a, vocab).0 ==> breakdown_key(a, vocab) <= breakdown_key(b, vocab),
        (!lexical_core(a, vocab).0 && !lexical_core(b, vocab).0) ==> (breakdown_key(a, vocab)
            > breakdown_key(b, vocab) <==> (core_total(lexical_core(a, vocab)) > core_total(
            lexical_core(b, vocab),
        ) || (core_total(lexical_core(a, vocab)) == core_total(lexical_core(b, vocab))
            && lexical_content(a, vocab) > lexical_content(b, vocab)))),
{
    let ca = core_total(lexical_core(a, vocab)) as int;
    let cb = core_total(lexical_core(b, vocab)) as int;
    let ta = lexical_content(a, vocab) as int;
    let tb = lexical_content(b, vocab) as int;
    assert((ca * 0x4_0000_0000_0000 + ta > cb * 0x4_0000_0000_0000 + tb) <==> (ca > cb || (ca
        == cb && ta > tb))) by (nonlinear_arith)
        requires
            0 <= ta < 0x4_0000_0000_0000,
            0 <= tb < 0x4_0000_0000_0000,
            0 <= ca,
            0 <= cb,
    ;
    assert(ca * 0x4_0000_0000_0000 + ta < 0x10_0000_0000_0000_0000_0000_0000) by (nonlinear_arith)
        requires
            0 <= ca <= 0x40_0000_0000,
            0 <= ta < 0x4_0000_0000_0000,
    ;
    assert(cb * 0x4_0000_0000_0000 + tb < 0x10_0000_0000_0000_0000_0000_0000) by (nonlinear_arith)
        requires
            0 <= cb <= 0x40_0000_0000,
            0 <= tb < 0x4_0000_0000_0000,
    ;
}

/// Every item that ranking returns is an item of the input.
proof fn lemma_ranked_members<T>(keys: Seq<u128>, items: Seq<T>, n: nat)
    requires
        keys.len() == items.len(),
    ensures
        forall|j: int|
            0 <= j < ranked(keys, items, n).len() ==> items.contains(
                #[trigger] ranked(keys, items, n)[j],
            ),
    decreases n,
{
    if n > 0 && items.len() > 0 {
        lemma_first_best_bounds(keys);
        let b = first_best(keys);
        let rk = keys.remove(b);
        let ri = items.remove(b);
        lemma_ranked_members(rk, ri, (n - 1) as nat);
        let out = ranked(keys, items, n);
        assert forall|j: int| 0 <= j < out.len() implies items.contains(#[trigger] out[j]) by {
            if j == 0 {
                assert(out[0] == items[b]);
            } else {
                let rest = ranked(rk, ri, (n - 1) as nat);
                assert(out[j] == rest[j - 1]);
                assert(ri.contains(rest[j - 1]));
                let i = choose|i: int| 0 <= i < ri.len() && ri[i] == rest[j - 1];
                if i < b {
                    assert(ri[i] == items[i]);
                } else {
                    assert(ri[i] == items[i + 1]);
                }
            }
        }
    }
}

/// Ranking keys by themselves gives them in non-increasing order.
proof fn lemma_ranked_keys_sorted(keys: Seq<u128>, n: nat)
    ensures
        non_increasing(ranked(keys, keys, n)),
    decreases n,
{
    if n > 0 && keys.len() > 0 {
        lemma_first_best_bounds(keys);
        let b = first_best(keys);
        let rk = keys.remove(b);
        lemma_ranked_keys_sorted(rk, (n - 1) as nat);
        lemma_ranked_members(rk, rk, (n - 1) as nat);
        let rest = ranked(rk, rk, (n - 1) as nat);
        let out = ranked(keys, keys, n);
        assert forall|i: int, j: int| 0 <= i < j < out.len() implies out[i] >= out[j] by {
            if i == 0 {
                assert(out[0] == keys[b]);
                assert(out[j] == rest[j - 1]);
                assert(rk.contains(rest[j - 1]));
                let m = choose|m: int| 0 <= m < rk.len() && rk[m] == rest[j - 1];
                if m < b {
                    assert(rk[m] == keys[m]);
                } else {
                    assert(rk[m] == keys[m + 1]);
                }
            } else {
                assert(out[i] == rest[i - 1]);
                assert(out[j] == rest[j - 1]);
            }
        }
    }
}

/// The keys of what ranking returns are the keys ranked by themselves.
proof fn lemma_ranked_keys_follow(items: Seq<NewsItem>, keys: Seq<u128>, n: nat)
    requires
        keys == relevance_keys(items),
    ensures
        relevance_keys(ranked(keys, items, n)) == ranked(keys, keys, n),
    decreases n,
{
    if n > 0 && items.len() > 0 {
        lemma_first_best_bounds(keys);
        let b = first_best(keys);
        let rk = keys.remove(b);
        let ri = items.remove(b);
        assert(rk =~= relevance_keys(ri));
        lemma_ranked_keys_follow(ri, rk, (n - 1) as nat);
        let out = ranked(keys, items, n);
        assert(relevance_keys(out) =~= seq![keys[b]] + relevance_keys(ranked(rk, ri, (n - 1) as nat)));
    } else {
        assert(relevance_keys(ranked(keys, items, n)) =~= Seq::<u128>::empty());
    }
}

/// What `top_k` returns is in non-increasing order of relevance, an absent
/// relevance last.
pub proof fn lemma_top_k_sorted(items: Seq<NewsItem>, k: nat)
    ensures
        non_increasing(relevance_keys(ranked(relevance_keys(items), items, k))),
{
    lemma_ranked_keys_follow(items, relevance_keys(items), k);
    lemma_ranked_keys_sorted(relevance_keys(items), k);
}

/// Of an unscored item followed by two items of equal relevance, the top two
/// are the two scored items, in their input order.
pub proof fn lemma_top_two_of_three(x: NewsItem, y: NewsItem, z: NewsItem, v: u64)
    requires
        x.relevance is None,
        y.relevance == Some(v),
        z.relevance == Some(v),
    ensures
        ranked(relevance_keys(seq![x, y, z]), seq![x, y, z], 2) == seq![y, z],
{
    let items = seq![x, y, z];
    let keys = relevance_keys(items);
    assert(keys =~= seq![0u128, (v + 1) as u128, (v + 1) as u128]);
    let k2 = keys.drop_last();
    assert(k2.drop_last() =~= seq![0u128]);
    assert(first_best(k2.drop_last()) == 0);
    assert(k2.last() > k2[0]);
    assert(first_best(k2) == 1);
    assert(first_best(keys) == 1);
    let rk = keys.remove(1);
    let ri = items.remove(1);
    assert(rk =~= seq![0u128, (v + 1) as u128]);
    assert(ri =~= seq![x, z]);
    assert(rk.drop_last() =~= seq![0u128]);
    assert(first_best(rk.drop_last()) == 0);
    assert(rk.last() > rk[0]);
    assert(first_best(rk) == 1);
    assert(ranked(rk.remove(1), ri.remove(1), 0) =~= Seq::<NewsItem>::empty());
    assert(ranked(rk, ri, 1) =~= seq![z]);
    assert(ranked(keys, items, 2) =~= seq![y, z]);
}

} // verus!
