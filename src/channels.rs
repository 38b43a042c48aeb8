//! Relevance totals per channel, for reports.
use crate::common::NewsItem;
use crate::text::{chars_of, views};
use vstd::prelude::*;

verus! {

/// The relevance of the items of one channel: their total and their number.
#[derive(Debug, Clone)]
pub struct ChannelTotals {
    pub channel: String,
    pub total: u128,
    pub items: u64,
}

/// The channel of each item, in order.
pub open spec fn channel_seq(items: Seq<NewsItem>) -> Seq<Seq<char>> {
    items.map_values(|it: NewsItem| it.channel@)
}

/// The distinct channels of the items, in order of first appearance.
pub open spec fn channels(items: Seq<NewsItem>) -> Seq<Seq<char>> {
    channel_seq(items).remove_duplicates(Seq::empty())
}

/// The relevance of an item, zero where it has none.
pub open spec fn relevance_or_zero(it: NewsItem) -> nat {
    match it.relevance {
        Some(x) => x as nat,
        None => 0,
    }
}

/// The sum of the relevance of the items of channel `ch`.
pub open spec fn channel_total(items: Seq<NewsItem>, ch: Seq<char>) -> nat
    decreases items.len(),
{
    if items.len() == 0 {
        0
    } else {
        channel_total(items.drop_last(), ch) + if items.last().channel@ == ch {
            relevance_or_zero(items.last())
        } else {
            0
        }
    }
}

/// The number of the items of channel `ch`.
pub open spec fn channel_count(items: Seq<NewsItem>, ch: Seq<char>) -> nat
    decreases items.len(),
{
    if items.len() == 0 {
        0
    } else {
        channel_count(items.drop_last(), ch) + if items.last().channel@ == ch {
            1nat
        } else {
            0
        }
    }
}

proof fn lemma_absent_channel(items: Seq<NewsItem>, ch: Seq<char>)
    requires
        !channel_seq(items).contains(ch),
    ensures
        channel_total(items, ch) == 0,
        channel_count(items, ch) == 0,
    decreases items.len(),
{
    if items.len() > 0 {
        let d = items.drop_last();
        if channel_seq(d).contains(ch) {
            let k = choose|k: int| 0 <= k < channel_seq(d).len() && channel_seq(d)[k] == ch;
            assert(channel_seq(items)[k] == ch);
        }
        lemma_absent_channel(d, ch);
        assert(channel_seq(items)[items.len() - 1] == items.last().channel@);
    }
}

fn same_chars(a: &Vec<char>, b: &Vec<char>) -> (r: bool)
    ensures
        r == (a@ == b@),
{
    if a.len() != b.len() {
        return false;
    }
    let mut i: usize = 0;
    while i < a.len()
        invariant
            a@.len() == b@.len(),
            i <= a@.len(),
            forall|j: int| 0 <= j < i ==> a@[j] == b@[j],
        decreases a@.len() - i,
    {
        if a[i] != b[i] {
            return false;
        }
        i += 1;
    }
    assert(a@ =~= b@);
    true
}

/// The relevance totals of each channel of `items`, channels in order of
/// first appearance; an item without relevance counts as zero.
pub fn channel_totals(items: &Vec<NewsItem>) -> (r: Vec<ChannelTotals>)
    ensures
        r@.len() == channels(items@).len(),
        forall|j: int|
            0 <= j < r@.len() ==> {
                &&& (#[trigger] r@[j]).channel@ == channels(items@)[j]
                &&& r@[j].total == channel_total(items@, channels(items@)[j])
                &&& r@[j].items == channel_count(items@, channels(items@)[j])
            },
{
    let mut names: Vec<Vec<char>> = Vec::new();
    let mut out: Vec<ChannelTotals> = Vec::new();
    let n = items.len();
    let mut i: usize = 0;
    assert(channels(items@.subrange(0, 0)) =~= Seq::<Seq<char>>::empty()) by {
        assert(channel_seq(items@.subrange(0, 0)) =~= Seq::<Seq<char>>::empty());
        reveal_with_fuel(Seq::remove_duplicates, 1);
    }
    while i < n
        invariant
            n == items@.len(),
            i <= n,
            views(names@) == channels(items@.subrange(0, i as int)),
            out@.len() == names@.len(),
            forall|a: int, b: int| 0 <= a < b < names@.len() ==> names@[a]@ != names@[b]@,
            forall|j: int|
                0 <= j < out@.len() ==> {
                    &&& (#[trigger] out@[j]).channel@ == names@[j]@
                    &&& out@[j].total == channel_total(items@.subrange(0, i as int), names@[j]@)
                    &&& out@[j].items == channel_count(items@.subrange(0, i as int), names@[j]@)
                    &&& out@[j].total <= i * (u64::MAX as int)
                    &&& out@[j].items <= i
                },
        decreases n - i,
    {
        let it = &items[i];
        let c = chars_of(it.channel.as_str());
        let x: u64 = match it.relevance {
            Some(v) => v,
            None => 0,
        };
        let ghost p = items@.subrange(0, i as int);
        let ghost q = items@.subrange(0, i + 1);
        proof {
            assert(q.drop_last() =~= p);
            assert(q.last() == *it);
            assert(channel_seq(q) =~= channel_seq(p) + seq![c@]);
            channel_seq(p).lemma_remove_duplicates_append(c@, Seq::empty());
            channel_seq(p).lemma_remove_duplicates_properties(Seq::empty());
            assert(channel_seq(p) + Seq::<Seq<char>>::empty() =~= channel_seq(p));
        }
        let mut found: Option<usize> = None;
        let mut j: usize = 0;
        while j < names.len()
            invariant
                j <= names@.len(),
                found is None ==> forall|m: int| 0 <= m < j ==> names@[m]@ != c@,
                found matches Some(f) ==> f < names@.len() && names@[f as int]@ == c@,
            decreases names@.len() - j,
        {
            if found.is_none() && same_chars(&names[j], &c) {
                found = Some(j);
            }
            j += 1;
        }
        match found {
            Some(f) => {
                let old_entry = out.remove(f);
                assert(old_entry.total <= i * (u64::MAX as int));
                assert(old_entry.total + x <= (i + 1) * (u64::MAX as int)) by (nonlinear_arith)
                    requires
                        old_entry.total <= i * (u64::MAX as int),
                        x <= u64::MAX,
                ;
                assert((i + 1) * (u64::MAX as int) <= 0x1_0000_0000_0000_0000 * (u64::MAX as int))
                    by (nonlinear_arith)
                    requires
                        i + 1 <= 0x1_0000_0000_0000_0000,
                ;
                let entry = ChannelTotals {
                    channel: old_entry.channel,
                    total: old_entry.total + x as u128,
                    items: old_entry.items + 1,
                };
                out.insert(f, entry);
                proof {
                    assert(views(names@).contains(c@)) by {
                        assert(views(names@)[f as int] == c@);
                    }
                    assert forall|m: int| 0 <= m < out@.len() implies {
                        &&& (#[trigger] out@[m]).channel@ == names@[m]@
                        &&& out@[m].total == channel_total(q, names@[m]@)
                        &&& out@[m].items == channel_count(q, names@[m]@)
                        &&& out@[m].total <= (i + 1) * (u64::MAX as int)
                        &&& out@[m].items <= i + 1
                    } by {
                        if m != f {
                            assert(names@[m]@ != c@);
                            assert((i as int) * (u64::MAX as int) <= (i + 1) * (u64::MAX as int))
                                by (nonlinear_arith);
                        }
                    }
                }
            },
            None => {
                let ghost before = views(names@);
                proof {
                    assert(!views(names@).contains(c@)) by {
                        if views(names@).contains(c@) {
                            let m = choose|m: int| 0 <= m < views(names@).len() && views(names@)[m] == c@;
                            assert(names@[m]@ == c@);
                        }
                    }
                    lemma_absent_channel(p, c@);
                }
                out.push(ChannelTotals { channel: it.channel.clone(), total: x as u128, items: 1 });
                names.push(c);
                proof {
                    assert(views(names@) =~= before + seq![c@]);
                    assert forall|m: int| 0 <= m < out@.len() implies {
                        &&& (#[trigger] out@[m]).channel@ == names@[m]@
                        &&& out@[m].total == channel_total(q, names@[m]@)
                        &&& out@[m].items == channel_count(q, names@[m]@)
                        &&& out@[m].total <= (i + 1) * (u64::MAX as int)
                        &&& out@[m].items <= i + 1
                    } by {
                        if m < out@.len() - 1 {
                            assert(names@[m]@ != c@) by {
                                assert(before[m] == names@[m]@);
                            }
                            assert((i as int) * (u64::MAX as int) <= (i + 1) * (u64::MAX as int))
                                by (nonlinear_arith);
                        } else {
                            assert((u64::MAX as int) <= (i + 1) * (u64::MAX as int)) by (
                            nonlinear_arith);
                        }
                    }
                    assert forall|a: int, b: int| 0 <= a < b < names@.len() implies names@[a]@
                        != names@[b]@ by {
                        if b == names@.len() - 1 {
                            assert(before[a] == names@[a]@);
                        }
                    }
                }
            },
        }
        i += 1;
    }
    assert(items@.subrange(0, n as int) =~= items@);
    out
}

/// How the mean `a_total / a_items` compares with `b_total / b_items`.
pub open spec fn mean_order(a_total: nat, a_items: nat, b_total: nat, b_items: nat) -> std::cmp::Ordering {
    if a_total * b_items < b_total * a_items {
        std::cmp::Ordering::Less
    } else if a_total * b_items > b_total * a_items {
        std::cmp::Ordering::Greater
    } else {
        std::cmp::Ordering::Equal
    }
}

proof fn lemma_quotient_order(at: int, ai: int, bt: int, bi: int)
    requires
        0 <= at,
        0 <= bt,
        0 < ai,
        0 < bi,
        at / ai < bt / bi,
    ensures
        at * bi < bt * ai,
{
    let qa = at / ai;
    let qb = bt / bi;
    assert(at == qa * ai + at % ai && 0 <= at % ai < ai) by (nonlinear_arith)
        requires
            0 < ai,
            qa == at / ai,
    ;
    assert(bt == qb * bi + bt % bi && 0 <= bt % bi < bi) by (nonlinear_arith)
        requires
            0 < bi,
            qb == bt / bi,
    ;
    assert(at < (qa + 1) * ai) by (nonlinear_arith)
        requires
            at == qa * ai + at % ai,
            at % ai < ai,
    ;
    assert(at * bi < (qa + 1) * ai * bi) by (nonlinear_arith)
        requires
            at < (qa + 1) * ai,
            0 < bi,
    ;
    assert((qa + 1) * ai * bi <= qb * bi * ai) by (nonlinear_arith)
        requires
            qa + 1 <= qb,
            0 < ai,
            0 < bi,
    ;
    assert(qb * bi * ai <= bt * ai) by (nonlinear_arith)
        requires
            bt == qb * bi + bt % bi,
            0 <= bt % bi,
            0 < ai,
    ;
}

proof fn lemma_remainder_order(at: int, ai: int, bt: int, bi: int)
    requires
        0 <= at,
        0 <= bt,
        0 < ai,
        0 < bi,
        at / ai == bt / bi,
    ensures
        at * bi - bt * ai == (at % ai) * bi - (bt % bi) * ai,
{
    let q = at / ai;
    assert(at == q * ai + at % ai) by (nonlinear_arith)
        requires
            0 < ai,
            q == at / ai,
    ;
    assert(bt == q * bi + bt % bi) by (nonlinear_arith)
        requires
            0 < bi,
            q == bt / bi,
    ;
    assert(at * bi - bt * ai == (at % ai) * bi - (bt % bi) * ai) by (nonlinear_arith)
        requires
            at == q * ai + at % ai,
            bt == q * bi + bt % bi,
    ;
}

/// Compares the mean relevance of two channels, exactly.
pub fn compare_means(a: &ChannelTotals, b: &ChannelTotals) -> (r: std::cmp::Ordering)
    requires
        a.items > 0,
        b.items > 0,
    ensures
        r == mean_order(a.total as nat, a.items as nat, b.total as nat, b.items as nat),
{
    let ai = a.items as u128;
    let bi = b.items as u128;
    let qa = a.total / ai;
    let qb = b.total / bi;
    if qa < qb {
        proof {
            lemma_quotient_order(a.total as int, ai as int, b.total as int, bi as int);
        }
        return std::cmp::Ordering::Less;
    }
    if qa > qb {
        proof {
            lemma_quotient_order(b.total as int, bi as int, a.total as int, ai as int);
        }
        return std::cmp::Ordering::Greater;
    }
    let ra = a.total % ai;
    let rb = b.total % bi;
    proof {
        lemma_remainder_order(a.total as int, ai as int, b.total as int, bi as int);
        assert(ra * bi < 0x1_0000_0000_0000_0000 * 0x1_0000_0000_0000_0000) by (nonlinear_arith)
            requires
                ra < ai,
                ai <= u64::MAX,
                bi <= u64::MAX,
        ;
        assert(rb * ai < 0x1_0000_0000_0000_0000 * 0x1_0000_0000_0000_0000) by (nonlinear_arith)
            requires
                rb < bi,
                ai <= u64::MAX,
                bi <= u64::MAX,
        ;
    }
    let left = ra * bi;
    let right = rb * ai;
    if left < right {
        std::cmp::Ordering::Less
    } else if left > right {
        std::cmp::Ordering::Greater
    } else {
        std::cmp::Ordering::Equal
    }
}

} // verus!
