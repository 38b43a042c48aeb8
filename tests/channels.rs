use hemeroteca::channels::{channel_totals, compare_means, ChannelTotals};
use hemeroteca::common::NewsItem;
use std::cmp::Ordering;

fn channel_item(channel: &str, relevance: Option<u64>) -> NewsItem {
    NewsItem { channel: channel.to_string(), ..NewsItem::default(relevance) }
}

fn totals(total: u128, items: u64) -> ChannelTotals {
    ChannelTotals { channel: "c".to_string(), total, items }
}

#[test]
fn totals_per_channel_in_order_of_appearance() {
    let items = vec![channel_item("b", Some(3)), channel_item("a", Some(10)), channel_item("b", None), channel_item("b", Some(4)), channel_item("c", Some(1))];
    let t = channel_totals(&items);
    let summary: Vec<(String, u128, u64)> = t.iter().map(|c| (c.channel.clone(), c.total, c.items)).collect();
    assert_eq!(
        summary,
        vec![("b".to_string(), 7, 3), ("a".to_string(), 10, 1), ("c".to_string(), 1, 1)]
    );
    assert!(channel_totals(&vec![]).is_empty());
}

#[test]
fn means_compare_exactly() {
    assert_eq!(compare_means(&totals(7, 3), &totals(10, 1)), Ordering::Less);
    assert_eq!(compare_means(&totals(10, 1), &totals(7, 3)), Ordering::Greater);
    assert_eq!(compare_means(&totals(4, 2), &totals(6, 3)), Ordering::Equal);
    assert_eq!(compare_means(&totals(7, 3), &totals(5, 2)), Ordering::Less);
    assert_eq!(compare_means(&totals(u64::MAX as u128 * 3, 3), &totals(u64::MAX as u128 * 2 - 1, 2)), Ordering::Greater);
}
