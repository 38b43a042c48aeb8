use hemeroteca::common::{NewsItem, PipelineError};
use hemeroteca::feedback::{
    apply_decay, calculate_relevance_by_cosine_similarity, decay_multiplier, calculate_relevance_of_newsitem_at,
    calculate_relevance_of_newsitem, similarity_exceeds, update_relevance_of_news_items, BowTarget, FeedbackRecord,
};

fn record(relevance: u64, title: Vec<i16>, bow: Vec<i16>) -> FeedbackRecord {
    FeedbackRecord { news_item: NewsItem::default(Some(relevance)), title_embedding: title, bow_embedding: bow }
}

fn undated() -> NewsItem {
    NewsItem { pub_date: None, ..NewsItem::default(None) }
}

const JAN_1_2024: i64 = 1_704_067_200;

#[test]
fn no_record_above_threshold_scores_zero() {
    let corpus = vec![record(500, vec![0, 100], vec![0, 100]), record(700, vec![0, 50], vec![0, 50])];
    let q = vec![100, 0];
    assert_eq!(calculate_relevance_of_newsitem_at(&undated(), &q, &q, &corpus, BowTarget::TitleEmbedding, 500, JAN_1_2024), 0);
}

#[test]
fn one_match_three_days_old_keeps_seven_tenths() {
    let corpus = vec![record(600, vec![100, 0], vec![0, 100]), record(900, vec![0, 100], vec![100, 0])];
    let q = vec![100, 0];
    let item = NewsItem { pub_date: Some("Mon, 01 Jan 2024 00:00:00 +0000".to_string()), ..NewsItem::default(None) };
    let now = JAN_1_2024 + 3 * 86400 + 60;
    assert_eq!(calculate_relevance_of_newsitem_at(&item, &q, &q, &corpus, BowTarget::TitleEmbedding, 500, now), 420);
    assert_eq!(calculate_relevance_of_newsitem_at(&undated(), &q, &q, &corpus, BowTarget::TitleEmbedding, 500, now), 600);
}

#[test]
fn decay_multiplier_is_clamped() {
    assert_eq!(decay_multiplier(-2), 10);
    assert_eq!(decay_multiplier(0), 10);
    assert_eq!(decay_multiplier(1), 9);
    assert_eq!(decay_multiplier(2), 8);
    assert_eq!(decay_multiplier(3), 7);
    assert_eq!(decay_multiplier(10), 7);
    assert_eq!(decay_multiplier(400), 7);
}

#[test]
fn decay_by_age() {
    assert_eq!(apply_decay(1000, Some(0), 86400), 900);
    assert_eq!(apply_decay(1000, Some(0), 86399), 1000);
    assert_eq!(apply_decay(1000, Some(0), 20 * 86400), 700);
    assert_eq!(apply_decay(1000, Some(100 * 86400), 0), 1000);
    assert_eq!(apply_decay(1000, None, 0), 1000);
    assert_eq!(apply_decay(5, Some(0), 2 * 86400), 4);
}

#[test]
fn passing_records_are_averaged() {
    let corpus = vec![
        record(500, vec![10, 1], vec![0, 1]),
        record(700, vec![20, 3], vec![0, 1]),
        record(900, vec![-1, 10], vec![0, 1]),
    ];
    let q = vec![10, 0];
    assert_eq!(calculate_relevance_by_cosine_similarity(&q, &corpus, false, BowTarget::TitleEmbedding, 900), 600);
    assert_eq!(calculate_relevance_by_cosine_similarity(&q, &corpus, false, BowTarget::TitleEmbedding, 990), 500);
    assert_eq!(calculate_relevance_by_cosine_similarity(&q, &corpus, false, BowTarget::TitleEmbedding, 999), 0);
    assert_eq!(calculate_relevance_by_cosine_similarity(&q, &corpus, false, BowTarget::TitleEmbedding, -1000), 700);
}

#[test]
fn the_bag_of_words_target_can_be_switched() {
    let corpus = vec![record(800, vec![0, 1], vec![1, 0])];
    let title_q = vec![-5, 0];
    let bow_q = vec![5, 0];
    assert_eq!(calculate_relevance_of_newsitem_at(&undated(), &title_q, &bow_q, &corpus, BowTarget::TitleEmbedding, 0, 0), 0);
    assert_eq!(calculate_relevance_of_newsitem_at(&undated(), &title_q, &bow_q, &corpus, BowTarget::BowEmbedding, 0, 0), 800);
}

#[test]
fn cosine_threshold_is_exact() {
    let a = vec![3, 4];
    let b = vec![4, 3];
    // cos = 24 / 25 = 0.96
    assert!(similarity_exceeds(&a, &b, 959));
    assert!(!similarity_exceeds(&a, &b, 960));
    assert!(!similarity_exceeds(&a, &a, 1000));
    assert!(similarity_exceeds(&a, &a, 999));
    assert!(!similarity_exceeds(&a, &vec![0, 0], -1000));
    assert!(similarity_exceeds(&vec![1, 0], &vec![-1, 1], -708));
    assert!(!similarity_exceeds(&vec![1, 0], &vec![-1, 1], -707));
}

#[test]
fn error_items_score_zero_and_are_not_updated() {
    let corpus = vec![record(600, vec![1, 0], vec![1, 0])];
    let q = vec![1, 0];
    let failed = NewsItem { error: Some(PipelineError::NoContent), relevance: Some(3), pub_date: None, ..NewsItem::default(None) };
    assert_eq!(calculate_relevance_of_newsitem_at(&failed, &q, &q, &corpus, BowTarget::TitleEmbedding, 0, 0), 0);
    let mut items = vec![failed, undated()];
    let queries = vec![(q.clone(), q.clone()), (q.clone(), q.clone())];
    update_relevance_of_news_items(&mut items, &queries, &corpus, BowTarget::TitleEmbedding, 0, 0);
    assert_eq!(items[0].relevance, Some(3));
    assert_eq!(items[1].relevance, Some(600));
}

#[test]
fn scoring_now_uses_the_clock() {
    let corpus = vec![record(600, vec![1, 0], vec![1, 0])];
    let q = vec![1, 0];
    let old = NewsItem { pub_date: Some("Mon, 01 Jan 2024 00:00:00 +0000".to_string()), ..NewsItem::default(None) };
    assert_eq!(calculate_relevance_of_newsitem(&old, &q, &q, &corpus, BowTarget::TitleEmbedding, 0), 420);
}

#[test]
fn unreadable_dates_do_not_decay() {
    let corpus = vec![record(600, vec![1, 0], vec![1, 0])];
    let q = vec![1, 0];
    let item = NewsItem { pub_date: Some("2021-01-01T00:00:00+0000".to_string()), ..NewsItem::default(None) };
    assert_eq!(calculate_relevance_of_newsitem_at(&item, &q, &q, &corpus, BowTarget::TitleEmbedding, 0, JAN_1_2024), 600);
}
