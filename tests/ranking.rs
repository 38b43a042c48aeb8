use hemeroteca::common::{NewsItem, Operator, PipelineError};
use hemeroteca::ranking::{
    filter_opt_in, filter_opt_in_shuffled, top_k, top_k_news_items, update_news_items_with_relevance,
    update_news_items_with_relevance_top_k,
};
use hemeroteca::vocabulary::Vocabulary;

fn item(title: &str, relevance: Option<u64>) -> NewsItem {
    NewsItem { title: title.to_string(), ..NewsItem::default(relevance) }
}

fn titles(items: &[NewsItem]) -> Vec<String> {
    items.iter().map(|i| i.title.clone()).collect()
}

fn tagged(title: &str, categories: Option<&str>, keywords: Option<&str>) -> NewsItem {
    NewsItem {
        title: title.to_string(),
        categories: categories.map(|c| c.to_string()),
        keywords: keywords.map(|k| k.to_string()),
        ..NewsItem::default(None)
    }
}

#[test]
fn top_k_breaks_ties_by_input_order_and_drops_missing() {
    let items = vec![item("x", None), item("y", Some(5)), item("z", Some(5))];
    assert_eq!(titles(&top_k(items, 2)), vec!["y", "z"]);
}

#[test]
fn top_k_keeps_sorted_input() {
    let items = vec![item("a", Some(9)), item("b", Some(7)), item("c", Some(7)), item("d", None)];
    assert_eq!(titles(&top_k(items, 4)), vec!["a", "b", "c", "d"]);
    let items = vec![item("a", Some(9)), item("b", Some(7))];
    assert_eq!(titles(&top_k(items, 10)), vec!["a", "b"]);
}

#[test]
fn top_k_sorts_and_truncates() {
    let items = vec![item("a", Some(1)), item("b", None), item("c", Some(8)), item("d", Some(3)), item("e", None)];
    assert_eq!(titles(&top_k(items, 3)), vec!["c", "d", "a"]);
    let items = vec![item("a", Some(1)), item("b", None), item("c", Some(8))];
    assert_eq!(titles(&top_k(items, 10)), vec!["c", "a", "b"]);
    assert!(top_k(vec![item("a", Some(1))], 0).is_empty());
    assert!(top_k(vec![], 3).is_empty());
}

#[test]
fn empty_opt_in_keeps_everything() {
    let items = vec![tagged("a", None, None), tagged("b", Some("x"), Some("y")), tagged("c", Some(""), None)];
    let kept = filter_opt_in(items, &vec![], Operator::OR);
    assert_eq!(titles(&kept), vec!["a", "b", "c"]);
    let items = vec![tagged("a", None, None), tagged("b", Some("x"), None)];
    let kept = filter_opt_in(items, &vec![], Operator::AND);
    assert_eq!(titles(&kept), vec!["a", "b"]);
}

#[test]
fn and_opt_in_needs_every_term() {
    let items = vec![
        tagged("both", Some("alpha"), Some("beta")),
        tagged("only_a", Some("alpha"), None),
        tagged("only_b", None, Some("bee")),
        tagged("substrings", Some("xaxbx"), None),
        tagged("none", Some("zzz"), Some("yyy")),
    ];
    let kept = filter_opt_in(items, &vec!["a".to_string(), "b".to_string()], Operator::AND);
    assert_eq!(titles(&kept), vec!["both", "substrings"]);
}

#[test]
fn or_opt_in_needs_some_term() {
    let items = vec![
        tagged("sports", Some("deportes,futbol"), None),
        tagged("politics", None, Some("elecciones")),
        tagged("other", Some("cine"), Some("series")),
    ];
    let kept = filter_opt_in(items, &vec!["futbol".to_string(), "elecciones".to_string()], Operator::OR);
    assert_eq!(titles(&kept), vec!["sports", "politics"]);
}

#[test]
fn shuffled_opt_in_keeps_the_same_items() {
    let items = vec![
        tagged("a", Some("alpha"), None),
        tagged("b", Some("beta"), None),
        tagged("c", Some("alpha"), None),
        tagged("d", Some("alpha"), None),
    ];
    let mut kept = titles(&filter_opt_in_shuffled(items, &vec!["alpha".to_string()], Operator::OR));
    kept.sort();
    assert_eq!(kept, vec!["a", "c", "d"]);
}

#[test]
fn batch_scoring_attaches_lexical_relevance() {
    let vocab = Vocabulary::new();
    let mut items = vec![
        NewsItem { title: "Crisis".to_string(), creators: "".to_string(), categories: None, keywords: None, description: "".to_string(), clean_content: None, ..NewsItem::default(None) },
        NewsItem { title: "Guerra Crisis".to_string(), creators: "Ana".to_string(), categories: None, keywords: None, description: "".to_string(), clean_content: None, ..NewsItem::default(None) },
        NewsItem { error: Some(PipelineError::NoContent), ..NewsItem::default(None) },
    ];
    let scored = update_news_items_with_relevance(&mut items, &vocab).unwrap();
    assert!(items.is_empty());
    let rel: Vec<Option<u64>> = scored.iter().map(|i| i.relevance).collect();
    assert_eq!(rel, vec![Some(0), Some(30), Some(10)]);
    assert!(update_news_items_with_relevance(&mut vec![], &vocab).is_none());
}

#[test]
fn batch_scoring_then_top_k() {
    let vocab = Vocabulary::new();
    let mut items = vec![
        NewsItem { title: "Crisis".to_string(), creators: "".to_string(), categories: None, keywords: None, description: "".to_string(), clean_content: None, ..NewsItem::default(None) },
        NewsItem { title: "Guerra Crisis".to_string(), creators: "Ana".to_string(), categories: None, keywords: None, description: "".to_string(), clean_content: None, ..NewsItem::default(None) },
        NewsItem { title: "nada".to_string(), creators: "".to_string(), categories: None, keywords: None, description: "".to_string(), clean_content: None, ..NewsItem::default(None) },
    ];
    let best = update_news_items_with_relevance_top_k(&mut items, 2, &vocab);
    assert_eq!(titles(&best), vec!["Guerra Crisis", "Crisis"]);
    assert!(update_news_items_with_relevance_top_k(&mut vec![], 2, &vocab).is_empty());
}

#[test]
fn breakdown_ranking_puts_errors_last() {
    let vocab = Vocabulary::new();
    let blank = |title: &str| NewsItem { title: title.to_string(), creators: "".to_string(), categories: None, keywords: None, description: "".to_string(), clean_content: None, ..NewsItem::default(None) };
    let items = vec![
        NewsItem { error: Some(PipelineError::EmptyString), ..blank("failed") },
        blank("plain"),
        blank("Crisis"),
        NewsItem { clean_content: Some("Crisis".to_string()), ..blank("plain with content") },
    ];
    let best = top_k_news_items(items, 4, &vocab);
    assert_eq!(titles(&best), vec!["Crisis", "plain with content", "plain", "failed"]);
}
