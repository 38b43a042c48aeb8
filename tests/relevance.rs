use hemeroteca::common::{NewsItem, PipelineError};
use hemeroteca::relevance::{calculate_relevance, calculate_relevance_core, decimal_text, Relevance};
use hemeroteca::vocabulary::{similar_to_root_word, Vocabulary};

fn blank_item() -> NewsItem {
    NewsItem {
        error: None,
        creators: "".to_string(),
        categories: None,
        keywords: None,
        title: "".to_string(),
        description: "".to_string(),
        clean_content: None,
        channel: "".to_string(),
        link: "".to_string(),
        pub_date: None,
        relevance: None,
    }
}

#[test]
fn test_similar_to_root_word() {
    let vocab = Vocabulary::new();
    assert_eq!(similar_to_root_word("Presidente", &vocab), true);
    assert_eq!(similar_to_root_word("President", &vocab), true);
    assert_eq!(similar_to_root_word("Presidencial", &vocab), true);
    assert_eq!(similar_to_root_word("Presidential", &vocab), true);
    assert_eq!(similar_to_root_word("Elección", &vocab), true);
    assert_eq!(similar_to_root_word("Elecciones", &vocab), true);
    assert_eq!(similar_to_root_word("Election", &vocab), true);
    assert_eq!(similar_to_root_word("Elections", &vocab), true);
    assert_eq!(similar_to_root_word("Clima", &vocab), true);
    assert_eq!(similar_to_root_word("Climate", &vocab), true);
    assert_eq!(similar_to_root_word("Climático", &vocab), false);
    assert_eq!(similar_to_root_word("Technology", &vocab), true);
    assert_eq!(similar_to_root_word("Tecnológico", &vocab), true);
}

#[test]
fn test_calculate_relevance_core() {
    let vocab = Vocabulary::new();
    let news_item_with_error = NewsItem { error: Some(PipelineError::EmptyString), ..blank_item() };
    assert_eq!(calculate_relevance_core(&news_item_with_error, &vocab), (true, 0, 0, 0, 0, 0));

    let news_item_with_creators = NewsItem { creators: "John Doe".to_string(), ..blank_item() };
    assert_eq!(calculate_relevance_core(&news_item_with_creators, &vocab), (false, 10, 0, 0, 0, 0));

    let news_item_with_categories = NewsItem {
        categories: Some("Politics, Economy, Technology".to_string()),
        ..blank_item()
    };
    assert_eq!(calculate_relevance_core(&news_item_with_categories, &vocab), (false, 0, 10, 0, 0, 0));

    let news_item_with_keywords = NewsItem {
        keywords: Some("Inflation, Climate, Security".to_string()),
        ..blank_item()
    };
    assert_eq!(calculate_relevance_core(&news_item_with_keywords, &vocab), (false, 0, 0, 15, 0, 0));

    let news_item_with_title = NewsItem { title: "Presidente Elections".to_string(), ..blank_item() };
    assert_eq!(calculate_relevance_core(&news_item_with_title, &vocab), (false, 0, 0, 0, 20, 0));

    let news_item_with_description = NewsItem {
        description: "Crisis and Security".to_string(),
        ..blank_item()
    };
    assert_eq!(calculate_relevance_core(&news_item_with_description, &vocab), (false, 0, 0, 0, 0, 2));

    let news_item_with_description = NewsItem {
        creators: "John Doe".to_string(),
        description: "Crisis and Security".to_string(),
        ..blank_item()
    };
    assert_eq!(calculate_relevance_core(&news_item_with_description, &vocab), (false, 10, 0, 0, 0, 2));
}

#[test]
fn test_calculate_relevance() {
    let vocab = Vocabulary::new();
    let news_item_with_clean_content = NewsItem {
        clean_content: Some("Presidente Elections Crisis Modernización".to_string()),
        ..blank_item()
    };
    let relevance_core = calculate_relevance_core(&news_item_with_clean_content, &vocab);
    let relevance = calculate_relevance(&news_item_with_clean_content, &vocab);
    let relevance_content = relevance.relevance_content;
    assert_eq!(relevance, Relevance::new(relevance_core, relevance_content, relevance.elapsed_micros));

    let news_item_without_clean_content = blank_item();
    let relevance_core = calculate_relevance_core(&news_item_without_clean_content, &vocab);
    let relevance = calculate_relevance(&news_item_without_clean_content, &vocab);
    let relevance_content = relevance.relevance_content;
    assert_eq!(relevance, Relevance::new(relevance_core, relevance_content, relevance.elapsed_micros));
}

#[test]
fn body_text_counts_one_point_per_relevant_word() {
    let vocab = Vocabulary::new();
    let item = NewsItem {
        clean_content: Some("Presidente Elections Crisis Modernización".to_string()),
        ..blank_item()
    };
    let relevance = calculate_relevance(&item, &vocab);
    assert_eq!(relevance.relevance_content, 3);
    assert_eq!(relevance.relevance_core, 0);
    assert_eq!(relevance.net_relevance(), 3);
}

#[test]
fn error_item_scores_zero_everywhere() {
    let vocab = Vocabulary::new();
    let item = NewsItem {
        error: Some(PipelineError::NetworkError("timeout".to_string())),
        creators: "Ana".to_string(),
        title: "Presidente Crisis".to_string(),
        description: "Crisis".to_string(),
        categories: Some("Presidente".to_string()),
        keywords: Some("Crisis".to_string()),
        clean_content: Some("Presidente Crisis".to_string()),
        ..blank_item()
    };
    let r = calculate_relevance(&item, &vocab);
    assert!(r.error);
    assert_eq!(
        (r.by_creator, r.by_categories, r.by_keywords, r.by_title, r.by_description, r.relevance_content),
        (0, 0, 0, 0, 0, 0)
    );
    assert_eq!(r.net_relevance(), 0);
}

#[test]
fn creators_give_exactly_ten_points() {
    let vocab = Vocabulary::new();
    let item = NewsItem { creators: "Ana, Luis".to_string(), title: "Crisis".to_string(), ..blank_item() };
    assert_eq!(calculate_relevance(&item, &vocab).by_creator, 10);
}

#[test]
fn one_close_category_gives_five_points() {
    let vocab = Vocabulary::from_words(&vec!["Presidenta".to_string()]);
    let item = NewsItem { categories: Some("Presidente,Futbol".to_string()), ..blank_item() };
    assert_eq!(calculate_relevance_core(&item, &vocab).2, 5);
    let builtin = Vocabulary::new();
    assert_eq!(calculate_relevance_core(&item, &builtin).2, 5);
}

#[test]
fn weights_of_every_component() {
    let vocab = Vocabulary::new();
    let item = NewsItem {
        creators: "Ana".to_string(),
        categories: Some("Crisis,xyz".to_string()),
        keywords: Some("Hospital,Seguridad".to_string()),
        title: "Guerra y Crisis".to_string(),
        description: "Energía".to_string(),
        clean_content: Some("Policía Crimen fútbol".to_string()),
        ..blank_item()
    };
    let r = calculate_relevance(&item, &vocab);
    assert_eq!((r.by_creator, r.by_categories, r.by_keywords, r.by_title, r.by_description), (10, 5, 10, 20, 1));
    assert_eq!(r.relevance_core, 46);
    assert_eq!(r.relevance_content, 2);
    assert_eq!(r.net_relevance(), 48);
}

#[test]
fn extra_words_extend_the_vocabulary() {
    let vocab = Vocabulary::with_extra_words(&vec!["Futbol".to_string()]);
    assert_eq!(vocab.len(), 68);
    assert!(similar_to_root_word("Futbol", &vocab));
    assert!(!similar_to_root_word("Futbol", &Vocabulary::new()));
    assert!(similar_to_root_word("Crisis", &vocab));
}

#[test]
fn breakdown_order_puts_errors_last() {
    let ok = Relevance::new((false, 0, 0, 0, 0, 1), 0, 0);
    let failed = Relevance::new((true, 0, 0, 0, 0, 0), 0, 0);
    assert_eq!(ok.cmp(&failed), std::cmp::Ordering::Greater);
    assert_eq!(failed.cmp(&ok), std::cmp::Ordering::Less);
    let more_content = Relevance::new((false, 0, 0, 0, 0, 1), 5, 0);
    assert_eq!(more_content.cmp(&ok), std::cmp::Ordering::Greater);
    let more_core = Relevance::new((false, 10, 0, 0, 0, 0), 0, 0);
    assert_eq!(more_core.cmp(&more_content), std::cmp::Ordering::Greater);
    assert_eq!(ok.cmp(&ok), std::cmp::Ordering::Equal);
}

#[test]
fn breakdown_text() {
    let r = Relevance::new((false, 10, 5, 0, 20, 1), 3, 0);
    assert_eq!(
        r.to_string(),
        "Relevance[core: 36, content: 3, explanation: 'breakdown [creator: 10, categories: 5, keywords: 0, title: 20, content: 1]']"
    );
    assert_eq!(r.explanation(), "breakdown [creator: 10, categories: 5, keywords: 0, title: 20, content: 1]");
}

#[test]
fn decimal_texts() {
    assert_eq!(decimal_text(0), "0");
    assert_eq!(decimal_text(7), "7");
    assert_eq!(decimal_text(10), "10");
    assert_eq!(decimal_text(1234567890), "1234567890");
    assert_eq!(decimal_text(u64::MAX), u64::MAX.to_string());
}
