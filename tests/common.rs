use hemeroteca::common::{error_from_column, get_channel_type, ChannelType, NewsItem, PipelineError};
use hemeroteca::items::{keywords_from_extensions, normalize_pub_date, ItemError};

#[test]
fn error_text_round_trips() {
    let errors = vec![
        PipelineError::EmptyString,
        PipelineError::ParsingError("xyz".to_string()),
        PipelineError::ParsingError("".to_string()),
        PipelineError::ParsingError("a (nested) detail\nwith a newline".to_string()),
        PipelineError::NoContent,
        PipelineError::NetworkError("connection refused".to_string()),
        PipelineError::UnknownError,
    ];
    for e in errors {
        let text = e.as_string();
        assert_eq!(PipelineError::parse(&text), Some(e));
    }
}

#[test]
fn error_texts_are_canonical() {
    assert_eq!(PipelineError::ParsingError("xyz".to_string()).as_string(), "ParsingError(xyz)");
    assert_eq!(PipelineError::NetworkError("down".to_string()).as_string(), "NetworkError(down)");
    assert_eq!(PipelineError::EmptyString.as_string(), "EmptyString");
    assert_eq!(PipelineError::NoContent.as_str(), "NoContent");
    assert_eq!(PipelineError::ParsingError("x".to_string()).as_str(), "ParsingError");
    assert_eq!(PipelineError::UnknownError.as_str(), "UnknownError");
}

#[test]
fn malformed_error_texts_are_refused() {
    assert_eq!(PipelineError::parse("None"), None);
    assert_eq!(PipelineError::parse(""), None);
    assert_eq!(PipelineError::parse("ParsingError(x"), None);
    assert_eq!(PipelineError::parse("ParsingError"), None);
    assert_eq!(PipelineError::parse("emptystring"), None);
}

#[test]
fn channel_types() {
    assert_eq!(get_channel_type("EL PAÍS: el periódico global"), ChannelType::ElPais);
    assert_eq!(get_channel_type("El País: el periódico global"), ChannelType::ElPais);
    assert_eq!(get_channel_type("20MINUTOS - ..."), ChannelType::VeinteMinutos);
    assert_eq!(get_channel_type("ElDiario.es"), ChannelType::ElDiario);
    assert_eq!(get_channel_type("elmundo"), ChannelType::ElMundo);
    assert_eq!(get_channel_type("Other"), ChannelType::Other);
}

#[test]
fn bag_of_words_is_distinct_and_lowercase() {
    let item = NewsItem {
        keywords: Some("Politics,Elections".to_string()),
        categories: Some("politics,World".to_string()),
        ..NewsItem::default(None)
    };
    assert_eq!(item.get_bow(), "politics elections world");
    let none = NewsItem { keywords: None, categories: None, ..NewsItem::default(None) };
    assert_eq!(none.get_bow(), "");
}

#[test]
fn items_from_feed_fields() {
    let item = NewsItem::from_fields(
        "My RSS Feed",
        Some("Title 1".to_string()),
        Some("https://www.acme.es/section/uri-to-item.html".to_string()),
        Some("Description".to_string()),
        &vec!["Ana".to_string(), "Luis".to_string()],
        None,
        &vec!["Category 1".to_string(), "Category 2".to_string()],
        Some(vec!["Keyword 1".to_string(), "Keyword 2".to_string()]),
    )
    .unwrap();
    assert_eq!(item.title, "Title 1");
    assert_eq!(item.link, "https://www.acme.es/section/uri-to-item.html");
    assert_eq!(item.description, "Description");
    assert_eq!(item.categories, Some("category 1,category 2".to_string()));
    assert_eq!(item.keywords, Some("keyword 1,keyword 2".to_string()));
    assert_eq!(item.creators, "Ana,Luis");
    assert_eq!(item.relevance, None);

    let bare = NewsItem::from_fields("Other", Some("T".to_string()), Some("L".to_string()), Some("D".to_string()), &vec![], None, &vec![], None).unwrap();
    assert_eq!(bare.categories, None);
    assert_eq!(bare.keywords, None);
    assert_eq!(bare.creators, "");
}

#[test]
fn items_without_required_fields_are_refused() {
    let no_title = NewsItem::from_fields("Other", None, Some("L".to_string()), Some("D".to_string()), &vec![], None, &vec![], None);
    assert_eq!(no_title.err(), Some(ItemError::NoTitle));
    let no_link = NewsItem::from_fields("Other", Some("T".to_string()), None, Some("D".to_string()), &vec![], None, &vec![], None);
    assert_eq!(no_link.err(), Some(ItemError::NoLink));
    let no_description = NewsItem::from_fields("Other", Some("T".to_string()), Some("L".to_string()), None, &vec![], None, &vec![], None);
    assert_eq!(no_description.err(), Some(ItemError::NoDescription));
}

#[test]
fn cleaning_outcomes_are_recorded() {
    let mut item = NewsItem::default(None);
    item.set_clean_content(Ok("Some text".to_string()));
    assert_eq!(item.clean_content, Some("Some text".to_string()));
    assert!(item.error.is_none());

    item.set_clean_content(Ok("".to_string()));
    assert_eq!(item.clean_content, None);
    assert_eq!(item.error, Some(PipelineError::NoContent));

    let mut other = NewsItem::default(None);
    other.set_clean_content(Err(PipelineError::NetworkError("down".to_string())));
    assert_eq!(other.clean_content, None);
    assert_eq!(other.error, Some(PipelineError::NetworkError("down".to_string())));
}

#[test]
fn relevance_comparison() {
    let a = NewsItem::default(Some(3));
    let b = NewsItem::default(Some(5));
    let none = NewsItem::default(None);
    assert_eq!(a.cmp_relevance(&b), std::cmp::Ordering::Less);
    assert_eq!(b.cmp_relevance(&a), std::cmp::Ordering::Greater);
    assert_eq!(a.cmp_relevance(&none), std::cmp::Ordering::Greater);
    assert_eq!(none.cmp_relevance(&a), std::cmp::Ordering::Less);
    assert_eq!(none.cmp_relevance(&NewsItem::default(None)), std::cmp::Ordering::Equal);
}

#[test]
fn test_news_item_binds() {
    let news_item = NewsItem {
        channel: "Channel".to_string(),
        title: "Title".to_string(),
        link: "Link".to_string(),
        description: "Description".to_string(),
        pub_date: Some("Date".to_string()),
        categories: Some("Categories".to_string()),
        keywords: Some("Keywords".to_string()),
        clean_content: Some("Clean Content".to_string()),
        creators: "John Doe".to_string(),
        error: None,
        relevance: None,
    };
    let binds = news_item.binds();
    assert_eq!(binds.len(), 10);
}

#[test]
fn binds_hold_every_column() {
    let item = NewsItem {
        pub_date: None,
        error: Some(PipelineError::ParsingError("bad".to_string())),
        ..NewsItem::default(None)
    };
    let binds = item.binds();
    assert_eq!(binds[0], (":channel", "Channel"));
    assert_eq!(binds[5], (":pub_date", ""));
    assert_eq!(binds[6], (":categories", "Category1, Category2"));
    assert_eq!(binds[9], (":error", "ParsingError"));
    assert_eq!(NewsItem::default(None).binds()[9], (":error", "None"));
}

#[test]
fn stored_error_columns() {
    assert_eq!(error_from_column(None), None);
    assert_eq!(error_from_column(Some("None".to_string())), None);
    assert_eq!(error_from_column(Some("NoContent".to_string())), Some(PipelineError::NoContent));
    assert_eq!(
        error_from_column(Some("NetworkError(timeout)".to_string())),
        Some(PipelineError::NetworkError("timeout".to_string()))
    );
    assert_eq!(error_from_column(Some("garbage".to_string())), Some(PipelineError::UnknownError));
}

#[test]
fn keywords_from_feed_extensions() {
    let entries = vec![
        ("media:keywords".to_string(), Some("Keyword 1".to_string())),
        ("media:keywords".to_string(), Some("Keyword 2".to_string())),
    ];
    assert_eq!(keywords_from_extensions(&entries), Some(vec!["Keyword 1".to_string(), "Keyword 2".to_string()]));
    let missing = vec![("media:keywords".to_string(), None)];
    assert_eq!(keywords_from_extensions(&missing), None);
    let other = vec![
        ("media:keywords".to_string(), Some("a".to_string())),
        ("media:other".to_string(), Some("b".to_string())),
    ];
    assert_eq!(keywords_from_extensions(&other), None);
    assert_eq!(keywords_from_extensions(&vec![]), Some(vec![]));
}

#[test]
fn publication_dates_use_numeric_zones() {
    assert_eq!(normalize_pub_date("Mon, 01 Jan 2024 00:00:00 GMT"), "Mon, 01 Jan 2024 00:00:00 +0000");
    assert_eq!(normalize_pub_date("Mon, 01 Jan 2024 00:00:00 +0100"), "Mon, 01 Jan 2024 00:00:00 +0100");
    assert_eq!(normalize_pub_date("GMTGMT"), "+0000+0000");
    assert_eq!(normalize_pub_date(""), "");
}
