use hemeroteca::feeds::{accept_feed_line, accept_line};

#[test]
fn feed_lines() {
    assert!(accept_feed_line("https://feeds.elpais.com/mrss-s/pages/ep/site/elpais.com/portada"));
    assert!(accept_feed_line("https://www.20minutos.es/rss/"));
    assert!(accept_feed_line("http://www.eldiario.es/rss/"));
    assert!(!accept_feed_line("# https://www.eldiario.es/rss/"));
    assert!(!accept_feed_line(""));
    assert!(!accept_feed_line("www.eldiario.es/rss/"));
    assert!(!accept_feed_line("https://"));
}

#[test]
fn feed_line_rules() {
    assert!(accept_line("anything", true));
    assert!(!accept_line("anything", false));
    assert!(!accept_line("#comment", true));
    assert!(!accept_line("", true));
}
