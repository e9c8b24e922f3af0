use agent_memory::providers::web_crawler::{
    analysis_report, links_report, research_report, search_urls, PageContent,
};

const RULE: &str = "──────────────────────────────────────────────────";

fn page(text: &str, links: &[&str]) -> PageContent {
    PageContent {
        url: "https://example.org/final".to_string(),
        title: Some("Example".to_string()),
        text: text.to_string(),
        links: links.iter().map(|s| s.to_string()).collect(),
    }
}

#[test]
fn the_rule_has_fifty_strokes() {
    assert_eq!(RULE.chars().count(), 50);
}

#[test]
fn a_query_is_encoded_into_the_search_addresses() {
    assert_eq!(
        search_urls("rust lang"),
        vec![
            "https://www.google.com/search?q=rust%20lang".to_string(),
            "https://www.google.com/search?q=rust%20lang&tbm=nws".to_string(),
            "https://www.google.com/search?q=rust%20lang+review".to_string(),
            "https://duckduckgo.com/?q=rust%20lang".to_string(),
            "https://duckduckgo.com/?q=rust%20lang+guide".to_string(),
            "https://duckduckgo.com/?q=rust%20lang&t=h_".to_string(),
            "https://duckduckgo.com/?q=rust%20lang+tutorial".to_string(),
        ]
    );
}

#[test]
fn only_unreserved_bytes_stand_for_themselves() {
    assert_eq!(search_urls("aZ09-._~")[3], "https://duckduckgo.com/?q=aZ09-._~");
    assert_eq!(search_urls("a&b=c/d?")[3], "https://duckduckgo.com/?q=a%26b%3Dc%2Fd%3F");
    assert_eq!(search_urls("é ✓")[3], "https://duckduckgo.com/?q=%C3%A9%20%E2%9C%93");
    assert_eq!(search_urls("")[3], "https://duckduckgo.com/?q=");
}

#[test]
fn an_analysis_frames_the_text_of_the_page() {
    assert_eq!(
        analysis_report("https://example.org", &page("- Hello\n- World\n", &[])),
        vec![
            "🔍 Analyzing: https://example.org".to_string(),
            String::new(),
            "📚 Content Analysis:".to_string(),
            RULE.to_string(),
            "- Hello\n- World\n".to_string(),
            RULE.to_string(),
        ]
    );
}

#[test]
fn research_lists_the_addresses_by_number() {
    let results = vec!["https://a.example".to_string(), "https://b.example".to_string()];
    assert_eq!(
        research_report("caching", &results),
        vec![
            "📚 Research Results for: caching".to_string(),
            RULE.to_string(),
            "🔍 Search Results:".to_string(),
            "1. https://a.example".to_string(),
            "2. https://b.example".to_string(),
            RULE.to_string(),
            "💡 Tip: Click any of these links to read more about the topic".to_string(),
            "📊 Found 2 sources".to_string(),
        ]
    );
    assert_eq!(research_report("x", &Vec::new()).len(), 6);
    assert_eq!(research_report("x", &Vec::new())[5], "📊 Found 0 sources");
}

#[test]
fn research_numbers_beyond_nine() {
    let results: Vec<String> = (0..11).map(|i| format!("u{}", i)).collect();
    let report = research_report("t", &results);
    assert_eq!(report[3 + 9], "10. u9");
    assert_eq!(report[3 + 10], "11. u10");
    assert_eq!(report[3 + 13], "📊 Found 11 sources");
}

#[test]
fn links_are_listed_by_number() {
    assert_eq!(
        links_report("https://example.org", &page("", &["https://a.example", "https://b.example"])),
        format!(
            "🔗 Links found on: https://example.org\n{}\n1. https://a.example\n2. https://b.example\n\nTotal links found: 2\n{}",
            RULE, RULE
        )
    );
}

#[test]
fn a_page_without_links_says_so() {
    assert_eq!(
        links_report("https://example.org", &page("text", &[])),
        format!(
            "🔗 Links found on: https://example.org\n{}\nNo links found on this page.\n{}",
            RULE, RULE
        )
    );
}

const PAGE: &str = "<html><head><title>My Page</title></head><body><p>Hello <b>world</b></p>\
<ul><li>One</li><li> </li></ul>\
<a href=\"http://a.example\">A</a><a href=\"/local\">L</a><a name=\"x\">N</a>\
<a href=\"https://b.example\">B</a></body></html>";

#[test]
fn a_page_is_read_by_its_elements() {
    let page = agent_memory::providers::web_crawler::read_page("https://example.org/final", PAGE);
    assert_eq!(page.url, "https://example.org/final");
    assert_eq!(page.title, Some("My Page".to_string()));
    assert_eq!(page.text, "- Hello  world\n- One  \n- One\n");
    assert_eq!(page.links, vec!["http://a.example".to_string(), "https://b.example".to_string()]);
}

#[test]
fn a_page_without_elements_is_empty() {
    let page = agent_memory::providers::web_crawler::read_page("u", "just text");
    assert_eq!(page.title, None);
    assert_eq!(page.text, "");
    assert!(page.links.is_empty());
}

#[test]
fn a_page_is_read_as_plain_text() {
    let page = agent_memory::providers::web_crawler::read_plain_page("https://example.org/final", PAGE);
    assert_eq!(page.url, "https://example.org/final");
    assert_eq!(page.title, Some("My Page".to_string()));
    assert_eq!(page.text, "My Page Hello world One A L N B");
    assert_eq!(page.links, vec!["http://a.example".to_string(), "https://b.example".to_string()]);
}

#[test]
fn plain_reading_knows_no_nesting() {
    let read = agent_memory::providers::web_crawler::read_plain_page;
    assert_eq!(read("u", "no tags at all").title, None);
    assert_eq!(read("u", "no tags at all").text, "no tags at all");
    assert_eq!(read("u", "<title>open end").title, Some("open end".to_string()));
    assert_eq!(read("u", "a<title>b<title>c</title>").title, Some("b".to_string()));
    assert_eq!(read("u", "x > y < z > w").text, "x y w");
    assert_eq!(read("u", "href=\"http://one href=\"ftp://two\" href=\"http\"").links,
        vec!["http://one ".to_string(), "http".to_string()]);
}

#[test]
fn plain_reading_keeps_twenty_links() {
    let html: String = (0..25).map(|i| format!("<a href=\"http://x/{}\">", i)).collect();
    let page = agent_memory::providers::web_crawler::read_plain_page("u", &html);
    assert_eq!(page.links.len(), 20);
    assert_eq!(page.links[0], "http://x/0");
    assert_eq!(page.links[19], "http://x/19");
    assert_eq!(agent_memory::providers::web_crawler::read_page("u", &html).links.len(), 25);
}

#[test]
fn a_plain_search_looks_in_three_places() {
    assert_eq!(
        agent_memory::providers::web_crawler::plain_search_urls("c++ & rust"),
        vec![
            "https://www.google.com/search?q=c%2B%2B%20%26%20rust".to_string(),
            "https://en.wikipedia.org/wiki/Special:Search?search=c%2B%2B%20%26%20rust".to_string(),
            "https://duckduckgo.com/?q=c%2B%2B%20%26%20rust".to_string(),
        ]
    );
}
