use linkscan::collect::collect_from_content;
use linkscan::collect::CollectError;

#[test]
fn relative_anchor_resolves_against_the_document() {
    let links = collect_from_content("https://example.com/page", "<a href=\"/x\">t</a>").unwrap();
    assert_eq!(links.len(), 1);
    assert_eq!(links[0].url.path, Some("/x".to_string()));
    assert_eq!(links[0].url.host, Some("example.com".to_string()));
    assert_eq!(links[0].source_document_url.host, Some("example.com".to_string()));
    assert_eq!(links[0].html_element, Some("a".to_string()));
    assert_eq!(links[0].element_attribute, Some("href".to_string()));
}

#[test]
fn absolute_anchor_is_not_rewritten() {
    let links = collect_from_content(
        "https://example.com/page",
        "<a href=\"https://other.com/y\">t</a>",
    )
    .unwrap();
    assert_eq!(links.len(), 1);
    assert_eq!(links[0].url.host, Some("other.com".to_string()));
    assert_eq!(links[0].source_document_url.host, Some("example.com".to_string()));
}

#[test]
fn one_bad_reference_fails_the_whole_collection() {
    let doc = "<a href=\"/good\">1</a><a href=\"https://ex ample.com/\">2</a>";
    let r = collect_from_content("https://example.com/page", doc);
    assert_eq!(r, Err(CollectError::UnresolvableReference));
}

#[test]
fn invalid_document_address_is_rejected() {
    let r = collect_from_content("not a url", "<a href=\"/x\">t</a>");
    assert_eq!(r, Err(CollectError::InvalidSourceUrl));
}

#[test]
fn bare_text_urls_are_not_collected() {
    let links =
        collect_from_content("https://example.com/page", "see https://other.com/t here").unwrap();
    assert_eq!(links.len(), 0);
}

#[test]
fn collection_keeps_document_order_and_duplicates() {
    let doc = "<a href=\"/a\">1</a><img src=\"/b\"><a href=\"/a\">2</a>";
    let links = collect_from_content("https://example.com/page", doc).unwrap();
    assert_eq!(links.len(), 3);
    assert_eq!(links[0].url.path, Some("/a".to_string()));
    assert_eq!(links[1].url.path, Some("/b".to_string()));
    assert_eq!(links[2].url.path, Some("/a".to_string()));
    assert_eq!(links[1].html_element, Some("img".to_string()));
    assert_eq!(links[1].element_attribute, Some("src".to_string()));
}

#[test]
fn empty_document_collects_nothing() {
    let links = collect_from_content("https://example.com/page", "").unwrap();
    assert_eq!(links.len(), 0);
}
