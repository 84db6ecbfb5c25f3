use linkscan::extract::extract_links;

#[test]
fn anchor_href_is_extracted() {
    let occs = extract_links("<a href=\"/x\">t</a>", false);
    assert_eq!(occs.len(), 1);
    assert_eq!(occs[0].text, "/x");
    assert_eq!(occs[0].element, Some("a".to_string()));
    assert_eq!(occs[0].attribute, Some("href".to_string()));
}

#[test]
fn extraction_is_deterministic() {
    let doc = "<a href=\"/x\">t</a> https://example.com/y <img src='i.png'>";
    let first = extract_links(doc, true);
    let second = extract_links(doc, true);
    assert_eq!(first, second);
    let third = extract_links(doc, false);
    let fourth = extract_links(doc, false);
    assert_eq!(third, fourth);
}

#[test]
fn bare_text_url_needs_the_flag() {
    let doc = "see https://example.com/x for more";
    let strict = extract_links(doc, false);
    assert_eq!(strict.len(), 0);
    let with_text = extract_links(doc, true);
    assert_eq!(with_text.len(), 1);
    assert_eq!(with_text[0].text, "https://example.com/x");
    assert_eq!(with_text[0].element, None);
    assert_eq!(with_text[0].attribute, None);
}

#[test]
fn document_with_only_a_bare_url() {
    let doc = "https://example.com/x";
    assert_eq!(extract_links(doc, false).len(), 0);
    let occs = extract_links(doc, true);
    assert_eq!(occs.len(), 1);
    assert_eq!(occs[0].text, "https://example.com/x");
    assert_eq!(occs[0].element, None);
    assert_eq!(occs[0].attribute, None);
}

#[test]
fn plain_http_bare_url() {
    let occs = extract_links("go http://example.com/a now", true);
    assert_eq!(occs.len(), 1);
    assert_eq!(occs[0].text, "http://example.com/a");
}

#[test]
fn document_order_and_duplicates_are_kept() {
    let doc = "<a href=\"/one\">1</a><a href=\"/two\">2</a><a href=\"/one\">3</a>";
    let occs = extract_links(doc, false);
    assert_eq!(occs.len(), 3);
    assert_eq!(occs[0].text, "/one");
    assert_eq!(occs[1].text, "/two");
    assert_eq!(occs[2].text, "/one");
}

#[test]
fn url_bearing_attributes_are_recognized() {
    let doc = "<img src=\"i.png\"><form action=\"/submit\"></form>\
               <blockquote cite=\"/q\"></blockquote><video poster=\"p.jpg\"></video>\
               <object data=\"o.svg\"></object>";
    let occs = extract_links(doc, false);
    assert_eq!(occs.len(), 5);
    assert_eq!(occs[0].attribute, Some("src".to_string()));
    assert_eq!(occs[0].element, Some("img".to_string()));
    assert_eq!(occs[1].attribute, Some("action".to_string()));
    assert_eq!(occs[2].attribute, Some("cite".to_string()));
    assert_eq!(occs[3].attribute, Some("poster".to_string()));
    assert_eq!(occs[4].attribute, Some("data".to_string()));
}

#[test]
fn non_url_attributes_are_ignored() {
    let occs = extract_links("<a id=\"z\" class=\"big\">t</a>", false);
    assert_eq!(occs.len(), 0);
}

#[test]
fn empty_attribute_value_is_not_an_occurrence() {
    let occs = extract_links("<a href=\"\">t</a>", false);
    assert_eq!(occs.len(), 0);
}

#[test]
fn single_quoted_values_work() {
    let occs = extract_links("<a href='/y'>t</a>", false);
    assert_eq!(occs.len(), 1);
    assert_eq!(occs[0].text, "/y");
}

#[test]
fn several_attributes_in_one_tag() {
    let occs = extract_links("<a id=\"k\" href=\"/x\" title=\"t\">t</a>", false);
    assert_eq!(occs.len(), 1);
    assert_eq!(occs[0].text, "/x");
    assert_eq!(occs[0].attribute, Some("href".to_string()));
}

#[test]
fn malformed_markup_degrades_to_no_match() {
    assert_eq!(extract_links("< a href=\"/x\">", false).len(), 0);
    assert_eq!(extract_links("<a href=/x>", false).len(), 0);
    assert_eq!(extract_links("<<<>>>", false).len(), 0);
    assert_eq!(extract_links("", false).len(), 0);
}

#[test]
fn empty_document_yields_nothing() {
    assert_eq!(extract_links("", true).len(), 0);
}

#[test]
fn hyphenated_element_names_are_read() {
    let occs = extract_links("<my-widget src=\"w.js\"></my-widget>", false);
    assert_eq!(occs.len(), 1);
    assert_eq!(occs[0].element, Some("my-widget".to_string()));
    assert_eq!(occs[0].attribute, Some("src".to_string()));
}

#[test]
fn attribute_names_match_case_sensitively() {
    let occs = extract_links("<a HREF=\"/x\">t</a>", false);
    assert_eq!(occs.len(), 0);
}

#[test]
fn quotes_of_the_other_kind_stay_in_the_value() {
    let occs = extract_links("<a href='/x\"y'>t</a>", false);
    assert_eq!(occs.len(), 1);
    assert_eq!(occs[0].text, "/x\"y");
}
