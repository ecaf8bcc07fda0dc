use quotes_catalog::data_access::DataAccess;
use quotes_catalog::dto::{QuoteCreateDTO, TagCreateDTO};
use quotes_catalog::responses::{Params, QuoteResponse};

fn submission(quote: &str, author: &str, tags: &[&str]) -> QuoteCreateDTO {
    QuoteCreateDTO {
        quote: quote.to_string(),
        related_tags: tags.iter().map(|t| TagCreateDTO { tag: t.to_string() }).collect(),
        author_name: author.to_string(),
    }
}

fn store_with_five_quotes() -> DataAccess {
    let mut store = DataAccess::new();
    store.create_quote(submission("q1", "edgar", &[])).unwrap();
    store.create_quote(submission("q2", "ann", &[])).unwrap();
    store.create_quote(submission("q3", "carol", &[])).unwrap();
    store.create_quote(submission("q4", "bob", &[])).unwrap();
    store.create_quote(submission("q5", "dan", &[])).unwrap();
    store
}

#[test]
fn empty_store_page_is_the_sentinel_not_an_empty_list() {
    let store = DataAccess::new();
    // callers must branch on the sentinel, not on list length
    assert!(store.get_quotes_in_page(1, 10).is_none());
    assert!(store.get_tags_in_page(1, 10).is_none());
    assert!(store.get_authors_in_page(1, 10).is_none());
}

#[test]
fn quotes_pages_hold_at_most_page_size_and_report_ceil() {
    let store = store_with_five_quotes();
    // 5 rows at 2 per page: 3 pages, the last one short
    let (p1, pages) = store.get_quotes_in_page(1, 2).unwrap();
    assert_eq!(pages, 3);
    assert_eq!(p1.len(), 2);
    let (p2, _) = store.get_quotes_in_page(2, 2).unwrap();
    assert_eq!(p2.len(), 2);
    let (p3, _) = store.get_quotes_in_page(3, 2).unwrap();
    assert_eq!(p3.len(), 1);
    // a page past the data is the sentinel
    assert!(store.get_quotes_in_page(4, 2).is_none());
    // 5 rows at 5 per page: exactly one page
    let (all, pages) = store.get_quotes_in_page(1, 5).unwrap();
    assert_eq!(pages, 1);
    assert_eq!(all.len(), 5);
}

#[test]
fn quotes_are_ordered_by_author_name_ascending() {
    let store = store_with_five_quotes();
    let (all, _) = store.get_quotes_in_page(1, 10).unwrap();
    let authors: Vec<&str> = all.iter().map(|q| q.author.name.as_str()).collect();
    assert_eq!(authors, vec!["ann", "bob", "carol", "dan", "edgar"]);
    // pagination slices that same order
    let (p2, _) = store.get_quotes_in_page(2, 2).unwrap();
    let authors2: Vec<&str> = p2.iter().map(|q| q.author.name.as_str()).collect();
    assert_eq!(authors2, vec!["carol", "dan"]);
}

#[test]
fn authors_page_is_sorted_by_name() {
    let store = store_with_five_quotes();
    let (authors, pages) = store.get_authors_in_page(1, 3).unwrap();
    let names: Vec<&str> = authors.iter().map(|a| a.name.as_str()).collect();
    assert_eq!(names, vec!["ann", "bob", "carol"]);
    assert_eq!(pages, 2);
    let (rest, _) = store.get_authors_in_page(2, 3).unwrap();
    let names: Vec<&str> = rest.iter().map(|a| a.name.as_str()).collect();
    assert_eq!(names, vec!["dan", "edgar"]);
}

#[test]
fn tags_page_is_sorted_by_text() {
    let mut store = DataAccess::new();
    store.create_tag("wisdom").unwrap();
    store.create_tag("art").unwrap();
    store.create_tag("life").unwrap();
    let (tags, pages) = store.get_tags_in_page(1, 10).unwrap();
    let texts: Vec<&str> = tags.iter().map(|t| t.tag.as_str()).collect();
    assert_eq!(texts, vec!["art", "life", "wisdom"]);
    assert_eq!(pages, 1);
}

#[test]
fn tag_page_conflates_missing_and_empty() {
    let mut store = DataAccess::new();
    let tag = store.get_tag_or_create_tag("lonely".to_string()).unwrap();
    // the tag exists but relates to no quote: same sentinel as a missing tag
    assert!(store.get_tag_with_related_quotes(tag.id, 1, 10).is_none());
    assert!(store.get_tag_with_related_quotes(tag.id + 1, 1, 10).is_none());
}

#[test]
fn tag_page_lists_related_quotes_only() {
    let mut store = DataAccess::new();
    let q1 = store.create_quote(submission("first", "a", &["shared"])).unwrap();
    store.create_quote(submission("second", "b", &[])).unwrap();
    let q3 = store.create_quote(submission("third", "c", &["shared"])).unwrap();
    let tag_id = q1.related_tags[0].id;
    let (tag, quotes, pages) = store.get_tag_with_related_quotes(tag_id, 1, 10).unwrap();
    assert_eq!(tag.tag, "shared");
    assert_eq!(pages, 1);
    let ids: Vec<i32> = quotes.iter().map(|q| q.id).collect();
    assert_eq!(ids, vec![q1.id, q3.id]);
}

#[test]
fn author_page_lists_owned_quotes_and_conflates_empty() {
    let mut store = DataAccess::new();
    let q1 = store.create_quote(submission("one", "shared author", &[])).unwrap();
    store.create_quote(submission("other", "someone else", &[])).unwrap();
    let q3 = store.create_quote(submission("two", "SHARED AUTHOR", &[])).unwrap();
    let (author, quotes, pages) = store
        .get_author_with_related_quotes(q1.author.id, 1, 10)
        .unwrap();
    assert_eq!(author.name, "shared author");
    assert_eq!(pages, 1);
    let ids: Vec<i32> = quotes.iter().map(|q| q.id).collect();
    assert_eq!(ids, vec![q1.id, q3.id]);
    // a missing author and an out-of-range page are reported alike
    assert!(store.get_author_with_related_quotes(999, 1, 10).is_none());
    assert!(store.get_author_with_related_quotes(q1.author.id, 2, 10).is_none());
}

#[test]
fn quotes_with_equal_author_keep_storage_order() {
    let mut store = DataAccess::new();
    let q1 = store.create_quote(submission("first", "same", &[])).unwrap();
    let q2 = store.create_quote(submission("second", "same", &[])).unwrap();
    let q3 = store.create_quote(submission("third", "same", &[])).unwrap();
    let (all, _) = store.get_quotes_in_page(1, 10).unwrap();
    let ids: Vec<i32> = all.iter().map(|q| q.id).collect();
    assert_eq!(ids, vec![q1.id, q2.id, q3.id]);
}

#[test]
fn related_quotes_paginate_too() {
    let mut store = DataAccess::new();
    let q1 = store.create_quote(submission("one", "prolific", &[])).unwrap();
    let q2 = store.create_quote(submission("two", "prolific", &[])).unwrap();
    let (_, page1, pages) = store
        .get_author_with_related_quotes(q1.author.id, 1, 1)
        .unwrap();
    assert_eq!(pages, 2);
    assert_eq!(page1[0].id, q1.id);
    let (_, page2, _) = store
        .get_author_with_related_quotes(q1.author.id, 2, 1)
        .unwrap();
    assert_eq!(page2[0].id, q2.id);
    assert!(store
        .get_author_with_related_quotes(q1.author.id, 3, 1)
        .is_none());
}

#[test]
fn params_defaults_are_page_one_of_ten() {
    let p = Params { page: None, page_size: None };
    assert_eq!(p.page_or_default(), 1);
    assert_eq!(p.page_size_or_default(), 10);
    let p = Params { page: Some(3), page_size: Some(25) };
    assert_eq!(p.page_or_default(), 3);
    assert_eq!(p.page_size_or_default(), 25);
}

#[test]
fn responses_carry_page_and_rows() {
    let store = store_with_five_quotes();
    let (quotes, pages) = store.get_quotes_in_page(1, 2).unwrap();
    let resp = QuoteResponse { quotes, pages };
    assert_eq!(resp.pages, 3);
    assert_eq!(resp.quotes.len(), 2);
}

#[test]
fn huge_page_numbers_and_sizes_do_not_overflow() {
    let store = store_with_five_quotes();
    assert!(store.get_quotes_in_page(u64::MAX, u64::MAX).is_none());
    let (all, pages) = store.get_quotes_in_page(1, u64::MAX).unwrap();
    assert_eq!(all.len(), 5);
    assert_eq!(pages, 1);
}
