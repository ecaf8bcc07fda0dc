use quotes_catalog::data_access::{DataAccess, QuoteModel};
use quotes_catalog::dto::{QuoteCreateDTO, TagCreateDTO, TagDTO};
use quotes_catalog::error::StorageError;

fn submission(quote: &str, author: &str, tags: &[&str]) -> QuoteCreateDTO {
    QuoteCreateDTO {
        quote: quote.to_string(),
        related_tags: tags.iter().map(|t| TagCreateDTO { tag: t.to_string() }).collect(),
        author_name: author.to_string(),
    }
}

#[test]
fn author_name_is_lowercased_on_create() {
    let mut store = DataAccess::new();
    let a = store.get_or_create_author_model("MiXeD CaSe".to_string()).unwrap();
    assert_eq!(a.name, "mixed case");
    assert_eq!(a.id, 1);
}

#[test]
fn get_or_create_author_idempotent_under_case() {
    let mut store = DataAccess::new();
    let first = store.get_or_create_author_model("Mark Twain".to_string()).unwrap();
    let second = store.get_or_create_author_model("MARK TWAIN".to_string()).unwrap();
    let third = store.get_or_create_author_model("mark twain".to_string()).unwrap();
    assert_eq!(first, second);
    assert_eq!(first, third);
    // still exactly one author
    let (authors, pages) = store.get_authors_in_page(1, 10).unwrap();
    assert_eq!(authors.len(), 1);
    assert_eq!(pages, 1);
}

#[test]
fn get_or_create_tag_idempotent_under_case() {
    let mut store = DataAccess::new();
    let first = store.get_tag_or_create_tag("Ethics".to_string()).unwrap();
    assert_eq!(first.tag, "ethics");
    let second = store.get_tag_or_create_tag("ETHICS".to_string()).unwrap();
    assert_eq!(first, second);
    let (tags, _) = store.get_tags_in_page(1, 10).unwrap();
    assert_eq!(tags.len(), 1);
}

#[test]
fn tag_substring_resolves_to_existing_tag() {
    let mut store = DataAccess::new();
    let full = store.get_tag_or_create_tag("ethics".to_string()).unwrap();
    // "eth" is a substring of "ethics": the existing tag is reused.
    let resolved = store.get_tag_or_create_tag("ETH".to_string()).unwrap();
    assert_eq!(resolved, full);
    let (tags, _) = store.get_tags_in_page(1, 10).unwrap();
    assert_eq!(tags.len(), 1);
    // "ethos" is not a substring of "ethics": a new tag appears.
    let other = store.get_tag_or_create_tag("ethos".to_string()).unwrap();
    assert_ne!(other.id, full.id);
    let (tags, _) = store.get_tags_in_page(1, 10).unwrap();
    assert_eq!(tags.len(), 2);
}

#[test]
fn get_tags_lists_substring_matches_in_storage_order() {
    let mut store = DataAccess::new();
    store.create_tag("ethics").unwrap();
    store.create_tag("politics").unwrap();
    store.create_tag("ethos").unwrap();
    let matches = store.get_tags("eth");
    let texts: Vec<&str> = matches.iter().map(|t| t.tag.as_str()).collect();
    assert_eq!(texts, vec!["ethics", "ethos"]);
    assert!(store.get_tags("zzz").is_empty());
}

#[test]
fn create_quote_two_tags_in_input_order() {
    let mut store = DataAccess::new();
    let dto = store.create_quote(submission("Brevity.", "Someone", &["a", "b"])).unwrap();
    assert_eq!(dto.related_tags.len(), 2);
    assert_eq!(dto.related_tags[0].tag, "a");
    assert_eq!(dto.related_tags[1].tag, "b");
    // exactly two association rows: each tag page lists one quote for each tag
    let (t_a, quotes_a, _) = store
        .get_tag_with_related_quotes(dto.related_tags[0].id, 1, 10)
        .unwrap();
    assert_eq!(t_a.tag, "a");
    assert_eq!(quotes_a.len(), 1);
    let (t_b, quotes_b, _) = store
        .get_tag_with_related_quotes(dto.related_tags[1].id, 1, 10)
        .unwrap();
    assert_eq!(t_b.tag, "b");
    assert_eq!(quotes_b.len(), 1);
    // and the refreshed view agrees with the returned record
    let fetched = store.get_quote(dto.id).unwrap();
    assert_eq!(fetched, dto);
}

#[test]
fn create_quote_scenario_mark_twain() {
    let mut store = DataAccess::new();
    let author = store.get_or_create_author_model("Mark Twain".to_string()).unwrap();
    assert_eq!(author.name, "mark twain");
    let dto = store
        .create_quote(submission("Do the right thing.", "Mark Twain", &["ethics"]))
        .unwrap();
    assert_eq!(dto.author, author);
    // one author row, one quote row, one tag row
    let (authors, _) = store.get_authors_in_page(1, 10).unwrap();
    assert_eq!(authors.len(), 1);
    let (quotes, _) = store.get_quotes_in_page(1, 10).unwrap();
    assert_eq!(quotes.len(), 1);
    let (tags, _) = store.get_tags_in_page(1, 10).unwrap();
    assert_eq!(tags.len(), 1);
    // one association row: the tag's quote page holds exactly the quote
    let (tag, related, _) = store.get_tag_with_related_quotes(tags[0].id, 1, 10).unwrap();
    assert_eq!(tag.tag, "ethics");
    assert_eq!(related.len(), 1);
    assert_eq!(related[0].id, dto.id);
    // the fetched quote carries the expected author and tag list
    let fetched = store.get_quote(dto.id).unwrap();
    assert_eq!(fetched.quote, "Do the right thing.");
    assert_eq!(fetched.author.name, "mark twain");
    assert_eq!(
        fetched.related_tags,
        vec![TagDTO { id: tag.id, tag: "ethics".to_string() }]
    );
}

#[test]
fn create_quote_duplicate_tag_texts_fail_and_leave_partial_state() {
    let mut store = DataAccess::new();
    let err = store
        .create_quote(submission("Twice tagged.", "someone", &["x", "x"]))
        .unwrap_err();
    assert_eq!(err, StorageError::UniqueViolation);
    // the quote row and the first association were kept: nothing is rolled back
    let (quotes, _) = store.get_quotes_in_page(1, 10).unwrap();
    assert_eq!(quotes.len(), 1);
    assert_eq!(quotes[0].related_tags.len(), 1);
    assert_eq!(quotes[0].related_tags[0].tag, "x");
}

#[test]
fn delete_quote_then_get_is_not_found() {
    let mut store = DataAccess::new();
    let dto = store.create_quote(submission("Gone soon.", "a", &[])).unwrap();
    assert!(store.get_quote(dto.id).is_some());
    store.delete_quote(dto.id);
    assert!(store.get_quote(dto.id).is_none());
    assert!(store.get_quotes_in_page(1, 10).is_none());
}

#[test]
fn delete_quote_on_missing_id_is_silent() {
    let mut store = DataAccess::new();
    let dto = store.create_quote(submission("Stays.", "a", &[])).unwrap();
    store.delete_quote(dto.id + 41);
    let (quotes, pages) = store.get_quotes_in_page(1, 10).unwrap();
    assert_eq!(quotes.len(), 1);
    assert_eq!(pages, 1);
}

#[test]
fn delete_tag_leaves_quote_without_it() {
    let mut store = DataAccess::new();
    let dto = store.create_quote(submission("Tagged.", "a", &["keep", "drop"])).unwrap();
    let drop_id = dto.related_tags[1].id;
    store.delete_tag(drop_id);
    // the dangling association joins to nothing: the quote shows one tag
    let fetched = store.get_quote(dto.id).unwrap();
    assert_eq!(fetched.related_tags.len(), 1);
    assert_eq!(fetched.related_tags[0].tag, "keep");
    // the tag itself is gone from the listing
    let (tags, _) = store.get_tags_in_page(1, 10).unwrap();
    assert_eq!(tags.len(), 1);
    assert_eq!(tags[0].tag, "keep");
    // deleting it again is silent
    store.delete_tag(drop_id);
    assert_eq!(store.get_tags_in_page(1, 10).unwrap().0.len(), 1);
}

#[test]
fn update_quote_with_new_tag_adds_association() {
    let mut store = DataAccess::new();
    let dto = store.create_quote(submission("Patchable.", "a", &["old"])).unwrap();
    let updated = store
        .update_quote_with_new_tag(dto.id, "New".to_string())
        .unwrap()
        .unwrap();
    assert_eq!(updated.id, dto.id);
    let texts: Vec<&str> = updated.related_tags.iter().map(|t| t.tag.as_str()).collect();
    assert_eq!(texts, vec!["old", "new"]);
}

#[test]
fn update_quote_with_new_tag_missing_quote_is_none() {
    let mut store = DataAccess::new();
    let r = store.update_quote_with_new_tag(7, "tag".to_string()).unwrap();
    assert!(r.is_none());
}

#[test]
fn update_quote_with_existing_tag_is_unique_violation() {
    let mut store = DataAccess::new();
    let dto = store.create_quote(submission("Patched twice.", "a", &["same"])).unwrap();
    let err = store
        .update_quote_with_new_tag(dto.id, "same".to_string())
        .unwrap_err();
    assert_eq!(err, StorageError::UniqueViolation);
}

#[test]
fn association_with_missing_rows_is_foreign_key_violation() {
    let mut store = DataAccess::new();
    let dto = store.create_quote(submission("Exists.", "a", &["t"])).unwrap();
    let ghost_quote = QuoteModel { id: dto.id + 10, quote: "no row".to_string(), author_id: 1 };
    let tag = TagDTO { id: dto.related_tags[0].id, tag: "t".to_string() };
    let err = store.create_quote_tag_association(&ghost_quote, &tag).unwrap_err();
    assert_eq!(err, StorageError::ForeignKeyViolation);
    let real_quote = QuoteModel { id: dto.id, quote: "Exists.".to_string(), author_id: 1 };
    let ghost_tag = TagDTO { id: 99, tag: "t".to_string() };
    let err = store.create_quote_tag_association(&real_quote, &ghost_tag).unwrap_err();
    assert_eq!(err, StorageError::ForeignKeyViolation);
}

#[test]
fn get_author_fetches_by_id() {
    let mut store = DataAccess::new();
    let a = store.get_or_create_author_model("Ada".to_string()).unwrap();
    assert_eq!(store.get_author(a.id), Some(a.clone()));
    assert_eq!(store.get_author(a.id + 1), None);
}
