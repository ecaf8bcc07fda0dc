//! The relational model: well-formedness of the store, row lookup, the
//! transition functions that say exactly what each write does, and the
//! pagination arithmetic. Every contract of the data-access layer is stated
//! in terms of these functions.

use vstd::prelude::*;

use crate::error::StorageError;
use crate::order::{sort_authors, sort_quotes, sort_tags};
use crate::text::{is_substring, lower_of};
use crate::views::{AssocView, AuthorView, QuoteCreateView, QuoteRowView, QuoteView, StoreView, TagView};

verus! {

// ---------------------------------------------------------------------------
// Row lookup: each table is searched front to back, so "the first match" is
// the row that has been in the table longest.
// ---------------------------------------------------------------------------
pub open spec fn find_author_by_name(authors: Seq<AuthorView>, name: Seq<char>) -> Option<
    AuthorView,
>
    decreases authors.len(),
{
    if authors.len() == 0 {
        None
    } else if authors[0].name == name {
        Some(authors[0])
    } else {
        find_author_by_name(authors.drop_first(), name)
    }
}

pub open spec fn find_author_by_id(authors: Seq<AuthorView>, id: int) -> Option<AuthorView>
    decreases authors.len(),
{
    if authors.len() == 0 {
        None
    } else if authors[0].id == id {
        Some(authors[0])
    } else {
        find_author_by_id(authors.drop_first(), id)
    }
}

pub open spec fn find_tag_by_id(tags: Seq<TagView>, id: int) -> Option<TagView>
    decreases tags.len(),
{
    if tags.len() == 0 {
        None
    } else if tags[0].id == id {
        Some(tags[0])
    } else {
        find_tag_by_id(tags.drop_first(), id)
    }
}

/// The first tag whose text contains `text` as a substring: the tag-matching
/// policy is containment, not equality.
pub open spec fn find_tag_match(tags: Seq<TagView>, text: Seq<char>) -> Option<TagView>
    decreases tags.len(),
{
    if tags.len() == 0 {
        None
    } else if is_substring(text, tags[0].tag) {
        Some(tags[0])
    } else {
        find_tag_match(tags.drop_first(), text)
    }
}

pub open spec fn find_quote_by_id(quotes: Seq<QuoteRowView>, id: int) -> Option<QuoteRowView>
    decreases quotes.len(),
{
    if quotes.len() == 0 {
        None
    } else if quotes[0].id == id {
        Some(quotes[0])
    } else {
        find_quote_by_id(quotes.drop_first(), id)
    }
}

pub open spec fn author_id_exists(authors: Seq<AuthorView>, id: int) -> bool {
    exists|i: int| 0 <= i < authors.len() && (#[trigger] authors[i]).id == id
}

pub open spec fn assoc_exists(assocs: Seq<AssocView>, quote_id: int, tag_id: int) -> bool {
    exists|i: int|
        0 <= i < assocs.len() && (#[trigger] assocs[i]).quote_id == quote_id && assocs[i].tag_id
            == tag_id
}

// ---------------------------------------------------------------------------
// Well-formedness: surrogate keys are positive, below the table's next free
// key, and unique; every quote's author exists; association pairs are unique
// (the composite primary key). Associations may dangle, because deleting a
// quote or a tag does not cascade.
// ---------------------------------------------------------------------------
pub open spec fn authors_wf(authors: Seq<AuthorView>, next_id: int) -> bool {
    &&& forall|i: int| 0 <= i < authors.len() ==> 1 <= (#[trigger] authors[i]).id < next_id
    &&& forall|i: int, j: int|
        0 <= i < j < authors.len() ==> (#[trigger] authors[i]).id != (#[trigger] authors[j]).id
}

pub open spec fn tags_wf(tags: Seq<TagView>, next_id: int) -> bool {
    &&& forall|i: int| 0 <= i < tags.len() ==> 1 <= (#[trigger] tags[i]).id < next_id
    &&& forall|i: int, j: int|
        0 <= i < j < tags.len() ==> (#[trigger] tags[i]).id != (#[trigger] tags[j]).id
}

pub open spec fn quotes_wf(quotes: Seq<QuoteRowView>, next_id: int, authors: Seq<AuthorView>) -> bool {
    &&& forall|i: int| 0 <= i < quotes.len() ==> 1 <= (#[trigger] quotes[i]).id < next_id
    &&& forall|i: int, j: int|
        0 <= i < j < quotes.len() ==> (#[trigger] quotes[i]).id != (#[trigger] quotes[j]).id
    &&& forall|i: int|
        0 <= i < quotes.len() ==> author_id_exists(authors, (#[trigger] quotes[i]).author_id)
}

pub open spec fn assocs_wf(assocs: Seq<AssocView>) -> bool {
    forall|i: int, j: int|
        0 <= i < j < assocs.len() ==> !((#[trigger] assocs[i]).quote_id
            == (#[trigger] assocs[j]).quote_id && assocs[i].tag_id == assocs[j].tag_id)
}

pub open spec fn store_wf(s: StoreView) -> bool {
    &&& 1 <= s.next_author_id <= i32::MAX as int
    &&& 1 <= s.next_quote_id <= i32::MAX as int
    &&& 1 <= s.next_tag_id <= i32::MAX as int
    &&& authors_wf(s.authors, s.next_author_id)
    &&& tags_wf(s.tags, s.next_tag_id)
    &&& quotes_wf(s.quotes, s.next_quote_id, s.authors)
    &&& assocs_wf(s.associations)
}

// ---------------------------------------------------------------------------
// Get-or-create transitions. The name or tag text handed in is already
// lowercased; the data-access layer lowercases before resolving.
// ---------------------------------------------------------------------------
/// Get-or-create of an author: the first row whose name equals `name`
/// exactly, or a fresh row holding `name` under the next free key.
pub open spec fn resolve_author(s: StoreView, name: Seq<char>) -> Result<
    (StoreView, AuthorView),
    StorageError,
> {
    match find_author_by_name(s.authors, name) {
        Some(a) => Ok((s, a)),
        None => {
            if s.next_author_id < i32::MAX as int {
                let a = AuthorView { id: s.next_author_id, name };
                Ok(
                    (
                        StoreView {
                            authors: s.authors.push(a),
                            next_author_id: s.next_author_id + 1,
                            ..s
                        },
                        a,
                    ),
                )
            } else {
                Err(StorageError::KeyspaceExhausted)
            }
        },
    }
}

/// Plain insertion of a tag row holding `text` under the next free key.
pub open spec fn spec_create_tag(s: StoreView, text: Seq<char>) -> Result<
    (StoreView, TagView),
    StorageError,
> {
    if s.next_tag_id < i32::MAX as int {
        let t = TagView { id: s.next_tag_id, tag: text };
        Ok((StoreView { tags: s.tags.push(t), next_tag_id: s.next_tag_id + 1, ..s }, t))
    } else {
        Err(StorageError::KeyspaceExhausted)
    }
}

/// Get-or-create of a tag: the first row whose text contains `text` as a
/// substring, or a fresh row holding `text` itself under the next free key.
pub open spec fn resolve_tag(s: StoreView, text: Seq<char>) -> Result<
    (StoreView, TagView),
    StorageError,
> {
    match find_tag_match(s.tags, text) {
        Some(t) => Ok((s, t)),
        None => spec_create_tag(s, text),
    }
}

/// Insertion into the association table, enforcing its foreign keys and its
/// composite primary key.
pub open spec fn add_association(s: StoreView, quote_id: int, tag_id: int) -> Result<
    StoreView,
    StorageError,
> {
    if find_quote_by_id(s.quotes, quote_id) is None || find_tag_by_id(s.tags, tag_id) is None {
        Err(StorageError::ForeignKeyViolation)
    } else if assoc_exists(s.associations, quote_id, tag_id) {
        Err(StorageError::UniqueViolation)
    } else {
        Ok(
            StoreView {
                associations: s.associations.push(AssocView { quote_id, tag_id }),
                ..s
            },
        )
    }
}

/// One step per submitted tag text, in input order: resolve or create the
/// tag, then insert the association. On failure the store already holds the
/// work of the completed steps; nothing is rolled back.
pub open spec fn attach_tags(
    s: StoreView,
    quote_id: int,
    texts: Seq<Seq<char>>,
    acc: Seq<TagView>,
) -> Result<(StoreView, Seq<TagView>), (StoreView, StorageError)>
    decreases texts.len(),
{
    if texts.len() == 0 {
        Ok((s, acc))
    } else {
        match resolve_tag(s, lower_of(texts[0])) {
            Ok((s1, t)) => match add_association(s1, quote_id, t.id) {
                Ok(s2) => attach_tags(s2, quote_id, texts.drop_first(), acc.push(t)),
                Err(e) => Err((s1, e)),
            },
            Err(e) => Err((s, e)),
        }
    }
}

/// The whole quote submission: resolve the author, insert the quote row,
/// then attach each tag in input order. The error case carries the partial
/// store the completed steps left behind.
pub open spec fn spec_create_quote(s: StoreView, q: QuoteCreateView) -> Result<
    (StoreView, QuoteView),
    (StoreView, StorageError),
> {
    match resolve_author(s, lower_of(q.author_name)) {
        Err(e) => Err((s, e)),
        Ok((s1, a)) => {
            if s1.next_quote_id < i32::MAX as int {
                let row = QuoteRowView { id: s1.next_quote_id, quote: q.quote, author_id: a.id };
                let s2 = StoreView {
                    quotes: s1.quotes.push(row),
                    next_quote_id: s1.next_quote_id + 1,
                    ..s1
                };
                match attach_tags(s2, row.id, q.related_tags, Seq::empty()) {
                    Ok((s3, tags)) => Ok(
                        (
                            s3,
                            QuoteView {
                                id: row.id,
                                quote: q.quote,
                                related_tags: tags,
                                author: a,
                            },
                        ),
                    ),
                    Err(e) => Err(e),
                }
            } else {
                Err((s1, StorageError::KeyspaceExhausted))
            }
        },
    }
}

// ---------------------------------------------------------------------------
// Deletion: unconditional removal by primary key; no cascade, so association
// rows naming the removed row stay behind and dangle.
// ---------------------------------------------------------------------------
pub open spec fn remove_quote_rows(quotes: Seq<QuoteRowView>, id: int) -> Seq<QuoteRowView>
    decreases quotes.len(),
{
    if quotes.len() == 0 {
        Seq::empty()
    } else {
        let rest = remove_quote_rows(quotes.drop_last(), id);
        if quotes.last().id == id {
            rest
        } else {
            rest.push(quotes.last())
        }
    }
}

pub open spec fn remove_tag_rows(tags: Seq<TagView>, id: int) -> Seq<TagView>
    decreases tags.len(),
{
    if tags.len() == 0 {
        Seq::empty()
    } else {
        let rest = remove_tag_rows(tags.drop_last(), id);
        if tags.last().id == id {
            rest
        } else {
            rest.push(tags.last())
        }
    }
}

pub open spec fn spec_delete_quote(s: StoreView, id: int) -> StoreView {
    StoreView { quotes: remove_quote_rows(s.quotes, id), ..s }
}

pub open spec fn spec_delete_tag(s: StoreView, id: int) -> StoreView {
    StoreView { tags: remove_tag_rows(s.tags, id), ..s }
}

// ---------------------------------------------------------------------------
// Composition: a quote row joined with its author and with the tags its
// association rows name, in association order. An association whose tag has
// been deleted joins to nothing and is skipped.
// ---------------------------------------------------------------------------
pub open spec fn tags_of_assocs(tags: Seq<TagView>, assocs: Seq<AssocView>, quote_id: int) -> Seq<
    TagView,
>
    decreases assocs.len(),
{
    if assocs.len() == 0 {
        Seq::empty()
    } else {
        let rest = tags_of_assocs(tags, assocs.drop_last(), quote_id);
        let a = assocs.last();
        if a.quote_id == quote_id && find_tag_by_id(tags, a.tag_id) is Some {
            rest.push(find_tag_by_id(tags, a.tag_id).unwrap())
        } else {
            rest
        }
    }
}

pub open spec fn quote_view_of(s: StoreView, row: QuoteRowView) -> QuoteView {
    QuoteView {
        id: row.id,
        quote: row.quote,
        related_tags: tags_of_assocs(s.tags, s.associations, row.id),
        author: find_author_by_id(s.authors, row.author_id).unwrap(),
    }
}

pub open spec fn compose_rows(s: StoreView, rows: Seq<QuoteRowView>) -> Seq<QuoteView>
    decreases rows.len(),
{
    if rows.len() == 0 {
        Seq::empty()
    } else {
        compose_rows(s, rows.drop_last()).push(quote_view_of(s, rows.last()))
    }
}

/// The quote rows related to a tag through the association table, in storage
/// order.
pub open spec fn rows_of_tag(
    quotes: Seq<QuoteRowView>,
    assocs: Seq<AssocView>,
    tag_id: int,
) -> Seq<QuoteRowView>
    decreases quotes.len(),
{
    if quotes.len() == 0 {
        Seq::empty()
    } else {
        let rest = rows_of_tag(quotes.drop_last(), assocs, tag_id);
        if assoc_exists(assocs, quotes.last().id, tag_id) {
            rest.push(quotes.last())
        } else {
            rest
        }
    }
}

/// The quote rows owned by an author, in storage order.
pub open spec fn rows_of_author(quotes: Seq<QuoteRowView>, author_id: int) -> Seq<QuoteRowView>
    decreases quotes.len(),
{
    if quotes.len() == 0 {
        Seq::empty()
    } else {
        let rest = rows_of_author(quotes.drop_last(), author_id);
        if quotes.last().author_id == author_id {
            rest.push(quotes.last())
        } else {
            rest
        }
    }
}

/// The tags whose text contains `text` as a substring, in storage order.
pub open spec fn matching_tags(tags: Seq<TagView>, text: Seq<char>) -> Seq<TagView>
    decreases tags.len(),
{
    if tags.len() == 0 {
        Seq::empty()
    } else {
        let rest = matching_tags(tags.drop_last(), text);
        if is_substring(text, tags.last().tag) {
            rest.push(tags.last())
        } else {
            rest
        }
    }
}

// ---------------------------------------------------------------------------
// Pagination: pages are 1-based at the interface, `size` rows each; the page
// count is the row count divided by the page size, rounded up. A page that
// holds no row is the `None` sentinel, whether the store is empty or the page
// is out of range.
// ---------------------------------------------------------------------------
pub open spec fn total_pages(rows: int, size: int) -> int
    recommends
        rows >= 0,
        size >= 1,
{
    (rows + size - 1) / size
}

pub open spec fn page_of<T>(all: Seq<T>, page: int, size: int) -> Option<(Seq<T>, int)>
    recommends
        page >= 1,
        size >= 1,
{
    let total = all.len() as int;
    let lo0 = (page - 1) * size;
    let lo = if lo0 > total {
        total
    } else {
        lo0
    };
    let hi = if lo + size > total {
        total
    } else {
        lo + size
    };
    if lo == hi {
        None
    } else {
        Some((all.subrange(lo, hi), total_pages(total, size)))
    }
}

// ---------------------------------------------------------------------------
// The read operations, as functions of the store.
// ---------------------------------------------------------------------------
pub open spec fn spec_get_quote(s: StoreView, id: int) -> Option<QuoteView> {
    match find_quote_by_id(s.quotes, id) {
        None => None,
        Some(row) => Some(quote_view_of(s, row)),
    }
}

pub open spec fn spec_quotes_page(s: StoreView, page: int, size: int) -> Option<
    (Seq<QuoteView>, int),
> {
    page_of(sort_quotes(compose_rows(s, s.quotes)), page, size)
}

pub open spec fn spec_tags_page(s: StoreView, page: int, size: int) -> Option<(Seq<TagView>, int)> {
    page_of(sort_tags(s.tags), page, size)
}

pub open spec fn spec_authors_page(s: StoreView, page: int, size: int) -> Option<
    (Seq<AuthorView>, int),
> {
    page_of(sort_authors(s.authors), page, size)
}

/// The tag page: `None` both when the tag does not exist and when the page of
/// its related quotes holds no row; the two cases are reported alike.
pub open spec fn spec_tag_quotes_page(s: StoreView, tag_id: int, page: int, size: int) -> Option<
    (TagView, Seq<QuoteView>, int),
> {
    match find_tag_by_id(s.tags, tag_id) {
        None => None,
        Some(t) => match page_of(
            compose_rows(s, rows_of_tag(s.quotes, s.associations, tag_id)),
            page,
            size,
        ) {
            None => None,
            Some((items, pages)) => Some((t, items, pages)),
        },
    }
}

/// The author page, symmetric to the tag page.
pub open spec fn spec_author_quotes_page(
    s: StoreView,
    author_id: int,
    page: int,
    size: int,
) -> Option<(AuthorView, Seq<QuoteView>, int)> {
    match find_author_by_id(s.authors, author_id) {
        None => None,
        Some(a) => match page_of(compose_rows(s, rows_of_author(s.quotes, author_id)), page, size) {
            None => None,
            Some((items, pages)) => Some((a, items, pages)),
        },
    }
}

/// The tag update: fetch the quote (absent is `None`, not an error), resolve
/// or create the tag, insert the association, and report the refreshed view
/// of the quote.
pub open spec fn spec_update_quote_tag(s: StoreView, quote_id: int, text: Seq<char>) -> Result<
    (StoreView, Option<QuoteView>),
    (StoreView, StorageError),
> {
    match find_quote_by_id(s.quotes, quote_id) {
        None => Ok((s, None)),
        Some(row) => match resolve_tag(s, lower_of(text)) {
            Err(e) => Err((s, e)),
            Ok((s1, t)) => match add_association(s1, quote_id, t.id) {
                Err(e) => Err((s1, e)),
                Ok(s2) => Ok((s2, Some(quote_view_of(s2, row)))),
            },
        },
    }
}

// ---------------------------------------------------------------------------
// Lemmas about lookup and removal, used to carry well-formedness through the
// operations and to state the laws.
// ---------------------------------------------------------------------------
/// A found author is an element of the table.
pub proof fn lemma_find_author_by_name_member(authors: Seq<AuthorView>, name: Seq<char>)
    ensures
        find_author_by_name(authors, name) matches Some(a) ==> a.name == name && exists|i: int|
            0 <= i < authors.len() && authors[i] == a,
    decreases authors.len(),
{
    if authors.len() != 0 && authors[0].name != name {
        lemma_find_author_by_name_member(authors.drop_first(), name);
        match find_author_by_name(authors.drop_first(), name) {
            Some(a) => {
                let i = choose|i: int|
                    0 <= i < authors.drop_first().len() && authors.drop_first()[i] == a;
                assert(authors[i + 1] == a);
            },
            None => {},
        }
    }
}

/// Resolving an author leaves its row in the table.
pub proof fn lemma_resolve_author_member(s: StoreView, name: Seq<char>)
    ensures
        resolve_author(s, name) matches Ok(p) ==> author_id_exists(p.0.authors, p.1.id),
{
    lemma_find_author_by_name_member(s.authors, name);
    match resolve_author(s, name) {
        Ok(p) => match find_author_by_name(s.authors, name) {
            Some(a) => {
                let i = choose|i: int| 0 <= i < s.authors.len() && s.authors[i] == a;
                assert(p.0.authors[i].id == p.1.id);
            },
            None => {
                assert(p.0.authors[s.authors.len() as int].id == p.1.id);
            },
        },
        Err(_) => {},
    }
}

/// A found tag is an element of the table, and its text contains the query.
pub proof fn lemma_find_tag_match_member(tags: Seq<TagView>, text: Seq<char>)
    ensures
        find_tag_match(tags, text) matches Some(t) ==> is_substring(text, t.tag) && exists|i: int|
            0 <= i < tags.len() && tags[i] == t,
    decreases tags.len(),
{
    if tags.len() != 0 && !is_substring(text, tags[0].tag) {
        lemma_find_tag_match_member(tags.drop_first(), text);
        match find_tag_match(tags.drop_first(), text) {
            Some(t) => {
                let i = choose|i: int|
                    0 <= i < tags.drop_first().len() && tags.drop_first()[i] == t;
                assert(tags[i + 1] == t);
            },
            None => {},
        }
    }
}

/// Composition keeps one record per row.
pub proof fn lemma_compose_rows_len(s: StoreView, rows: Seq<QuoteRowView>)
    ensures
        compose_rows(s, rows).len() == rows.len(),
    decreases rows.len(),
{
    if rows.len() != 0 {
        lemma_compose_rows_len(s, rows.drop_last());
    }
}

/// A table that holds the id yields it to lookup.
pub proof fn lemma_find_author_by_id_some(authors: Seq<AuthorView>, id: int)
    requires
        author_id_exists(authors, id),
    ensures
        find_author_by_id(authors, id) is Some,
    decreases authors.len(),
{
    let w = choose|w: int| 0 <= w < authors.len() && (#[trigger] authors[w]).id == id;
    if authors[0].id != id {
        assert(authors.drop_first()[w - 1].id == id);
        lemma_find_author_by_id_some(authors.drop_first(), id);
    }
}

/// A found quote row is an element of the table and carries the looked-up id.
pub proof fn lemma_find_quote_by_id_member(quotes: Seq<QuoteRowView>, id: int)
    ensures
        find_quote_by_id(quotes, id) matches Some(q) ==> q.id == id && exists|i: int|
            0 <= i < quotes.len() && quotes[i] == q,
    decreases quotes.len(),
{
    if quotes.len() != 0 && quotes[0].id != id {
        lemma_find_quote_by_id_member(quotes.drop_first(), id);
        match find_quote_by_id(quotes.drop_first(), id) {
            Some(q) => {
                let i = choose|i: int|
                    0 <= i < quotes.drop_first().len() && quotes.drop_first()[i] == q;
                assert(quotes[i + 1] == q);
            },
            None => {},
        }
    }
}

/// No row of the table has the id: lookup by that id fails.
pub proof fn lemma_find_quote_by_id_none(quotes: Seq<QuoteRowView>, id: int)
    requires
        forall|i: int| 0 <= i < quotes.len() ==> (#[trigger] quotes[i]).id != id,
    ensures
        find_quote_by_id(quotes, id) is None,
    decreases quotes.len(),
{
    if quotes.len() != 0 {
        assert(forall|i: int|
            0 <= i < quotes.drop_first().len() ==> (#[trigger] quotes.drop_first()[i]).id != id);
        lemma_find_quote_by_id_none(quotes.drop_first(), id);
    }
}

/// Every row kept by a deletion is a row of the old table, and none carries
/// the deleted id.
pub proof fn lemma_remove_quote_rows_mem(quotes: Seq<QuoteRowView>, id: int)
    ensures
        forall|k: int|
            0 <= k < remove_quote_rows(quotes, id).len() ==> (#[trigger] remove_quote_rows(
                quotes,
                id,
            )[k]).id != id && exists|i: int|
                0 <= i < quotes.len() && remove_quote_rows(quotes, id)[k] == quotes[i],
    decreases quotes.len(),
{
    if quotes.len() != 0 {
        lemma_remove_quote_rows_mem(quotes.drop_last(), id);
        let r = remove_quote_rows(quotes, id);
        let rest = remove_quote_rows(quotes.drop_last(), id);
        assert forall|k: int| 0 <= k < r.len() implies (#[trigger] r[k]).id != id && exists|i: int|
            0 <= i < quotes.len() && r[k] == quotes[i] by {
            if k < rest.len() {
                assert(rest[k].id != id);
                let i = choose|i: int|
                    0 <= i < quotes.drop_last().len() && rest[k] == quotes.drop_last()[i];
                assert(r[k] == quotes[i]);
            } else {
                assert(r[k] == quotes[quotes.len() - 1]);
            }
        }
    }
}

/// Deleting a quote keeps the quote table well-formed.
pub proof fn lemma_remove_quote_rows_wf(
    quotes: Seq<QuoteRowView>,
    id: int,
    next_id: int,
    authors: Seq<AuthorView>,
)
    requires
        quotes_wf(quotes, next_id, authors),
    ensures
        quotes_wf(remove_quote_rows(quotes, id), next_id, authors),
    decreases quotes.len(),
{
    if quotes.len() != 0 {
        assert(quotes_wf(quotes.drop_last(), next_id, authors));
        lemma_remove_quote_rows_wf(quotes.drop_last(), id, next_id, authors);
        lemma_remove_quote_rows_mem(quotes.drop_last(), id);
        let r = remove_quote_rows(quotes, id);
        let rest = remove_quote_rows(quotes.drop_last(), id);
        if quotes.last().id != id {
            assert forall|i: int, j: int| 0 <= i < j < r.len() implies (#[trigger] r[i]).id
                != (#[trigger] r[j]).id by {
                if j == r.len() - 1 {
                    let w = choose|w: int|
                        0 <= w < quotes.drop_last().len() && rest[i] == quotes.drop_last()[w];
                    assert(quotes[w].id != quotes[quotes.len() - 1].id);
                }
            }
        }
    }
}

/// Every tag kept by a deletion is a tag of the old table, and none carries
/// the deleted id.
pub proof fn lemma_remove_tag_rows_mem(tags: Seq<TagView>, id: int)
    ensures
        forall|k: int|
            0 <= k < remove_tag_rows(tags, id).len() ==> (#[trigger] remove_tag_rows(
                tags,
                id,
            )[k]).id != id && exists|i: int|
                0 <= i < tags.len() && remove_tag_rows(tags, id)[k] == tags[i],
    decreases tags.len(),
{
    if tags.len() != 0 {
        lemma_remove_tag_rows_mem(tags.drop_last(), id);
        let r = remove_tag_rows(tags, id);
        let rest = remove_tag_rows(tags.drop_last(), id);
        assert forall|k: int| 0 <= k < r.len() implies (#[trigger] r[k]).id != id && exists|i: int|
            0 <= i < tags.len() && r[k] == tags[i] by {
            if k < rest.len() {
                assert(rest[k].id != id);
                let i = choose|i: int|
                    0 <= i < tags.drop_last().len() && rest[k] == tags.drop_last()[i];
                assert(r[k] == tags[i]);
            } else {
                assert(r[k] == tags[tags.len() - 1]);
            }
        }
    }
}

/// Deleting a tag keeps the tag table well-formed.
pub proof fn lemma_remove_tag_rows_wf(tags: Seq<TagView>, id: int, next_id: int)
    requires
        tags_wf(tags, next_id),
    ensures
        tags_wf(remove_tag_rows(tags, id), next_id),
    decreases tags.len(),
{
    if tags.len() != 0 {
        assert(tags_wf(tags.drop_last(), next_id));
        lemma_remove_tag_rows_wf(tags.drop_last(), id, next_id);
        lemma_remove_tag_rows_mem(tags.drop_last(), id);
        let r = remove_tag_rows(tags, id);
        let rest = remove_tag_rows(tags.drop_last(), id);
        if tags.last().id != id {
            assert forall|i: int, j: int| 0 <= i < j < r.len() implies (#[trigger] r[i]).id
                != (#[trigger] r[j]).id by {
                if j == r.len() - 1 {
                    let w = choose|w: int|
                        0 <= w < tags.drop_last().len() && rest[i] == tags.drop_last()[w];
                    assert(tags[w].id != tags[tags.len() - 1].id);
                }
            }
        }
    }
}

} // verus!
