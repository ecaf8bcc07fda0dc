//! The data-access layer: all reads and writes to the relational store, and
//! the single place where pagination, joins, and get-or-create semantics are
//! implemented. Every operation's contract ties it to the transition
//! functions of `crate::model`.

use vstd::prelude::*;

use crate::dto::{AuthorDTO, QuoteCreateDTO, QuoteDTO, TagDTO};
use crate::error::StorageError;
use crate::model::{
    add_association, assoc_exists, attach_tags, author_id_exists, compose_rows, find_author_by_id,
    find_author_by_name, find_quote_by_id, find_tag_by_id, find_tag_match, matching_tags,
    quote_view_of, remove_quote_rows, remove_tag_rows, resolve_author, resolve_tag, rows_of_author,
    rows_of_tag, spec_author_quotes_page, spec_authors_page, spec_create_quote, spec_create_tag,
    spec_delete_quote, spec_delete_tag, spec_get_quote, spec_quotes_page, spec_tag_quotes_page,
    spec_tags_page, spec_update_quote_tag, store_wf, tags_of_assocs, total_pages,
};
use crate::text::{lowercase, str_contains};
use crate::views::{AssocView, QuoteRowView, StoreView, TagView};

verus! {

/// A quote row as stored: the author is referenced by id; tags are related
/// through the association table.
#[derive(Debug, PartialEq, Eq)]
pub struct QuoteModel {
    pub id: i32,
    pub quote: String,
    pub author_id: i32,
}

impl View for QuoteModel {
    type V = QuoteRowView;

    open spec fn view(&self) -> QuoteRowView {
        QuoteRowView { id: self.id as int, quote: self.quote@, author_id: self.author_id as int }
    }
}

impl DeepView for QuoteModel {
    type V = QuoteRowView;

    open spec fn deep_view(&self) -> QuoteRowView {
        self@
    }
}

impl Clone for QuoteModel {
    fn clone(&self) -> (r: Self)
        ensures
            r@ == self@,
    {
        QuoteModel { id: self.id, quote: self.quote.clone(), author_id: self.author_id }
    }
}

/// One edge of the many-to-many relation between quotes and tags; the pair is
/// the composite primary key.
#[derive(Clone, Copy, Debug, PartialEq, Eq, Structural)]
pub struct QuoteTagAssociation {
    pub quote_id: i32,
    pub tag_id: i32,
}

impl View for QuoteTagAssociation {
    type V = AssocView;

    open spec fn view(&self) -> AssocView {
        AssocView { quote_id: self.quote_id as int, tag_id: self.tag_id as int }
    }
}

impl DeepView for QuoteTagAssociation {
    type V = AssocView;

    open spec fn deep_view(&self) -> AssocView {
        self@
    }
}

/// The store and its data-access operations: four relations and the next
/// free surrogate key of each table that assigns one.
pub struct DataAccess {
    authors: Vec<AuthorDTO>,
    quotes: Vec<QuoteModel>,
    tags: Vec<TagDTO>,
    associations: Vec<QuoteTagAssociation>,
    next_author_id: i32,
    next_quote_id: i32,
    next_tag_id: i32,
}

impl View for DataAccess {
    type V = StoreView;

    closed spec fn view(&self) -> StoreView {
        StoreView {
            authors: self.authors.deep_view(),
            quotes: self.quotes.deep_view(),
            tags: self.tags.deep_view(),
            associations: self.associations.deep_view(),
            next_author_id: self.next_author_id as int,
            next_quote_id: self.next_quote_id as int,
            next_tag_id: self.next_tag_id as int,
        }
    }
}

impl DataAccess {
    /// The store's invariant; every operation requires and preserves it.
    pub open spec fn wf(&self) -> bool {
        store_wf(self@)
    }

    /// A fresh, empty store.
    pub fn new() -> (r: DataAccess)
        ensures
            r@ == StoreView::empty(),
            r.wf(),
    {
        let r = DataAccess {
            authors: Vec::new(),
            quotes: Vec::new(),
            tags: Vec::new(),
            associations: Vec::new(),
            next_author_id: 1,
            next_quote_id: 1,
            next_tag_id: 1,
        };
        proof {
            assert(r@ =~= StoreView::empty());
        }
        r
    }

    /// Single-row fetch of an author by primary key.
    pub fn get_author(&self, author_id: i32) -> (r: Option<AuthorDTO>)
        ensures
            match r {
                Some(a) => find_author_by_id(self@.authors, author_id as int) == Some(a@),
                None => find_author_by_id(self@.authors, author_id as int) is None,
            },
    {
        let ghost authors = self@.authors;
        let mut i: usize = 0;
        proof {
            assert(authors.skip(0) =~= authors);
        }
        while i < self.authors.len()
            invariant
                i <= authors.len(),
                authors == self@.authors,
                find_author_by_id(authors, author_id as int) == find_author_by_id(
                    authors.skip(i as int),
                    author_id as int,
                ),
            decreases authors.len() - i,
        {
            proof {
                assert(authors.skip(i as int)[0] == authors[i as int]);
            }
            if self.authors[i].id == author_id {
                return Some(self.authors[i].clone());
            }
            proof {
                assert(authors.skip(i as int).drop_first() =~= authors.skip(i + 1));
            }
            i = i + 1;
        }
        None
    }

    /// Single-row fetch of a tag by primary key.
    fn tag_by_id(&self, tag_id: i32) -> (r: Option<TagDTO>)
        ensures
            match r {
                Some(t) => find_tag_by_id(self@.tags, tag_id as int) == Some(t@),
                None => find_tag_by_id(self@.tags, tag_id as int) is None,
            },
    {
        let ghost tags = self@.tags;
        let mut i: usize = 0;
        proof {
            assert(tags.skip(0) =~= tags);
        }
        while i < self.tags.len()
            invariant
                i <= tags.len(),
                tags == self@.tags,
                find_tag_by_id(tags, tag_id as int) == find_tag_by_id(
                    tags.skip(i as int),
                    tag_id as int,
                ),
            decreases tags.len() - i,
        {
            proof {
                assert(tags.skip(i as int)[0] == tags[i as int]);
            }
            if self.tags[i].id == tag_id {
                return Some(self.tags[i].clone());
            }
            proof {
                assert(tags.skip(i as int).drop_first() =~= tags.skip(i + 1));
            }
            i = i + 1;
        }
        None
    }

    /// Single-row fetch of a quote row by primary key (not joined).
    fn quote_row_by_id(&self, quote_id: i32) -> (r: Option<QuoteModel>)
        ensures
            match r {
                Some(q) => find_quote_by_id(self@.quotes, quote_id as int) == Some(q@),
                None => find_quote_by_id(self@.quotes, quote_id as int) is None,
            },
    {
        let ghost quotes = self@.quotes;
        let mut i: usize = 0;
        proof {
            assert(quotes.skip(0) =~= quotes);
        }
        while i < self.quotes.len()
            invariant
                i <= quotes.len(),
                quotes == self@.quotes,
                find_quote_by_id(quotes, quote_id as int) == find_quote_by_id(
                    quotes.skip(i as int),
                    quote_id as int,
                ),
            decreases quotes.len() - i,
        {
            proof {
                assert(quotes.skip(i as int)[0] == quotes[i as int]);
            }
            if self.quotes[i].id == quote_id {
                return Some(self.quotes[i].clone());
            }
            proof {
                assert(quotes.skip(i as int).drop_first() =~= quotes.skip(i + 1));
            }
            i = i + 1;
        }
        None
    }

    /// Whether the association table already holds the pair.
    fn has_association(&self, quote_id: i32, tag_id: i32) -> (r: bool)
        ensures
            r == assoc_exists(self@.associations, quote_id as int, tag_id as int),
    {
        let mut i: usize = 0;
        while i < self.associations.len()
            invariant
                i <= self@.associations.len(),
                forall|j: int|
                    0 <= j < i ==> !((#[trigger] self@.associations[j]).quote_id == quote_id as int
                        && self@.associations[j].tag_id == tag_id as int),
            decreases self@.associations.len() - i,
        {
            if self.associations[i].quote_id == quote_id && self.associations[i].tag_id == tag_id {
                proof {
                    assert(self@.associations[i as int].quote_id == quote_id as int
                        && self@.associations[i as int].tag_id == tag_id as int);
                }
                return true;
            }
            i = i + 1;
        }
        false
    }

    /// Get-or-create of an author. The name is lowercased, looked up by exact
    /// match, and the first existing row is returned; otherwise a new row is
    /// inserted and returned. Fails only when the author table's keys are
    /// used up.
    pub fn get_or_create_author_model(&mut self, author_name: String) -> (r: Result<
        AuthorDTO,
        StorageError,
    >)
        requires
            old(self).wf(),
        ensures
            final (self).wf(),
            match (r, resolve_author(old(self)@, crate::text::lower_of(author_name@))) {
                (Ok(a), Ok(p)) => final (self)@ == p.0 && a@ == p.1,
                (Err(e1), Err(e2)) => e1 == e2 && final (self)@ == old(self)@,
                _ => false,
            },
    {
        let lowered = lowercase(author_name.as_str());
        let ghost authors = self@.authors;
        let mut i: usize = 0;
        proof {
            assert(authors.skip(0) =~= authors);
        }
        while i < self.authors.len()
            invariant
                i <= authors.len(),
                authors == self@.authors,
                *self == *old(self),
                self.wf(),
                lowered@ == crate::text::lower_of(author_name@),
                find_author_by_name(authors, lowered@) == find_author_by_name(
                    authors.skip(i as int),
                    lowered@,
                ),
            decreases authors.len() - i,
        {
            proof {
                assert(authors.skip(i as int)[0] == authors[i as int]);
            }
            if self.authors[i].name == lowered {
                return Ok(self.authors[i].clone());
            }
            proof {
                assert(authors.skip(i as int).drop_first() =~= authors.skip(i + 1));
            }
            i = i + 1;
        }
        // No exact match: insert a new author row under the next free key.
        if self.next_author_id == i32::MAX {
            return Err(StorageError::KeyspaceExhausted);
        }
        let a = AuthorDTO { id: self.next_author_id, name: lowered };
        let result = a.clone();
        let ghost ag = a;
        let ghost pre = *self;
        self.authors.push(a);
        self.next_author_id = self.next_author_id + 1;
        proof {
            crate::vecs::lemma_deep_view_push(pre.authors, self.authors, ag);
            let post = StoreView {
                authors: pre@.authors.push(ag@),
                next_author_id: pre@.next_author_id + 1,
                ..pre@
            };
            assert(self@ =~= post);
            assert forall|k: int| 0 <= k < self@.quotes.len() implies author_id_exists(
                self@.authors,
                (#[trigger] self@.quotes[k]).author_id,
            ) by {
                let w = choose|w: int|
                    0 <= w < pre@.authors.len() && (#[trigger] pre@.authors[w]).id
                        == pre@.quotes[k].author_id;
                assert(self@.authors[w].id == self@.quotes[k].author_id);
            }
        }
        Ok(result)
    }

    /// All tags whose text contains `tag` as a substring, in storage order.
    pub fn get_tags(&self, tag: &str) -> (r: Vec<TagDTO>)
        ensures
            r.deep_view() == matching_tags(self@.tags, tag@),
    {
        let mut r: Vec<TagDTO> = Vec::new();
        let mut i: usize = 0;
        proof {
            assert(self@.tags.take(0) =~= Seq::empty());
        }
        while i < self.tags.len()
            invariant
                i <= self@.tags.len(),
                r.deep_view() == matching_tags(self@.tags.take(i as int), tag@),
            decreases self@.tags.len() - i,
        {
            let ghost pre = r;
            if str_contains(self.tags[i].tag.as_str(), tag) {
                let c = self.tags[i].clone();
                let ghost cg = c;
                r.push(c);
                proof {
                    crate::vecs::lemma_deep_view_push(pre, r, cg);
                }
            }
            proof {
                assert(self@.tags.take(i + 1).drop_last() =~= self@.tags.take(i as int));
                assert(self@.tags.take(i + 1).last() == self@.tags[i as int]);
            }
            i = i + 1;
        }
        proof {
            assert(self@.tags.take(self@.tags.len() as int) =~= self@.tags);
        }
        r
    }

    /// Plain insertion of a tag row; the caller hands in the already
    /// normalized text. Fails only when the tag table's keys are used up.
    pub fn create_tag(&mut self, tag: &str) -> (r: Result<TagDTO, StorageError>)
        requires
            old(self).wf(),
        ensures
            final (self).wf(),
            match (r, spec_create_tag(old(self)@, tag@)) {
                (Ok(t), Ok(p)) => final (self)@ == p.0 && t@ == p.1,
                (Err(e1), Err(e2)) => e1 == e2 && final (self)@ == old(self)@,
                _ => false,
            },
    {
        if self.next_tag_id == i32::MAX {
            return Err(StorageError::KeyspaceExhausted);
        }
        let t = TagDTO { id: self.next_tag_id, tag: tag.to_owned() };
        let result = t.clone();
        let ghost tg = t;
        let ghost pre = *self;
        self.tags.push(t);
        self.next_tag_id = self.next_tag_id + 1;
        proof {
            crate::vecs::lemma_deep_view_push(pre.tags, self.tags, tg);
            let post = StoreView {
                tags: pre@.tags.push(tg@),
                next_tag_id: pre@.next_tag_id + 1,
                ..pre@
            };
            assert(self@ =~= post);
        }
        Ok(result)
    }

    /// Get-or-create of a tag. The text is lowercased; the first tag whose
    /// text contains it as a substring is returned; otherwise a new tag row
    /// holding the lowercased text is inserted and returned.
    pub fn get_tag_or_create_tag(&mut self, tag: String) -> (r: Result<TagDTO, StorageError>)
        requires
            old(self).wf(),
        ensures
            final (self).wf(),
            match (r, resolve_tag(old(self)@, crate::text::lower_of(tag@))) {
                (Ok(t), Ok(p)) => final (self)@ == p.0 && t@ == p.1,
                (Err(e1), Err(e2)) => e1 == e2 && final (self)@ == old(self)@,
                _ => false,
            },
    {
        let lowered = lowercase(tag.as_str());
        let ghost tags = self@.tags;
        let mut i: usize = 0;
        proof {
            assert(tags.skip(0) =~= tags);
        }
        while i < self.tags.len()
            invariant
                i <= tags.len(),
                tags == self@.tags,
                *self == *old(self),
                self.wf(),
                lowered@ == crate::text::lower_of(tag@),
                find_tag_match(tags, lowered@) == find_tag_match(tags.skip(i as int), lowered@),
            decreases tags.len() - i,
        {
            proof {
                assert(tags.skip(i as int)[0] == tags[i as int]);
            }
            if str_contains(self.tags[i].tag.as_str(), lowered.as_str()) {
                return Ok(self.tags[i].clone());
            }
            proof {
                assert(tags.skip(i as int).drop_first() =~= tags.skip(i + 1));
            }
            i = i + 1;
        }
        self.create_tag(lowered.as_str())
    }

    /// A quote row joined with its author and with the tags its association
    /// rows name, in association order.
    pub fn get_quote_with_related_tags_and_author(&self, quote: &QuoteModel) -> (r: QuoteDTO)
        requires
            self.wf(),
            author_id_exists(self@.authors, quote@.author_id),
        ensures
            r@ == quote_view_of(self@, quote@),
    {
        let author = match self.get_author(quote.author_id) {
            Some(a) => a,
            None => {
                proof {
                    crate::model::lemma_find_author_by_id_some(
                        self@.authors,
                        quote@.author_id,
                    );
                }
                unreached()
            },
        };
        let mut tags_v: Vec<TagDTO> = Vec::new();
        let mut i: usize = 0;
        proof {
            assert(self@.associations.take(0) =~= Seq::empty());
        }
        while i < self.associations.len()
            invariant
                i <= self@.associations.len(),
                tags_v.deep_view() == tags_of_assocs(
                    self@.tags,
                    self@.associations.take(i as int),
                    quote@.id,
                ),
            decreases self@.associations.len() - i,
        {
            let ghost pre = tags_v;
            if self.associations[i].quote_id == quote.id {
                match self.tag_by_id(self.associations[i].tag_id) {
                    Some(t) => {
                        let ghost tg = t;
                        tags_v.push(t);
                        proof {
                            crate::vecs::lemma_deep_view_push(pre, tags_v, tg);
                        }
                    },
                    None => {},
                }
            }
            proof {
                assert(self@.associations.take(i + 1).drop_last() =~= self@.associations.take(
                    i as int,
                ));
                assert(self@.associations.take(i + 1).last() == self@.associations[i as int]);
            }
            i = i + 1;
        }
        proof {
            assert(self@.associations.take(self@.associations.len() as int)
                =~= self@.associations);
        }
        let r = QuoteDTO {
            id: quote.id,
            quote: quote.quote.clone(),
            related_tags: tags_v,
            author,
        };
        proof {
            assert(r@ =~= quote_view_of(self@, quote@));
        }
        r
    }

    /// Single-row fetch of a quote by primary key, joined with its author and
    /// its tag set.
    pub fn get_quote(&self, id: i32) -> (r: Option<QuoteDTO>)
        requires
            self.wf(),
        ensures
            match r {
                Some(d) => spec_get_quote(self@, id as int) == Some(d@),
                None => spec_get_quote(self@, id as int) is None,
            },
    {
        match self.quote_row_by_id(id) {
            None => None,
            Some(row) => {
                proof {
                    crate::model::lemma_find_quote_by_id_member(self@.quotes, id as int);
                    let w = choose|w: int|
                        0 <= w < self@.quotes.len() && self@.quotes[w] == row@;
                    assert(author_id_exists(self@.authors, self@.quotes[w].author_id));
                }
                Some(self.get_quote_with_related_tags_and_author(&row))
            },
        }
    }

    /// The whole quote submission: resolve the author, insert the quote row
    /// owned by it, then, for each tag text in input order, resolve or create
    /// the tag and insert the association. On failure, work already done in
    /// earlier steps stays in the store; nothing is rolled back.
    pub fn create_quote(&mut self, quote: QuoteCreateDTO) -> (r: Result<QuoteDTO, StorageError>)
        requires
            old(self).wf(),
        ensures
            final (self).wf(),
            match (r, spec_create_quote(old(self)@, quote@)) {
                (Ok(dto), Ok(p)) => final (self)@ == p.0 && dto@ == p.1,
                (Err(e1), Err(p)) => e1 == p.1 && final (self)@ == p.0,
                _ => false,
            },
    {
        let author = match self.get_or_create_author_model(quote.author_name.clone()) {
            Ok(a) => a,
            Err(e) => {
                return Err(e);
            },
        };
        let ghost s1 = self@;
        if self.next_quote_id == i32::MAX {
            return Err(StorageError::KeyspaceExhausted);
        }
        let row_copy = QuoteModel {
            id: self.next_quote_id,
            quote: quote.quote.clone(),
            author_id: author.id,
        };
        let row = row_copy.clone();
        let ghost rg = row;
        let ghost pre = *self;
        self.quotes.push(row);
        self.next_quote_id = self.next_quote_id + 1;
        let ghost qid = rg@.id;
        proof {
            crate::vecs::lemma_deep_view_push(pre.quotes, self.quotes, rg);
            assert(self@ =~= (StoreView {
                quotes: s1.quotes.push(rg@),
                next_quote_id: s1.next_quote_id + 1,
                ..s1
            }));
            crate::model::lemma_resolve_author_member(
                old(self)@,
                crate::text::lower_of(quote@.author_name),
            );
        }
        let ghost s2 = self@;
        let mut related: Vec<TagDTO> = Vec::new();
        let mut i: usize = 0;
        proof {
            assert(quote@.related_tags.skip(0) =~= quote@.related_tags);
            assert(related.deep_view() =~= Seq::<crate::views::TagView>::empty());
        }
        while i < quote.related_tags.len()
            invariant
                i <= quote@.related_tags.len(),
                self.wf(),
                resolve_author(old(self)@, crate::text::lower_of(quote@.author_name)) == Ok::<
                    _,
                    StorageError,
                >((s1, author@)),
                s1.next_quote_id < i32::MAX as int,
                s2 == (StoreView {
                    quotes: s1.quotes.push(
                        QuoteRowView {
                            id: s1.next_quote_id,
                            quote: quote@.quote,
                            author_id: author@.id,
                        },
                    ),
                    next_quote_id: s1.next_quote_id + 1,
                    ..s1
                }),
                qid == s1.next_quote_id,
                row_copy@ == (QuoteRowView {
                    id: qid,
                    quote: quote@.quote,
                    author_id: author@.id,
                }),
                attach_tags(s2, qid, quote@.related_tags, Seq::empty()) == attach_tags(
                    self@,
                    qid,
                    quote@.related_tags.skip(i as int),
                    related.deep_view(),
                ),
            decreases quote@.related_tags.len() - i,
        {
            proof {
                assert(quote@.related_tags.skip(i as int)[0] == quote@.related_tags[i as int]);
                assert(quote@.related_tags[i as int] == quote.related_tags@[i as int].tag@);
            }
            let t = match self.get_tag_or_create_tag(quote.related_tags[i].tag.clone()) {
                Ok(t) => t,
                Err(e) => {
                    return Err(e);
                },
            };
            match self.create_quote_tag_association(&row_copy, &t) {
                Ok(_) => {},
                Err(e) => {
                    return Err(e);
                },
            }
            let ghost pre_rel = related;
            let ghost tgg = t;
            related.push(t);
            proof {
                crate::vecs::lemma_deep_view_push(pre_rel, related, tgg);
                assert(quote@.related_tags.skip(i as int).drop_first() =~= quote@.related_tags.skip(
                    i + 1,
                ));
            }
            i = i + 1;
        }
        proof {
            assert(quote@.related_tags.skip(quote@.related_tags.len() as int) =~= Seq::<
                Seq<char>,
            >::empty());
        }
        let dto = QuoteDTO {
            id: row_copy.id,
            quote: row_copy.quote,
            related_tags: related,
            author,
        };
        proof {
            match spec_create_quote(old(self)@, quote@) {
                Ok(p) => {
                    assert(dto@ =~= p.1);
                },
                Err(_) => {},
            }
        }
        Ok(dto)
    }

    /// The tag update: fetch the quote (an absent id is `None`, not an
    /// error), resolve or create the tag, insert the association, and return
    /// the refreshed view of the quote. Fails when the quote already carries
    /// the tag, leaving a tag created on the way in the store.
    pub fn update_quote_with_new_tag(&mut self, quote_id: i32, tag: String) -> (r: Result<
        Option<QuoteDTO>,
        StorageError,
    >)
        requires
            old(self).wf(),
        ensures
            final (self).wf(),
            match (r, spec_update_quote_tag(old(self)@, quote_id as int, tag@)) {
                (Ok(None), Ok(p)) => p.1 is None && final (self)@ == p.0,
                (Ok(Some(d)), Ok(p)) => p.1 == Some(d@) && final (self)@ == p.0,
                (Err(e1), Err(p)) => e1 == p.1 && final (self)@ == p.0,
                _ => false,
            },
    {
        let row = match self.quote_row_by_id(quote_id) {
            None => {
                return Ok(None);
            },
            Some(r) => r,
        };
        proof {
            crate::model::lemma_find_quote_by_id_member(old(self)@.quotes, quote_id as int);
        }
        let t = match self.get_tag_or_create_tag(tag) {
            Ok(t) => t,
            Err(e) => {
                return Err(e);
            },
        };
        match self.create_quote_tag_association(&row, &t) {
            Ok(_) => {},
            Err(e) => {
                return Err(e);
            },
        }
        proof {
            crate::model::lemma_find_quote_by_id_member(old(self)@.quotes, quote_id as int);
            let w = choose|w: int|
                0 <= w < old(self)@.quotes.len() && old(self)@.quotes[w] == row@;
            assert(author_id_exists(self@.authors, row@.author_id));
        }
        let dto = self.get_quote_with_related_tags_and_author(&row);
        Ok(Some(dto))
    }

    /// Joins every row of `rows` with its author and tags, in order.
    fn compose_records(&self, rows: &Vec<QuoteModel>) -> (r: Vec<QuoteDTO>)
        requires
            self.wf(),
            forall|j: int|
                0 <= j < rows.deep_view().len() ==> author_id_exists(
                    self@.authors,
                    (#[trigger] rows.deep_view()[j]).author_id,
                ),
        ensures
            r.deep_view() == compose_rows(self@, rows.deep_view()),
    {
        let mut r: Vec<QuoteDTO> = Vec::new();
        let mut i: usize = 0;
        proof {
            assert(rows.deep_view().take(0) =~= Seq::empty());
        }
        while i < rows.len()
            invariant
                i <= rows@.len(),
                self.wf(),
                forall|j: int|
                    0 <= j < rows.deep_view().len() ==> author_id_exists(
                        self@.authors,
                        (#[trigger] rows.deep_view()[j]).author_id,
                    ),
                r.deep_view() == compose_rows(self@, rows.deep_view().take(i as int)),
            decreases rows@.len() - i,
        {
            let ghost pre = r;
            proof {
                assert(rows.deep_view()[i as int] == rows@[i as int]@);
            }
            let dto = self.get_quote_with_related_tags_and_author(&rows[i]);
            let ghost dg = dto;
            r.push(dto);
            proof {
                crate::vecs::lemma_deep_view_push(pre, r, dg);
                assert(rows.deep_view().take(i + 1).drop_last() =~= rows.deep_view().take(i as int));
                assert(rows.deep_view().take(i + 1).last() == rows.deep_view()[i as int]);
            }
            i = i + 1;
        }
        proof {
            assert(rows.deep_view().take(rows@.len() as int) =~= rows.deep_view());
        }
        r
    }

    /// A copy of the tag table, in storage order.
    fn clone_tag_table(&self) -> (r: Vec<TagDTO>)
        ensures
            r.deep_view() == self@.tags,
    {
        let mut r: Vec<TagDTO> = Vec::new();
        let mut i: usize = 0;
        proof {
            assert(self@.tags.take(0) =~= Seq::empty());
        }
        while i < self.tags.len()
            invariant
                i <= self@.tags.len(),
                r.deep_view() == self@.tags.take(i as int),
            decreases self@.tags.len() - i,
        {
            let ghost pre = r;
            let c = self.tags[i].clone();
            let ghost cg = c;
            r.push(c);
            proof {
                crate::vecs::lemma_deep_view_push(pre, r, cg);
                assert(self@.tags.take(i + 1) =~= self@.tags.take(i as int).push(
                    self@.tags[i as int],
                ));
            }
            i = i + 1;
        }
        proof {
            assert(self@.tags.take(self@.tags.len() as int) =~= self@.tags);
        }
        r
    }

    /// A copy of the author table, in storage order.
    fn clone_author_table(&self) -> (r: Vec<AuthorDTO>)
        ensures
            r.deep_view() == self@.authors,
    {
        let mut r: Vec<AuthorDTO> = Vec::new();
        let mut i: usize = 0;
        proof {
            assert(self@.authors.take(0) =~= Seq::empty());
        }
        while i < self.authors.len()
            invariant
                i <= self@.authors.len(),
                r.deep_view() == self@.authors.take(i as int),
            decreases self@.authors.len() - i,
        {
            let ghost pre = r;
            let c = self.authors[i].clone();
            let ghost cg = c;
            r.push(c);
            proof {
                crate::vecs::lemma_deep_view_push(pre, r, cg);
                assert(self@.authors.take(i + 1) =~= self@.authors.take(i as int).push(
                    self@.authors[i as int],
                ));
            }
            i = i + 1;
        }
        proof {
            assert(self@.authors.take(self@.authors.len() as int) =~= self@.authors);
        }
        r
    }

    /// Insertion into the association table. Fails with a foreign-key
    /// violation when the quote or the tag is not in the store, and with a
    /// unique violation when the pair is already associated.
    pub fn create_quote_tag_association(&mut self, quote: &QuoteModel, tag: &TagDTO) -> (r: Result<
        QuoteTagAssociation,
        StorageError,
    >)
        requires
            old(self).wf(),
        ensures
            final (self).wf(),
            match (r, add_association(old(self)@, quote@.id, tag@.id)) {
                (Ok(assoc), Ok(s2)) => final (self)@ == s2 && assoc@ == (AssocView {
                    quote_id: quote@.id,
                    tag_id: tag@.id,
                }),
                (Err(e1), Err(e2)) => e1 == e2 && final (self)@ == old(self)@,
                _ => false,
            },
    {
        if self.quote_row_by_id(quote.id).is_none() || self.tag_by_id(tag.id).is_none() {
            return Err(StorageError::ForeignKeyViolation);
        }
        if self.has_association(quote.id, tag.id) {
            return Err(StorageError::UniqueViolation);
        }
        let assoc = QuoteTagAssociation { quote_id: quote.id, tag_id: tag.id };
        let ghost pre = *self;
        self.associations.push(assoc);
        proof {
            crate::vecs::lemma_deep_view_push(pre.associations, self.associations, assoc);
            let post = StoreView { associations: pre@.associations.push(assoc@), ..pre@ };
            assert(self@ =~= post);
            assert forall|i: int, j: int|
                0 <= i < j < self@.associations.len() implies !((#[trigger] self@.associations[i]).quote_id
                == (#[trigger] self@.associations[j]).quote_id && self@.associations[i].tag_id
                == self@.associations[j].tag_id) by {
                if j == self@.associations.len() - 1 {
                    assert(self@.associations[i] == pre@.associations[i]);
                    if self@.associations[i].quote_id == quote@.id && self@.associations[i].tag_id
                        == tag@.id {
                        assert(assoc_exists(pre@.associations, quote@.id, tag@.id));
                    }
                }
            }
        }
        Ok(assoc)
    }

    /// Unconditional delete of a quote by primary key: removing an absent id
    /// changes nothing and is still a success. Associations are not cascaded
    /// and may be left dangling.
    pub fn delete_quote(&mut self, id: i32)
        requires
            old(self).wf(),
        ensures
            final (self).wf(),
            final (self)@ == spec_delete_quote(old(self)@, id as int),
    {
        let mut kept: Vec<QuoteModel> = Vec::new();
        let mut i: usize = 0;
        proof {
            assert(self@.quotes.take(0) =~= Seq::empty());
        }
        while i < self.quotes.len()
            invariant
                i <= self@.quotes.len(),
                *self == *old(self),
                self.wf(),
                kept.deep_view() == remove_quote_rows(self@.quotes.take(i as int), id as int),
            decreases self@.quotes.len() - i,
        {
            let ghost pre = kept;
            if self.quotes[i].id != id {
                let c = self.quotes[i].clone();
                let ghost cg = c;
                kept.push(c);
                proof {
                    crate::vecs::lemma_deep_view_push(pre, kept, cg);
                }
            }
            proof {
                assert(self@.quotes.take(i + 1).drop_last() =~= self@.quotes.take(i as int));
                assert(self@.quotes.take(i + 1).last() == self@.quotes[i as int]);
            }
            i = i + 1;
        }
        proof {
            assert(self@.quotes.take(self@.quotes.len() as int) =~= self@.quotes);
        }
        let ghost pre_self = *self;
        self.quotes = kept;
        proof {
            assert(self@ =~= spec_delete_quote(pre_self@, id as int));
            crate::model::lemma_remove_quote_rows_wf(
                pre_self@.quotes,
                id as int,
                pre_self@.next_quote_id,
                pre_self@.authors,
            );
        }
    }

    /// Unconditional delete of a tag by primary key, with the same contract
    /// shape as quote deletion: no error for an absent id, no cascade.
    pub fn delete_tag(&mut self, id: i32)
        requires
            old(self).wf(),
        ensures
            final (self).wf(),
            final (self)@ == spec_delete_tag(old(self)@, id as int),
    {
        let mut kept: Vec<TagDTO> = Vec::new();
        let mut i: usize = 0;
        proof {
            assert(self@.tags.take(0) =~= Seq::empty());
        }
        while i < self.tags.len()
            invariant
                i <= self@.tags.len(),
                *self == *old(self),
                self.wf(),
                kept.deep_view() == remove_tag_rows(self@.tags.take(i as int), id as int),
            decreases self@.tags.len() - i,
        {
            let ghost pre = kept;
            if self.tags[i].id != id {
                let c = self.tags[i].clone();
                let ghost cg = c;
                kept.push(c);
                proof {
                    crate::vecs::lemma_deep_view_push(pre, kept, cg);
                }
            }
            proof {
                assert(self@.tags.take(i + 1).drop_last() =~= self@.tags.take(i as int));
                assert(self@.tags.take(i + 1).last() == self@.tags[i as int]);
            }
            i = i + 1;
        }
        proof {
            assert(self@.tags.take(self@.tags.len() as int) =~= self@.tags);
        }
        let ghost pre_self = *self;
        self.tags = kept;
        proof {
            assert(self@ =~= spec_delete_tag(pre_self@, id as int));
            crate::model::lemma_remove_tag_rows_wf(
                pre_self@.tags,
                id as int,
                pre_self@.next_tag_id,
            );
        }
    }

    /// Fetches quotes page `page` (1-based) of `page_size` rows, ordered by
    /// author name ascending, each row joined with its author and tags, and
    /// the total page count. A page with no rows is `None`, whether the store
    /// is empty or the page is out of range.
    pub fn get_quotes_in_page(&self, page: u64, page_size: u64) -> (r: Option<
        (Vec<QuoteDTO>, u64),
    >)
        requires
            self.wf(),
            page >= 1,
            page_size >= 1,
        ensures
            match r {
                Some((items, pages)) => {
                    &&& spec_quotes_page(self@, page as int, page_size as int) == Some(
                        (items.deep_view(), pages as int),
                    )
                    &&& items@.len() <= page_size
                    &&& pages as int == total_pages(
                        self@.quotes.len() as int,
                        page_size as int,
                    )
                },
                None => spec_quotes_page(self@, page as int, page_size as int) is None,
            },
    {
        let composed = self.compose_records(&self.quotes);
        let all = crate::order::sort_quote_dtos(composed);
        proof {
            crate::model::lemma_compose_rows_len(self@, self@.quotes);
            crate::order::lemma_sort_quotes_len(compose_rows(self@, self@.quotes));
        }
        match Self::page_bounds(all.len(), page, page_size) {
            None => None,
            Some((lo, hi, pages)) => {
                let items = Self::slice_quotes(&all, lo, hi);
                Some((items, pages))
            },
        }
    }

    /// Fetches tags page `page` (1-based) of `page_size` rows, ordered by tag
    /// text ascending, and the total page count; `None` when the page holds
    /// no row.
    pub fn get_tags_in_page(&self, page: u64, page_size: u64) -> (r: Option<(Vec<TagDTO>, u64)>)
        requires
            page >= 1,
            page_size >= 1,
        ensures
            match r {
                Some((items, pages)) => {
                    &&& spec_tags_page(self@, page as int, page_size as int) == Some(
                        (items.deep_view(), pages as int),
                    )
                    &&& items@.len() <= page_size
                    &&& pages as int == total_pages(self@.tags.len() as int, page_size as int)
                },
                None => spec_tags_page(self@, page as int, page_size as int) is None,
            },
    {
        let all = crate::order::sort_tag_dtos(self.clone_tag_table());
        proof {
            crate::order::lemma_sort_tags_len(self@.tags);
        }
        match Self::page_bounds(all.len(), page, page_size) {
            None => None,
            Some((lo, hi, pages)) => {
                let items = Self::slice_tags(&all, lo, hi);
                Some((items, pages))
            },
        }
    }

    /// Fetches authors page `page` (1-based) of `page_size` rows, ordered by
    /// name ascending, and the total page count; `None` when the page holds
    /// no row.
    pub fn get_authors_in_page(&self, page: u64, page_size: u64) -> (r: Option<
        (Vec<AuthorDTO>, u64),
    >)
        requires
            page >= 1,
            page_size >= 1,
        ensures
            match r {
                Some((items, pages)) => {
                    &&& spec_authors_page(self@, page as int, page_size as int) == Some(
                        (items.deep_view(), pages as int),
                    )
                    &&& items@.len() <= page_size
                    &&& pages as int == total_pages(
                        self@.authors.len() as int,
                        page_size as int,
                    )
                },
                None => spec_authors_page(self@, page as int, page_size as int) is None,
            },
    {
        let all = crate::order::sort_author_dtos(self.clone_author_table());
        proof {
            crate::order::lemma_sort_authors_len(self@.authors);
        }
        match Self::page_bounds(all.len(), page, page_size) {
            None => None,
            Some((lo, hi, pages)) => {
                let items = Self::slice_authors(&all, lo, hi);
                Some((items, pages))
            },
        }
    }

    /// Fetches a tag by id together with page `page` of the quotes related to
    /// it through the association table, in storage order, and the page count
    /// over the related quotes. `None` both when the tag does not exist and
    /// when the page holds no row: the two cases are reported alike.
    pub fn get_tag_with_related_quotes(&self, tag_id: i32, page: u64, page_size: u64) -> (r:
        Option<(TagDTO, Vec<QuoteDTO>, u64)>)
        requires
            self.wf(),
            page >= 1,
            page_size >= 1,
        ensures
            match r {
                Some((t, items, pages)) => spec_tag_quotes_page(
                    self@,
                    tag_id as int,
                    page as int,
                    page_size as int,
                ) == Some((t@, items.deep_view(), pages as int)),
                None => spec_tag_quotes_page(
                    self@,
                    tag_id as int,
                    page as int,
                    page_size as int,
                ) is None,
            },
    {
        let tag = match self.tag_by_id(tag_id) {
            None => {
                return None;
            },
            Some(t) => t,
        };
        let mut rows: Vec<QuoteModel> = Vec::new();
        let mut i: usize = 0;
        proof {
            assert(self@.quotes.take(0) =~= Seq::empty());
        }
        while i < self.quotes.len()
            invariant
                i <= self@.quotes.len(),
                self.wf(),
                rows.deep_view() == rows_of_tag(
                    self@.quotes.take(i as int),
                    self@.associations,
                    tag_id as int,
                ),
                forall|j: int|
                    0 <= j < rows.deep_view().len() ==> author_id_exists(
                        self@.authors,
                        (#[trigger] rows.deep_view()[j]).author_id,
                    ),
            decreases self@.quotes.len() - i,
        {
            let ghost pre = rows;
            if self.has_association(self.quotes[i].id, tag_id) {
                let c = self.quotes[i].clone();
                let ghost cg = c;
                rows.push(c);
                proof {
                    crate::vecs::lemma_deep_view_push(pre, rows, cg);
                }
            }
            proof {
                assert(self@.quotes.take(i + 1).drop_last() =~= self@.quotes.take(i as int));
                assert(self@.quotes.take(i + 1).last() == self@.quotes[i as int]);
            }
            i = i + 1;
        }
        proof {
            assert(self@.quotes.take(self@.quotes.len() as int) =~= self@.quotes);
        }
        let composed = self.compose_records(&rows);
        match Self::page_bounds(composed.len(), page, page_size) {
            None => None,
            Some((lo, hi, pages)) => {
                let items = Self::slice_quotes(&composed, lo, hi);
                Some((tag, items, pages))
            },
        }
    }

    /// Fetches an author by id together with page `page` of the quotes the
    /// author owns, in storage order, and the page count over those quotes;
    /// `None` when the author does not exist or the page holds no row.
    pub fn get_author_with_related_quotes(&self, author_id: i32, page: u64, page_size: u64) -> (r:
        Option<(AuthorDTO, Vec<QuoteDTO>, u64)>)
        requires
            self.wf(),
            page >= 1,
            page_size >= 1,
        ensures
            match r {
                Some((a, items, pages)) => spec_author_quotes_page(
                    self@,
                    author_id as int,
                    page as int,
                    page_size as int,
                ) == Some((a@, items.deep_view(), pages as int)),
                None => spec_author_quotes_page(
                    self@,
                    author_id as int,
                    page as int,
                    page_size as int,
                ) is None,
            },
    {
        let author = match self.get_author(author_id) {
            None => {
                return None;
            },
            Some(a) => a,
        };
        let mut rows: Vec<QuoteModel> = Vec::new();
        let mut i: usize = 0;
        proof {
            assert(self@.quotes.take(0) =~= Seq::empty());
        }
        while i < self.quotes.len()
            invariant
                i <= self@.quotes.len(),
                self.wf(),
                rows.deep_view() == rows_of_author(self@.quotes.take(i as int), author_id as int),
                forall|j: int|
                    0 <= j < rows.deep_view().len() ==> author_id_exists(
                        self@.authors,
                        (#[trigger] rows.deep_view()[j]).author_id,
                    ),
            decreases self@.quotes.len() - i,
        {
            let ghost pre = rows;
            if self.quotes[i].author_id == author_id {
                let c = self.quotes[i].clone();
                let ghost cg = c;
                rows.push(c);
                proof {
                    crate::vecs::lemma_deep_view_push(pre, rows, cg);
                }
            }
            proof {
                assert(self@.quotes.take(i + 1).drop_last() =~= self@.quotes.take(i as int));
                assert(self@.quotes.take(i + 1).last() == self@.quotes[i as int]);
            }
            i = i + 1;
        }
        proof {
            assert(self@.quotes.take(self@.quotes.len() as int) =~= self@.quotes);
        }
        let composed = self.compose_records(&rows);
        match Self::page_bounds(composed.len(), page, page_size) {
            None => None,
            Some((lo, hi, pages)) => {
                let items = Self::slice_quotes(&composed, lo, hi);
                Some((author, items, pages))
            },
        }
    }

    /// The 0-based row window of page `page` over `total` rows, and the page
    /// count: `None` exactly when the window is empty.
    fn page_bounds(total: usize, page: u64, page_size: u64) -> (r: Option<(usize, usize, u64)>)
        requires
            page >= 1,
            page_size >= 1,
        ensures
            match r {
                None => (page - 1) * page_size >= total as int,
                Some((lo, hi, pages)) => {
                    &&& lo as int == (page - 1) * page_size
                    &&& lo < total
                    &&& hi as int == (if (page - 1) * page_size + page_size > total as int {
                        total as int
                    } else {
                        (page - 1) * page_size + page_size
                    })
                    &&& lo < hi <= total
                    &&& pages as int == total_pages(total as int, page_size as int)
                },
            },
    {
        let total64 = total as u64;
        let lo64 = match (page - 1).checked_mul(page_size) {
            None => {
                return None;
            },
            Some(x) => x,
        };
        if lo64 >= total64 {
            return None;
        }
        let hi64 = match lo64.checked_add(page_size) {
            None => total64,
            Some(x) => {
                if x > total64 {
                    total64
                } else {
                    x
                }
            },
        };
        let pages = (total64 - 1) / page_size + 1;
        proof {
            vstd::arithmetic::div_mod::lemma_div_plus_one(total as int - 1, page_size as int);
        }
        Some((lo64 as usize, hi64 as usize, pages))
    }

    /// A copy of the rows `lo..hi` of a composed listing.
    fn slice_quotes(v: &Vec<QuoteDTO>, lo: usize, hi: usize) -> (r: Vec<QuoteDTO>)
        requires
            lo <= hi <= v@.len(),
        ensures
            r.deep_view() == v.deep_view().subrange(lo as int, hi as int),
            r@.len() == hi - lo,
    {
        let mut r: Vec<QuoteDTO> = Vec::new();
        let mut i: usize = lo;
        proof {
            assert(v.deep_view().subrange(lo as int, lo as int) =~= Seq::empty());
        }
        while i < hi
            invariant
                lo <= i <= hi <= v@.len(),
                r@.len() == i - lo,
                r.deep_view() == v.deep_view().subrange(lo as int, i as int),
            decreases hi - i,
        {
            let ghost pre = r;
            let c = v[i].clone();
            let ghost cg = c;
            r.push(c);
            proof {
                crate::vecs::lemma_deep_view_push(pre, r, cg);
                assert(v.deep_view().subrange(lo as int, i + 1) =~= v.deep_view().subrange(
                    lo as int,
                    i as int,
                ).push(v.deep_view()[i as int]));
            }
            i = i + 1;
        }
        r
    }

    /// A copy of the rows `lo..hi` of a tag listing.
    fn slice_tags(v: &Vec<TagDTO>, lo: usize, hi: usize) -> (r: Vec<TagDTO>)
        requires
            lo <= hi <= v@.len(),
        ensures
            r.deep_view() == v.deep_view().subrange(lo as int, hi as int),
            r@.len() == hi - lo,
    {
        let mut r: Vec<TagDTO> = Vec::new();
        let mut i: usize = lo;
        proof {
            assert(v.deep_view().subrange(lo as int, lo as int) =~= Seq::empty());
        }
        while i < hi
            invariant
                lo <= i <= hi <= v@.len(),
                r@.len() == i - lo,
                r.deep_view() == v.deep_view().subrange(lo as int, i as int),
            decreases hi - i,
        {
            let ghost pre = r;
            let c = v[i].clone();
            let ghost cg = c;
            r.push(c);
            proof {
                crate::vecs::lemma_deep_view_push(pre, r, cg);
                assert(v.deep_view().subrange(lo as int, i + 1) =~= v.deep_view().subrange(
                    lo as int,
                    i as int,
                ).push(v.deep_view()[i as int]));
            }
            i = i + 1;
        }
        r
    }

    /// A copy of the rows `lo..hi` of an author listing.
    fn slice_authors(v: &Vec<AuthorDTO>, lo: usize, hi: usize) -> (r: Vec<AuthorDTO>)
        requires
            lo <= hi <= v@.len(),
        ensures
            r.deep_view() == v.deep_view().subrange(lo as int, hi as int),
            r@.len() == hi - lo,
    {
        let mut r: Vec<AuthorDTO> = Vec::new();
        let mut i: usize = lo;
        proof {
            assert(v.deep_view().subrange(lo as int, lo as int) =~= Seq::empty());
        }
        while i < hi
            invariant
                lo <= i <= hi <= v@.len(),
                r@.len() == i - lo,
                r.deep_view() == v.deep_view().subrange(lo as int, i as int),
            decreases hi - i,
        {
            let ghost pre = r;
            let c = v[i].clone();
            let ghost cg = c;
            r.push(c);
            proof {
                crate::vecs::lemma_deep_view_push(pre, r, cg);
                assert(v.deep_view().subrange(lo as int, i + 1) =~= v.deep_view().subrange(
                    lo as int,
                    i as int,
                ).push(v.deep_view()[i as int]));
            }
            i = i + 1;
        }
        r
    }
}

} // verus!
