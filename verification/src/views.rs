//! Mathematical views of the catalog's values: each executable record and the
//! store itself abstract to one of these, and all contracts speak of them.

use vstd::prelude::*;

verus! {

/// View of an author row and of an `AuthorDTO`.
#[verifier::ext_equal]
pub struct AuthorView {
    pub id: int,
    pub name: Seq<char>,
}

/// View of a tag row and of a `TagDTO`.
#[verifier::ext_equal]
pub struct TagView {
    pub id: int,
    pub tag: Seq<char>,
}

/// View of a quote row as stored: the author is referenced by id.
#[verifier::ext_equal]
pub struct QuoteRowView {
    pub id: int,
    pub quote: Seq<char>,
    pub author_id: int,
}

/// View of one edge of the quote-tag association.
#[verifier::ext_equal]
pub struct AssocView {
    pub quote_id: int,
    pub tag_id: int,
}

/// View of a composed quote record (`QuoteDTO`): the row joined with its
/// author and its related tags.
#[verifier::ext_equal]
pub struct QuoteView {
    pub id: int,
    pub quote: Seq<char>,
    pub related_tags: Seq<TagView>,
    pub author: AuthorView,
}

/// View of a quote submission (`QuoteCreateDTO`).
#[verifier::ext_equal]
pub struct QuoteCreateView {
    pub quote: Seq<char>,
    pub related_tags: Seq<Seq<char>>,
    pub author_name: Seq<char>,
}

/// View of the whole store: the four relations plus the next free surrogate
/// key of each table that has one.
#[verifier::ext_equal]
pub struct StoreView {
    pub authors: Seq<AuthorView>,
    pub quotes: Seq<QuoteRowView>,
    pub tags: Seq<TagView>,
    pub associations: Seq<AssocView>,
    pub next_author_id: int,
    pub next_quote_id: int,
    pub next_tag_id: int,
}

impl StoreView {
    /// The store with no rows at all.
    pub open spec fn empty() -> StoreView {
        StoreView {
            authors: Seq::empty(),
            quotes: Seq::empty(),
            tags: Seq::empty(),
            associations: Seq::empty(),
            next_author_id: 1,
            next_quote_id: 1,
            next_tag_id: 1,
        }
    }
}

} // verus!
