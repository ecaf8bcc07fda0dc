//! The shapes the catalog's pages are served in: the pagination query
//! parameters and the response records that bundle a page's rows with its
//! page count.

use vstd::prelude::*;

use crate::dto::{AuthorDTO, QuoteDTO, TagDTO};

verus! {

/// Pagination query parameters; either may be absent, and the presentation
/// layer falls back to page 1 with 10 rows.
#[derive(Clone, Copy, Debug, PartialEq, Eq, Structural)]
pub struct Params {
    pub page: Option<u64>,
    pub page_size: Option<u64>,
}

/// One page of quotes and the total page count.
#[derive(Debug)]
pub struct QuoteResponse {
    pub quotes: Vec<QuoteDTO>,
    pub pages: u64,
}

/// One page of tags and the total page count.
#[derive(Debug)]
pub struct TagResponse {
    pub tags: Vec<TagDTO>,
    pub pages: u64,
}

/// One page of authors and the total page count.
#[derive(Debug)]
pub struct AuthorResponse {
    pub authors: Vec<AuthorDTO>,
    pub pages: u64,
}

/// A tag with one page of the quotes related to it.
#[derive(Debug)]
pub struct TagAndRelatedQuotesResponse {
    pub tag: TagDTO,
    pub quotes: Vec<QuoteDTO>,
    pub pages: u64,
}

/// An author with one page of the quotes they own.
#[derive(Debug)]
pub struct AuthorAndAssociatedQuotesResponse {
    pub author: AuthorDTO,
    pub quotes: Vec<QuoteDTO>,
    pub pages: u64,
}

impl Params {
    /// The page number actually used: the given one, or 1.
    pub fn page_or_default(&self) -> (r: u64)
        ensures
            r == (match self.page {
                Some(p) => p,
                None => 1u64,
            }),
    {
        match self.page {
            Some(p) => p,
            None => 1,
        }
    }

    /// The page size actually used: the given one, or 10.
    pub fn page_size_or_default(&self) -> (r: u64)
        ensures
            r == (match self.page_size {
                Some(p) => p,
                None => 10u64,
            }),
    {
        match self.page_size {
            Some(p) => p,
            None => 10,
        }
    }
}

} // verus!
