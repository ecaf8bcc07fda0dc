//! Transfer objects: the plain records that cross the boundary between the
//! data-access layer and its callers, decoupled from the stored rows.

use vstd::prelude::*;

use crate::views::{AuthorView, QuoteCreateView, QuoteView, TagView};

verus! {

/// An author record: surrogate key and (lowercased) name.
#[derive(Debug, PartialEq, Eq)]
pub struct AuthorDTO {
    pub id: i32,
    pub name: String,
}

/// A tag record: surrogate key and (lowercased) text.
#[derive(Debug, PartialEq, Eq)]
pub struct TagDTO {
    pub id: i32,
    pub tag: String,
}

/// A composed quote record: the quote joined with its author and the tags
/// related to it, in association order.
#[derive(Debug, PartialEq, Eq)]
pub struct QuoteDTO {
    pub id: i32,
    pub quote: String,
    pub related_tags: Vec<TagDTO>,
    pub author: AuthorDTO,
}

/// The text of one tag in a quote submission.
#[derive(Debug, PartialEq, Eq)]
pub struct TagCreateDTO {
    pub tag: String,
}

/// A quote submission: the quote text, the author's name as given, and the
/// tag texts to relate, in order.
#[derive(Debug, PartialEq, Eq)]
pub struct QuoteCreateDTO {
    pub quote: String,
    pub related_tags: Vec<TagCreateDTO>,
    pub author_name: String,
}

impl View for AuthorDTO {
    type V = AuthorView;

    open spec fn view(&self) -> AuthorView {
        AuthorView { id: self.id as int, name: self.name@ }
    }
}

impl DeepView for AuthorDTO {
    type V = AuthorView;

    open spec fn deep_view(&self) -> AuthorView {
        self@
    }
}

impl Clone for AuthorDTO {
    fn clone(&self) -> (r: Self)
        ensures
            r@ == self@,
    {
        AuthorDTO { id: self.id, name: self.name.clone() }
    }
}

impl View for TagDTO {
    type V = TagView;

    open spec fn view(&self) -> TagView {
        TagView { id: self.id as int, tag: self.tag@ }
    }
}

impl DeepView for TagDTO {
    type V = TagView;

    open spec fn deep_view(&self) -> TagView {
        self@
    }
}

impl Clone for TagDTO {
    fn clone(&self) -> (r: Self)
        ensures
            r@ == self@,
    {
        TagDTO { id: self.id, tag: self.tag.clone() }
    }
}

impl View for QuoteDTO {
    type V = QuoteView;

    open spec fn view(&self) -> QuoteView {
        QuoteView {
            id: self.id as int,
            quote: self.quote@,
            related_tags: self.related_tags.deep_view(),
            author: self.author@,
        }
    }
}

impl DeepView for QuoteDTO {
    type V = QuoteView;

    open spec fn deep_view(&self) -> QuoteView {
        self@
    }
}

impl Clone for QuoteDTO {
    fn clone(&self) -> (r: Self)
        ensures
            r@ == self@,
    {
        let mut tags: Vec<TagDTO> = Vec::new();
        let mut i: usize = 0;
        while i < self.related_tags.len()
            invariant
                i <= self.related_tags.len(),
                tags@.len() == i,
                forall|j: int| 0 <= j < i ==> #[trigger] tags@[j]@ == self.related_tags@[j]@,
            decreases self.related_tags.len() - i,
        {
            tags.push(self.related_tags[i].clone());
            i = i + 1;
        }
        proof {
            assert forall|j: int|
                0 <= j < tags@.len() implies #[trigger] tags.deep_view()[j]
                == self.related_tags.deep_view()[j] by {
                assert(tags@[j]@ == self.related_tags@[j]@);
            }
            assert(tags.deep_view() =~= self.related_tags.deep_view());
        }
        let r = QuoteDTO {
            id: self.id,
            quote: self.quote.clone(),
            related_tags: tags,
            author: self.author.clone(),
        };
        proof {
            assert(r@ =~= self@);
        }
        r
    }
}

impl View for TagCreateDTO {
    type V = Seq<char>;

    open spec fn view(&self) -> Seq<char> {
        self.tag@
    }
}

impl DeepView for TagCreateDTO {
    type V = Seq<char>;

    open spec fn deep_view(&self) -> Seq<char> {
        self.tag@
    }
}

impl Clone for TagCreateDTO {
    fn clone(&self) -> (r: Self)
        ensures
            r@ == self@,
    {
        TagCreateDTO { tag: self.tag.clone() }
    }
}

impl View for QuoteCreateDTO {
    type V = QuoteCreateView;

    open spec fn view(&self) -> QuoteCreateView {
        QuoteCreateView {
            quote: self.quote@,
            related_tags: self.related_tags.deep_view(),
            author_name: self.author_name@,
        }
    }
}

impl DeepView for QuoteCreateDTO {
    type V = QuoteCreateView;

    open spec fn deep_view(&self) -> QuoteCreateView {
        self@
    }
}

} // verus!
