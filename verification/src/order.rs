//! Stable sorting by a text key: page listings order quotes by author name,
//! tags by tag text, and authors by author name, all ascending, with rows of
//! equal key kept in storage order.

use vstd::prelude::*;

use crate::dto::{AuthorDTO, QuoteDTO, TagDTO};
use crate::text::{lemma_lex_le_total, lex_le, str_le};
use crate::vecs::lemma_deep_view_insert;
use crate::views::{AuthorView, QuoteView, TagView};

verus! {

pub proof fn lemma_lex_le_trans(a: Seq<char>, b: Seq<char>, c: Seq<char>)
    requires
        lex_le(a, b),
        lex_le(b, c),
    ensures
        lex_le(a, c),
    decreases a.len(),
{
    if a.len() != 0 {
        if a[0] == b[0] && b[0] == c[0] {
            lemma_lex_le_trans(
                a.subrange(1, a.len() as int),
                b.subrange(1, b.len() as int),
                c.subrange(1, c.len() as int),
            );
        }
    }
}

/// The listing key of a composed quote record: its author's name.
pub open spec fn quote_key(q: QuoteView) -> Seq<char> {
    q.author.name
}

/// `x` placed after every element of `s` whose key is less than or equal to
/// its own, so that an insertion keeps rows of equal key in their old order.
pub open spec fn insert_sorted_quotes(s: Seq<QuoteView>, x: QuoteView) -> Seq<QuoteView>
    decreases s.len(),
{
    if s.len() == 0 {
        seq![x]
    } else if lex_le(quote_key(s.last()), quote_key(x)) {
        s.push(x)
    } else {
        insert_sorted_quotes(s.drop_last(), x).push(s.last())
    }
}

/// Insertion sort of composed quote records by author name: stable and
/// ascending.
pub open spec fn sort_quotes(s: Seq<QuoteView>) -> Seq<QuoteView>
    decreases s.len(),
{
    if s.len() == 0 {
        Seq::empty()
    } else {
        insert_sorted_quotes(sort_quotes(s.drop_last()), s.last())
    }
}

pub open spec fn quotes_sorted(s: Seq<QuoteView>) -> bool {
    forall|i: int, j: int|
        0 <= i < j < s.len() ==> #[trigger] lex_le(quote_key(s[i]), quote_key(s[j]))
}

proof fn lemma_insert_sorted_quotes_split(s: Seq<QuoteView>, x: QuoteView, pos: int)
    requires
        0 <= pos <= s.len(),
        forall|j: int| pos <= j < s.len() ==> !lex_le(quote_key(#[trigger] s[j]), quote_key(x)),
        pos > 0 ==> lex_le(quote_key(s[pos - 1]), quote_key(x)),
    ensures
        insert_sorted_quotes(s, x) == s.subrange(0, pos) + seq![x] + s.subrange(
            pos,
            s.len() as int,
        ),
    decreases s.len(),
{
    if pos == s.len() {
        if s.len() == 0 {
            assert(insert_sorted_quotes(s, x) =~= s.subrange(0, pos) + seq![x] + s.subrange(
                pos,
                s.len() as int,
            ));
        } else {
            assert(insert_sorted_quotes(s, x) =~= s.subrange(0, pos) + seq![x] + s.subrange(
                pos,
                s.len() as int,
            ));
        }
    } else {
        assert(!lex_le(quote_key(s.last()), quote_key(x)));
        lemma_insert_sorted_quotes_split(s.drop_last(), x, pos);
        assert(insert_sorted_quotes(s, x) =~= s.subrange(0, pos) + seq![x] + s.subrange(
            pos,
            s.len() as int,
        ));
    }
}

pub proof fn lemma_insert_sorted_quotes_len(s: Seq<QuoteView>, x: QuoteView)
    ensures
        insert_sorted_quotes(s, x).len() == s.len() + 1,
    decreases s.len(),
{
    if s.len() != 0 && !lex_le(quote_key(s.last()), quote_key(x)) {
        lemma_insert_sorted_quotes_len(s.drop_last(), x);
    }
}

pub proof fn lemma_sort_quotes_len(s: Seq<QuoteView>)
    ensures
        sort_quotes(s).len() == s.len(),
    decreases s.len(),
{
    if s.len() != 0 {
        lemma_sort_quotes_len(s.drop_last());
        lemma_insert_sorted_quotes_len(sort_quotes(s.drop_last()), s.last());
    }
}

proof fn lemma_insert_sorted_quotes_key_bound(s: Seq<QuoteView>, x: QuoteView, bound: Seq<char>)
    requires
        forall|i: int| 0 <= i < s.len() ==> lex_le(quote_key(#[trigger] s[i]), bound),
        lex_le(quote_key(x), bound),
    ensures
        forall|i: int|
            0 <= i < insert_sorted_quotes(s, x).len() ==> lex_le(
                quote_key(#[trigger] insert_sorted_quotes(s, x)[i]),
                bound,
            ),
    decreases s.len(),
{
    if s.len() == 0 {
    } else if lex_le(quote_key(s.last()), quote_key(x)) {
        let r = s.push(x);
        assert forall|i: int| 0 <= i < r.len() implies lex_le(quote_key(r[i]), bound) by {
            if i < s.len() {
                assert(lex_le(quote_key(s[i]), bound));
            }
        }
    } else {
        assert forall|i: int|
            0 <= i < s.drop_last().len() implies lex_le(
            quote_key(#[trigger] s.drop_last()[i]),
            bound,
        ) by {
            assert(lex_le(quote_key(s[i]), bound));
        }
        lemma_insert_sorted_quotes_key_bound(s.drop_last(), x, bound);
        let inner = insert_sorted_quotes(s.drop_last(), x);
        let r = inner.push(s.last());
        assert forall|i: int| 0 <= i < r.len() implies lex_le(quote_key(r[i]), bound) by {
            if i < inner.len() {
                assert(lex_le(quote_key(inner[i]), bound));
            } else {
                assert(lex_le(quote_key(s[s.len() - 1]), bound));
            }
        }
    }
}

proof fn lemma_insert_sorted_quotes_sorted(s: Seq<QuoteView>, x: QuoteView)
    requires
        quotes_sorted(s),
    ensures
        quotes_sorted(insert_sorted_quotes(s, x)),
    decreases s.len(),
{
    if s.len() == 0 {
    } else if lex_le(quote_key(s.last()), quote_key(x)) {
        let r = s.push(x);
        assert forall|i: int, j: int| 0 <= i < j < r.len() implies #[trigger] lex_le(
            quote_key(r[i]),
            quote_key(r[j]),
        ) by {
            if j == r.len() - 1 && i < s.len() - 1 {
                lemma_lex_le_trans(quote_key(s[i]), quote_key(s.last()), quote_key(x));
            }
        }
    } else {
        lemma_lex_le_total(quote_key(s.last()), quote_key(x));
        let inner = insert_sorted_quotes(s.drop_last(), x);
        lemma_insert_sorted_quotes_sorted(s.drop_last(), x);
        assert forall|i: int|
            0 <= i < s.drop_last().len() implies lex_le(
            quote_key(#[trigger] s.drop_last()[i]),
            quote_key(s.last()),
        ) by {
            assert(lex_le(quote_key(s[i]), quote_key(s.last())));
        }
        lemma_insert_sorted_quotes_key_bound(s.drop_last(), x, quote_key(s.last()));
        let r = inner.push(s.last());
        assert forall|i: int, j: int| 0 <= i < j < r.len() implies #[trigger] lex_le(
            quote_key(r[i]),
            quote_key(r[j]),
        ) by {
            if j == r.len() - 1 {
                assert(lex_le(quote_key(inner[i]), quote_key(s.last())));
            }
        }
    }
}

/// The page listing of quotes is sorted by author name, ascending.
pub proof fn lemma_sort_quotes_sorted(s: Seq<QuoteView>)
    ensures
        quotes_sorted(sort_quotes(s)),
    decreases s.len(),
{
    if s.len() != 0 {
        lemma_sort_quotes_sorted(s.drop_last());
        lemma_insert_sorted_quotes_sorted(sort_quotes(s.drop_last()), s.last());
    }
}

fn insert_quote_dto_sorted(v: &mut Vec<QuoteDTO>, x: QuoteDTO)
    ensures
        final (v).deep_view() == insert_sorted_quotes(old(v).deep_view(), x@),
{
    let ghost xg: QuoteDTO = x;
    let mut pos: usize = v.len();
    while pos > 0 && !str_le(v[pos - 1].author.name.as_str(), x.author.name.as_str())
        invariant
            pos <= v@.len(),
            *v == *old(v),
            xg == x,
            forall|j: int|
                pos <= j < v@.len() ==> !lex_le(
                    quote_key(#[trigger] v.deep_view()[j]),
                    quote_key(x@),
                ),
        decreases pos,
    {
        proof {
            assert(v.deep_view()[pos - 1] == v@[pos - 1]@);
        }
        pos = pos - 1;
    }
    proof {
        lemma_insert_sorted_quotes_split(v.deep_view(), xg@, pos as int);
    }
    let ghost pre = *v;
    v.insert(pos, x);
    proof {
        lemma_deep_view_insert(pre, *v, pos as int, xg);
        assert(pre.deep_view().insert(pos as int, xg@) =~= pre.deep_view().subrange(0, pos as int)
            + seq![xg@] + pre.deep_view().subrange(pos as int, pre.deep_view().len() as int));
    }
}

/// All quote records sorted stably by author name: the listing order of the
/// quotes page.
pub fn sort_quote_dtos(v: Vec<QuoteDTO>) -> (r: Vec<QuoteDTO>)
    ensures
        r.deep_view() == sort_quotes(v.deep_view()),
{
    let mut r: Vec<QuoteDTO> = Vec::new();
    let mut i: usize = 0;
    proof {
        assert(v.deep_view().take(0) =~= Seq::<QuoteView>::empty());
    }
    while i < v.len()
        invariant
            i <= v@.len(),
            r.deep_view() == sort_quotes(v.deep_view().take(i as int)),
        decreases v@.len() - i,
    {
        let ghost pre = r;
        insert_quote_dto_sorted(&mut r, v[i].clone());
        proof {
            assert(v.deep_view().take(i + 1).drop_last() =~= v.deep_view().take(i as int));
            assert(v.deep_view().take(i + 1).last() == v.deep_view()[i as int]);
        }
        i = i + 1;
    }
    proof {
        assert(v.deep_view().take(v@.len() as int) =~= v.deep_view());
    }
    r
}

/// `x` placed after every tag whose text is less than or equal to its own.
pub open spec fn insert_sorted_tags(s: Seq<TagView>, x: TagView) -> Seq<TagView>
    decreases s.len(),
{
    if s.len() == 0 {
        seq![x]
    } else if lex_le(s.last().tag, x.tag) {
        s.push(x)
    } else {
        insert_sorted_tags(s.drop_last(), x).push(s.last())
    }
}

/// Insertion sort of tag records by tag text: stable and ascending.
pub open spec fn sort_tags(s: Seq<TagView>) -> Seq<TagView>
    decreases s.len(),
{
    if s.len() == 0 {
        Seq::empty()
    } else {
        insert_sorted_tags(sort_tags(s.drop_last()), s.last())
    }
}

pub open spec fn tags_sorted(s: Seq<TagView>) -> bool {
    forall|i: int, j: int| 0 <= i < j < s.len() ==> #[trigger] lex_le(s[i].tag, s[j].tag)
}

proof fn lemma_insert_sorted_tags_split(s: Seq<TagView>, x: TagView, pos: int)
    requires
        0 <= pos <= s.len(),
        forall|j: int| pos <= j < s.len() ==> !lex_le((#[trigger] s[j]).tag, x.tag),
        pos > 0 ==> lex_le(s[pos - 1].tag, x.tag),
    ensures
        insert_sorted_tags(s, x) == s.subrange(0, pos) + seq![x] + s.subrange(pos, s.len() as int),
    decreases s.len(),
{
    if pos == s.len() {
        assert(insert_sorted_tags(s, x) =~= s.subrange(0, pos) + seq![x] + s.subrange(
            pos,
            s.len() as int,
        ));
    } else {
        assert(!lex_le(s.last().tag, x.tag));
        lemma_insert_sorted_tags_split(s.drop_last(), x, pos);
        assert(insert_sorted_tags(s, x) =~= s.subrange(0, pos) + seq![x] + s.subrange(
            pos,
            s.len() as int,
        ));
    }
}

pub proof fn lemma_insert_sorted_tags_len(s: Seq<TagView>, x: TagView)
    ensures
        insert_sorted_tags(s, x).len() == s.len() + 1,
    decreases s.len(),
{
    if s.len() != 0 && !lex_le(s.last().tag, x.tag) {
        lemma_insert_sorted_tags_len(s.drop_last(), x);
    }
}

pub proof fn lemma_sort_tags_len(s: Seq<TagView>)
    ensures
        sort_tags(s).len() == s.len(),
    decreases s.len(),
{
    if s.len() != 0 {
        lemma_sort_tags_len(s.drop_last());
        lemma_insert_sorted_tags_len(sort_tags(s.drop_last()), s.last());
    }
}

proof fn lemma_insert_sorted_tags_key_bound(s: Seq<TagView>, x: TagView, bound: Seq<char>)
    requires
        forall|i: int| 0 <= i < s.len() ==> lex_le((#[trigger] s[i]).tag, bound),
        lex_le(x.tag, bound),
    ensures
        forall|i: int|
            0 <= i < insert_sorted_tags(s, x).len() ==> lex_le(
                (#[trigger] insert_sorted_tags(s, x)[i]).tag,
                bound,
            ),
    decreases s.len(),
{
    if s.len() == 0 {
    } else if lex_le(s.last().tag, x.tag) {
        let r = s.push(x);
        assert forall|i: int| 0 <= i < r.len() implies lex_le(r[i].tag, bound) by {
            if i < s.len() {
                assert(lex_le(s[i].tag, bound));
            }
        }
    } else {
        assert forall|i: int|
            0 <= i < s.drop_last().len() implies lex_le((#[trigger] s.drop_last()[i]).tag, bound) by {
            assert(lex_le(s[i].tag, bound));
        }
        lemma_insert_sorted_tags_key_bound(s.drop_last(), x, bound);
        let inner = insert_sorted_tags(s.drop_last(), x);
        let r = inner.push(s.last());
        assert forall|i: int| 0 <= i < r.len() implies lex_le(r[i].tag, bound) by {
            if i < inner.len() {
                assert(lex_le(inner[i].tag, bound));
            } else {
                assert(lex_le(s[s.len() - 1].tag, bound));
            }
        }
    }
}

proof fn lemma_insert_sorted_tags_sorted(s: Seq<TagView>, x: TagView)
    requires
        tags_sorted(s),
    ensures
        tags_sorted(insert_sorted_tags(s, x)),
    decreases s.len(),
{
    if s.len() == 0 {
    } else if lex_le(s.last().tag, x.tag) {
        let r = s.push(x);
        assert forall|i: int, j: int| 0 <= i < j < r.len() implies #[trigger] lex_le(
            r[i].tag,
            r[j].tag,
        ) by {
            if j == r.len() - 1 && i < s.len() - 1 {
                lemma_lex_le_trans(s[i].tag, s.last().tag, x.tag);
            }
        }
    } else {
        lemma_lex_le_total(s.last().tag, x.tag);
        let inner = insert_sorted_tags(s.drop_last(), x);
        lemma_insert_sorted_tags_sorted(s.drop_last(), x);
        assert forall|i: int|
            0 <= i < s.drop_last().len() implies lex_le(
            (#[trigger] s.drop_last()[i]).tag,
            s.last().tag,
        ) by {
            assert(lex_le(s[i].tag, s.last().tag));
        }
        lemma_insert_sorted_tags_key_bound(s.drop_last(), x, s.last().tag);
        let r = inner.push(s.last());
        assert forall|i: int, j: int| 0 <= i < j < r.len() implies #[trigger] lex_le(
            r[i].tag,
            r[j].tag,
        ) by {
            if j == r.len() - 1 {
                assert(lex_le(inner[i].tag, s.last().tag));
            }
        }
    }
}

/// The page listing of tags is sorted by tag text, ascending.
pub proof fn lemma_sort_tags_sorted(s: Seq<TagView>)
    ensures
        tags_sorted(sort_tags(s)),
    decreases s.len(),
{
    if s.len() != 0 {
        lemma_sort_tags_sorted(s.drop_last());
        lemma_insert_sorted_tags_sorted(sort_tags(s.drop_last()), s.last());
    }
}

fn insert_tag_dto_sorted(v: &mut Vec<TagDTO>, x: TagDTO)
    ensures
        final (v).deep_view() == insert_sorted_tags(old(v).deep_view(), x@),
{
    let ghost xg: TagDTO = x;
    let mut pos: usize = v.len();
    while pos > 0 && !str_le(v[pos - 1].tag.as_str(), x.tag.as_str())
        invariant
            pos <= v@.len(),
            *v == *old(v),
            xg == x,
            forall|j: int|
                pos <= j < v@.len() ==> !lex_le((#[trigger] v.deep_view()[j]).tag, x@.tag),
        decreases pos,
    {
        proof {
            assert(v.deep_view()[pos - 1] == v@[pos - 1]@);
        }
        pos = pos - 1;
    }
    proof {
        lemma_insert_sorted_tags_split(v.deep_view(), xg@, pos as int);
    }
    let ghost pre = *v;
    v.insert(pos, x);
    proof {
        lemma_deep_view_insert(pre, *v, pos as int, xg);
        assert(pre.deep_view().insert(pos as int, xg@) =~= pre.deep_view().subrange(0, pos as int)
            + seq![xg@] + pre.deep_view().subrange(pos as int, pre.deep_view().len() as int));
    }
}

/// All tag records sorted stably by tag text: the listing order of the tags
/// page.
pub fn sort_tag_dtos(v: Vec<TagDTO>) -> (r: Vec<TagDTO>)
    ensures
        r.deep_view() == sort_tags(v.deep_view()),
{
    let mut r: Vec<TagDTO> = Vec::new();
    let mut i: usize = 0;
    proof {
        assert(v.deep_view().take(0) =~= Seq::<TagView>::empty());
    }
    while i < v.len()
        invariant
            i <= v@.len(),
            r.deep_view() == sort_tags(v.deep_view().take(i as int)),
        decreases v@.len() - i,
    {
        insert_tag_dto_sorted(&mut r, v[i].clone());
        proof {
            assert(v.deep_view().take(i + 1).drop_last() =~= v.deep_view().take(i as int));
            assert(v.deep_view().take(i + 1).last() == v.deep_view()[i as int]);
        }
        i = i + 1;
    }
    proof {
        assert(v.deep_view().take(v@.len() as int) =~= v.deep_view());
    }
    r
}

/// `x` placed after every author whose name is less than or equal to its own.
pub open spec fn insert_sorted_authors(s: Seq<AuthorView>, x: AuthorView) -> Seq<AuthorView>
    decreases s.len(),
{
    if s.len() == 0 {
        seq![x]
    } else if lex_le(s.last().name, x.name) {
        s.push(x)
    } else {
        insert_sorted_authors(s.drop_last(), x).push(s.last())
    }
}

/// Insertion sort of author records by name: stable and ascending.
pub open spec fn sort_authors(s: Seq<AuthorView>) -> Seq<AuthorView>
    decreases s.len(),
{
    if s.len() == 0 {
        Seq::empty()
    } else {
        insert_sorted_authors(sort_authors(s.drop_last()), s.last())
    }
}

pub open spec fn authors_sorted(s: Seq<AuthorView>) -> bool {
    forall|i: int, j: int| 0 <= i < j < s.len() ==> #[trigger] lex_le(s[i].name, s[j].name)
}

proof fn lemma_insert_sorted_authors_split(s: Seq<AuthorView>, x: AuthorView, pos: int)
    requires
        0 <= pos <= s.len(),
        forall|j: int| pos <= j < s.len() ==> !lex_le((#[trigger] s[j]).name, x.name),
        pos > 0 ==> lex_le(s[pos - 1].name, x.name),
    ensures
        insert_sorted_authors(s, x) == s.subrange(0, pos) + seq![x] + s.subrange(
            pos,
            s.len() as int,
        ),
    decreases s.len(),
{
    if pos == s.len() {
        assert(insert_sorted_authors(s, x) =~= s.subrange(0, pos) + seq![x] + s.subrange(
            pos,
            s.len() as int,
        ));
    } else {
        assert(!lex_le(s.last().name, x.name));
        lemma_insert_sorted_authors_split(s.drop_last(), x, pos);
        assert(insert_sorted_authors(s, x) =~= s.subrange(0, pos) + seq![x] + s.subrange(
            pos,
            s.len() as int,
        ));
    }
}

pub proof fn lemma_insert_sorted_authors_len(s: Seq<AuthorView>, x: AuthorView)
    ensures
        insert_sorted_authors(s, x).len() == s.len() + 1,
    decreases s.len(),
{
    if s.len() != 0 && !lex_le(s.last().name, x.name) {
        lemma_insert_sorted_authors_len(s.drop_last(), x);
    }
}

pub proof fn lemma_sort_authors_len(s: Seq<AuthorView>)
    ensures
        sort_authors(s).len() == s.len(),
    decreases s.len(),
{
    if s.len() != 0 {
        lemma_sort_authors_len(s.drop_last());
        lemma_insert_sorted_authors_len(sort_authors(s.drop_last()), s.last());
    }
}

proof fn lemma_insert_sorted_authors_key_bound(s: Seq<AuthorView>, x: AuthorView, bound: Seq<char>)
    requires
        forall|i: int| 0 <= i < s.len() ==> lex_le((#[trigger] s[i]).name, bound),
        lex_le(x.name, bound),
    ensures
        forall|i: int|
            0 <= i < insert_sorted_authors(s, x).len() ==> lex_le(
                (#[trigger] insert_sorted_authors(s, x)[i]).name,
                bound,
            ),
    decreases s.len(),
{
    if s.len() == 0 {
    } else if lex_le(s.last().name, x.name) {
        let r = s.push(x);
        assert forall|i: int| 0 <= i < r.len() implies lex_le(r[i].name, bound) by {
            if i < s.len() {
                assert(lex_le(s[i].name, bound));
            }
        }
    } else {
        assert forall|i: int|
            0 <= i < s.drop_last().len() implies lex_le(
            (#[trigger] s.drop_last()[i]).name,
            bound,
        ) by {
            assert(lex_le(s[i].name, bound));
        }
        lemma_insert_sorted_authors_key_bound(s.drop_last(), x, bound);
        let inner = insert_sorted_authors(s.drop_last(), x);
        let r = inner.push(s.last());
        assert forall|i: int| 0 <= i < r.len() implies lex_le(r[i].name, bound) by {
            if i < inner.len() {
                assert(lex_le(inner[i].name, bound));
            } else {
                assert(lex_le(s[s.len() - 1].name, bound));
            }
        }
    }
}

proof fn lemma_insert_sorted_authors_sorted(s: Seq<AuthorView>, x: AuthorView)
    requires
        authors_sorted(s),
    ensures
        authors_sorted(insert_sorted_authors(s, x)),
    decreases s.len(),
{
    if s.len() == 0 {
    } else if lex_le(s.last().name, x.name) {
        let r = s.push(x);
        assert forall|i: int, j: int| 0 <= i < j < r.len() implies #[trigger] lex_le(
            r[i].name,
            r[j].name,
        ) by {
            if j == r.len() - 1 && i < s.len() - 1 {
                lemma_lex_le_trans(s[i].name, s.last().name, x.name);
            }
        }
    } else {
        lemma_lex_le_total(s.last().name, x.name);
        let inner = insert_sorted_authors(s.drop_last(), x);
        lemma_insert_sorted_authors_sorted(s.drop_last(), x);
        assert forall|i: int|
            0 <= i < s.drop_last().len() implies lex_le(
            (#[trigger] s.drop_last()[i]).name,
            s.last().name,
        ) by {
            assert(lex_le(s[i].name, s.last().name));
        }
        lemma_insert_sorted_authors_key_bound(s.drop_last(), x, s.last().name);
        let r = inner.push(s.last());
        assert forall|i: int, j: int| 0 <= i < j < r.len() implies #[trigger] lex_le(
            r[i].name,
            r[j].name,
        ) by {
            if j == r.len() - 1 {
                assert(lex_le(inner[i].name, s.last().name));
            }
        }
    }
}

/// The page listing of authors is sorted by name, ascending.
pub proof fn lemma_sort_authors_sorted(s: Seq<AuthorView>)
    ensures
        authors_sorted(sort_authors(s)),
    decreases s.len(),
{
    if s.len() != 0 {
        lemma_sort_authors_sorted(s.drop_last());
        lemma_insert_sorted_authors_sorted(sort_authors(s.drop_last()), s.last());
    }
}

fn insert_author_dto_sorted(v: &mut Vec<AuthorDTO>, x: AuthorDTO)
    ensures
        final (v).deep_view() == insert_sorted_authors(old(v).deep_view(), x@),
{
    let ghost xg: AuthorDTO = x;
    let mut pos: usize = v.len();
    while pos > 0 && !str_le(v[pos - 1].name.as_str(), x.name.as_str())
        invariant
            pos <= v@.len(),
            *v == *old(v),
            xg == x,
            forall|j: int|
                pos <= j < v@.len() ==> !lex_le((#[trigger] v.deep_view()[j]).name, x@.name),
        decreases pos,
    {
        proof {
            assert(v.deep_view()[pos - 1] == v@[pos - 1]@);
        }
        pos = pos - 1;
    }
    proof {
        lemma_insert_sorted_authors_split(v.deep_view(), xg@, pos as int);
    }
    let ghost pre = *v;
    v.insert(pos, x);
    proof {
        lemma_deep_view_insert(pre, *v, pos as int, xg);
        assert(pre.deep_view().insert(pos as int, xg@) =~= pre.deep_view().subrange(0, pos as int)
            + seq![xg@] + pre.deep_view().subrange(pos as int, pre.deep_view().len() as int));
    }
}

/// All author records sorted stably by name: the listing order of the authors
/// page.
pub fn sort_author_dtos(v: Vec<AuthorDTO>) -> (r: Vec<AuthorDTO>)
    ensures
        r.deep_view() == sort_authors(v.deep_view()),
{
    let mut r: Vec<AuthorDTO> = Vec::new();
    let mut i: usize = 0;
    proof {
        assert(v.deep_view().take(0) =~= Seq::<AuthorView>::empty());
    }
    while i < v.len()
        invariant
            i <= v@.len(),
            r.deep_view() == sort_authors(v.deep_view().take(i as int)),
        decreases v@.len() - i,
    {
        insert_author_dto_sorted(&mut r, v[i].clone());
        proof {
            assert(v.deep_view().take(i + 1).drop_last() =~= v.deep_view().take(i as int));
            assert(v.deep_view().take(i + 1).last() == v.deep_view()[i as int]);
        }
        i = i + 1;
    }
    proof {
        assert(v.deep_view().take(v@.len() as int) =~= v.deep_view());
    }
    r
}

} // verus!
