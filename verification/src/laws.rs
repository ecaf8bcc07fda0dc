//! Laws of the data-access layer, proved over the transition functions of
//! `crate::model` that the executable operations are contracted to follow.

use vstd::prelude::*;

use crate::error::StorageError;
use crate::model::{
    add_association, attach_tags, find_author_by_name, find_quote_by_id, find_tag_match,
    lemma_find_quote_by_id_none, lemma_find_tag_match_member, lemma_remove_quote_rows_mem,
    remove_quote_rows, resolve_author, resolve_tag, spec_create_quote, spec_delete_quote,
    spec_get_quote,
};
use crate::text::{is_substring, lemma_is_substring_refl, lower_of};
use crate::views::{AuthorView, QuoteCreateView, StoreView, TagView};

verus! {

proof fn lemma_find_author_by_name_push(authors: Seq<AuthorView>, a: AuthorView, name: Seq<char>)
    ensures
        find_author_by_name(authors.push(a), name) == (match find_author_by_name(authors, name) {
            Some(x) => Some(x),
            None => if a.name == name {
                Some(a)
            } else {
                None
            },
        }),
    decreases authors.len(),
{
    if authors.len() == 0 {
        assert(authors.push(a)[0] == a);
        assert(authors.push(a).drop_first() =~= Seq::empty());
    } else {
        assert(authors.push(a)[0] == authors[0]);
        assert(authors.push(a).drop_first() =~= authors.drop_first().push(a));
        lemma_find_author_by_name_push(authors.drop_first(), a, name);
    }
}

proof fn lemma_find_tag_match_push(tags: Seq<TagView>, t: TagView, text: Seq<char>)
    ensures
        find_tag_match(tags.push(t), text) == (match find_tag_match(tags, text) {
            Some(x) => Some(x),
            None => if is_substring(text, t.tag) {
                Some(t)
            } else {
                None
            },
        }),
    decreases tags.len(),
{
    if tags.len() == 0 {
        assert(tags.push(t)[0] == t);
        assert(tags.push(t).drop_first() =~= Seq::empty());
    } else {
        assert(tags.push(t)[0] == tags[0]);
        assert(tags.push(t).drop_first() =~= tags.drop_first().push(t));
        lemma_find_tag_match_push(tags.drop_first(), t, text);
    }
}

proof fn lemma_find_tag_match_some(tags: Seq<TagView>, text: Seq<char>)
    requires
        exists|i: int| 0 <= i < tags.len() && is_substring(text, (#[trigger] tags[i]).tag),
    ensures
        find_tag_match(tags, text) is Some,
    decreases tags.len(),
{
    let w = choose|w: int| 0 <= w < tags.len() && is_substring(text, (#[trigger] tags[w]).tag);
    if !is_substring(text, tags[0].tag) {
        assert(is_substring(text, tags.drop_first()[w - 1].tag));
        lemma_find_tag_match_some(tags.drop_first(), text);
    }
}

/// Get-or-create of an author is idempotent under case variation: after one
/// resolution succeeds, a second resolution of any name that lowercases to
/// the same text returns the very same author record and leaves the store
/// unchanged.
pub proof fn law_get_or_create_author_idempotent(
    s: StoreView,
    name1: Seq<char>,
    name2: Seq<char>,
)
    requires
        lower_of(name1) == lower_of(name2),
    ensures
        resolve_author(s, lower_of(name1)) matches Ok(p) ==> resolve_author(p.0, lower_of(name2))
            == Ok::<(StoreView, AuthorView), StorageError>((p.0, p.1)),
{
    let n = lower_of(name1);
    match find_author_by_name(s.authors, n) {
        Some(_) => {
        },
        None => {
            if s.next_author_id < i32::MAX as int {
                let a = AuthorView { id: s.next_author_id, name: n };
                lemma_find_author_by_name_push(s.authors, a, n);
            }
        },
    }
}

/// Get-or-create of a tag is idempotent under case variation, in the same
/// sense as for authors.
pub proof fn law_get_or_create_tag_idempotent(s: StoreView, text1: Seq<char>, text2: Seq<char>)
    requires
        lower_of(text1) == lower_of(text2),
    ensures
        resolve_tag(s, lower_of(text1)) matches Ok(p) ==> resolve_tag(p.0, lower_of(text2)) == Ok::<
            (StoreView, TagView),
            StorageError,
        >((p.0, p.1)),
{
    let n = lower_of(text1);
    match find_tag_match(s.tags, n) {
        Some(_) => {
        },
        None => {
            if s.next_tag_id < i32::MAX as int {
                let t = TagView { id: s.next_tag_id, tag: n };
                lemma_is_substring_refl(n);
                lemma_find_tag_match_push(s.tags, t, n);
            }
        },
    }
}

/// A tag text whose lowercase form is a substring of an existing tag's text
/// resolves to an existing tag: the store is left unchanged, no duplicate is
/// created, and the resolved tag's text contains the query.
pub proof fn law_tag_substring_resolves_existing(s: StoreView, text: Seq<char>)
    requires
        exists|i: int|
            0 <= i < s.tags.len() && is_substring(lower_of(text), (#[trigger] s.tags[i]).tag),
    ensures
        resolve_tag(s, lower_of(text)) matches Ok(p) && p.0 == s && is_substring(
            lower_of(text),
            p.1.tag,
        ),
{
    lemma_find_tag_match_some(s.tags, lower_of(text));
    lemma_find_tag_match_member(s.tags, lower_of(text));
}

proof fn lemma_attach_tags_counts(
    s: StoreView,
    qid: int,
    texts: Seq<Seq<char>>,
    acc: Seq<TagView>,
)
    ensures
        attach_tags(s, qid, texts, acc) matches Ok(p) ==> {
            &&& p.1.len() == acc.len() + texts.len()
            &&& p.0.associations.len() == s.associations.len() + texts.len()
            &&& forall|k: int| 0 <= k < acc.len() ==> p.1[k] == acc[k]
            &&& forall|k: int|
                acc.len() <= k < p.1.len() ==> is_substring(
                    lower_of(texts[k - acc.len()]),
                    (#[trigger] p.1[k]).tag,
                )
        },
    decreases texts.len(),
{
    if texts.len() != 0 {
        match resolve_tag(s, lower_of(texts[0])) {
            Ok((s1, t)) => {
                lemma_find_tag_match_member(s.tags, lower_of(texts[0]));
                lemma_is_substring_refl(lower_of(texts[0]));
                assert(is_substring(lower_of(texts[0]), t.tag));
                match add_association(s1, qid, t.id) {
                    Ok(s2) => {
                        lemma_attach_tags_counts(s2, qid, texts.drop_first(), acc.push(t));
                        match attach_tags(s2, qid, texts.drop_first(), acc.push(t)) {
                            Ok(p) => {
                                assert forall|k: int| 0 <= k < acc.len() implies p.1[k] == acc[k] by {
                                    assert(p.1[k] == acc.push(t)[k]);
                                }
                                assert forall|k: int|
                                    acc.len() <= k < p.1.len() implies is_substring(
                                    lower_of(texts[k - acc.len()]),
                                    (#[trigger] p.1[k]).tag,
                                ) by {
                                    if k == acc.len() {
                                        assert(p.1[k] == acc.push(t)[k]);
                                    } else {
                                        assert(is_substring(
                                            lower_of(texts.drop_first()[k - acc.push(t).len()]),
                                            p.1[k].tag,
                                        ));
                                        assert(texts.drop_first()[k - acc.len() - 1] == texts[k
                                            - acc.len()]);
                                    }
                                }
                            },
                            Err(_) => {},
                        }
                    },
                    Err(_) => {},
                }
            },
            Err(_) => {},
        }
    }
}

/// A successful quote submission with `n` tag texts adds exactly `n`
/// association rows, and the returned record lists exactly `n` resolved tags
/// in input order, the k-th resolved tag's text containing the k-th submitted
/// text, lowercased.
pub proof fn law_create_quote_tag_counts(s: StoreView, q: QuoteCreateView)
    ensures
        spec_create_quote(s, q) matches Ok(p) ==> {
            &&& p.0.associations.len() == s.associations.len() + q.related_tags.len()
            &&& p.1.related_tags.len() == q.related_tags.len()
            &&& forall|k: int|
                0 <= k < q.related_tags.len() ==> is_substring(
                    lower_of(q.related_tags[k]),
                    (#[trigger] p.1.related_tags[k]).tag,
                )
        },
{
    match resolve_author(s, lower_of(q.author_name)) {
        Ok((s1, _)) => {
            assert(s1.associations == s.associations);
            if s1.next_quote_id < i32::MAX as int {
                lemma_attach_tags_counts(
                    StoreView {
                        quotes: s1.quotes.push(
                            crate::views::QuoteRowView {
                                id: s1.next_quote_id,
                                quote: q.quote,
                                author_id: resolve_author(s, lower_of(q.author_name))->Ok_0.1.id,
                            },
                        ),
                        next_quote_id: s1.next_quote_id + 1,
                        ..s1
                    },
                    s1.next_quote_id,
                    q.related_tags,
                    Seq::empty(),
                );
            }
        },
        Err(_) => {},
    }
}

/// Deleting a quote then fetching it by id yields the not-found sentinel; and
/// deleting an id that no quote carries changes nothing, without an error.
pub proof fn law_delete_quote_then_get(s: StoreView, id: int)
    ensures
        spec_get_quote(spec_delete_quote(s, id), id) is None,
        find_quote_by_id(s.quotes, id) is None ==> spec_delete_quote(s, id) == s,
{
    lemma_remove_quote_rows_mem(s.quotes, id);
    lemma_find_quote_by_id_none(remove_quote_rows(s.quotes, id), id);
    if find_quote_by_id(s.quotes, id) is None {
        lemma_find_quote_by_id_no_match(s.quotes, id);
        lemma_remove_quote_rows_noop(s.quotes, id);
        assert(spec_delete_quote(s, id) =~= s);
    }
}

proof fn lemma_find_quote_by_id_no_match(quotes: Seq<crate::views::QuoteRowView>, id: int)
    requires
        find_quote_by_id(quotes, id) is None,
    ensures
        forall|i: int| 0 <= i < quotes.len() ==> (#[trigger] quotes[i]).id != id,
    decreases quotes.len(),
{
    if quotes.len() != 0 {
        lemma_find_quote_by_id_no_match(quotes.drop_first(), id);
        assert forall|i: int| 0 <= i < quotes.len() implies (#[trigger] quotes[i]).id != id by {
            if i > 0 {
                assert(quotes.drop_first()[i - 1].id != id);
            }
        }
    }
}

proof fn lemma_remove_quote_rows_noop(quotes: Seq<crate::views::QuoteRowView>, id: int)
    requires
        forall|i: int| 0 <= i < quotes.len() ==> (#[trigger] quotes[i]).id != id,
    ensures
        remove_quote_rows(quotes, id) == quotes,
    decreases quotes.len(),
{
    if quotes.len() != 0 {
        lemma_remove_quote_rows_noop(quotes.drop_last(), id);
        assert(remove_quote_rows(quotes, id) =~= quotes);
    }
}

} // verus!
