//! The dictionary viewer: entries sorted by key, filtered by a search text
//! and cut into pages, and the bulk replacement of translations.
use vstd::prelude::*;
use crate::gui::DictionaryPageData;
use crate::text::{chars_eq, chars_of, contains_chars, occurs_in, replace_all, replace_all_chars, spec_to_lowercase, string_of, to_lowercase};
use crate::translation::api::client::{pair_views, sort_by_original, sort_terms};
use crate::translation::glossary::mc_lang::{lang_view, LangMap};

verus! {

// ---------------------------------------------------------------------------
// Pages
// ---------------------------------------------------------------------------

/// Whether an entry is kept by a search: every entry is for an empty
/// search, else one whose key or value holds the search text.
pub open spec fn entry_matches(e: (Seq<char>, Seq<char>), search: Seq<char>) -> bool {
    search.len() == 0 || occurs_in(search, e.0) || occurs_in(search, e.1)
}

/// The entries a search keeps, in order.
pub open spec fn filter_entries(es: LangMap, search: Seq<char>) -> LangMap
    decreases es.len(),
{
    if es.len() == 0 {
        Seq::empty()
    } else if entry_matches(es.last(), search) {
        filter_entries(es.drop_last(), search).push(es.last())
    } else {
        filter_entries(es.drop_last(), search)
    }
}

/// Whether an entry is kept by a search in the viewer: as above, with key
/// and value lowercased (the search text comes lowercased).
pub open spec fn entry_matches_lower(e: (Seq<char>, Seq<char>), search: Seq<char>) -> bool {
    search.len() == 0 || occurs_in(search, spec_to_lowercase(e.0)) || occurs_in(search, spec_to_lowercase(e.1))
}

/// The entries the viewer's search keeps, in order.
pub open spec fn filter_entries_lower(es: LangMap, search: Seq<char>) -> LangMap
    decreases es.len(),
{
    if es.len() == 0 {
        Seq::empty()
    } else if entry_matches_lower(es.last(), search) {
        filter_entries_lower(es.drop_last(), search).push(es.last())
    } else {
        filter_entries_lower(es.drop_last(), search)
    }
}

/// `a / b` rounded up (`usize::div_ceil`), for `b > 0`.
pub open spec fn ceil_div(a: nat, b: nat) -> nat {
    if a % b == 0 {
        a / b
    } else {
        a / b + 1
    }
}

/// The page size a query uses: the asked one, 10 for none.
pub open spec fn query_page_size(page_size: usize) -> nat {
    if page_size == 0 {
        10
    } else {
        page_size as nat
    }
}

/// The entries of a query's page and the number of pages: the entries
/// sorted by key, those the search keeps, cut into pages of
/// `query_page_size`; a page past the end is empty.
pub open spec fn spec_query_page(entries: LangMap, search: Seq<char>, page: nat, page_size: usize) -> (LangMap, nat) {
    let items = filter_entries(sort_by_original(entries), search);
    let size = query_page_size(page_size);
    let pages = ceil_div(items.len(), size);
    let start = page * size;
    if start >= items.len() {
        (Seq::empty(), pages)
    } else {
        let end = if start + size < items.len() {
            start + size
        } else {
            items.len()
        };
        (items.subrange(start as int, end as int), pages)
    }
}

/// The entries as sequence pairs, and back.
fn to_chars(entries: &Vec<(String, String)>) -> (r: Vec<(Vec<char>, Vec<char>)>)
    ensures
        pair_views(r@) == lang_view(entries@),
{
    let mut r: Vec<(Vec<char>, Vec<char>)> = Vec::new();
    let mut i: usize = 0;
    while i < entries.len()
        invariant
            i <= entries@.len(),
            pair_views(r@) == lang_view(entries@).take(i as int),
        decreases entries.len() - i,
    {
        let ghost before = pair_views(r@);
        let k = chars_of(entries[i].0.as_str());
        let v = chars_of(entries[i].1.as_str());
        assert((k@, v@) == lang_view(entries@)[i as int]);
        r.push((k, v));
        assert(pair_views(r@) =~= before.push((k@, v@)));
        assert(lang_view(entries@).take(i + 1) =~= lang_view(entries@).take(i as int).push(lang_view(entries@)[i as int]));
        i = i + 1;
    }
    assert(lang_view(entries@).take(entries@.len() as int) =~= lang_view(entries@));
    r
}

fn to_strings(v: &Vec<(Vec<char>, Vec<char>)>, from: usize, to: usize) -> (r: Vec<(String, String)>)
    requires
        from <= to <= v@.len(),
    ensures
        lang_view(r@) == pair_views(v@).subrange(from as int, to as int),
{
    let mut r: Vec<(String, String)> = Vec::new();
    let mut i: usize = from;
    while i < to
        invariant
            from <= i <= to <= v@.len(),
            lang_view(r@) == pair_views(v@).subrange(from as int, i as int),
        decreases to - i,
    {
        let ghost before = lang_view(r@);
        let a = string_of(&v[i].0);
        let b = string_of(&v[i].1);
        assert((a@, b@) == pair_views(v@)[i as int]);
        r.push((a, b));
        assert(lang_view(r@) =~= before.push((a@, b@)));
        assert(pair_views(v@).subrange(from as int, i + 1) =~= pair_views(v@).subrange(from as int, i as int).push(
            pair_views(v@)[i as int],
        ));
        i = i + 1;
    }
    r
}

/// The entries the search keeps (see `filter_entries`); `lower` makes it
/// the viewer's search (see `filter_entries_lower`).
fn filter_exec(v: &Vec<(Vec<char>, Vec<char>)>, search: &Vec<char>, lower: bool) -> (r: Vec<(Vec<char>, Vec<char>)>)
    ensures
        pair_views(r@) == (if lower {
            filter_entries_lower(pair_views(v@), search@)
        } else {
            filter_entries(pair_views(v@), search@)
        }),
{
    let ghost pv = pair_views(v@);
    let mut r: Vec<(Vec<char>, Vec<char>)> = Vec::new();
    let mut i: usize = 0;
    assert(pv.take(0) =~= Seq::<(Seq<char>, Seq<char>)>::empty());
    while i < v.len()
        invariant
            pv == pair_views(v@),
            i <= v@.len(),
            pair_views(r@) == (if lower {
                filter_entries_lower(pv.take(i as int), search@)
            } else {
                filter_entries(pv.take(i as int), search@)
            }),
        decreases v.len() - i,
    {
        assert(pv.take(i + 1).drop_last() =~= pv.take(i as int));
        assert(pv.take(i + 1).last() == (v@[i as int].0@, v@[i as int].1@));
        let keep = if search.len() == 0 {
            true
        } else if lower {
            let k = chars_of(to_lowercase(string_of(&v[i].0).as_str()).as_str());
            let val = chars_of(to_lowercase(string_of(&v[i].1).as_str()).as_str());
            contains_chars(&k, search) || contains_chars(&val, search)
        } else {
            contains_chars(&v[i].0, search) || contains_chars(&v[i].1, search)
        };
        if keep {
            let ghost before = pair_views(r@);
            let e = (copy_chars(&v[i].0), copy_chars(&v[i].1));
            r.push(e);
            assert(pair_views(r@) =~= before.push(pv[i as int]));
        }
        i = i + 1;
    }
    assert(pv.take(v@.len() as int) =~= pv);
    r
}

fn copy_chars(v: &Vec<char>) -> (r: Vec<char>)
    ensures
        r@ == v@,
{
    let mut r: Vec<char> = Vec::new();
    let mut i: usize = 0;
    while i < v.len()
        invariant
            i <= v@.len(),
            r@ == v@.take(i as int),
        decreases v.len() - i,
    {
        r.push(v[i]);
        i = i + 1;
        assert(r@ =~= v@.take(i as int));
    }
    assert(v@.take(v@.len() as int) =~= v@);
    r
}

/// `a / b` rounded up, for `b > 0`.
fn ceil_div_exec(a: usize, b: usize) -> (r: usize)
    requires
        b > 0,
    ensures
        r == ceil_div(a as nat, b as nat),
{
    if a % b == 0 {
        a / b
    } else {
        assert(b != 1) by (nonlinear_arith)
            requires
                a % b != 0,
        ;
        assert(a / b < usize::MAX) by (nonlinear_arith)
            requires
                b >= 2,
                a <= usize::MAX,
        ;
        a / b + 1
    }
}

/// A page of a dictionary query (see `spec_query_page`): the page's
/// entries, the number of pages, the page asked for and the page size used.
pub fn query_dictionary(entries: &Vec<(String, String)>, search_key: &str, page: usize, page_size: usize) -> (r: DictionaryPageData)
    ensures
        lang_view(r.items@) == spec_query_page(lang_view(entries@), search_key@, page as nat, page_size).0,
        r.total_pages == spec_query_page(lang_view(entries@), search_key@, page as nat, page_size).1,
        r.page == page,
        r.page_size == query_page_size(page_size),
{
    let sorted = sort_terms(to_chars(entries));
    let items = filter_exec(&sorted, &chars_of(search_key), false);
    let size: usize = if page_size == 0 {
        10
    } else {
        page_size
    };
    let total = items.len();
    let pages = ceil_div_exec(total, size);
    let out = match page.checked_mul(size) {
        Some(start) => {
            if start >= total {
                Vec::new()
            } else {
                let end = if size < total - start {
                    start + size
                } else {
                    total
                };
                to_strings(&items, start, end)
            }
        },
        None => Vec::new(),
    };
    proof {
        if lang_view(out@).len() == 0 {
            assert(lang_view(out@) =~= Seq::<(Seq<char>, Seq<char>)>::empty());
        }
    }
    DictionaryPageData { items: out, total_pages: pages, page, page_size: size }
}

/// The number of entries on a page of the viewer.
pub const VIEWER_PAGE_SIZE: usize = 50;

/// A page of the viewer: the entries the lowercased search keeps, sorted
/// by key; at least one page; a page past the end shows the first.
pub open spec fn spec_viewer_page(entries: LangMap, search_lower: Seq<char>, page: nat) -> (LangMap, nat, nat) {
    let items = sort_by_original(filter_entries_lower(entries, search_lower));
    let c = ceil_div(items.len(), 50);
    let pages = if c > 1 {
        c
    } else {
        1
    };
    let p = if page >= pages {
        0
    } else {
        page
    };
    let start = if p * 50 < items.len() {
        p * 50
    } else {
        items.len()
    };
    let end = if start + 50 < items.len() {
        start + 50
    } else {
        items.len()
    };
    (items.subrange(start as int, end as int), pages, p)
}

/// A page of the dictionary viewer (see `spec_viewer_page`), the search
/// text lowercased first.
pub fn viewer_page(entries: &Vec<(String, String)>, search: &str, page: usize) -> (r: DictionaryPageData)
    ensures
        lang_view(r.items@) == spec_viewer_page(lang_view(entries@), spec_to_lowercase(search@), page as nat).0,
        r.total_pages == spec_viewer_page(lang_view(entries@), spec_to_lowercase(search@), page as nat).1,
        r.page == spec_viewer_page(lang_view(entries@), spec_to_lowercase(search@), page as nat).2,
        r.page_size == VIEWER_PAGE_SIZE,
{
    let lower = chars_of(to_lowercase(search).as_str());
    let filtered = filter_exec(&to_chars(entries), &lower, true);
    let items = sort_terms(filtered);
    let total = items.len();
    let c = ceil_div_exec(total, 50);
    let pages = if c > 1 {
        c
    } else {
        1
    };
    let p = if page >= pages {
        0
    } else {
        page
    };
    proof {
        if pages > 1 {
            assert(p <= total / 50);
        }
        assert(p * 50 <= total) by (nonlinear_arith)
            requires
                p <= total / 50 || p == 0,
        ;
    }
    let start = if p * 50 < total {
        p * 50
    } else {
        total
    };
    let end = if 50 < total - start {
        start + 50
    } else {
        total
    };
    DictionaryPageData { items: to_strings(&items, start, end), total_pages: pages, page: p, page_size: VIEWER_PAGE_SIZE }
}

// ---------------------------------------------------------------------------
// Bulk replacement
// ---------------------------------------------------------------------------

/// The new translation a replacement makes of `v`, if it changes it: the
/// new text for an exact match (when only whole translations are replaced),
/// else `v` with every occurrence of the target replaced, when it has one.
pub open spec fn replaced_value(v: Seq<char>, target: Seq<char>, new_value: Seq<char>, exact: bool) -> Option<Seq<char>> {
    if exact {
        if v == target {
            Some(new_value)
        } else {
            None
        }
    } else if occurs_in(target, v) {
        Some(replace_all(v, target, new_value))
    } else {
        None
    }
}

/// The entries a replacement leaves alone, and the entries it changes with
/// their new translations, each in order.
pub open spec fn split_replaced(es: LangMap, target: Seq<char>, new_value: Seq<char>, exact: bool) -> (LangMap, LangMap)
    decreases es.len(),
{
    if es.len() == 0 {
        (Seq::empty(), Seq::empty())
    } else {
        let (kept, changed) = split_replaced(es.drop_last(), target, new_value, exact);
        match replaced_value(es.last().1, target, new_value, exact) {
            Some(v) => (kept, changed.push((es.last().0, v))),
            None => (kept.push(es.last()), changed),
        }
    }
}

/// A bulk replacement in a dictionary: the entries it leaves alone and
/// those it changes, with their new translations (see `replaced_value`).
/// An empty target changes nothing.
pub fn replace_translations(entries: &Vec<(String, String)>, target: &str, new_value: &str, exact: bool) -> (r: (
    Vec<(String, String)>,
    Vec<(String, String)>,
))
    ensures
        target@.len() == 0 ==> lang_view(r.0@) == lang_view(entries@) && r.1@.len() == 0,
        target@.len() > 0 ==> (lang_view(r.0@), lang_view(r.1@)) == split_replaced(
            lang_view(entries@),
            target@,
            new_value@,
            exact,
        ),
{
    let t = chars_of(target);
    let n = chars_of(new_value);
    let ghost ev = lang_view(entries@);
    let mut kept: Vec<(String, String)> = Vec::new();
    let mut changed: Vec<(String, String)> = Vec::new();
    if t.len() == 0 {
        let mut i: usize = 0;
        while i < entries.len()
            invariant
                ev == lang_view(entries@),
                i <= entries@.len(),
                lang_view(kept@) == ev.take(i as int),
            decreases entries.len() - i,
        {
            let ghost before = lang_view(kept@);
            let a = entries[i].0.clone();
            let b = entries[i].1.clone();
            assert((a@, b@) == ev[i as int]);
            kept.push((a, b));
            assert(lang_view(kept@) =~= before.push(ev[i as int]));
            assert(ev.take(i + 1) =~= ev.take(i as int).push(ev[i as int]));
            i = i + 1;
        }
        assert(ev.take(entries@.len() as int) =~= ev);
        return (kept, changed);
    }
    let mut i: usize = 0;
    assert(ev.take(0) =~= Seq::<(Seq<char>, Seq<char>)>::empty());
    while i < entries.len()
        invariant
            ev == lang_view(entries@),
            t@ == target@,
            n@ == new_value@,
            t@.len() > 0,
            i <= entries@.len(),
            (lang_view(kept@), lang_view(changed@)) == split_replaced(ev.take(i as int), t@, n@, exact),
        decreases entries.len() - i,
    {
        assert(ev.take(i + 1).drop_last() =~= ev.take(i as int));
        assert(ev.take(i + 1).last() == ev[i as int]);
        let v = chars_of(entries[i].1.as_str());
        let new_v: Option<Vec<char>> = if exact {
            if chars_eq(&v, &t) {
                Some(chars_of(new_value))
            } else {
                None
            }
        } else if contains_chars(&v, &t) {
            Some(replace_all_chars(&v, &t, &n))
        } else {
            None
        };
        let ghost kb = lang_view(kept@);
        let ghost cb = lang_view(changed@);
        match new_v {
            Some(nv) => {
                changed.push((entries[i].0.clone(), string_of(&nv)));
                assert(lang_view(changed@) =~= cb.push((ev[i as int].0, nv@)));
            },
            None => {
                kept.push((entries[i].0.clone(), entries[i].1.clone()));
                assert(lang_view(kept@) =~= kb.push(ev[i as int]));
            },
        }
        i = i + 1;
    }
    assert(ev.take(entries@.len() as int) =~= ev);
    (kept, changed)
}

} // verus!
