//! How the files of a run are ordered and grouped. An archive forms a group
//! of its own; any other file joins the group of its folder. Groups run in
//! the order of their keys (paths compared component by component), files
//! keep their order within a group, and the texts of a run follow their
//! files.
use vstd::prelude::*;
use crate::file::pipeline::{eq_ignore_ascii_case, eq_ignore_ascii_case_exec};
use crate::file::paths::{dir_of, is_plain_path, last_segment, lemma_plain_parts, path_components, path_file_name, path_parent, split_slash};
use crate::translation::batching::strings_view;
use crate::text::{chars_eq, chars_less, chars_lt, chars_of, last_index_of, last_index_of_exec};
use crate::translation::batching::GlobalBatchItem;

verus! {

// ---------------------------------------------------------------------------
// Group keys
// ---------------------------------------------------------------------------

/// The extension of a file name as `Path::extension` documents it: the part
/// after the last dot, none when there is no dot or the only dot begins the
/// name.
pub open spec fn file_extension(name: Seq<char>) -> Option<Seq<char>> {
    match last_index_of(name, '.') {
        Some(i) => if i == 0 {
            None
        } else {
            Some(name.skip(i + 1))
        },
        None => None,
    }
}

/// The extension of a file name (see `file_extension`).
pub fn extension_of(name: &Vec<char>) -> (r: Option<Vec<char>>)
    ensures
        r matches Some(e) ==> file_extension(name@) == Some(e@),
        r is None ==> file_extension(name@) is None,
{
    let n: usize = name.len();
    let i: usize = match last_index_of_exec(name, '.') {
        Some(p) => {
            assert(p < n);
            p + 1
        },
        None => {
            return None;
        },
    };
    if i == 1 {
        return None;
    }
    let mut e: Vec<char> = Vec::new();
    let mut j: usize = i;
    while j < name.len()
        invariant
            i <= j <= name@.len(),
            e@ == name@.subrange(i as int, j as int),
        decreases name.len() - j,
    {
        e.push(name[j]);
        j = j + 1;
        assert(e@ =~= name@.subrange(i as int, j as int));
    }
    assert(name@.subrange(i as int, name@.len() as int) =~= name@.skip(i as int));
    Some(e)
}

/// Whether a file name is that of an archive: its extension is `jar`, in
/// any ASCII case.
pub open spec fn is_jar_name(name: Option<Seq<char>>) -> bool {
    match name {
        Some(n) => match file_extension(n) {
            Some(e) => eq_ignore_ascii_case(e, "jar"@),
            None => false,
        },
        None => false,
    }
}

/// The path whose components key a file's group: the file itself for an
/// archive, else its folder (the path itself when it has none).
pub open spec fn spec_group_key_path(
    path: Seq<char>,
    file_name: Option<Seq<char>>,
    parent: Option<Seq<char>>,
) -> Seq<char> {
    if is_jar_name(file_name) {
        path
    } else {
        match parent {
            Some(d) => d,
            None => path,
        }
    }
}

/// An optional text as characters.
pub open spec fn opt_view(o: Option<String>) -> Option<Seq<char>> {
    match o {
        Some(s) => Some(s@),
        None => None,
    }
}

/// The path that keys a file's group, given the path's file name and folder
/// (see `spec_group_key_path`).
pub fn group_key_path(path: &str, file_name: Option<String>, parent: Option<String>) -> (r: String)
    ensures
        r@ == spec_group_key_path(path@, opt_view(file_name), opt_view(parent)),
{
    let jar = match &file_name {
        Some(n) => match extension_of(&chars_of(n.as_str())) {
            Some(e) => eq_ignore_ascii_case_exec(&e, &chars_of("jar")),
            None => false,
        },
        None => false,
    };
    if jar {
        path.to_owned()
    } else {
        match parent {
            Some(d) => d,
            None => path.to_owned(),
        }
    }
}

/// The key of a file's group: the components of its group path (see
/// `spec_group_key_path`), with the file name and folder as std splits the
/// path. A group path with text has a key with components; for a plain
/// path the key is its names (without the file's own name, unless it is an
/// archive).
pub fn group_key(path: &str) -> (r: Vec<String>)
    ensures
        exists|name: Option<Seq<char>>, parent: Option<Seq<char>>|
            #![trigger spec_group_key_path(path@, name, parent)]
            (path@.len() == 0 ==> parent is None) && (r@.len() == 0 <==> spec_group_key_path(path@, name, parent).len()
                == 0),
        is_plain_path(path@) ==> key_view(r) == (if is_jar_name(Some(last_segment(path@))) {
            split_slash(path@)
        } else {
            split_slash(path@).drop_last()
        }),
{
    let name = path_file_name(path);
    let parent = path_parent(path);
    let ghost nv = opt_view(name);
    let ghost pv = opt_view(parent);
    let key = group_key_path(path, name, parent);
    let r = path_components(key.as_str());
    assert(spec_group_key_path(path@, nv, pv) == key@);
    proof {
        assert(key_view(r) =~= strings_view(r@));
        if is_plain_path(path@) {
            lemma_plain_parts(path@);
            if !is_jar_name(Some(last_segment(path@))) {
                assert(key@ == dir_of(path@));
                if last_index_of(path@, '/') is None {
                    assert(split_slash(path@).drop_last() =~= Seq::<Seq<char>>::empty());
                    assert(r@.len() == 0);
                    assert(key_view(r) =~= Seq::<Seq<char>>::empty());
                }
            }
        }
    }
    r
}

// ---------------------------------------------------------------------------
// The order of groups
// ---------------------------------------------------------------------------

/// Keys as sequences of texts.
pub open spec fn key_view(k: Vec<String>) -> Seq<Seq<char>> {
    k@.map_values(|s: String| s@)
}

/// The keys of a list as sequences of texts.
pub open spec fn key_views(keys: Seq<Vec<String>>) -> Seq<Seq<Seq<char>>> {
    keys.map_values(|k: Vec<String>| key_view(k))
}

/// `a < b` component by component, the order of `Path` on paths made of
/// plain components.
pub open spec fn key_lt(a: Seq<Seq<char>>, b: Seq<Seq<char>>) -> bool
    decreases a.len(),
{
    if a.len() == 0 {
        b.len() > 0
    } else if b.len() == 0 {
        false
    } else if chars_lt(a[0], b[0]) {
        true
    } else if a[0] == b[0] {
        key_lt(a.drop_first(), b.drop_first())
    } else {
        false
    }
}

/// `a < b` as keys (see `key_lt`).
pub fn key_less(a: &Vec<String>, b: &Vec<String>) -> (r: bool)
    ensures
        r == key_lt(key_view(*a), key_view(*b)),
{
    let ghost av = key_view(*a);
    let ghost bv = key_view(*b);
    let mut i: usize = 0;
    assert(av.skip(0) =~= av);
    assert(bv.skip(0) =~= bv);
    while i < a.len() && i < b.len()
        invariant
            av == key_view(*a),
            bv == key_view(*b),
            i <= a.len(),
            i <= b.len(),
            key_lt(av, bv) == key_lt(av.skip(i as int), bv.skip(i as int)),
        decreases a.len() - i,
    {
        let x = chars_of(a[i].as_str());
        let y = chars_of(b[i].as_str());
        assert(av.skip(i as int)[0] == x@);
        assert(bv.skip(i as int)[0] == y@);
        if chars_less(&x, &y) {
            return true;
        }
        if !chars_eq(&x, &y) {
            return false;
        }
        assert(av.skip(i as int).drop_first() =~= av.skip(i + 1));
        assert(bv.skip(i as int).drop_first() =~= bv.skip(i + 1));
        i = i + 1;
    }
    i == a.len() && i < b.len()
}

/// Whether two keys are equal.
pub fn key_equal(a: &Vec<String>, b: &Vec<String>) -> (r: bool)
    ensures
        r == (key_view(*a) == key_view(*b)),
{
    if a.len() != b.len() {
        assert(key_view(*a).len() != key_view(*b).len());
        return false;
    }
    let mut i: usize = 0;
    while i < a.len()
        invariant
            a.len() == b.len(),
            i <= a.len(),
            forall|j: int| 0 <= j < i ==> key_view(*a)[j] == key_view(*b)[j],
        decreases a.len() - i,
    {
        if !chars_eq(&chars_of(a[i].as_str()), &chars_of(b[i].as_str())) {
            assert(key_view(*a)[i as int] != key_view(*b)[i as int]);
            return false;
        }
        i = i + 1;
    }
    assert(key_view(*a) =~= key_view(*b));
    true
}

/// `x` placed after the positions in `s` whose keys are not greater.
pub open spec fn insert_by_key(ks: Seq<Seq<Seq<char>>>, s: Seq<usize>, x: usize) -> Seq<usize>
    decreases s.len(),
{
    if s.len() == 0 {
        seq![x]
    } else if key_lt(ks[x as int], ks[s.last() as int]) {
        insert_by_key(ks, s.drop_last(), x).push(s.last())
    } else {
        s.push(x)
    }
}

/// The positions `0..n` ordered by their keys, equal keys keeping their
/// order (a stable sort).
pub open spec fn sorted_positions(ks: Seq<Seq<Seq<char>>>, n: nat) -> Seq<usize>
    decreases n,
{
    if n == 0 {
        Seq::empty()
    } else {
        insert_by_key(ks, sorted_positions(ks, (n - 1) as nat), (n - 1) as usize)
    }
}

proof fn lemma_insert_by_key_at(ks: Seq<Seq<Seq<char>>>, s: Seq<usize>, x: usize, p: int)
    requires
        0 <= p <= s.len(),
        forall|k: int| p <= k < s.len() ==> key_lt(ks[x as int], ks[(#[trigger] s[k]) as int]),
        p > 0 ==> !key_lt(ks[x as int], ks[s[p - 1] as int]),
    ensures
        insert_by_key(ks, s, x) == s.insert(p, x),
    decreases s.len() - p,
{
    if p == s.len() {
        if s.len() == 0 {
            assert(s.insert(p, x) =~= seq![x]);
        } else {
            assert(s.insert(p, x) =~= s.push(x));
        }
    } else {
        let d = s.drop_last();
        assert forall|k: int| p <= k < d.len() implies key_lt(ks[x as int], ks[(#[trigger] d[k]) as int]) by {
            assert(d[k] == s[k]);
        }
        if p > 0 {
            assert(d[p - 1] == s[p - 1]);
        }
        assert(key_lt(ks[x as int], ks[s[s.len() - 1] as int]));
        lemma_insert_by_key_at(ks, d, x, p);
        assert(d.insert(p, x).push(s.last()) =~= s.insert(p, x));
    }
}

/// The order in which the files of a run are taken up: their positions
/// sorted by group key, files with equal keys in their given order.
pub fn group_order(keys: &Vec<Vec<String>>) -> (r: Vec<usize>)
    ensures
        r@ == sorted_positions(key_views(keys@), keys@.len()),
{
    let ghost ks = key_views(keys@);
    let mut out: Vec<usize> = Vec::new();
    let mut i: usize = 0;
    while i < keys.len()
        invariant
            ks == key_views(keys@),
            i <= keys.len(),
            out@ == sorted_positions(ks, i as nat),
            forall|k: int| 0 <= k < out@.len() ==> (#[trigger] out@[k]) < i,
            out@.len() == i,
        decreases keys.len() - i,
    {
        let ghost o = out@;
        let mut p: usize = out.len();
        while p > 0 && key_less(&keys[i], &keys[out[p - 1]])
            invariant
                o == out@,
                ks == key_views(keys@),
                i < keys.len(),
                p <= out.len(),
                forall|k: int| 0 <= k < out@.len() ==> (#[trigger] out@[k]) < i,
                forall|k: int| p <= k < o.len() ==> key_lt(ks[i as int], ks[(#[trigger] o[k]) as int]),
            decreases p,
        {
            assert(ks[i as int] == key_view(keys@[i as int]));
            assert(ks[o[p - 1] as int] == key_view(keys@[o[p - 1] as int]));
            p = p - 1;
        }
        proof {
            if p > 0 {
                assert(ks[i as int] == key_view(keys@[i as int]));
                assert(ks[o[p - 1] as int] == key_view(keys@[o[p - 1] as int]));
            }
            lemma_insert_by_key_at(ks, o, i, p as int);
        }
        out.insert(p, i);
        proof {
            assert forall|k: int| 0 <= k < out@.len() implies (#[trigger] out@[k]) < i + 1 by {
                if k < p {
                    assert(out@[k] == o[k]);
                } else if k > p {
                    assert(out@[k] == o[k - 1]);
                }
            }
        }
        i = i + 1;
    }
    out
}

// ---------------------------------------------------------------------------
// Groups of equal keys
// ---------------------------------------------------------------------------

/// `ws` cuts the keys `ks` into the runs of equal keys: ranges one after the
/// other covering all of them, none empty, equal keys inside each, and a
/// different key where the next begins.
pub open spec fn runs_of_equal(ks: Seq<Seq<Seq<char>>>, ws: Seq<(usize, usize)>) -> bool {
    &&& (ws.len() == 0 <==> ks.len() == 0)
    &&& ws.len() > 0 ==> ws[0].0 == 0 && ws.last().1 == ks.len()
    &&& forall|k: int| 0 <= k < ws.len() ==> (#[trigger] ws[k]).0 < ws[k].1
    &&& forall|k: int| 0 <= k < ws.len() - 1 ==> (#[trigger] ws[k]).1 == ws[k + 1].0
    &&& forall|k: int, i: int|
        0 <= k < ws.len() && (#[trigger] ws[k]).0 <= i < ws[k].1 ==> #[trigger] ks[i] == ks[ws[k].0 as int]
    &&& forall|k: int| 0 <= k < ws.len() - 1 ==> ks[(#[trigger] ws[k + 1]).0 as int] != ks[ws[k].0 as int]
}

/// The runs of equal keys of a list of keys, as ranges of positions (see
/// `runs_of_equal`).
pub fn group_windows(keys: &Vec<Vec<String>>) -> (r: Vec<(usize, usize)>)
    ensures
        runs_of_equal(key_views(keys@), r@),
{
    let ghost ks = key_views(keys@);
    let mut r: Vec<(usize, usize)> = Vec::new();
    if keys.len() == 0 {
        return r;
    }
    let mut start: usize = 0;
    let mut i: usize = 1;
    while i < keys.len()
        invariant
            ks == key_views(keys@),
            0 <= start < i <= keys.len(),
            r@.len() == 0 <==> start == 0,
            r@.len() > 0 ==> r@[0].0 == 0 && r@.last().1 == start,
            forall|k: int| 0 <= k < r@.len() ==> (#[trigger] r@[k]).0 < r@[k].1,
            forall|k: int| 0 <= k < r@.len() - 1 ==> (#[trigger] r@[k]).1 == r@[k + 1].0,
            forall|k: int, j: int|
                0 <= k < r@.len() && (#[trigger] r@[k]).0 <= j < r@[k].1 ==> #[trigger] ks[j] == ks[r@[k].0 as int],
            forall|k: int| 0 <= k < r@.len() - 1 ==> ks[(#[trigger] r@[k + 1]).0 as int] != ks[r@[k].0 as int],
            r@.len() > 0 ==> ks[start as int] != ks[r@.last().0 as int],
            forall|j: int| start <= j < i ==> #[trigger] ks[j] == ks[start as int],
        decreases keys.len() - i,
    {
        assert(ks[i as int] == key_view(keys@[i as int]));
        assert(ks[start as int] == key_view(keys@[start as int]));
        if !key_equal(&keys[i], &keys[start]) {
            let ghost old_r = r@;
            r.push((start, i));
            proof {
                assert forall|k: int, j: int|
                    0 <= k < r@.len() && (#[trigger] r@[k]).0 <= j < r@[k].1 implies #[trigger] ks[j] == ks[r@[k].0 as int] by {
                    if k < old_r.len() {
                        assert(r@[k] == old_r[k]);
                    }
                }
                assert forall|k: int| 0 <= k < r@.len() - 1 implies ks[(#[trigger] r@[k + 1]).0 as int] != ks[r@[k].0 as int] by {
                    if k + 1 < old_r.len() {
                        assert(r@[k + 1] == old_r[k + 1]);
                        assert(r@[k] == old_r[k]);
                    } else {
                        assert(r@[k] == old_r.last());
                    }
                }
            }
            start = i;
        }
        i = i + 1;
    }
    let ghost old_r = r@;
    r.push((start, keys.len()));
    proof {
        assert forall|k: int, j: int|
            0 <= k < r@.len() && (#[trigger] r@[k]).0 <= j < r@[k].1 implies #[trigger] ks[j] == ks[r@[k].0 as int] by {
            if k < old_r.len() {
                assert(r@[k] == old_r[k]);
            }
        }
        assert forall|k: int| 0 <= k < r@.len() - 1 implies ks[(#[trigger] r@[k + 1]).0 as int] != ks[r@[k].0 as int] by {
            if k + 1 < old_r.len() {
                assert(r@[k + 1] == old_r[k + 1]);
                assert(r@[k] == old_r[k]);
            } else {
                assert(r@[k] == old_r.last());
            }
        }
    }
    r
}

// ---------------------------------------------------------------------------
// The texts in the order of their files
// ---------------------------------------------------------------------------

/// The positions below `n` of the texts of file `id`, in order.
pub open spec fn positions_of(items: Seq<GlobalBatchItem>, id: usize, n: int) -> Seq<usize>
    decreases n,
{
    if n <= 0 {
        Seq::empty()
    } else if items[n - 1].file_id == id {
        positions_of(items, id, n - 1).push((n - 1) as usize)
    } else {
        positions_of(items, id, n - 1)
    }
}

/// The positions of the texts file by file in the order of `ids`, each
/// file's texts in their order; a file listed twice counts once.
pub open spec fn item_positions(items: Seq<GlobalBatchItem>, ids: Seq<usize>) -> Seq<usize>
    decreases ids.len(),
{
    if ids.len() == 0 {
        Seq::empty()
    } else if ids.drop_last().contains(ids.last()) {
        item_positions(items, ids.drop_last())
    } else {
        item_positions(items, ids.drop_last()) + positions_of(items, ids.last(), items.len() as int)
    }
}

/// The positions of the texts in the order of the files `ids` (see
/// `item_positions`).
pub fn item_order(items: &[GlobalBatchItem], ids: &Vec<usize>) -> (r: Vec<usize>)
    ensures
        r@ == item_positions(items@, ids@),
{
    let mut r: Vec<usize> = Vec::new();
    let mut k: usize = 0;
    assert(ids@.take(0) =~= Seq::<usize>::empty());
    while k < ids.len()
        invariant
            k <= ids.len(),
            r@ == item_positions(items@, ids@.take(k as int)),
        decreases ids.len() - k,
    {
        let id = ids[k];
        let ghost pre = ids@.take(k as int);
        assert(ids@.take(k + 1).drop_last() =~= pre);
        assert(ids@.take(k + 1).last() == id);
        let mut seen = false;
        let mut j: usize = 0;
        while j < k
            invariant
                j <= k < ids.len(),
                id == ids@[k as int],
                pre == ids@.take(k as int),
                seen == pre.take(j as int).contains(id),
            decreases k - j,
        {
            assert(pre.take(j + 1) =~= pre.take(j as int).push(pre[j as int]));
            if ids[j] == id {
                seen = true;
                assert(pre.take(j + 1)[j as int] == id);
            }
            j = j + 1;
        }
        assert(pre.take(k as int) =~= pre);
        if !seen {
            let ghost before = r@;
            let mut n: usize = 0;
            while n < items.len()
                invariant
                    n <= items.len(),
                    r@ == before + positions_of(items@, id, n as int),
                decreases items.len() - n,
            {
                if items[n].file_id == id {
                    r.push(n);
                }
                n = n + 1;
            }
        }
        k = k + 1;
    }
    assert(ids@.take(ids.len() as int) =~= ids@);
    r
}

} // verus!

verus! {

// ---------------------------------------------------------------------------
// The order of keys is a strict total order
// ---------------------------------------------------------------------------

proof fn lemma_key_lt_irreflexive(a: Seq<Seq<char>>)
    ensures
        !key_lt(a, a),
    decreases a.len(),
{
    if a.len() > 0 {
        crate::text::lemma_chars_lt_irreflexive(a[0]);
        lemma_key_lt_irreflexive(a.drop_first());
    }
}

proof fn lemma_key_lt_total(a: Seq<Seq<char>>, b: Seq<Seq<char>>)
    ensures
        a != b ==> (key_lt(a, b) || key_lt(b, a)),
        !(key_lt(a, b) && key_lt(b, a)),
    decreases a.len(),
{
    if a.len() > 0 && b.len() > 0 {
        crate::text::lemma_chars_lt_total(a[0], b[0]);
        lemma_key_lt_total(a.drop_first(), b.drop_first());
        if a != b && a[0] == b[0] {
            assert(a =~= seq![a[0]] + a.drop_first());
            assert(b =~= seq![b[0]] + b.drop_first());
        }
    } else if a.len() == 0 && b.len() == 0 {
        assert(a =~= b);
    }
}

proof fn lemma_key_lt_transitive(a: Seq<Seq<char>>, b: Seq<Seq<char>>, c: Seq<Seq<char>>)
    requires
        key_lt(a, b),
        key_lt(b, c),
    ensures
        key_lt(a, c),
    decreases a.len(),
{
    if a.len() > 0 && b.len() > 0 && c.len() > 0 {
        if chars_lt(a[0], b[0]) && chars_lt(b[0], c[0]) {
            crate::text::lemma_chars_lt_transitive(a[0], b[0], c[0]);
        } else if a[0] == b[0] && b[0] == c[0] {
            lemma_key_lt_transitive(a.drop_first(), b.drop_first(), c.drop_first());
        }
    }
}

/// `x` goes in at some place `p`: the keys after it are greater, the one
/// before it is not.
proof fn lemma_insert_by_key_shape(ks: Seq<Seq<Seq<char>>>, s: Seq<usize>, x: usize) -> (p: int)
    ensures
        0 <= p <= s.len(),
        insert_by_key(ks, s, x) == s.insert(p, x),
        forall|k: int| p <= k < s.len() ==> key_lt(ks[x as int], ks[(#[trigger] s[k]) as int]),
        p > 0 ==> !key_lt(ks[x as int], ks[s[p - 1] as int]),
    decreases s.len(),
{
    if s.len() == 0 {
        assert(s.insert(0, x) =~= seq![x]);
        0
    } else if key_lt(ks[x as int], ks[s.last() as int]) {
        let d = s.drop_last();
        let q = lemma_insert_by_key_shape(ks, d, x);
        assert(d.insert(q, x).push(s.last()) =~= s.insert(q, x));
        assert forall|k: int| q <= k < s.len() implies key_lt(ks[x as int], ks[(#[trigger] s[k]) as int]) by {
            if k < d.len() {
                assert(d[k] == s[k]);
            }
        }
        if q > 0 {
            assert(d[q - 1] == s[q - 1]);
        }
        q
    } else {
        assert(s.insert(s.len() as int, x) =~= s.push(x));
        s.len() as int
    }
}

/// A run's files in the order they are taken up: every file once, groups in
/// the order of their keys, and files with equal keys in their given order
/// (the sort is stable).
pub proof fn law_group_order_sorted(ks: Seq<Seq<Seq<char>>>, n: nat)
    requires
        n <= ks.len(),
        n <= usize::MAX,
    ensures
        sorted_positions(ks, n).len() == n,
        forall|i: usize| i < n ==> sorted_positions(ks, n).contains(i),
        forall|a: int|
            0 <= a < n ==> (#[trigger] sorted_positions(ks, n)[a]) < n,
        forall|a: int, b: int|
            0 <= a < b < n ==> !key_lt(
                ks[sorted_positions(ks, n)[b] as int],
                ks[sorted_positions(ks, n)[a] as int],
            ),
        forall|a: int, b: int|
            0 <= a < b < n && ks[sorted_positions(ks, n)[a] as int] == ks[sorted_positions(
                ks,
                n,
            )[b] as int] ==> sorted_positions(ks, n)[a] < sorted_positions(ks, n)[b],
    decreases n,
{
    if n > 0 {
        let m = (n - 1) as nat;
        law_group_order_sorted(ks, m);
        let s = sorted_positions(ks, m);
        let x = m as usize;
        let p = lemma_insert_by_key_shape(ks, s, x);
        let r = s.insert(p, x);
        assert(r == sorted_positions(ks, n));
        assert forall|a: int| 0 <= a < n implies (#[trigger] r[a]) < n by {
            if a < p {
                assert(r[a] == s[a]);
            } else if a > p {
                assert(r[a] == s[a - 1]);
            }
        }
        assert forall|i: usize| i < n implies r.contains(i) by {
            if i == x {
                assert(r[p] == x);
            } else {
                assert(s.contains(i));
                let w = choose|w: int| 0 <= w < s.len() && s[w] == i;
                if w < p {
                    assert(r[w] == i);
                } else {
                    assert(r[w + 1] == i);
                }
            }
        }
        assert forall|a: int, b: int| 0 <= a < b < n implies !key_lt(ks[r[b] as int], ks[r[a] as int]) by {
            if a != p && b != p {
                let a0 = if a < p { a } else { a - 1 };
                let b0 = if b < p { b } else { b - 1 };
                assert(r[a] == s[a0] && r[b] == s[b0]);
            } else if a == p {
                assert(r[b] == s[b - 1]);
                lemma_key_lt_total(ks[x as int], ks[s[b - 1] as int]);
            } else {
                assert(r[a] == s[a]);
                lemma_key_lt_total(ks[x as int], ks[s[p - 1] as int]);
                if a < p - 1 {
                    assert(!key_lt(ks[s[p - 1] as int], ks[s[a] as int]));
                    lemma_key_lt_total(ks[s[p - 1] as int], ks[s[a] as int]);
                    if key_lt(ks[x as int], ks[s[a] as int]) {
                        if ks[s[p - 1] as int] == ks[s[a] as int] {
                        } else {
                            lemma_key_lt_transitive(ks[s[a] as int], ks[s[p - 1] as int], ks[x as int]);
                            lemma_key_lt_total(ks[x as int], ks[s[a] as int]);
                        }
                        if ks[x as int] == ks[s[p - 1] as int] {
                        } else {
                            lemma_key_lt_transitive(ks[s[p - 1] as int], ks[x as int], ks[s[a] as int]);
                        }
                    }
                }
            }
        }
        assert forall|a: int, b: int|
            0 <= a < b < n && ks[r[a] as int] == ks[r[b] as int] implies r[a] < r[b] by {
            if a != p && b != p {
                let a0 = if a < p { a } else { a - 1 };
                let b0 = if b < p { b } else { b - 1 };
                assert(r[a] == s[a0] && r[b] == s[b0]);
                assert(a0 < b0);
                assert(s[a0] < s[b0]);
            } else if a == p {
                assert(r[b] == s[b - 1]);
                assert(key_lt(ks[x as int], ks[s[b - 1] as int]));
                lemma_key_lt_irreflexive(ks[x as int]);
            } else {
                assert(r[a] == s[a]);
                assert(s[a] < m);
            }
        }
    }
}

} // verus!
