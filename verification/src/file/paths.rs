//! Paths as std splits them. How a path splits depends on the platform (a
//! backslash and a drive prefix count only on Windows), so each contract
//! here states what holds on every platform, and, for plain paths (names
//! joined by `/`, none empty, `.` or `..`, none with a backslash or a
//! colon), the split every platform gives.
use vstd::prelude::*;
use crate::file::plan::opt_view;
use crate::text::{join, last_index_of};
use crate::translation::batching::strings_view;

verus! {

/// `s` split at each `/` (`str::split('/')`): one more part than slashes.
pub open spec fn split_slash(s: Seq<char>) -> Seq<Seq<char>>
    decreases s.len(),
{
    if s.len() == 0 {
        seq![Seq::empty()]
    } else {
        let rest = split_slash(s.drop_last());
        if s.last() == '/' {
            rest.push(Seq::empty())
        } else {
            rest.update(rest.len() - 1, rest.last().push(s.last()))
        }
    }
}

/// A name of a plain path: not empty, not `.` or `..`, and without `/`,
/// backslash or colon.
pub open spec fn plain_name(n: Seq<char>) -> bool {
    &&& n.len() > 0
    &&& !n.contains('/')
    &&& !n.contains('\\')
    &&& !n.contains(':')
    &&& n != seq!['.']
    &&& n != seq!['.', '.']
}

/// A plain path: names joined by `/` (see `plain_name`), so no root, no
/// prefix, no empty name.
pub open spec fn is_plain_path(p: Seq<char>) -> bool {
    forall|k: int| 0 <= k < split_slash(p).len() ==> plain_name(#[trigger] split_slash(p)[k])
}

/// A normal component: not empty, not `.` or `..`, without `/`.
pub open spec fn safe_name(n: Seq<char>) -> bool {
    &&& n.len() > 0
    &&& !n.contains('/')
    &&& n != seq!['.']
    &&& n != seq!['.', '.']
}

/// The text before the last `/` (empty when there is none).
pub open spec fn dir_of(s: Seq<char>) -> Seq<char> {
    match last_index_of(s, '/') {
        Some(i) => s.take(i),
        None => Seq::empty(),
    }
}

/// The text after the last slash (all of it when there is none).
pub open spec fn last_segment(s: Seq<char>) -> Seq<char> {
    match last_index_of(s, '/') {
        Some(i) => s.skip(i + 1),
        None => s,
    }
}

/// The name of the folder of a plain path, as std gives it: none for a
/// path of one name (its folder is the empty path).
pub open spec fn plain_parent_name(p: Seq<char>) -> Option<Seq<char>> {
    if last_index_of(p, '/') is Some {
        Some(last_segment(dir_of(p)))
    } else {
        None
    }
}

/// A plain path after one `/` (`/a/b`): a root, then plain names.
pub open spec fn is_rooted_plain(p: Seq<char>) -> bool {
    p.len() > 1 && p[0] == '/' && is_plain_path(p.drop_first())
}

/// The folder of the plain path `q` put after a `/`: `/` and its folder, or
/// the root alone for a single name.
pub open spec fn rooted_dir(q: Seq<char>) -> Seq<char> {
    if last_index_of(q, '/') is Some {
        seq!['/'] + dir_of(q)
    } else {
        seq!['/']
    }
}

/// A plain path, alone or after one `/`, without that `/`.
pub open spec fn plain_part(p: Seq<char>) -> Option<Seq<char>> {
    if is_plain_path(p) {
        Some(p)
    } else if is_rooted_plain(p) {
        Some(p.drop_first())
    } else {
        None
    }
}

// ---------------------------------------------------------------------------
// Lemmas
// ---------------------------------------------------------------------------

pub proof fn lemma_split_len(s: Seq<char>)
    ensures
        split_slash(s).len() >= 1,
    decreases s.len(),
{
    if s.len() > 0 {
        lemma_split_len(s.drop_last());
    }
}

proof fn lemma_last_index_bound(s: Seq<char>, c: char)
    ensures
        last_index_of(s, c) matches Some(i) ==> 0 <= i < s.len() && s[i] == c && forall|j: int|
            i < j < s.len() ==> s[j] != c,
        last_index_of(s, c) is None ==> forall|j: int| 0 <= j < s.len() ==> s[j] != c,
    decreases s.len(),
{
    if s.len() > 0 {
        lemma_last_index_bound(s.drop_last(), c);
        assert forall|j: int| 0 <= j < s.len() - 1 implies s.drop_last()[j] == s[j] by {}
    }
}

/// Splitting at the last slash: the parts before it, then the rest.
pub proof fn lemma_split_at_last(s: Seq<char>)
    ensures
        last_index_of(s, '/') matches Some(i) ==> split_slash(s) == split_slash(s.take(i)).push(s.skip(i + 1)),
        last_index_of(s, '/') is None ==> split_slash(s) == seq![s],
    decreases s.len(),
{
    lemma_last_index_bound(s, '/');
    if s.len() > 0 {
        let d = s.drop_last();
        lemma_split_at_last(d);
        lemma_split_len(d);
        if s.last() == '/' {
            assert(s.take(s.len() - 1) =~= d);
            assert(s.skip(s.len() as int) =~= Seq::<char>::empty());
        } else {
            match last_index_of(d, '/') {
                Some(i) => {
                    assert(d.take(i) =~= s.take(i));
                    assert(d.skip(i + 1).push(s.last()) =~= s.skip(i + 1));
                    assert(split_slash(d).update(split_slash(d).len() - 1, split_slash(d).last().push(s.last()))
                        =~= split_slash(s.take(i)).push(s.skip(i + 1)));
                },
                None => {
                    assert(d.push(s.last()) =~= s);
                    assert(split_slash(d).update(0, d.push(s.last())) =~= seq![s]);
                },
            }
        }
    } else {
        assert(s =~= Seq::<char>::empty());
        assert(split_slash(s) =~= seq![s]);
    }
}

/// A plain path has no backslash and no colon; its folder (when it has
/// one) is plain and splits into its names but the last, which is its own
/// name.
pub proof fn lemma_plain_parts(p: Seq<char>)
    requires
        is_plain_path(p),
    ensures
        !p.contains('\\'),
        !p.contains(':'),
        p.len() > 0,
        plain_name(last_segment(p)),
        split_slash(p).last() == last_segment(p),
        last_index_of(p, '/') is Some ==> is_plain_path(dir_of(p)) && split_slash(dir_of(p)) == split_slash(
            p,
        ).drop_last(),
        last_index_of(p, '/') is None ==> split_slash(p) == seq![p] && dir_of(p).len() == 0,
    decreases p.len(),
{
    lemma_split_at_last(p);
    lemma_last_index_bound(p, '/');
    lemma_split_len(p);
    match last_index_of(p, '/') {
        Some(i) => {
            let d = p.take(i);
            let t = p.skip(i + 1);
            let sp = split_slash(p);
            assert(sp.last() == t);
            assert(plain_name(sp[sp.len() - 1]));
            assert forall|k: int| 0 <= k < split_slash(d).len() implies plain_name(#[trigger] split_slash(d)[k]) by {
                assert(split_slash(d)[k] == sp[k]);
            }
            assert(split_slash(d) =~= sp.drop_last());
            lemma_plain_parts(d);
            assert forall|j: int| 0 <= j < p.len() implies p[j] != '\\' && p[j] != ':' by {
                if j < i {
                    assert(d[j] == p[j]);
                    assert(d.contains(d[j]));
                } else if j > i {
                    assert(t[j - i - 1] == p[j]);
                    assert(t.contains(t[j - i - 1]));
                }
            }
        },
        None => {
            assert(split_slash(p)[0] == p);
            assert(plain_name(split_slash(p)[0]));
        },
    }
}

/// The folder of a plain path put after a `/`: a rooted plain path whose
/// plain part is the folder, or the root alone for a single name; no
/// backslash in either.
pub proof fn lemma_rooted_dir(q: Seq<char>)
    requires
        is_plain_path(q),
    ensures
        last_index_of(q, '/') is Some ==> is_rooted_plain(rooted_dir(q)) && rooted_dir(q).drop_first() == dir_of(q),
        last_index_of(q, '/') is None ==> rooted_dir(q) == seq!['/'],
        !rooted_dir(q).contains('\\'),
        plain_parent_name(q) == (if last_index_of(q, '/') is Some {
            Some(last_segment(dir_of(q)))
        } else {
            None
        }),
{
    lemma_plain_parts(q);
    if last_index_of(q, '/') is Some {
        let d = dir_of(q);
        lemma_plain_parts(d);
        assert((seq!['/'] + d).drop_first() =~= d);
        assert(rooted_dir(q)[0] == '/');
        if rooted_dir(q).contains('\\') {
            let j = choose|j: int| 0 <= j < rooted_dir(q).len() && rooted_dir(q)[j] == '\\';
            assert(d[j - 1] == '\\');
            assert(d.contains(d[j - 1]));
        }
    } else {
        if rooted_dir(q).contains('\\') {
            let j = choose|j: int| 0 <= j < rooted_dir(q).len() && rooted_dir(q)[j] == '\\';
            assert(rooted_dir(q)[j] == '/');
        }
    }
}

/// The folder std gives for a plain path, alone or after one `/`.
pub open spec fn plain_folder(p: Seq<char>) -> Seq<char> {
    if is_plain_path(p) {
        dir_of(p)
    } else {
        rooted_dir(p.drop_first())
    }
}

/// Splitting names joined by `/` gives the names back.
pub proof fn lemma_split_join(ns: Seq<Seq<char>>)
    requires
        ns.len() > 0,
        forall|k: int| 0 <= k < ns.len() ==> !(#[trigger] ns[k]).contains('/'),
    ensures
        split_slash(join(ns, seq!['/'])) == ns,
    decreases ns.len(),
{
    let j = join(ns, seq!['/']);
    if ns.len() == 1 {
        lemma_last_index_bound(ns[0], '/');
        if last_index_of(ns[0], '/') is Some {
            let i = last_index_of(ns[0], '/')->0;
            assert(ns[0].contains(ns[0][i]));
        }
        lemma_split_at_last(ns[0]);
        assert(seq![ns[0]] =~= ns);
    } else {
        let a = join(ns.drop_last(), seq!['/']);
        let b = ns.last();
        assert(j == a + seq!['/'] + b);
        lemma_last_index_bound(j, '/');
        lemma_last_index_bound(b, '/');
        assert(!b.contains('/'));
        lemma_last_or(a, b);
        lemma_split_at_last(j);
        assert(j.take(a.len() as int) =~= a);
        assert(j.skip(a.len() as int + 1) =~= b);
        lemma_split_join(ns.drop_last());
        assert(ns.drop_last().push(b) =~= ns);
    }
}

proof fn lemma_last_or(a: Seq<char>, b: Seq<char>)
    requires
        !b.contains('/'),
    ensures
        last_index_of(a + seq!['/'] + b, '/') == Some(a.len() as int),
    decreases b.len(),
{
    let s = a + seq!['/'] + b;
    if b.len() == 0 {
        assert(s.last() == '/');
    } else {
        assert(b.contains(b.last()));
        assert(s.drop_last() =~= a + seq!['/'] + b.drop_last());
        assert forall|x: char| b.drop_last().contains(x) implies b.contains(x) by {
            let k = choose|k: int| 0 <= k < b.drop_last().len() && b.drop_last()[k] == x;
            assert(b[k] == x);
        }
        lemma_last_or(a, b.drop_last());
    }
}

// ---------------------------------------------------------------------------
// Std's path functions
// ---------------------------------------------------------------------------

/// `Path::components` of the path `p`, each as text. The empty path has
/// none, any other path at least one; a plain path gives its names.
#[verifier::external_body]
pub(crate) fn path_components(p: &str) -> (r: Vec<String>)
    ensures
        p@.len() == 0 <==> r@.len() == 0,
        is_plain_path(p@) ==> strings_view(r@) == split_slash(p@),
{
    std::path::Path::new(p).components().map(|c| c.as_os_str().to_string_lossy().to_string()).collect()
}

/// `Path::components` of the path `p`, each as text with whether it is a
/// normal component (`Component::Normal`). The empty path has none; a plain
/// path gives its names, all normal; a plain path after one `/` gives the
/// root (not normal), then its names.
#[verifier::external_body]
pub(crate) fn path_component_kinds(p: &str) -> (r: Vec<(String, bool)>)
    ensures
        p@.len() == 0 ==> r@.len() == 0,
        is_plain_path(p@) ==> r@.len() == split_slash(p@).len() && forall|k: int|
            0 <= k < r@.len() ==> (#[trigger] r@[k]).1 && r@[k].0@ == split_slash(p@)[k],
        is_rooted_plain(p@) ==> r@.len() == split_slash(p@.drop_first()).len() + 1 && !r@[0].1 && forall|k: int|
            1 <= k < r@.len() ==> (#[trigger] r@[k]).1 && r@[k].0@ == split_slash(p@.drop_first())[k - 1],
{
    std::path::Path::new(p).components().map(|c| match c {
        std::path::Component::Normal(n) => (n.to_string_lossy().to_string(), true),
        other => (other.as_os_str().to_string_lossy().to_string(), false),
    }).collect()
}

/// `std::path::MAIN_SEPARATOR`: `/`, or a backslash on Windows.
#[verifier::external_body]
pub(crate) fn main_separator() -> (r: char)
    ensures
        r == '/' || r == '\\',
{
    std::path::MAIN_SEPARATOR
}

/// `Path::parent` of the path `p`, as text: a proper prefix of the path,
/// none for the empty path; for a plain path the text before its last `/`
/// (the empty path for a single name); for a plain path after one `/`, that
/// `/` and its folder (the root alone for a single name).
#[verifier::external_body]
pub(crate) fn path_parent(p: &str) -> (r: Option<String>)
    ensures
        p@.len() == 0 ==> r is None,
        r is Some ==> r.unwrap()@.len() < p@.len() && r.unwrap()@.is_prefix_of(p@),
        is_plain_path(p@) ==> opt_view(r) == Some(dir_of(p@)),
        is_rooted_plain(p@) ==> opt_view(r) == Some(rooted_dir(p@.drop_first())),
{
    match std::path::Path::new(p).parent() {
        Some(d) => Some(d.to_string_lossy().to_string()),
        None => None,
    }
}

/// `Path::file_name` of the path `p`, as text: a non-empty name, none for
/// the empty path or the root `/` alone; for a plain path, alone or after
/// one `/`, its last name.
#[verifier::external_body]
pub(crate) fn path_file_name(p: &str) -> (r: Option<String>)
    ensures
        p@.len() == 0 || p@ == seq!['/'] ==> r is None,
        r is Some ==> r.unwrap()@.len() > 0,
        is_plain_path(p@) ==> opt_view(r) == Some(last_segment(p@)),
        is_rooted_plain(p@) ==> opt_view(r) == Some(last_segment(p@.drop_first())),
{
    match std::path::Path::new(p).file_name() {
        Some(f) => Some(f.to_string_lossy().to_string()),
        None => None,
    }
}

/// `Path::join` of the path `base` and the name `name`, as text: for a
/// plain path, alone or after one `/`, and a plain name, the path, the
/// separator std puts (`/`, or a backslash on Windows) and the name.
#[verifier::external_body]
pub(crate) fn path_join(base: &str, name: &str) -> (r: String)
    ensures
        (is_plain_path(base@) || is_rooted_plain(base@)) && plain_name(name@) ==> r@ == base@ + seq![
            r@[base@.len() as int],
        ] + name@ && (r@[base@.len() as int] == '/' || r@[base@.len() as int] == '\\'),
{
    std::path::Path::new(base).join(name).to_string_lossy().to_string()
}

/// `Path::is_absolute` of the path `p`: never for the empty path or a
/// plain path (neither has a root or a prefix).
#[verifier::external_body]
pub(crate) fn path_is_absolute(p: &str) -> (r: bool)
    ensures
        p@.len() == 0 ==> !r,
        is_plain_path(p@) ==> !r,
{
    std::path::Path::new(p).is_absolute()
}

// ---------------------------------------------------------------------------
// Keeping the normal components
// ---------------------------------------------------------------------------

/// The texts of the normal components that are safe names, in order.
pub open spec fn normal_texts(kinds: Seq<(String, bool)>) -> Seq<Seq<char>>
    decreases kinds.len(),
{
    if kinds.len() == 0 {
        Seq::empty()
    } else if kinds.last().1 && safe_name(kinds.last().0@) {
        normal_texts(kinds.drop_last()).push(kinds.last().0@)
    } else {
        normal_texts(kinds.drop_last())
    }
}

proof fn lemma_normal_texts_safe(kinds: Seq<(String, bool)>)
    ensures
        forall|k: int| 0 <= k < normal_texts(kinds).len() ==> safe_name(#[trigger] normal_texts(kinds)[k]),
    decreases kinds.len(),
{
    if kinds.len() > 0 {
        let d = kinds.drop_last();
        lemma_normal_texts_safe(d);
        let nd = normal_texts(d);
        assert forall|k: int| 0 <= k < normal_texts(kinds).len() implies safe_name(#[trigger] normal_texts(kinds)[k]) by {
            if k < nd.len() {
                assert(normal_texts(kinds)[k] == nd[k]);
            }
        }
    }
}

/// When the first `m` components are not normal and the rest are the
/// (safe) names, the names are kept.
proof fn lemma_normal_texts_all(kinds: Seq<(String, bool)>, names: Seq<Seq<char>>, m: int)
    requires
        0 <= m <= kinds.len(),
        kinds.len() == names.len() + m,
        forall|k: int| 0 <= k < m ==> !(#[trigger] kinds[k]).1,
        forall|k: int| m <= k < kinds.len() ==> (#[trigger] kinds[k]).1 && kinds[k].0@ == names[k - m],
        forall|k: int| 0 <= k < names.len() ==> safe_name(#[trigger] names[k]),
    ensures
        normal_texts(kinds) == names,
    decreases kinds.len(),
{
    if kinds.len() > m {
        let d = kinds.drop_last();
        assert forall|k: int| m <= k < d.len() implies (#[trigger] d[k]).1 && d[k].0@ == names.drop_last()[k - m] by {
            assert(d[k] == kinds[k]);
        }
        assert forall|k: int| 0 <= k < m implies !(#[trigger] d[k]).1 by {
            assert(d[k] == kinds[k]);
        }
        lemma_normal_texts_all(d, names.drop_last(), m);
        assert(kinds[kinds.len() - 1] == kinds.last());
        assert(names[names.len() - 1] == names.last());
        assert(names.drop_last().push(names.last()) =~= names);
    } else if kinds.len() > 0 {
        let d = kinds.drop_last();
        assert forall|k: int| 0 <= k < d.len() implies !(#[trigger] d[k]).1 by {
            assert(d[k] == kinds[k]);
        }
        assert(kinds[kinds.len() - 1] == kinds.last());
        lemma_normal_texts_all(d, names, d.len() as int);
    } else {
        assert(names =~= Seq::<Seq<char>>::empty());
    }
}

/// A plain path's names are safe names.
proof fn lemma_plain_names_safe(p: Seq<char>)
    requires
        is_plain_path(p),
    ensures
        forall|k: int| 0 <= k < split_slash(p).len() ==> safe_name(#[trigger] split_slash(p)[k]),
{
    assert forall|k: int| 0 <= k < split_slash(p).len() implies safe_name(#[trigger] split_slash(p)[k]) by {
        assert(plain_name(split_slash(p)[k]));
    }
}

/// Whether a component's text is a safe name (see `safe_name`).
fn safe_name_exec(t: &String) -> (r: bool)
    ensures
        r == safe_name(t@),
{
    let v = crate::text::chars_of(t.as_str());
    if v.len() == 0 {
        return false;
    }
    let mut i: usize = 0;
    while i < v.len()
        invariant
            i <= v@.len(),
            v@ == t@,
            forall|k: int| 0 <= k < i ==> v@[k] != '/',
        decreases v.len() - i,
    {
        if v[i] == '/' {
            assert(v@.contains(v@[i as int]));
            return false;
        }
        i = i + 1;
    }
    assert(!v@.contains('/'));
    let dot: Vec<char> = vec!['.'];
    let dots: Vec<char> = vec!['.', '.'];
    assert(dot@ =~= seq!['.']);
    assert(dots@ =~= seq!['.', '.']);
    !crate::text::chars_eq(&v, &dot) && !crate::text::chars_eq(&v, &dots)
}

/// The path `p` with only its normal components that are safe names (see
/// `safe_name`), joined by the platform's separator: no root, prefix, `.`,
/// `..` or `/` is left, so the result stays inside whatever folder it is
/// placed in. A plain path, alone or after one `/`, keeps its names.
pub fn keep_normal_components(p: &str) -> (r: String)
    ensures
        exists|names: Seq<Seq<char>>, sep: char|
            {
                &&& sep == '/' || sep == '\\'
                &&& r@ == join(names, seq![sep])
                &&& forall|k: int| 0 <= k < names.len() ==> safe_name(#[trigger] names[k])
                &&& p@.len() == 0 ==> names.len() == 0
                &&& is_plain_path(p@) ==> names == split_slash(p@)
                &&& is_rooted_plain(p@) ==> names == split_slash(p@.drop_first())
            },
{
    let kinds = path_component_kinds(p);
    let sep = main_separator();
    let mut out: Vec<char> = Vec::new();
    let mut count: usize = 0;
    let mut i: usize = 0;
    assert(kinds@.take(0) =~= Seq::<(String, bool)>::empty());
    while i < kinds.len()
        invariant
            i <= kinds@.len(),
            count == normal_texts(kinds@.take(i as int)).len(),
            count <= i,
            out@ == join(normal_texts(kinds@.take(i as int)), seq![sep]),
        decreases kinds.len() - i,
    {
        assert(kinds@.take(i + 1).drop_last() =~= kinds@.take(i as int));
        assert(kinds@.take(i + 1).last() == kinds@[i as int]);
        if kinds[i].1 && safe_name_exec(&kinds[i].0) {
            let ghost before = normal_texts(kinds@.take(i as int));
            if count > 0 {
                out.push(sep);
            }
            crate::text::extend_str(&mut out, kinds[i].0.as_str());
            proof {
                let after = before.push(kinds@[i as int].0@);
                assert(after.drop_last() =~= before);
                if count == 0 {
                    assert(before.len() == 0);
                    assert(out@ =~= kinds@[i as int].0@);
                } else {
                    assert(out@ =~= join(before, seq![sep]) + seq![sep] + kinds@[i as int].0@);
                }
            }
            count = count + 1;
        }
        i = i + 1;
    }
    proof {
        assert(kinds@.take(kinds@.len() as int) =~= kinds@);
        lemma_normal_texts_safe(kinds@);
        if is_plain_path(p@) {
            lemma_plain_names_safe(p@);
            lemma_normal_texts_all(kinds@, split_slash(p@), 0);
        }
        if is_rooted_plain(p@) {
            lemma_plain_names_safe(p@.drop_first());
            lemma_normal_texts_all(kinds@, split_slash(p@.drop_first()), 1);
        }
        if p@.len() == 0 {
            assert(normal_texts(kinds@).len() == 0);
        }
    }
    crate::text::string_of(&out)
}

} // verus!
