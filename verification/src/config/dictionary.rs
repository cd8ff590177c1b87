//! Where the dictionaries live, and which languages they cover.
use vstd::prelude::*;
use crate::config::settings::strs;
use crate::text::{chars_less, chars_lt, chars_of, extend_chars, extend_str, lemma_chars_lt_irreflexive, lemma_chars_lt_total, lemma_chars_lt_transitive, string_of};

verus! {

/// The folder that holds the dictionaries.
pub const DICT_DIR: &'static str = "dicts";

/// The file of the dictionary of one kind (`user` or `official`) for a
/// language: `dicts/<kind>/<lang>.json`, or `<lang>.json` alone when the
/// language code is itself an absolute path.
pub open spec fn dict_path(kind: Seq<char>, lang: Seq<char>) -> Seq<char> {
    let file = lang + seq!['.', 'j', 's', 'o', 'n'];
    if lang.len() > 0 && lang[0] == '/' {
        file
    } else {
        seq!['d', 'i', 'c', 't', 's', '/'] + kind + seq!['/'] + file
    }
}

fn dict_path_exec(kind: &str, lang: &str) -> (r: String)
    ensures
        r@ == dict_path(kind@, lang@),
{
    let l = chars_of(lang);
    let mut v: Vec<char> = Vec::new();
    if !(l.len() > 0 && l[0] == '/') {
        v = chars_of("dicts/");
        proof {
            reveal_strlit("dicts/");
        }
        extend_str(&mut v, kind);
        v.push('/');
    }
    extend_chars(&mut v, &l);
    v.push('.');
    v.push('j');
    v.push('s');
    v.push('o');
    v.push('n');
    assert(v@ =~= dict_path(kind@, lang@));
    string_of(&v)
}

/// The file of the user's dictionary for a language.
pub fn get_user_dict_path(lang: &str) -> (r: String)
    ensures
        r@ == dict_path("user"@, lang@),
{
    dict_path_exec("user", lang)
}

/// The file of the official dictionary for a language.
pub fn get_official_dict_path(lang: &str) -> (r: String)
    ensures
        r@ == dict_path("official"@, lang@),
{
    dict_path_exec("official", lang)
}

/// Strictly ascending in `String` order.
pub open spec fn strictly_sorted(s: Seq<Seq<char>>) -> bool {
    forall|i: int, j: int| 0 <= i < j < s.len() ==> chars_lt(#[trigger] s[i], #[trigger] s[j])
}

/// The languages offered when no dictionary file was found.
pub open spec fn fallback_langs() -> Seq<Seq<char>> {
    seq!["zh_tw"@, "zh_cn"@, "ja_jp"@, "en_us"@]
}

/// Inserts `x` into the strictly ascending `out` unless it is there already.
pub fn insert_sorted_unique(out: &mut Vec<String>, x: String)
    requires
        strictly_sorted(strs(old(out)@)),
    ensures
        strictly_sorted(strs(final(out)@)),
        strs(final(out)@).to_set() == strs(old(out)@).to_set().insert(x@),
{
    let ghost o = strs(out@);
    let xv = chars_of(x.as_str());
    let mut p: usize = 0;
    while p < out.len()
        invariant
            o == strs(out@),
            strictly_sorted(o),
            xv@ == x@,
            p <= out.len(),
            forall|k: int| 0 <= k < p ==> chars_lt(#[trigger] o[k], x@),
        ensures
            o == strs(out@),
            p <= out.len(),
            forall|k: int| 0 <= k < p ==> chars_lt(#[trigger] o[k], x@),
            p < out.len() ==> !chars_lt(o[p as int], x@),
        decreases out.len() - p,
    {
        let cur = chars_of(out[p].as_str());
        assert(cur@ == o[p as int]);
        if !chars_less(&cur, &xv) {
            break;
        }
        p = p + 1;
    }
    if p < out.len() && out[p] == x {
        proof {
            assert(o.to_set().insert(x@) =~= o.to_set()) by {
                assert(o[p as int] == x@);
            }
        }
        return;
    }
    proof {
        if p < o.len() {
            lemma_chars_lt_total(o[p as int], x@);
            assert(chars_lt(x@, o[p as int]));
            assert forall|k: int| p <= k < o.len() implies chars_lt(x@, #[trigger] o[k]) by {
                if k > p {
                    lemma_chars_lt_transitive(x@, o[p as int], o[k]);
                }
            }
        }
    }
    out.insert(p, x);
    proof {
        let n = strs(out@);
        assert(n =~= o.insert(p as int, x@));
        assert forall|i: int, j: int| 0 <= i < j < n.len() implies chars_lt(#[trigger] n[i], #[trigger] n[j]) by {
            if j < p {
            } else if j == p {
            } else if i < p {
                assert(n[j] == o[j - 1]);
                if p < o.len() {
                    lemma_chars_lt_transitive(n[i], x@, o[j - 1]);
                }
            } else if i == p {
            } else {
                assert(n[i] == o[i - 1]);
                assert(n[j] == o[j - 1]);
            }
        }
        assert(n.to_set() =~= o.to_set().insert(x@)) by {
            assert forall|s: Seq<char>| n.to_set().contains(s) implies o.to_set().insert(x@).contains(s) by {
                let k = choose|k: int| 0 <= k < n.len() && n[k] == s;
                if k < p {
                    assert(o[k] == s);
                } else if k > p {
                    assert(o[k - 1] == s);
                }
            }
            assert forall|s: Seq<char>| o.to_set().insert(x@).contains(s) implies n.to_set().contains(s) by {
                if s == x@ {
                    assert(n[p as int] == s);
                } else {
                    let k = choose|k: int| 0 <= k < o.len() && o[k] == s;
                    if k < p {
                        assert(n[k] == s);
                    } else {
                        assert(n[k + 1] == s);
                    }
                }
            }
        }
    }
}

/// The dictionary languages to offer, given the language codes found on
/// disk: each once, in ascending order; `zh_tw`, `zh_cn`, `ja_jp` and
/// `en_us` when none was found.
pub fn finalize_dict_langs(found: Vec<String>) -> (r: Vec<String>)
    ensures
        strictly_sorted(strs(r@)),
        found@.len() > 0 ==> strs(r@).to_set() == strs(found@).to_set(),
        found@.len() == 0 ==> strs(r@).to_set() == fallback_langs().to_set(),
        found@.len() == 0 ==> strs(r@) == seq!["en_us"@, "ja_jp"@, "zh_cn"@, "zh_tw"@],
{
    if found.len() == 0 {
        let r = vec!["en_us".to_owned(), "ja_jp".to_owned(), "zh_cn".to_owned(), "zh_tw".to_owned()];
        proof {
            reveal_strlit("en_us");
            reveal_strlit("ja_jp");
            reveal_strlit("zh_cn");
            reveal_strlit("zh_tw");
            let s = strs(r@);
            assert(s =~= seq!["en_us"@, "ja_jp"@, "zh_cn"@, "zh_tw"@]);
            assert(chars_lt("en_us"@, "ja_jp"@));
            assert(chars_lt("ja_jp"@, "zh_cn"@));
            assert(chars_lt("zh_cn"@, "zh_tw"@)) by {
                reveal_with_fuel(chars_lt, 5);
            }
            lemma_chars_lt_transitive("en_us"@, "ja_jp"@, "zh_cn"@);
            lemma_chars_lt_transitive("en_us"@, "zh_cn"@, "zh_tw"@);
            lemma_chars_lt_transitive("ja_jp"@, "zh_cn"@, "zh_tw"@);
            assert(strictly_sorted(s));
            assert(s.to_set() =~= fallback_langs().to_set()) by {
                assert forall|t: Seq<char>| s.to_set().contains(t) implies fallback_langs().to_set().contains(t) by {
                    let k = choose|k: int| 0 <= k < s.len() && s[k] == t;
                    if k == 0 {
                        assert(fallback_langs()[3] == t);
                    } else if k == 1 {
                        assert(fallback_langs()[2] == t);
                    } else if k == 2 {
                        assert(fallback_langs()[1] == t);
                    } else {
                        assert(fallback_langs()[0] == t);
                    }
                }
                assert forall|t: Seq<char>| fallback_langs().to_set().contains(t) implies s.to_set().contains(t) by {
                    let k = choose|k: int| 0 <= k < fallback_langs().len() && fallback_langs()[k] == t;
                    assert(s[3 - k] == t);
                }
            }
        }
        return r;
    }
    let source: Vec<String> = found;
    let mut out: Vec<String> = Vec::new();
    let mut i: usize = 0;
    proof {
        assert(strs(source@).take(0).to_set() =~= Set::<Seq<char>>::empty());
        assert(strs(out@).to_set() =~= Set::<Seq<char>>::empty());
    }
    while i < source.len()
        invariant
            i <= source.len(),
            strictly_sorted(strs(out@)),
            strs(out@).to_set() == strs(source@).take(i as int).to_set(),
        decreases source.len() - i,
    {
        let x = source[i].clone();
        insert_sorted_unique(&mut out, x);
        proof {
            let s = strs(source@);
            assert(s.take(i + 1) =~= s.take(i as int).push(s[i as int]));
            assert(s.take(i + 1).to_set() =~= s.take(i as int).to_set().insert(s[i as int])) by {
                assert forall|t: Seq<char>| s.take(i + 1).to_set().contains(t) implies s.take(i as int).to_set().insert(s[i as int]).contains(t) by {
                    let k = choose|k: int| 0 <= k < i + 1 && #[trigger] s.take(i + 1)[k] == t;
                    if k < i {
                        assert(s.take(i as int)[k] == t);
                    }
                }
                assert forall|t: Seq<char>| s.take(i as int).to_set().insert(s[i as int]).contains(t) implies s.take(i + 1).to_set().contains(t) by {
                    if t == s[i as int] {
                        assert(s.take(i + 1)[i as int] == t);
                    } else {
                        let k = choose|k: int| 0 <= k < i && #[trigger] s.take(i as int)[k] == t;
                        assert(s.take(i + 1)[k] == t);
                    }
                }
            }
        }
        i = i + 1;
    }
    assert(strs(source@).take(source.len() as int) =~= strs(source@));
    out
}

/// Two strictly ascending sequences with the same elements are equal.
pub proof fn lemma_sorted_unique(a: Seq<Seq<char>>, b: Seq<Seq<char>>)
    requires
        strictly_sorted(a),
        strictly_sorted(b),
        a.to_set() == b.to_set(),
    ensures
        a == b,
    decreases a.len(),
{
    if a.len() == 0 {
        if b.len() > 0 {
            assert(b.to_set().contains(b[0]));
        }
        assert(b.len() == 0);
    } else {
        assert(a.to_set().contains(a[0]));
        assert(b.to_set().contains(a[0]));
        let j = choose|j: int| 0 <= j < b.len() && b[j] == a[0];
        assert(b.to_set().contains(b[0]));
        let i = choose|i: int| 0 <= i < a.len() && a[i] == b[0];
        if i > 0 && j > 0 {
            assert(chars_lt(a[0], a[i]));
            assert(chars_lt(b[0], b[j]));
            lemma_chars_lt_transitive(a[0], b[0], a[0]);
            lemma_chars_lt_irreflexive(a[0]);
        }
        assert(a[0] == b[0]) by {
            if i == 0 {
            } else {
                assert(j == 0);
            }
        }
        let a1 = a.drop_first();
        let b1 = b.drop_first();
        assert(strictly_sorted(a1)) by {
            assert forall|p: int, q: int| 0 <= p < q < a1.len() implies chars_lt(#[trigger] a1[p], #[trigger] a1[q]) by {
                assert(a1[p] == a[p + 1] && a1[q] == a[q + 1]);
            }
        }
        assert(strictly_sorted(b1)) by {
            assert forall|p: int, q: int| 0 <= p < q < b1.len() implies chars_lt(#[trigger] b1[p], #[trigger] b1[q]) by {
                assert(b1[p] == b[p + 1] && b1[q] == b[q + 1]);
            }
        }
        assert(a1.to_set() =~= b1.to_set()) by {
            assert forall|x: Seq<char>| a1.to_set().contains(x) implies b1.to_set().contains(x) by {
                let p = choose|p: int| 0 <= p < a1.len() && a1[p] == x;
                assert(a[p + 1] == x);
                assert(chars_lt(a[0], x));
                lemma_chars_lt_irreflexive(x);
                assert(b.to_set().contains(x));
                let q = choose|q: int| 0 <= q < b.len() && b[q] == x;
                assert(q != 0);
                assert(b1[q - 1] == x);
            }
            assert forall|x: Seq<char>| b1.to_set().contains(x) implies a1.to_set().contains(x) by {
                let p = choose|p: int| 0 <= p < b1.len() && b1[p] == x;
                assert(b[p + 1] == x);
                assert(chars_lt(b[0], x));
                lemma_chars_lt_irreflexive(x);
                assert(a.to_set().contains(x));
                let q = choose|q: int| 0 <= q < a.len() && a[q] == x;
                assert(q != 0);
                assert(a1[q - 1] == x);
            }
        }
        lemma_sorted_unique(a1, b1);
        assert(a =~= seq![a[0]] + a1);
        assert(b =~= seq![b[0]] + b1);
    }
}

} // verus!
