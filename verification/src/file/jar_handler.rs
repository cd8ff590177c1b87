//! Which entries of a mod archive a run translates, and the names of their
//! counterparts in other languages, and the texts an entry gives.
use vstd::prelude::*;
use crate::file::json_handler::{items_of_json, json_file_task, key_opt, parsed_or_null, sibling_pairs_of, walk_strings};
use crate::json::{parses_as_json, spec_parse_json};
use crate::translation::batching::GlobalBatchItem;
use crate::file::plan::opt_view;
use crate::text::{chars_eq, chars_eq_str, chars_of, contains_chars, contains_str, ends_with_chars, ends_with_str, extend_str, occurs_in, replace_all, replace_all_chars, string_of};

verus! {

/// `/<lang>/`, the folder of a language.
pub open spec fn lang_dir(lang: Seq<char>) -> Seq<char> {
    seq!['/'] + lang + seq!['/']
}

/// `<lang>.json`, the file of a language.
pub open spec fn lang_json(lang: Seq<char>) -> Seq<char> {
    lang + ".json"@
}

/// The name of an entry's counterpart in the language `lang`: in a
/// Patchouli book the language folder is swapped (`/en_us/` when the entry
/// has one, else the source's folder), elsewhere the language file name
/// (`en_us.json` when the entry ends with it, else the source's).
pub open spec fn spec_counterpart_name(name: Seq<char>, src: Seq<char>, lang: Seq<char>) -> Seq<char> {
    if occurs_in("patchouli_books/"@, name) {
        let from = if occurs_in("/en_us/"@, name) {
            "/en_us/"@
        } else {
            lang_dir(src)
        };
        replace_all(name, from, lang_dir(lang))
    } else {
        let from = if "en_us.json"@.is_suffix_of(name) {
            "en_us.json"@
        } else {
            lang_json(src)
        };
        replace_all(name, from, lang_json(lang))
    }
}

/// Whether an entry of an archive is translated. It is when it is a source
/// file: JSON named after the source language or inside its folder, or, for
/// a source other than English, English JSON whose source-language
/// counterpart the archive lacks. A Patchouli book page is left out when
/// books are skipped.
pub open spec fn spec_jar_entry_is_target(
    name: Seq<char>,
    names: Seq<Seq<char>>,
    src: Seq<char>,
    skip_book: bool,
) -> bool {
    let json = ".json"@.is_suffix_of(name);
    let is_book = occurs_in("patchouli_books"@, name) && (occurs_in(seq!['/'] + src, name) || occurs_in(
        "/en_us/"@,
        name,
    ));
    let actual = (lang_json(src).is_suffix_of(name) || occurs_in(lang_dir(src), name)) && json;
    let fallback = ("en_us.json"@.is_suffix_of(name) || occurs_in("/en_us/"@, name)) && json && src
        != "en_us"@;
    let source_name = if occurs_in("patchouli_books/"@, name) {
        replace_all(name, "/en_us/"@, lang_dir(src))
    } else {
        replace_all(name, "en_us.json"@, lang_json(src))
    };
    let is_source = actual || (fallback && !names.contains(source_name));
    is_source && !(is_book && skip_book)
}

fn lang_dir_exec(lang: &str) -> (r: Vec<char>)
    ensures
        r@ == lang_dir(lang@),
{
    let mut r: Vec<char> = Vec::new();
    r.push('/');
    extend_str(&mut r, lang);
    r.push('/');
    assert(r@ =~= lang_dir(lang@));
    r
}

fn lang_json_exec(lang: &str) -> (r: Vec<char>)
    ensures
        r@ == lang_json(lang@),
{
    let mut r = chars_of(lang);
    extend_str(&mut r, ".json");
    r
}

/// The name of an entry's counterpart in the language `lang` (see
/// `spec_counterpart_name`).
pub fn counterpart_name(name: &str, source_lang: &str, lang: &str) -> (r: String)
    ensures
        r@ == spec_counterpart_name(name@, source_lang@, lang@),
{
    proof {
        reveal_strlit("/en_us/");
        reveal_strlit("en_us.json");
        reveal_strlit(".json");
    }
    let n = chars_of(name);
    let out = if contains_str(&n, "patchouli_books/") {
        let from = if contains_str(&n, "/en_us/") {
            chars_of("/en_us/")
        } else {
            lang_dir_exec(source_lang)
        };
        replace_all_chars(&n, &from, &lang_dir_exec(lang))
    } else {
        let from = if ends_with_str(&n, "en_us.json") {
            chars_of("en_us.json")
        } else {
            lang_json_exec(source_lang)
        };
        replace_all_chars(&n, &from, &lang_json_exec(lang))
    };
    string_of(&out)
}

/// Whether an entry of an archive is translated, given the names of all
/// its entries (see `spec_jar_entry_is_target`).
pub fn jar_entry_is_target(name: &str, names: &Vec<String>, source_lang: &str, skip_book: bool) -> (r: bool)
    ensures
        r == spec_jar_entry_is_target(name@, names@.map_values(|s: String| s@), source_lang@, skip_book),
{
    proof {
        reveal_strlit("/en_us/");
        reveal_strlit("en_us.json");
    }
    let n = chars_of(name);
    let json = ends_with_str(&n, ".json");
    let mut slash_src: Vec<char> = Vec::new();
    slash_src.push('/');
    extend_str(&mut slash_src, source_lang);
    assert(slash_src@ =~= seq!['/'] + source_lang@);
    let is_book = contains_str(&n, "patchouli_books") && (contains_chars(&n, &slash_src) || contains_str(
        &n,
        "/en_us/",
    ));
    let src_json = lang_json_exec(source_lang);
    let src_dir = lang_dir_exec(source_lang);
    let actual = (ends_with_chars(&n, &src_json) || contains_chars(&n, &src_dir)) && json;
    let fallback = (ends_with_str(&n, "en_us.json") || contains_str(&n, "/en_us/")) && json
        && !chars_eq_str(&chars_of(source_lang), "en_us");
    let mut is_source = actual;
    if !actual && fallback {
        let source_name = if contains_str(&n, "patchouli_books/") {
            replace_all_chars(&n, &chars_of("/en_us/"), &src_dir)
        } else {
            replace_all_chars(&n, &chars_of("en_us.json"), &src_json)
        };
        let ghost nv = names@.map_values(|s: String| s@);
        let mut present = false;
        let mut i: usize = 0;
        while i < names.len()
            invariant
                nv == names@.map_values(|s: String| s@),
                i <= names.len(),
                present == nv.take(i as int).contains(source_name@),
            decreases names.len() - i,
        {
            assert(nv.take(i + 1) =~= nv.take(i as int).push(nv[i as int]));
            assert(nv[i as int] == names@[i as int]@);
            proof {
                let t = nv.take(i as int);
                let t1 = nv.take(i + 1);
                if t1.contains(source_name@) {
                    let w = choose|w: int| 0 <= w < i + 1 && #[trigger] t1[w] == source_name@;
                    if w < i {
                        assert(t[w] == source_name@);
                    }
                }
                if t.contains(source_name@) {
                    let w = choose|w: int| 0 <= w < i && #[trigger] t[w] == source_name@;
                    assert(t1[w] == source_name@);
                }
                if nv[i as int] == source_name@ {
                    assert(t1[i as int] == source_name@);
                }
            }
            if chars_eq(&chars_of(names[i].as_str()), &source_name) {
                present = true;
            }
            i = i + 1;
        }
        assert(nv.take(names.len() as int) =~= nv);
        is_source = !present;
    }
    is_source && !(is_book && skip_book)
}

/// The items of an entry of an archive, given the names of all its entries,
/// its text, and the texts of its target-language and sibling counterparts
/// where they are in the archive (see `counterpart_name`): none when the
/// entry is not taken up (see `spec_jar_entry_is_target`) or is not JSON;
/// else what `json_file_task` gives for it, named by the entry, with
/// translation memory used.
pub fn jar_entry_task(
    entry_name: &str,
    names: &Vec<String>,
    source_lang: &str,
    skip_book: bool,
    content: &str,
    target_content: Option<&str>,
    sibling_content: Option<&str>,
    file_id: usize,
) -> (r: Option<Option<Vec<GlobalBatchItem>>>)
    ensures
        r is None <==> !spec_jar_entry_is_target(entry_name@, names@.map_values(|s: String| s@), source_lang@, skip_book)
            || !parses_as_json(content@),
        r matches Some(o) ==> {
            let w = walk_strings(spec_parse_json(content@)->0, parsed_or_null(key_opt(target_content)), None, false);
            &&& (o is None <==> w.0.len() == 0 && w.1.len() == 0)
            &&& o matches Some(items) ==> items_of_json(
                items@,
                w.0,
                w.1,
                file_id,
                entry_name@,
                sibling_pairs_of(key_opt(sibling_content)),
            )
        },
{
    if !jar_entry_is_target(entry_name, names, source_lang, skip_book) {
        return None;
    }
    match json_file_task(content, target_content, sibling_content, file_id, entry_name, false) {
        Ok(o) => Some(o),
        Err(_) => None,
    }
}


/// An archive entry as read: its name, its text, and the texts of its
/// target-language and sibling entries when the archive has them.
pub type JarEntryText = (String, String, Option<String>, Option<String>);

/// A text, if any, as a borrowed slice.
fn opt_str(t: &Option<String>) -> (r: Option<&str>)
    ensures
        key_opt(r) == opt_view(*t),
{
    match t {
        Some(x) => Some(x.as_str()),
        None => None,
    }
}

/// Whether an entry counts as a file of the run: a language entry the run
/// takes up whose text is JSON.
pub open spec fn jar_entry_taken(e: JarEntryText, names: Seq<Seq<char>>, source_lang: Seq<char>, skip_book: bool) -> bool {
    spec_jar_entry_is_target(e.0@, names, source_lang, skip_book) && parses_as_json(e.1@)
}

/// How many of the first `k` entries count as files.
pub open spec fn jar_taken_count(
    es: Seq<JarEntryText>,
    names: Seq<Seq<char>>,
    source_lang: Seq<char>,
    skip_book: bool,
    k: int,
) -> nat
    decreases k,
{
    if k <= 0 {
        0
    } else {
        jar_taken_count(es, names, source_lang, skip_book, k - 1) + if jar_entry_taken(
            es[k - 1],
            names,
            source_lang,
            skip_book,
        ) {
            1nat
        } else {
            0nat
        }
    }
}

/// The strings an entry's text gives (see `walk_strings`).
pub open spec fn jar_entry_walk(e: JarEntryText) -> (Seq<(Seq<char>, Seq<char>)>, Seq<(Seq<char>, Seq<char>, Seq<char>)>) {
    walk_strings(spec_parse_json(e.1@)->0, parsed_or_null(opt_view(e.2)), None, false)
}

/// The entries of an archive read into items, one result per entry: the
/// entries that count as files (see `jar_entry_taken`) are numbered from
/// `first_file_id` in order; such an entry with strings to translate or
/// prefill gives its number and items (see `jar_entry_task`), any other
/// entry nothing. The first result is how many numbers were used.
pub fn jar_entry_tasks(
    entries: &Vec<JarEntryText>,
    names: &Vec<String>,
    source_lang: &str,
    skip_book: bool,
    first_file_id: usize,
) -> (r: (usize, Vec<Option<(usize, Vec<GlobalBatchItem>)>>))
    requires
        first_file_id + entries@.len() <= usize::MAX,
    ensures
        ({
            let nv = names@.map_values(|s: String| s@);
            &&& r.0 == jar_taken_count(entries@, nv, source_lang@, skip_book, entries@.len() as int)
            &&& r.1@.len() == entries@.len()
            &&& forall|k: int| 0 <= k < entries@.len() ==> {
                let e = #[trigger] entries@[k];
                let w = jar_entry_walk(e);
                &&& (r.1@[k] is Some <==> jar_entry_taken(e, nv, source_lang@, skip_book) && !(w.0.len() == 0
                    && w.1.len() == 0))
                &&& r.1@[k] matches Some((id, items)) ==> {
                    &&& id == first_file_id + jar_taken_count(entries@, nv, source_lang@, skip_book, k)
                    &&& items_of_json(items@, w.0, w.1, id, e.0@, sibling_pairs_of(opt_view(e.3)))
                }
            }
        }),
{
    let ghost nv = names@.map_values(|s: String| s@);
    let mut out: Vec<Option<(usize, Vec<GlobalBatchItem>)>> = Vec::new();
    let mut used: usize = 0;
    let mut k: usize = 0;
    while k < entries.len()
        invariant
            k <= entries@.len(),
            nv == names@.map_values(|s: String| s@),
            first_file_id + entries@.len() <= usize::MAX,
            used == jar_taken_count(entries@, nv, source_lang@, skip_book, k as int),
            used <= k,
            out@.len() == k,
            forall|j: int| 0 <= j < k ==> {
                let e = #[trigger] entries@[j];
                let w = jar_entry_walk(e);
                &&& (out@[j] is Some <==> jar_entry_taken(e, nv, source_lang@, skip_book) && !(w.0.len() == 0
                    && w.1.len() == 0))
                &&& out@[j] matches Some((id, items)) ==> {
                    &&& id == first_file_id + jar_taken_count(entries@, nv, source_lang@, skip_book, j)
                    &&& items_of_json(items@, w.0, w.1, id, e.0@, sibling_pairs_of(opt_view(e.3)))
                }
            },
        decreases entries.len() - k,
    {
        let e = &entries[k];
        let id = first_file_id + used;
        let t = jar_entry_task(
            e.0.as_str(),
            names,
            source_lang,
            skip_book,
            e.1.as_str(),
            opt_str(&e.2),
            opt_str(&e.3),
            id,
        );
        match t {
            Some(Some(items)) => {
                out.push(Some((id, items)));
                used = used + 1;
            },
            Some(None) => {
                out.push(None);
                used = used + 1;
            },
            None => {
                out.push(None);
            },
        }
        k = k + 1;
    }
    (used, out)
}

} // verus!
