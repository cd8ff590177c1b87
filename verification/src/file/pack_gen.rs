//! Where a translated file is written. A file taken from an archive carries
//! the mark `[BUNDLE]` before its path; language JSON of an archive, and
//! JSON that already stands in a resource-pack layout, goes into the
//! resource pack being built, renamed to the target language; every other
//! file is mirrored beside it.
use vstd::prelude::*;
use crate::file::pipeline::{forward_slashes, forward_slashes_exec};
use crate::file::paths::{dir_of, is_plain_path, is_rooted_plain, lemma_rooted_dir, plain_part, keep_normal_components, last_segment, lemma_plain_parts, path_file_name, path_is_absolute, path_parent, plain_parent_name, safe_name, split_slash, path_join, plain_name};
use crate::file::plan::opt_view;
use crate::translation::job::JobConfig;
use crate::text::{
    join,
    chars_eq, chars_of, contains_str, ends_with_chars, ends_with_str, extend_chars, extend_str,
    last_index_of, last_index_of_exec, occurs_in, replace_all, replace_all_chars, starts_with_str,
    string_of, sub_chars,
};

verus! {

/// The path of a file with the archive mark taken off.
pub open spec fn clean_name(name: Seq<char>) -> Seq<char> {
    if "[BUNDLE]"@.is_prefix_of(name) {
        name.skip("[BUNDLE]"@.len() as int)
    } else {
        name
    }
}

/// A language file's name for the target language: the source language's
/// file becomes the target's, any other name stays.
pub open spec fn lang_file_name(f: Seq<char>, src: Seq<char>, tgt: Seq<char>) -> Seq<char> {
    if f == src + ".json"@ {
        tgt + ".json"@
    } else {
        f
    }
}

/// The path a translated file is written to, before anything but plain
/// components is dropped from it. `name` is the file's key (with the archive
/// mark, if any); `is_absolute`, `has_parent`, `file_name` and
/// `parent_name` describe the unmarked path as the platform splits it (the
/// last is the name of its folder).
///
/// In the path, with forward slashes: a JSON file whose name ends with the
/// source language's file name has every such name replaced by the target's.
/// A JSON file of an archive given without folders, or by an absolute path,
/// is placed at `assets/<folder name>/lang/<name>` (`unknown` when the
/// folder has no name; the name turned into the target's). Then, for JSON,
/// under `patchouli_books/` every `/<source>` becomes `/<target>`, and a
/// file in a `lang/` folder becomes `<target>.json`.
pub open spec fn spec_output_path(
    name: Seq<char>,
    src: Seq<char>,
    tgt: Seq<char>,
    is_absolute: bool,
    has_parent: bool,
    file_name: Option<Seq<char>>,
    parent_name: Option<Seq<char>>,
) -> Seq<char> {
    let bundle = "[BUNDLE]"@.is_prefix_of(name);
    let unix = forward_slashes(clean_name(name));
    let is_json = ".json"@.is_suffix_of(unix);
    let src_json = src + ".json"@;
    let tgt_json = tgt + ".json"@;
    let renamed = if is_json && src_json.is_suffix_of(unix) {
        replace_all(unix, src_json, tgt_json)
    } else {
        unix
    };
    let placed = if (is_absolute || !occurs_in("/"@, unix)) && is_json && bundle {
        if has_parent && file_name is Some {
            let f = lang_file_name(file_name->0, src, tgt);
            match parent_name {
                Some(m) => "assets/"@ + m + "/lang/"@ + f,
                None => "assets/unknown/lang/"@ + f,
            }
        } else {
            "assets/unknown/lang/"@ + lang_file_name(last_segment(unix), src, tgt)
        }
    } else {
        renamed
    };
    if is_json {
        if occurs_in("patchouli_books/"@, placed) {
            replace_all(placed, seq!['/'] + src, seq!['/'] + tgt)
        } else {
            match last_index_of(placed, '/') {
                Some(i) => if "lang/"@.is_suffix_of(placed.take(i + 1)) {
                    placed.take(i + 1) + tgt_json
                } else {
                    placed
                },
                None => placed,
            }
        }
    } else {
        placed
    }
}

/// Whether a translated file goes into the resource pack: it is JSON, and
/// it comes from an archive or already stands under `assets/` or in a
/// `patchouli_books/` folder.
pub open spec fn spec_goes_in_pack(name: Seq<char>) -> bool {
    let unix = forward_slashes(clean_name(name));
    &&& ".json"@.is_suffix_of(unix)
    &&& "[BUNDLE]"@.is_prefix_of(name) || "assets/"@.is_prefix_of(unix) || occurs_in(
        "patchouli_books/"@,
        unix,
    )
}

fn clean_name_exec(name: &Vec<char>) -> (r: Vec<char>)
    ensures
        r@ == clean_name(name@),
{
    if starts_with_str(name, "[BUNDLE]") {
        let mark = chars_of("[BUNDLE]");
        sub_chars(name, mark.len(), name.len())
    } else {
        let mut r: Vec<char> = Vec::new();
        extend_chars(&mut r, name);
        r
    }
}

fn concat_str(a: &str, b: &Vec<char>) -> (r: Vec<char>)
    ensures
        r@ == a@ + b@,
{
    let mut r = chars_of(a);
    extend_chars(&mut r, b);
    r
}

fn lang_file_name_exec(f: &Vec<char>, src: &str, tgt: &str) -> (r: Vec<char>)
    ensures
        r@ == lang_file_name(f@, src@, tgt@),
{
    let mut s = chars_of(src);
    extend_str(&mut s, ".json");
    if chars_eq(f, &s) {
        let mut t = chars_of(tgt);
        extend_str(&mut t, ".json");
        t
    } else {
        let mut r: Vec<char> = Vec::new();
        extend_chars(&mut r, f);
        r
    }
}

/// The path a translated file is written to, given how the platform splits
/// its unmarked path (see `spec_output_path`).
pub fn output_path_from_parts(
    name: &str,
    source_lang: &str,
    target_lang: &str,
    is_absolute: bool,
    has_parent: bool,
    file_name: Option<String>,
    parent_name: Option<String>,
) -> (r: String)
    ensures
        r@ == spec_output_path(
            name@,
            source_lang@,
            target_lang@,
            is_absolute,
            has_parent,
            opt_view(file_name),
            opt_view(parent_name),
        ),
{
    proof {
        reveal_strlit(".json");
    }
    let nv = chars_of(name);
    let bundle = starts_with_str(&nv, "[BUNDLE]");
    let unix = forward_slashes_exec(&clean_name_exec(&nv));
    let is_json = ends_with_str(&unix, ".json");
    let mut src_json = chars_of(source_lang);
    extend_str(&mut src_json, ".json");
    let mut tgt_json = chars_of(target_lang);
    extend_str(&mut tgt_json, ".json");
    let placed: Vec<char> = if (is_absolute || !contains_str(&unix, "/")) && is_json && bundle {
        match (has_parent, file_name) {
            (true, Some(f)) => {
                let lf = lang_file_name_exec(&chars_of(f.as_str()), source_lang, target_lang);
                match parent_name {
                    Some(m) => {
                        let mut p = concat_str("assets/", &chars_of(m.as_str()));
                        extend_str(&mut p, "/lang/");
                        extend_chars(&mut p, &lf);
                        p
                    },
                    None => concat_str("assets/unknown/lang/", &lf),
                }
            },
            _ => {
                let ul: usize = unix.len();
                let seg = match last_index_of_exec(&unix, '/') {
                    Some(i) => {
                        assert(i < ul);
                        sub_chars(&unix, i + 1, unix.len())
                    },
                    None => sub_chars(&unix, 0, unix.len()),
                };
                assert(unix@.subrange(0, unix@.len() as int) =~= unix@);
                proof {
                    if let Some(i) = last_index_of(unix@, '/') {
                        assert(unix@.subrange(i + 1, unix@.len() as int) =~= unix@.skip(i + 1));
                    }
                }
                concat_str("assets/unknown/lang/", &lang_file_name_exec(&seg, source_lang, target_lang))
            },
        }
    } else if is_json && ends_with_chars(&unix, &src_json) {
        replace_all_chars(&unix, &src_json, &tgt_json)
    } else {
        sub_chars(&unix, 0, unix.len())
    };
    assert(unix@.subrange(0, unix@.len() as int) =~= unix@);
    let out: Vec<char> = if is_json {
        if contains_str(&placed, "patchouli_books/") {
            let mut a: Vec<char> = Vec::new();
            a.push('/');
            extend_str(&mut a, source_lang);
            let mut b: Vec<char> = Vec::new();
            b.push('/');
            extend_str(&mut b, target_lang);
            assert(a@ =~= seq!['/'] + source_lang@);
            assert(b@ =~= seq!['/'] + target_lang@);
            replace_all_chars(&placed, &a, &b)
        } else {
            let pl: usize = placed.len();
            match last_index_of_exec(&placed, '/') {
                Some(i) => {
                    assert(i < pl);
                    let dir = sub_chars(&placed, 0, i + 1);
                    assert(dir@ =~= placed@.take(i + 1));
                    if ends_with_str(&dir, "lang/") {
                        let mut d = dir;
                        extend_chars(&mut d, &tgt_json);
                        d
                    } else {
                        placed
                    }
                },
                None => placed,
            }
        }
    } else {
        placed
    };
    string_of(&out)
}

/// Whether a translated file goes into the resource pack (see
/// `spec_goes_in_pack`).
pub fn goes_in_pack(name: &str) -> (r: bool)
    ensures
        r == spec_goes_in_pack(name@),
{
    let nv = chars_of(name);
    let unix = forward_slashes_exec(&clean_name_exec(&nv));
    ends_with_str(&unix, ".json") && (starts_with_str(&nv, "[BUNDLE]") || starts_with_str(&unix, "assets/")
        || contains_str(&unix, "patchouli_books/"))
}

/// The path of `spec_output_path` for a file whose unmarked path is plain,
/// alone or after one `/` (see `plain_part`), as std splits it: its file
/// name and its folder's name the names around its last `/`; `is_absolute`
/// as the platform says.
pub open spec fn plain_output_path(name: Seq<char>, src: Seq<char>, tgt: Seq<char>, is_absolute: bool) -> Seq<char> {
    let q = plain_part(clean_name(name))->0;
    spec_output_path(name, src, tgt, is_absolute, true, Some(last_segment(q)), plain_parent_name(q))
}

/// Where a translated file is written, relative to the output folder, and
/// whether it goes into the resource pack. The path is that of
/// `spec_output_path` for the unmarked path as the platform splits it, with
/// only its normal components kept, joined by the platform's separator: no
/// root, prefix, `.` or `..` is left, so the file stays inside the output
/// folder. For a plain unmarked path whose output path is plain, the
/// components are the names of `plain_output_path`.
pub fn output_destination(name: &str, source_lang: &str, target_lang: &str) -> (r: (String, bool))
    ensures
        r.1 == spec_goes_in_pack(name@),
        exists|names: Seq<Seq<char>>, sep: char, abs: bool|
            #![trigger join(names, seq![sep]), plain_output_path(name@, source_lang@, target_lang@, abs)]
            {
                &&& sep == '/' || sep == '\\'
                &&& r.0@ == join(names, seq![sep])
                &&& forall|k: int| 0 <= k < names.len() ==> safe_name(#[trigger] names[k])
                &&& is_plain_path(clean_name(name@)) ==> !abs
                &&& plain_part(clean_name(name@)) is Some ==> {
                    let out = plain_output_path(name@, source_lang@, target_lang@, abs);
                    &&& is_plain_path(out) ==> names == split_slash(out)
                    &&& is_rooted_plain(out) ==> names == split_slash(out.drop_first())
                }
            },
{
    let clean = string_of(&clean_name_exec(&chars_of(name)));
    let abs = path_is_absolute(clean.as_str());
    let parent = path_parent(clean.as_str());
    let file = path_file_name(clean.as_str());
    let has_parent = parent.is_some();
    let parent_name = match &parent {
        Some(d) => path_file_name(d.as_str()),
        None => None,
    };
    let ghost fv = opt_view(file);
    let ghost mv = opt_view(parent_name);
    proof {
        if is_plain_path(clean@) {
            lemma_plain_parts(clean@);
            if last_index_of(clean@, '/') is Some {
                lemma_plain_parts(dir_of(clean@));
            }
        } else if is_rooted_plain(clean@) {
            lemma_plain_parts(clean@.drop_first());
            lemma_rooted_dir(clean@.drop_first());
        }
    }
    let path = output_path_from_parts(name, source_lang, target_lang, abs, has_parent, file, parent_name);
    assert(spec_output_path(name@, source_lang@, target_lang@, abs, has_parent, fv, mv) == path@);
    assert(plain_part(clean@) is Some ==> path@ == plain_output_path(name@, source_lang@, target_lang@, abs));
    let out = keep_normal_components(path.as_str());
    proof {
        let (names, sep) = choose|names: Seq<Seq<char>>, sep: char|
            {
                &&& sep == '/' || sep == '\\'
                &&& out@ == join(names, seq![sep])
                &&& forall|k: int| 0 <= k < names.len() ==> safe_name(#[trigger] names[k])
                &&& path@.len() == 0 ==> names.len() == 0
                &&& is_plain_path(path@) ==> names == split_slash(path@)
                &&& is_rooted_plain(path@) ==> names == split_slash(path@.drop_first())
            };
        let _ = plain_output_path(name@, source_lang@, target_lang@, abs);
        assert(out@ == join(names, seq![sep]));
    }
    (out, goes_in_pack(name))
}


/// The folder a job writes to: `LLMTranslator` in the configured output
/// folder, or in the working folder `.` when none is set (see `path_join`).
pub fn get_output_dir(config: &JobConfig) -> (r: String)
    ensures
        ({
            let base = if config.output_dir@.len() == 0 {
                seq!['.']
            } else {
                config.output_dir@
            };
            (is_plain_path(base) || is_rooted_plain(base)) ==> exists|sep: char|
                (sep == '/' || sep == '\\') && r@ == base + seq![sep] + "LLMTranslator"@
        }),
{
    proof {
        reveal_strlit("LLMTranslator");
        reveal_strlit(".");
        let n = "LLMTranslator"@;
        assert forall|i: int| 0 <= i < n.len() implies n[i] != '/' && n[i] != '\\' && n[i] != ':' by {}
        assert(n.len() == 13);
        assert(!n.contains('/'));
        assert(!n.contains('\\'));
        assert(!n.contains(':'));
        assert(n != seq!['.']);
        assert(n != seq!['.', '.']);
        assert(plain_name(n));
    }
    let r = if config.output_dir.as_str().unicode_len() == 0 {
        path_join(".", "LLMTranslator")
    } else {
        path_join(config.output_dir.as_str(), "LLMTranslator")
    };
    proof {
        let base = if config.output_dir@.len() == 0 {
            seq!['.']
        } else {
            config.output_dir@
        };
        assert(base == (if config.output_dir@.len() == 0 { "."@ } else { config.output_dir@ }));
        if is_plain_path(base) || is_rooted_plain(base) {
            let sep = r@[base.len() as int];
            assert((sep == '/' || sep == '\\') && r@ == base + seq![sep] + "LLMTranslator"@);
        }
    }
    r
}

} // verus!
