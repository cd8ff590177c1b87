//! The decisions of a translation run over files: which files are left out,
//! how a group of files is labelled and listed in the log, the glossary
//! table of a run and the keys its results are kept under.
use vstd::prelude::*;
use crate::config::dictionary::{insert_sorted_unique, strictly_sorted};
use crate::config::settings::strs;
use crate::file::plan::{extension_of, file_extension, opt_view};
use crate::translation::job::JobConfig;
use crate::data_processing::{first_value, inserted_value, insert_pairs};
use crate::file::paths::{dir_of, is_plain_path, is_rooted_plain, lemma_rooted_dir, plain_folder, plain_part, rooted_dir, last_segment, lemma_plain_parts, path_file_name, path_parent, plain_parent_name};
use crate::text::{chars_eq_str, last_index_of, join, join_chars, chars_eq, chars_of, contains_chars, contains_str, ends_with_str, extend_chars, extend_str, find_from, find_from_exec, lemma_find_from, occurs_in, spec_to_lowercase, string_of, sub_chars, to_lowercase};

verus! {

/// Where a file of a translation run stands.
pub enum FileStatus {
    Pending,
    Processing(String),
    Completed(String),
    Skipped(String),
    Error(String),
}

// ---------------------------------------------------------------------------
// Paths left out of a run
// ---------------------------------------------------------------------------

/// `s` with every backslash turned into a slash.
pub open spec fn forward_slashes(s: Seq<char>) -> Seq<char> {
    s.map_values(|c: char| if c == '\\' { '/' } else { c })
}

/// A path as it is matched: lowercased, with forward slashes.
pub open spec fn normalize_path(s: Seq<char>) -> Seq<char> {
    forward_slashes(spec_to_lowercase(s))
}

/// A relative path is left out when its normalized form contains one of the
/// non-empty normalized excluded paths, or ends with `.theme2.json`.
pub open spec fn spec_is_excluded(rel: Seq<char>, excluded: Seq<Seq<char>>) -> bool {
    let n = normalize_path(rel);
    ||| exists|k: int|
        0 <= k < excluded.len() && normalize_path(#[trigger] excluded[k]).len() > 0 && occurs_in(
            normalize_path(excluded[k]),
            n,
        )
    ||| ".theme2.json"@.is_suffix_of(n)
}

pub(crate) fn forward_slashes_exec(s: &Vec<char>) -> (r: Vec<char>)
    ensures
        r@ == forward_slashes(s@),
{
    let mut r: Vec<char> = Vec::new();
    let mut i: usize = 0;
    while i < s.len()
        invariant
            i <= s.len(),
            r@ == forward_slashes(s@).take(i as int),
        decreases s.len() - i,
    {
        let c = s[i];
        r.push(if c == '\\' { '/' } else { c });
        i = i + 1;
        assert(r@ =~= forward_slashes(s@).take(i as int));
    }
    assert(forward_slashes(s@).take(s.len() as int) =~= forward_slashes(s@));
    r
}

fn normalize_path_exec(s: &str) -> (r: Vec<char>)
    ensures
        r@ == normalize_path(s@),
{
    let low = to_lowercase(s);
    forward_slashes_exec(&chars_of(low.as_str()))
}

/// Whether a relative path is left out of a run (see `spec_is_excluded`).
pub fn is_excluded_path(rel_path: &str, excluded: &Vec<String>) -> (r: bool)
    ensures
        r == spec_is_excluded(rel_path@, strs(excluded@)),
{
    let n = normalize_path_exec(rel_path);
    let ghost ex = strs(excluded@);
    let mut k: usize = 0;
    while k < excluded.len()
        invariant
            ex == strs(excluded@),
            n@ == normalize_path(rel_path@),
            k <= excluded.len(),
            forall|j: int|
                0 <= j < k ==> !(normalize_path(#[trigger] ex[j]).len() > 0 && occurs_in(
                    normalize_path(ex[j]),
                    n@,
                )),
        decreases excluded.len() - k,
    {
        let p = normalize_path_exec(excluded[k].as_str());
        assert(ex[k as int] == excluded@[k as int]@);
        if p.len() > 0 && contains_chars(&n, &p) {
            return true;
        }
        k = k + 1;
    }
    ends_with_str(&n, ".theme2.json")
}

// ---------------------------------------------------------------------------
// Language files of a run
// ---------------------------------------------------------------------------

/// The character with ASCII letters lowercased.
pub open spec fn ascii_lower(c: char) -> char {
    if 'A' <= c && c <= 'Z' {
        ((c as u32) + 32) as char
    } else {
        c
    }
}

/// Equal but for the case of ASCII letters (`str::eq_ignore_ascii_case`).
pub open spec fn eq_ignore_ascii_case(a: Seq<char>, b: Seq<char>) -> bool {
    a.len() == b.len() && forall|i: int| 0 <= i < a.len() ==> ascii_lower(#[trigger] a[i]) == ascii_lower(b[i])
}

fn ascii_lower_exec(c: char) -> (r: char)
    ensures
        r == ascii_lower(c),
{
    if 'A' <= c && c <= 'Z' {
        let b = c as u8;
        let l = (b + 32) as char;
        assert((l as u32) == (c as u32) + 32);
        l
    } else {
        c
    }
}

pub(crate) fn eq_ignore_ascii_case_exec(a: &Vec<char>, b: &Vec<char>) -> (r: bool)
    ensures
        r == eq_ignore_ascii_case(a@, b@),
{
    if a.len() != b.len() {
        return false;
    }
    let mut i: usize = 0;
    while i < a.len()
        invariant
            a.len() == b.len(),
            i <= a.len(),
            forall|j: int| 0 <= j < i ==> ascii_lower(#[trigger] a@[j]) == ascii_lower(b@[j]),
        decreases a.len() - i,
    {
        if ascii_lower_exec(a[i]) != ascii_lower_exec(b[i]) {
            return false;
        }
        i = i + 1;
    }
    true
}

/// Whether a JSON file of a run is taken up: in a `lang` folder only the
/// source language's file is; under `patchouli_books` a file inside the
/// target language's folder is not; every other is.
pub open spec fn spec_json_file_wanted(
    parent_name: Seq<char>,
    file_name: Seq<char>,
    rel_path: Seq<char>,
    source_lang: Seq<char>,
    target_lang: Seq<char>,
) -> bool {
    if eq_ignore_ascii_case(parent_name, "lang"@) {
        eq_ignore_ascii_case(file_name, source_lang + ".json"@)
    } else if occurs_in("patchouli_books"@, rel_path) {
        !(occurs_in(seq!['/'] + target_lang + seq!['/'], rel_path) || occurs_in(
            seq!['\\'] + target_lang + seq!['\\'],
            rel_path,
        ))
    } else {
        true
    }
}

/// Whether a JSON file, given its folder's name, its own name and its
/// relative path, is taken up (see `spec_json_file_wanted`).
pub fn json_file_wanted(
    parent_name: &str,
    file_name: &str,
    rel_path: &str,
    source_lang: &str,
    target_lang: &str,
) -> (r: bool)
    ensures
        r == spec_json_file_wanted(parent_name@, file_name@, rel_path@, source_lang@, target_lang@),
{
    let parent = chars_of(parent_name);
    let rel = chars_of(rel_path);
    if eq_ignore_ascii_case_exec(&parent, &chars_of("lang")) {
        let mut want = chars_of(source_lang);
        extend_str(&mut want, ".json");
        eq_ignore_ascii_case_exec(&chars_of(file_name), &want)
    } else if contains_str(&rel, "patchouli_books") {
        let mut a: Vec<char> = Vec::new();
        a.push('/');
        extend_str(&mut a, target_lang);
        a.push('/');
        let mut b: Vec<char> = Vec::new();
        b.push('\\');
        extend_str(&mut b, target_lang);
        b.push('\\');
        assert(a@ =~= seq!['/'] + target_lang@ + seq!['/']);
        assert(b@ =~= seq!['\\'] + target_lang@ + seq!['\\']);
        !(contains_chars(&rel, &a) || contains_chars(&rel, &b))
    } else {
        true
    }
}

/// What a run does with a file it was given.
#[derive(Clone, Copy, Debug, PartialEq, Eq, Structural)]
pub enum FileAction {
    /// Left out.
    Skip,
    /// Its strings are collected as a JSON language file.
    Json,
    /// Its strings are collected as a script.
    Js,
    /// Its entries are read as an archive.
    Jar,
}

/// The text of an optional name, empty when there is none.
pub open spec fn name_or_empty(n: Option<Seq<char>>) -> Seq<char> {
    match n {
        Some(t) => t,
        None => Seq::empty(),
    }
}

/// What a run does with a file, given its name and its folder's name (as
/// std splits its path), its relative path, the excluded paths and the
/// settings: a file whose relative path is excluded (see
/// `spec_is_excluded`) is left out; otherwise it goes by its extension
/// (`json`, `js`, `jar`, exactly so), unless that kind is switched off or,
/// for JSON, the file is not wanted (see `spec_json_file_wanted`); any
/// other file is left out.
pub open spec fn spec_file_action(
    file_name: Option<Seq<char>>,
    parent_name: Option<Seq<char>>,
    rel_path: Seq<char>,
    excluded: Seq<Seq<char>>,
    skip_json: bool,
    skip_js: bool,
    skip_jar: bool,
    source_lang: Seq<char>,
    target_lang: Seq<char>,
) -> FileAction {
    let ext = match file_name {
        Some(n) => name_or_empty(file_extension(n)),
        None => Seq::empty(),
    };
    if spec_is_excluded(rel_path, excluded) {
        FileAction::Skip
    } else if ext == "json"@ {
        if skip_json || !spec_json_file_wanted(
            name_or_empty(parent_name),
            name_or_empty(file_name),
            rel_path,
            source_lang,
            target_lang,
        ) {
            FileAction::Skip
        } else {
            FileAction::Json
        }
    } else if ext == "js"@ {
        if skip_js {
            FileAction::Skip
        } else {
            FileAction::Js
        }
    } else if ext == "jar"@ {
        if skip_jar {
            FileAction::Skip
        } else {
            FileAction::Jar
        }
    } else {
        FileAction::Skip
    }
}

/// What a run does with the file at `path` (relative path `rel_path`), see
/// `spec_file_action`, with the names std finds in the path; for a plain
/// path, the names around its last `/`.
pub fn file_action(path: &str, rel_path: &str, config: &JobConfig) -> (r: FileAction)
    ensures
        exists|file_name: Option<Seq<char>>, parent_name: Option<Seq<char>>|
            r == spec_file_action(
                file_name,
                parent_name,
                rel_path@,
                strs(config.excluded_paths@),
                config.skip_json,
                config.skip_js,
                config.skip_jar,
                config.source_lang@,
                config.target_lang@,
            ),
        plain_part(path@) matches Some(q) ==> r == spec_file_action(
            Some(last_segment(q)),
            plain_parent_name(q),
            rel_path@,
            strs(config.excluded_paths@),
            config.skip_json,
            config.skip_js,
            config.skip_jar,
            config.source_lang@,
            config.target_lang@,
        ),
{
    let file_name = path_file_name(path);
    let parent_name = match path_parent(path) {
        Some(d) => path_file_name(d.as_str()),
        None => None,
    };
    let ghost fv = opt_view(file_name);
    let ghost pv = opt_view(parent_name);
    proof {
        if is_plain_path(path@) {
            lemma_plain_parts(path@);
            if last_index_of(path@, '/') is Some {
                lemma_plain_parts(dir_of(path@));
            }
        } else if is_rooted_plain(path@) {
            lemma_plain_parts(path@.drop_first());
            lemma_rooted_dir(path@.drop_first());
        }
    }
    let excluded = is_excluded_path(rel_path, &config.excluded_paths);
    let ext: Vec<char> = match &file_name {
        Some(n) => match extension_of(&chars_of(n.as_str())) {
            Some(e) => e,
            None => Vec::new(),
        },
        None => Vec::new(),
    };
    let ghost ev = match fv {
        Some(n) => name_or_empty(file_extension(n)),
        None => Seq::<char>::empty(),
    };
    assert(ext@ == ev);
    let r = if excluded {
        FileAction::Skip
    } else if chars_eq_str(&ext, "json") {
        let pn = match &parent_name {
            Some(n) => n.clone(),
            None => String::new(),
        };
        let fname = match &file_name {
            Some(n) => n.clone(),
            None => String::new(),
        };
        if config.skip_json || !json_file_wanted(
            pn.as_str(),
            fname.as_str(),
            rel_path,
            config.source_lang.as_str(),
            config.target_lang.as_str(),
        ) {
            FileAction::Skip
        } else {
            FileAction::Json
        }
    } else if chars_eq_str(&ext, "js") {
        if config.skip_js {
            FileAction::Skip
        } else {
            FileAction::Js
        }
    } else if chars_eq_str(&ext, "jar") {
        if config.skip_jar {
            FileAction::Skip
        } else {
            FileAction::Jar
        }
    } else {
        FileAction::Skip
    };
    assert(r == spec_file_action(
        fv,
        pv,
        rel_path@,
        strs(config.excluded_paths@),
        config.skip_json,
        config.skip_js,
        config.skip_jar,
        config.source_lang@,
        config.target_lang@,
    ));
    r
}

// ---------------------------------------------------------------------------
// The file list of a group in the log
// ---------------------------------------------------------------------------

/// `<file>name</file>`.
pub open spec fn file_tag(f: Seq<char>) -> Seq<char> {
    "<file>"@ + f + "</file>"@
}

/// One line of up to five file names: a space, then the tagged names
/// separated by `, `.
pub open spec fn file_line(chunk: Seq<Seq<char>>) -> Seq<char> {
    seq![' '] + join(chunk.map_values(|f: Seq<char>| file_tag(f)), ", "@)
}

/// The file names in lines of five.
pub open spec fn chunk_lines(files: Seq<Seq<char>>) -> Seq<Seq<char>>
    decreases files.len(),
{
    if files.len() == 0 {
        Seq::empty()
    } else if files.len() <= 5 {
        seq![file_line(files)]
    } else {
        seq![file_line(files.take(5))] + chunk_lines(files.skip(5))
    }
}

/// The file lines of a folder: each lists one to five of its files, and the
/// lines together list all of them, in order.
pub proof fn law_file_lines_of_five(files: Seq<Seq<char>>) -> (chunks: Seq<Seq<Seq<char>>>)
    ensures
        chunks.len() == chunk_lines(files).len(),
        forall|k: int| 0 <= k < chunks.len() ==> 1 <= (#[trigger] chunks[k]).len() <= 5 && chunk_lines(files)[k]
            == file_line(chunks[k]),
        chunks.flatten() == files,
    decreases files.len(),
{
    if files.len() == 0 {
        Seq::empty()
    } else if files.len() <= 5 {
        let c = seq![files];
        assert(c.drop_first() =~= Seq::<Seq<Seq<char>>>::empty());
        assert(c.drop_first().flatten() =~= Seq::<Seq<char>>::empty());
        assert(c.flatten() =~= files);
        c
    } else {
        let rest = law_file_lines_of_five(files.skip(5));
        let c = seq![files.take(5)] + rest;
        assert(c.drop_first() =~= rest);
        assert(c.first() == files.take(5));
        assert(files.take(5) + files.skip(5) =~= files);
        assert forall|k: int| 0 <= k < c.len() implies 1 <= (#[trigger] c[k]).len() <= 5 && chunk_lines(files)[k]
            == file_line(c[k]) by {
            if k > 0 {
                assert(c[k] == rest[k - 1]);
                assert(chunk_lines(files)[k] == chunk_lines(files.skip(5))[k - 1]);
            }
        }
        c
    }
}

/// ` <dir>folder/</dir>`, a slash added when the folder lacks one.
pub open spec fn dir_line(d: Seq<char>) -> Seq<char> {
    " <dir>"@ + d + (if d.len() > 0 && d.last() == '/' {
        Seq::empty()
    } else {
        seq!['/']
    }) + "</dir>"@
}

/// The lines of a folder: its own line (none for the empty folder), then
/// its files.
pub open spec fn group_lines(d: Seq<char>, files: Seq<Seq<char>>) -> Seq<Seq<char>> {
    (if d.len() > 0 {
        seq![dir_line(d)]
    } else {
        Seq::empty()
    }) + chunk_lines(files)
}

/// The file names of the parts in folder `d`, in order.
pub open spec fn files_in(parts: Seq<(Seq<char>, Seq<char>)>, d: Seq<char>) -> Seq<Seq<char>>
    decreases parts.len(),
{
    if parts.len() == 0 {
        Seq::empty()
    } else if parts.last().0 == d {
        files_in(parts.drop_last(), d).push(parts.last().1)
    } else {
        files_in(parts.drop_last(), d)
    }
}

/// The folders, each once, in ascending order.
pub open spec fn sorted_dirs(parts: Seq<(Seq<char>, Seq<char>)>) -> Seq<Seq<char>> {
    choose|ds: Seq<Seq<char>>|
        strictly_sorted(ds) && ds.to_set() == parts.map_values(
            |p: (Seq<char>, Seq<char>)| p.0,
        ).to_set()
}

/// The lines of the folders `ds`, one folder after the other.
pub open spec fn all_group_lines(ds: Seq<Seq<char>>, parts: Seq<(Seq<char>, Seq<char>)>) -> Seq<
    Seq<char>,
>
    decreases ds.len(),
{
    if ds.len() == 0 {
        Seq::empty()
    } else {
        all_group_lines(ds.drop_last(), parts) + group_lines(ds.last(), files_in(parts, ds.last()))
    }
}

/// The log's list of files, from each file's (folder, name): the folders in
/// ascending order, each with its files in lines of five, all the lines
/// joined by newlines after a leading newline (nothing for no files).
pub open spec fn spec_shorten(parts: Seq<(Seq<char>, Seq<char>)>) -> Seq<char> {
    let lines = all_group_lines(sorted_dirs(parts), parts);
    if lines.len() == 0 {
        Seq::empty()
    } else {
        seq!['\n'] + join(lines, "\n"@)
    }
}

/// Character vectors' sequences.
pub open spec fn cviews(v: Seq<Vec<char>>) -> Seq<Seq<char>> {
    v.map_values(|x: Vec<char>| x@)
}

fn file_line_exec(files: &Vec<Vec<char>>, from: usize, to: usize) -> (r: Vec<char>)
    requires
        from <= to <= files.len(),
    ensures
        r@ == file_line(cviews(files@).subrange(from as int, to as int)),
{
    let ghost chunk = cviews(files@).subrange(from as int, to as int);
    let ghost tags = chunk.map_values(|f: Seq<char>| file_tag(f));
    let mut r: Vec<char> = Vec::new();
    r.push(' ');
    let mut m: usize = from;
    assert(tags.take(0) =~= Seq::<Seq<char>>::empty());
    while m < to
        invariant
            from <= m <= to <= files.len(),
            chunk == cviews(files@).subrange(from as int, to as int),
            tags == chunk.map_values(|f: Seq<char>| file_tag(f)),
            r@ == seq![' '] + join(tags.take(m - from), ", "@),
        decreases to - m,
    {
        let ghost k = m - from;
        assert(tags.take(k + 1).drop_last() =~= tags.take(k));
        assert(tags.take(k + 1).last() == file_tag(files@[m as int]@));
        if m > from {
            extend_str(&mut r, ", ");
        } else {
            assert(tags.take(1)[0] == file_tag(files@[m as int]@));
        }
        extend_str(&mut r, "<file>");
        extend_chars(&mut r, &files[m]);
        extend_str(&mut r, "</file>");
        proof {
            if m > from {
                assert(r@ =~= seq![' '] + (join(tags.take(k), ", "@) + ", "@ + file_tag(files@[m as int]@)));
            } else {
                assert(r@ =~= seq![' '] + file_tag(files@[m as int]@));
            }
        }
        m = m + 1;
    }
    assert(tags.take(to - from) =~= tags);
    r
}

fn chunk_lines_exec(files: &Vec<Vec<char>>, lines: &mut Vec<Vec<char>>)
    ensures
        cviews(final(lines)@) == cviews(old(lines)@) + chunk_lines(cviews(files@)),
{
    let ghost fv = cviews(files@);
    let mut i: usize = 0;
    assert(fv.skip(0) =~= fv);
    assert(cviews(lines@) + chunk_lines(fv.skip(0)) =~= cviews(old(lines)@) + chunk_lines(fv));
    while i < files.len()
        invariant
            fv == cviews(files@),
            i <= files.len(),
            cviews(lines@) + chunk_lines(fv.skip(i as int)) == cviews(old(lines)@) + chunk_lines(fv),
        decreases files.len() - i,
    {
        let j = if files.len() - i <= 5 {
            files.len()
        } else {
            i + 5
        };
        let line = file_line_exec(files, i, j);
        let ghost before = cviews(lines@);
        let ghost rest = fv.skip(i as int);
        lines.push(line);
        proof {
            assert(cviews(lines@) =~= before.push(line@));
            if rest.len() <= 5 {
                assert(rest =~= fv.subrange(i as int, j as int));
                assert(fv.skip(j as int).len() == 0);
                assert(chunk_lines(fv.skip(j as int)) =~= Seq::<Seq<char>>::empty());
                assert(before.push(line@) =~= before + chunk_lines(rest));
            } else {
                assert(rest.take(5) =~= fv.subrange(i as int, j as int));
                assert(rest.skip(5) =~= fv.skip(j as int));
                assert(before.push(line@) + chunk_lines(fv.skip(j as int)) =~= before + chunk_lines(rest));
            }
        }
        i = j;
    }
    assert(fv.skip(i as int).len() == 0);
    assert(cviews(lines@) + chunk_lines(fv.skip(i as int)) =~= cviews(lines@));
}

/// Pairs of strings as pairs of character sequences.
pub open spec fn part_views(v: Seq<(String, String)>) -> Seq<(Seq<char>, Seq<char>)> {
    v.map_values(|p: (String, String)| (p.0@, p.1@))
}

fn files_in_exec(parts: &Vec<(String, String)>, d: &String) -> (r: Vec<Vec<char>>)
    ensures
        cviews(r@) == files_in(part_views(parts@), d@),
{
    let ghost pv = part_views(parts@);
    let mut r: Vec<Vec<char>> = Vec::new();
    let mut i: usize = 0;
    assert(pv.take(0) =~= Seq::<(Seq<char>, Seq<char>)>::empty());
    while i < parts.len()
        invariant
            pv == part_views(parts@),
            i <= parts.len(),
            cviews(r@) == files_in(pv.take(i as int), d@),
        decreases parts.len() - i,
    {
        assert(pv.take(i + 1).drop_last() =~= pv.take(i as int));
        assert(pv.take(i + 1).last() == pv[i as int]);
        if parts[i].0 == *d {
            let f = chars_of(parts[i].1.as_str());
            let ghost before = cviews(r@);
            r.push(f);
            assert(cviews(r@) =~= before.push(f@));
        }
        i = i + 1;
    }
    assert(pv.take(parts.len() as int) =~= pv);
    r
}

fn dir_line_exec(d: &Vec<char>) -> (r: Vec<char>)
    ensures
        r@ == dir_line(d@),
{
    let mut r = chars_of(" <dir>");
    extend_chars(&mut r, d);
    if !(d.len() > 0 && d[d.len() - 1] == '/') {
        r.push('/');
    }
    extend_str(&mut r, "</dir>");
    assert(r@ =~= dir_line(d@));
    r
}

/// The log's list of files from each file's (folder, name) (see
/// `spec_shorten`).
pub fn shorten_from_parts(parts: &Vec<(String, String)>) -> (r: String)
    ensures
        r@ == spec_shorten(part_views(parts@)),
{
    let ghost pv = part_views(parts@);
    let ghost dirs = pv.map_values(|p: (Seq<char>, Seq<char>)| p.0);
    let mut ds: Vec<String> = Vec::new();
    let mut i: usize = 0;
    proof {
        assert(strs(ds@).to_set() =~= dirs.take(0).to_set());
    }
    while i < parts.len()
        invariant
            pv == part_views(parts@),
            dirs == pv.map_values(|p: (Seq<char>, Seq<char>)| p.0),
            i <= parts.len(),
            strictly_sorted(strs(ds@)),
            strs(ds@).to_set() == dirs.take(i as int).to_set(),
        decreases parts.len() - i,
    {
        let d = parts[i].0.clone();
        assert(d@ == dirs[i as int]);
        insert_sorted_unique(&mut ds, d);
        proof {
            assert(dirs.take(i + 1).to_set() =~= dirs.take(i as int).to_set().insert(dirs[i as int])) by {
                assert(dirs.take(i + 1) =~= dirs.take(i as int).push(dirs[i as int]));
                assert forall|t: Seq<char>| dirs.take(i + 1).to_set().contains(t) implies dirs.take(i as int).to_set().insert(dirs[i as int]).contains(t) by {
                    let k = choose|k: int| 0 <= k < i + 1 && #[trigger] dirs.take(i + 1)[k] == t;
                    if k < i {
                        assert(dirs.take(i as int)[k] == t);
                    }
                }
                assert forall|t: Seq<char>| dirs.take(i as int).to_set().insert(dirs[i as int]).contains(t) implies dirs.take(i + 1).to_set().contains(t) by {
                    if t == dirs[i as int] {
                        assert(dirs.take(i + 1)[i as int] == t);
                    } else {
                        let k = choose|k: int| 0 <= k < i && #[trigger] dirs.take(i as int)[k] == t;
                        assert(dirs.take(i + 1)[k] == t);
                    }
                }
            }
        }
        i = i + 1;
    }
    proof {
        assert(dirs.take(parts.len() as int) =~= dirs);
        let sd = sorted_dirs(pv);
        assert(strictly_sorted(strs(ds@)) && strs(ds@).to_set() == dirs.to_set());
        crate::config::dictionary::lemma_sorted_unique(sd, strs(ds@));
    }
    let ghost dv = strs(ds@);
    let mut lines: Vec<Vec<char>> = Vec::new();
    let mut k: usize = 0;
    assert(dv.take(0) =~= Seq::<Seq<char>>::empty());
    while k < ds.len()
        invariant
            pv == part_views(parts@),
            dv == strs(ds@),
            k <= ds.len(),
            cviews(lines@) == all_group_lines(dv.take(k as int), pv),
        decreases ds.len() - k,
    {
        assert(dv.take(k + 1).drop_last() =~= dv.take(k as int));
        assert(dv.take(k + 1).last() == ds@[k as int]@);
        let d = &ds[k];
        let dc = chars_of(d.as_str());
        let ghost before = cviews(lines@);
        if dc.len() > 0 {
            lines.push(dir_line_exec(&dc));
        }
        let files = files_in_exec(parts, d);
        let ghost mid = cviews(lines@);
        chunk_lines_exec(&files, &mut lines);
        proof {
            if dc@.len() > 0 {
                assert(mid =~= before + seq![dir_line(d@)]);
            } else {
                assert(mid =~= before);
            }
            assert(cviews(lines@) =~= before + group_lines(d@, files_in(pv, d@)));
        }
        k = k + 1;
    }
    assert(dv.take(ds.len() as int) =~= dv);
    if lines.len() == 0 {
        return String::new();
    }
    let mut out: Vec<char> = Vec::new();
    out.push('\n');
    let joined = join_chars(&lines, "\n");
    assert(lines@.map_values(|p: Vec<char>| p@) =~= cviews(lines@));
    extend_chars(&mut out, &joined);
    assert(out@ =~= seq!['\n'] + joined@);
    string_of(&out)
}

// ---------------------------------------------------------------------------
// Paths as std parses them
// ---------------------------------------------------------------------------

/// The list of files for the log: each path split by the platform into its
/// folder (with forward slashes) and its name (the whole path when it has
/// none), then listed as `spec_shorten` says. A plain path splits at its
/// last `/`.
pub fn shorten_rel_paths(paths: &[String]) -> (r: String)
    ensures
        exists|parts: Seq<(Seq<char>, Seq<char>)>|
            {
                &&& parts.len() == paths@.len()
                &&& forall|k: int| 0 <= k < parts.len() ==> !(#[trigger] parts[k]).0.contains('\\')
                &&& forall|k: int|
                    0 <= k < parts.len() && (#[trigger] plain_part(paths@[k]@)) is Some ==> parts[k] == (
                        plain_folder(paths@[k]@),
                        last_segment(plain_part(paths@[k]@)->0),
                    )
                &&& r@ == spec_shorten(parts)
            },
        paths@.len() == 0 ==> r@.len() == 0,
{
    let mut parts: Vec<(String, String)> = Vec::new();
    let mut i: usize = 0;
    while i < paths.len()
        invariant
            i <= paths.len(),
            parts@.len() == i,
            forall|k: int| 0 <= k < i ==> !(#[trigger] part_views(parts@)[k]).0.contains('\\'),
            forall|k: int|
                0 <= k < i && (#[trigger] plain_part(paths@[k]@)) is Some ==> part_views(parts@)[k] == (
                    plain_folder(paths@[k]@),
                    last_segment(plain_part(paths@[k]@)->0),
                ),
        decreases paths.len() - i,
    {
        let dir = match path_parent(paths[i].as_str()) {
            Some(d) => d,
            None => String::new(),
        };
        let dirv = forward_slashes_exec(&chars_of(dir.as_str()));
        let file = match path_file_name(paths[i].as_str()) {
            Some(f) => f,
            None => paths[i].clone(),
        };
        proof {
            if dirv@.contains('\\') {
                let j = choose|j: int| 0 <= j < dirv@.len() && dirv@[j] == '\\';
                assert(forward_slashes(dir@)[j] == '\\');
            }
            if is_plain_path(paths@[i as int]@) {
                lemma_plain_parts(paths@[i as int]@);
                let pp = paths@[i as int]@;
                assert(dir@ == dir_of(pp));
                assert forall|j: int| 0 <= j < dir@.len() implies dir@[j] != '\\' by {
                    assert(pp[j] == dir@[j]);
                    assert(pp.contains(pp[j]));
                }
                assert(dirv@ =~= dir@);
            } else if is_rooted_plain(paths@[i as int]@) {
                let q = paths@[i as int]@.drop_first();
                lemma_plain_parts(q);
                lemma_rooted_dir(q);
                assert(dir@ == rooted_dir(q));
                assert forall|j: int| 0 <= j < dir@.len() implies dir@[j] != '\\' by {
                    assert(dir@.contains(dir@[j]));
                }
                assert(dirv@ =~= dir@);
            }
        }
        let ghost before = part_views(parts@);
        parts.push((string_of(&dirv), file));
        assert(part_views(parts@) =~= before.push((dirv@, file@)));
        i = i + 1;
    }
    let r = shorten_from_parts(&parts);
    proof {
        if paths@.len() == 0 {
            let pv = part_views(parts@);
            assert(pv =~= Seq::<(Seq<char>, Seq<char>)>::empty());
            let sd = sorted_dirs(pv);
            let e = Seq::<Seq<char>>::empty();
            assert(e.to_set() =~= pv.map_values(|p: (Seq<char>, Seq<char>)| p.0).to_set());
            assert(strictly_sorted(e));
            crate::config::dictionary::lemma_sorted_unique(sd, e);
        }
    }
    r
}

// ---------------------------------------------------------------------------
// The label of a group of files
// ---------------------------------------------------------------------------

/// The text up to its first slash.
pub open spec fn first_segment(s: Seq<char>) -> Seq<char> {
    match find_from(s, seq!['/'], 0) {
        Some(p) => s.take(p),
        None => s,
    }
}

/// The first folder after the first `marker` in `s`, if there is a marker
/// and the folder name is not empty.
pub open spec fn segment_after(s: Seq<char>, marker: Seq<char>) -> Option<Seq<char>> {
    match find_from(s, marker, 0) {
        Some(p) => {
            let seg = first_segment(s.skip(p + marker.len()));
            if seg.len() > 0 {
                Some(seg)
            } else {
                None
            }
        },
        None => None,
    }
}

/// The label of a group of files, from its path (with forward slashes), the
/// name of its folder and its own name: the mod id after `assets/`, else the
/// one after `data/`, else the folder's name (unless empty or `.`), else its
/// own name, else `Unknown`.
pub open spec fn spec_group_label(
    path: Seq<char>,
    parent_name: Option<Seq<char>>,
    file_name: Option<Seq<char>>,
) -> Seq<char> {
    let p = forward_slashes(path);
    if segment_after(p, "assets/"@) is Some {
        segment_after(p, "assets/"@)->0
    } else if segment_after(p, "data/"@) is Some {
        segment_after(p, "data/"@)->0
    } else if parent_name matches Some(n) && n.len() > 0 && n != seq!['.'] {
        parent_name->0
    } else {
        match file_name {
            Some(f) => f,
            None => "Unknown"@,
        }
    }
}

fn segment_after_exec(s: &Vec<char>, marker: &str) -> (r: Option<Vec<char>>)
    ensures
        match r {
            Some(v) => segment_after(s@, marker@) == Some(v@),
            None => segment_after(s@, marker@) is None,
        },
{
    let m = chars_of(marker);
    match find_from_exec(s, &m, 0) {
        Some(p) => {
            proof {
                lemma_find_from(s@, m@, 0);
                assert(find_from(s@, m@, 0) == Some(p as int));
                assert(crate::text::occurs_at(m@, s@, p as int));
                assert(p + m@.len() <= s@.len());
            }
            assert(p + m.len() <= s.len());
            let start = p + m.len();
            let after = sub_chars(s, start, s.len());
            assert(after@ =~= s@.skip(start as int));
            let slash: Vec<char> = vec!['/'];
            assert(slash@ =~= seq!['/']);
            let seg = match find_from_exec(&after, &slash, 0) {
                Some(q) => {
                    proof {
                        lemma_find_from(after@, slash@, 0);
                    }
                    let v = sub_chars(&after, 0, q);
                    assert(v@ =~= after@.take(q as int));
                    v
                },
                None => after,
            };
            if seg.len() > 0 {
                Some(seg)
            } else {
                None
            }
        },
        None => None,
    }
}

/// The label of a group of files from its path and the names std gives for
/// its folder and for itself (see `spec_group_label`).
pub fn group_label_from_parts(path: &str, parent_name: Option<String>, file_name: Option<String>) -> (r:
    String)
    ensures
        r@ == spec_group_label(
            path@,
            match parent_name {
                Some(n) => Some(n@),
                None => None,
            },
            match file_name {
                Some(f) => Some(f@),
                None => None,
            },
        ),
{
    let p = forward_slashes_exec(&chars_of(path));
    if let Some(m) = segment_after_exec(&p, "assets/") {
        return string_of(&m);
    }
    if let Some(m) = segment_after_exec(&p, "data/") {
        return string_of(&m);
    }
    if let Some(n) = parent_name {
        let nv = chars_of(n.as_str());
        let dot: Vec<char> = vec!['.'];
        assert(dot@ =~= seq!['.']);
        if nv.len() > 0 && !chars_eq(&nv, &dot) {
            return n;
        }
    }
    match file_name {
        Some(f) => f,
        None => "Unknown".to_owned(),
    }
}

/// The label of a group of files for the log (see `spec_group_label`), the
/// names of the folder and of the file as std finds them in the path; for a
/// plain path, the names around its last `/`.
pub fn extract_group_label(path: &str) -> (r: String)
    ensures
        exists|parent_name: Option<Seq<char>>, file_name: Option<Seq<char>>|
            r@ == spec_group_label(path@, parent_name, file_name),
        plain_part(path@) matches Some(q) ==> r@ == spec_group_label(path@, plain_parent_name(q), Some(last_segment(q))),
{
    let parent = path_parent(path);
    let parent_name = match &parent {
        Some(d) => path_file_name(d.as_str()),
        None => None,
    };
    let file_name = path_file_name(path);
    let ghost pn = match &parent_name {
        Some(n) => Some(n@),
        None => None::<Seq<char>>,
    };
    let ghost fname = match &file_name {
        Some(f) => Some(f@),
        None => None::<Seq<char>>,
    };
    proof {
        if is_plain_path(path@) {
            lemma_plain_parts(path@);
            if last_index_of(path@, '/') is Some {
                lemma_plain_parts(dir_of(path@));
            }
        } else if is_rooted_plain(path@) {
            lemma_plain_parts(path@.drop_first());
            lemma_rooted_dir(path@.drop_first());
        }
    }
    let r = group_label_from_parts(path, parent_name, file_name);
    assert(r@ == spec_group_label(path@, pn, fname));
    r
}


/// Whether a run lays the script-difference table over its exact glossary:
/// with fast conversion on, or a Chinese target.
pub open spec fn merges_diffs(fast_convert: bool, target_lang: Seq<char>) -> bool {
    fast_convert || target_lang == "zh_tw"@ || target_lang == "zh_cn"@
}

/// The exact glossary of a run: the term table, with the script differences
/// inserted into it (a difference wins over the table's entry for the same
/// term) when `merges_diffs`; the table as it is otherwise.
pub fn run_glossary_table(
    exact: Vec<(String, String)>,
    diffs: &Vec<(String, String)>,
    fast_convert: bool,
    target_lang: &str,
) -> (r: Vec<(String, String)>)
    ensures
        merges_diffs(fast_convert, target_lang@) ==> forall|key: Seq<char>| #[trigger] first_value(r@, key)
            == inserted_value(exact@, diffs@, key),
        !merges_diffs(fast_convert, target_lang@) ==> r@ == exact@,
{
    proof {
        reveal_strlit("zh_tw");
        reveal_strlit("zh_cn");
    }
    let t = chars_of(target_lang);
    if fast_convert || chars_eq_str(&t, "zh_tw") || chars_eq_str(&t, "zh_cn") {
        insert_pairs(exact, diffs)
    } else {
        exact
    }
}

/// The key a file's result is kept under: its relative path, marked
/// `[BUNDLE]` when it came from an archive (see `output_destination`).
pub fn result_key(rel_path: &str, from_jar: bool) -> (r: String)
    ensures
        r@ == (if from_jar {
            "[BUNDLE]"@ + rel_path@
        } else {
            rel_path@
        }),
{
    if from_jar {
        let mut v = chars_of("[BUNDLE]");
        extend_str(&mut v, rel_path);
        string_of(&v)
    } else {
        string_of(&chars_of(rel_path))
    }
}


/// The files of a run that are taken up: each as its position in `paths`
/// (pairs of a path and its relative path) and what is done with it (see
/// `file_action`), in order, the skipped ones left out. No file taken up is
/// excluded (see `spec_is_excluded`), and none is of a kind the settings
/// skip.
pub fn files_taken_up(paths: &Vec<(String, String)>, config: &JobConfig) -> (r: Vec<(usize, FileAction)>)
    ensures
        forall|m: int| 0 <= m < r@.len() ==> {
            let (i, a) = #[trigger] r@[m];
            &&& i < paths@.len()
            &&& a != FileAction::Skip
            &&& !spec_is_excluded(paths@[i as int].1@, strs(config.excluded_paths@))
            &&& (a == FileAction::Json ==> !config.skip_json)
            &&& (a == FileAction::Js ==> !config.skip_js)
            &&& (a == FileAction::Jar ==> !config.skip_jar)
        },
        forall|m: int, n: int| 0 <= m < n < r@.len() ==> r@[m].0 < r@[n].0,
{
    let mut out: Vec<(usize, FileAction)> = Vec::new();
    let mut i: usize = 0;
    while i < paths.len()
        invariant
            i <= paths@.len(),
            forall|m: int| 0 <= m < out@.len() ==> {
                let (j, a) = #[trigger] out@[m];
                &&& j < i
                &&& a != FileAction::Skip
                &&& !spec_is_excluded(paths@[j as int].1@, strs(config.excluded_paths@))
                &&& (a == FileAction::Json ==> !config.skip_json)
                &&& (a == FileAction::Js ==> !config.skip_js)
                &&& (a == FileAction::Jar ==> !config.skip_jar)
            },
            forall|m: int, n: int| 0 <= m < n < out@.len() ==> out@[m].0 < out@[n].0,
        decreases paths.len() - i,
    {
        let a = file_action(paths[i].0.as_str(), paths[i].1.as_str(), config);
        if a != FileAction::Skip {
            out.push((i, a));
        }
        i = i + 1;
    }
    out
}

} // verus!
