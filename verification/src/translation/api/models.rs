//! Minecraft versions and the resource-pack format each one reads.
use vstd::prelude::*;
use crate::file::plan::opt_view;
use crate::json::{field_of, json_field, json_str, parse_json, spec_parse_json, str_of, JsonValue};
use crate::text::{chars_eq_str, chars_of, contains_str, occurs_in, replace_all, replace_all_chars, string_of};
use crate::translation::batching::strings_view;

verus! {

/// The character sequences of string slices.
pub open spec fn str_views(v: Seq<&str>) -> Seq<Seq<char>> {
    v.map_values(|s: &str| s@)
}

fn in_list(l: &Vec<char>, list: &[&str]) -> (r: bool)
    ensures
        r == str_views(list@).contains(l@),
{
    let mut k: usize = 0;
    while k < list.len()
        invariant
            k <= list.len(),
            forall|j: int| 0 <= j < k ==> str_views(list@)[j] != l@,
        decreases list.len() - k,
    {
        if chars_eq_str(l, list[k]) {
            assert(str_views(list@)[k as int] == l@);
            return true;
        }
        k = k + 1;
    }
    false
}

/// The resource-pack format of a Minecraft release (46, that of 1.21.4, for
/// any version not listed).
pub open spec fn spec_pack_format(v: Seq<char>) -> u32 {
    if false {
        0
    } else if seq!["1.6.1"@, "1.6.2"@, "1.6.4"@, "1.7.2"@, "1.7.4"@, "1.7.5"@, "1.7.6"@, "1.7.7"@, "1.7.8"@, "1.7.9"@, "1.7.10"@, "1.8"@, "1.8.1"@, "1.8.2"@, "1.8.3"@, "1.8.4"@, "1.8.5"@, "1.8.6"@, "1.8.7"@, "1.8.8"@, "1.8.9"@].contains(v) {
        1
    } else if seq!["1.9"@, "1.9.1"@, "1.9.2"@, "1.9.3"@, "1.9.4"@, "1.10"@, "1.10.1"@, "1.10.2"@].contains(v) {
        2
    } else if seq!["1.11"@, "1.11.1"@, "1.11.2"@, "1.12"@, "1.12.1"@, "1.12.2"@].contains(v) {
        3
    } else if seq!["1.13"@, "1.13.1"@, "1.13.2"@, "1.14"@, "1.14.1"@, "1.14.2"@, "1.14.3"@, "1.14.4"@].contains(v) {
        4
    } else if seq!["1.15"@, "1.15.1"@, "1.15.2"@, "1.16"@, "1.16.1"@].contains(v) {
        5
    } else if seq!["1.16.2"@, "1.16.3"@, "1.16.4"@, "1.16.5"@].contains(v) {
        6
    } else if seq!["1.17"@, "1.17.1"@].contains(v) {
        7
    } else if seq!["1.18"@, "1.18.1"@, "1.18.2"@].contains(v) {
        8
    } else if seq!["1.19"@, "1.19.1"@, "1.19.2"@].contains(v) {
        9
    } else if seq!["1.19.3"@].contains(v) {
        12
    } else if seq!["1.19.4"@].contains(v) {
        13
    } else if seq!["1.20"@, "1.20.1"@].contains(v) {
        15
    } else if seq!["1.20.2"@].contains(v) {
        18
    } else if seq!["1.20.3"@, "1.20.4"@].contains(v) {
        22
    } else if seq!["1.20.5"@, "1.20.6"@].contains(v) {
        32
    } else if seq!["1.21"@, "1.21.1"@].contains(v) {
        34
    } else if seq!["1.21.2"@, "1.21.3"@].contains(v) {
        42
    } else if seq!["1.21.4"@].contains(v) {
        46
    } else {
        46
    }
}

/// The resource-pack format that a Minecraft release reads.
pub fn version_to_pack_format(version: &str) -> (r: u32)
    ensures
        r == spec_pack_format(version@),
{
    let l = chars_of(version);
    let g: [&str; 21] = ["1.6.1", "1.6.2", "1.6.4", "1.7.2", "1.7.4", "1.7.5", "1.7.6", "1.7.7", "1.7.8", "1.7.9", "1.7.10", "1.8", "1.8.1", "1.8.2", "1.8.3", "1.8.4", "1.8.5", "1.8.6", "1.8.7", "1.8.8", "1.8.9"];
    assert(str_views(g@) =~= seq!["1.6.1"@, "1.6.2"@, "1.6.4"@, "1.7.2"@, "1.7.4"@, "1.7.5"@, "1.7.6"@, "1.7.7"@, "1.7.8"@, "1.7.9"@, "1.7.10"@, "1.8"@, "1.8.1"@, "1.8.2"@, "1.8.3"@, "1.8.4"@, "1.8.5"@, "1.8.6"@, "1.8.7"@, "1.8.8"@, "1.8.9"@]);
    if in_list(&l, &g) {
        return 1;
    }
    let g: [&str; 8] = ["1.9", "1.9.1", "1.9.2", "1.9.3", "1.9.4", "1.10", "1.10.1", "1.10.2"];
    assert(str_views(g@) =~= seq!["1.9"@, "1.9.1"@, "1.9.2"@, "1.9.3"@, "1.9.4"@, "1.10"@, "1.10.1"@, "1.10.2"@]);
    if in_list(&l, &g) {
        return 2;
    }
    let g: [&str; 6] = ["1.11", "1.11.1", "1.11.2", "1.12", "1.12.1", "1.12.2"];
    assert(str_views(g@) =~= seq!["1.11"@, "1.11.1"@, "1.11.2"@, "1.12"@, "1.12.1"@, "1.12.2"@]);
    if in_list(&l, &g) {
        return 3;
    }
    let g: [&str; 8] = ["1.13", "1.13.1", "1.13.2", "1.14", "1.14.1", "1.14.2", "1.14.3", "1.14.4"];
    assert(str_views(g@) =~= seq!["1.13"@, "1.13.1"@, "1.13.2"@, "1.14"@, "1.14.1"@, "1.14.2"@, "1.14.3"@, "1.14.4"@]);
    if in_list(&l, &g) {
        return 4;
    }
    let g: [&str; 5] = ["1.15", "1.15.1", "1.15.2", "1.16", "1.16.1"];
    assert(str_views(g@) =~= seq!["1.15"@, "1.15.1"@, "1.15.2"@, "1.16"@, "1.16.1"@]);
    if in_list(&l, &g) {
        return 5;
    }
    let g: [&str; 4] = ["1.16.2", "1.16.3", "1.16.4", "1.16.5"];
    assert(str_views(g@) =~= seq!["1.16.2"@, "1.16.3"@, "1.16.4"@, "1.16.5"@]);
    if in_list(&l, &g) {
        return 6;
    }
    let g: [&str; 2] = ["1.17", "1.17.1"];
    assert(str_views(g@) =~= seq!["1.17"@, "1.17.1"@]);
    if in_list(&l, &g) {
        return 7;
    }
    let g: [&str; 3] = ["1.18", "1.18.1", "1.18.2"];
    assert(str_views(g@) =~= seq!["1.18"@, "1.18.1"@, "1.18.2"@]);
    if in_list(&l, &g) {
        return 8;
    }
    let g: [&str; 3] = ["1.19", "1.19.1", "1.19.2"];
    assert(str_views(g@) =~= seq!["1.19"@, "1.19.1"@, "1.19.2"@]);
    if in_list(&l, &g) {
        return 9;
    }
    let g: [&str; 1] = ["1.19.3"];
    assert(str_views(g@) =~= seq!["1.19.3"@]);
    if in_list(&l, &g) {
        return 12;
    }
    let g: [&str; 1] = ["1.19.4"];
    assert(str_views(g@) =~= seq!["1.19.4"@]);
    if in_list(&l, &g) {
        return 13;
    }
    let g: [&str; 2] = ["1.20", "1.20.1"];
    assert(str_views(g@) =~= seq!["1.20"@, "1.20.1"@]);
    if in_list(&l, &g) {
        return 15;
    }
    let g: [&str; 1] = ["1.20.2"];
    assert(str_views(g@) =~= seq!["1.20.2"@]);
    if in_list(&l, &g) {
        return 18;
    }
    let g: [&str; 2] = ["1.20.3", "1.20.4"];
    assert(str_views(g@) =~= seq!["1.20.3"@, "1.20.4"@]);
    if in_list(&l, &g) {
        return 22;
    }
    let g: [&str; 2] = ["1.20.5", "1.20.6"];
    assert(str_views(g@) =~= seq!["1.20.5"@, "1.20.6"@]);
    if in_list(&l, &g) {
        return 32;
    }
    let g: [&str; 2] = ["1.21", "1.21.1"];
    assert(str_views(g@) =~= seq!["1.21"@, "1.21.1"@]);
    if in_list(&l, &g) {
        return 34;
    }
    let g: [&str; 2] = ["1.21.2", "1.21.3"];
    assert(str_views(g@) =~= seq!["1.21.2"@, "1.21.3"@]);
    if in_list(&l, &g) {
        return 42;
    }
    let g: [&str; 1] = ["1.21.4"];
    assert(str_views(g@) =~= seq!["1.21.4"@]);
    if in_list(&l, &g) {
        return 46;
    }
    46
}

/// The releases offered when the version list cannot be fetched, newest
/// first.
pub open spec fn static_versions() -> Seq<Seq<char>> {
    seq![
        "1.21.4"@, "1.21.3"@, "1.21.2"@, "1.21.1"@, "1.21"@, "1.20.6"@, "1.20.5"@, "1.20.4"@,
        "1.20.3"@, "1.20.2"@, "1.20.1"@, "1.20"@, "1.19.4"@, "1.19.3"@, "1.19.2"@, "1.19.1"@,
        "1.19"@, "1.18.2"@, "1.18.1"@, "1.18"@,
    ]
}

/// Versions paired with their pack formats, as the specifications see them.
pub open spec fn version_pairs(v: Seq<(String, u32)>) -> Seq<(Seq<char>, u32)> {
    v.map_values(|p: (String, u32)| (p.0@, p.1))
}

/// The releases offered when the version list cannot be fetched, newest
/// first, each with its pack format.
pub fn get_static_mc_versions() -> (r: Vec<(String, u32)>)
    ensures
        version_pairs(r@) == static_versions().map_values(|v: Seq<char>| (v, spec_pack_format(v))),
{
    let known: [&str; 20] = [
        "1.21.4", "1.21.3", "1.21.2", "1.21.1", "1.21", "1.20.6", "1.20.5", "1.20.4", "1.20.3",
        "1.20.2", "1.20.1", "1.20", "1.19.4", "1.19.3", "1.19.2", "1.19.1", "1.19", "1.18.2",
        "1.18.1", "1.18",
    ];
    assert(str_views(known@) =~= static_versions());
    let ghost want = static_versions().map_values(|v: Seq<char>| (v, spec_pack_format(v)));
    let mut out: Vec<(String, u32)> = Vec::new();
    let mut i: usize = 0;
    while i < known.len()
        invariant
            str_views(known@) == static_versions(),
            want == static_versions().map_values(|v: Seq<char>| (v, spec_pack_format(v))),
            i <= known.len(),
            version_pairs(out@) == want.take(i as int),
        decreases known.len() - i,
    {
        let v = known[i];
        let f = version_to_pack_format(v);
        let ghost o = version_pairs(out@);
        out.push((v.to_owned(), f));
        assert(str_views(known@)[i as int] == v@);
        assert(version_pairs(out@) =~= o.push((v@, f)));
        assert(want[i as int] == (v@, spec_pack_format(v@)));
        assert(want.take(i + 1) =~= want.take(i as int).push(want[i as int]));
        assert(version_pairs(out@) =~= want.take(i + 1));
        i = i + 1;
    }
    assert(want.take(20) =~= want);
    out
}

/// Of the entries `(type, id)` of Mojang's version manifest, the releases,
/// in order, each with its pack format.
pub open spec fn spec_releases(entries: Seq<(Seq<char>, Seq<char>)>) -> Seq<(Seq<char>, u32)>
    decreases entries.len(),
{
    if entries.len() == 0 {
        Seq::empty()
    } else if entries.last().0 == "release"@ {
        spec_releases(entries.drop_last()).push((entries.last().1, spec_pack_format(entries.last().1)))
    } else {
        spec_releases(entries.drop_last())
    }
}

/// Pairs of strings as pairs of character sequences.
pub open spec fn string_pairs(v: Seq<(String, String)>) -> Seq<(Seq<char>, Seq<char>)> {
    v.map_values(|p: (String, String)| (p.0@, p.1@))
}

/// The releases among the manifest entries `(type, id)`, each with its pack
/// format.
pub fn release_versions(entries: &Vec<(String, String)>) -> (r: Vec<(String, u32)>)
    ensures
        version_pairs(r@) == spec_releases(string_pairs(entries@)),
{
    let ghost es = string_pairs(entries@);
    let mut out: Vec<(String, u32)> = Vec::new();
    let mut i: usize = 0;
    assert(es.take(0) =~= Seq::<(Seq<char>, Seq<char>)>::empty());
    while i < entries.len()
        invariant
            es == string_pairs(entries@),
            i <= entries.len(),
            version_pairs(out@) == spec_releases(es.take(i as int)),
        decreases entries.len() - i,
    {
        assert(es.take(i + 1).drop_last() =~= es.take(i as int));
        assert(es.take(i + 1).last() == es[i as int]);
        let kind = chars_of(entries[i].0.as_str());
        if chars_eq_str(&kind, "release") {
            let id = entries[i].1.clone();
            let f = version_to_pack_format(id.as_str());
            let ghost o = version_pairs(out@);
            out.push((id, f));
            assert(version_pairs(out@) =~= o.push((es[i as int].1, f)));
        }
        i = i + 1;
    }
    assert(es.take(entries.len() as int) =~= es);
    out
}


// ---------------------------------------------------------------------------
// Model lists
// ---------------------------------------------------------------------------

/// Where the model list of a service comes from.
#[derive(Clone, Copy, Debug)]
pub enum ModelSource {
    /// No list (no key, or an unknown service).
    Nothing,
    Gemini,
    /// A chat service's `models` address.
    Chat(&'static str),
    Ollama,
    /// DeepL's two fixed models.
    DeepL,
}

/// Where a service's model list comes from: nothing without a key (Ollama
/// needs none), else the service's own list.
pub open spec fn spec_model_source(provider: Seq<char>, key_empty: bool) -> Option<Seq<char>> {
    if key_empty && provider != "Ollama"@ {
        None
    } else if provider == "Gemini"@ {
        Some("gemini"@)
    } else if provider == "OpenAI"@ {
        Some("https://api.openai.com/v1/models"@)
    } else if provider == "DeepSeek"@ {
        Some("https://api.deepseek.com/v1/models"@)
    } else if provider == "Mistral"@ {
        Some("https://api.mistral.ai/v1/models"@)
    } else if provider == "Ollama"@ {
        Some("ollama"@)
    } else if provider == "DeepL"@ {
        Some("deepl"@)
    } else {
        None
    }
}

/// The source as a text: the address of a chat service's list, or the
/// service's name.
pub open spec fn source_view(s: ModelSource) -> Option<Seq<char>> {
    match s {
        ModelSource::Nothing => None,
        ModelSource::Gemini => Some("gemini"@),
        ModelSource::Chat(url) => Some(url@),
        ModelSource::Ollama => Some("ollama"@),
        ModelSource::DeepL => Some("deepl"@),
    }
}

/// Where a service's model list comes from (see `spec_model_source`).
pub fn model_source(provider: &str, api_key: &str) -> (r: ModelSource)
    ensures
        source_view(r) == spec_model_source(provider@, api_key@.len() == 0),
{
    let p = chars_of(provider);
    let ollama = chars_eq_str(&p, "Ollama");
    if chars_of(api_key).len() == 0 && !ollama {
        ModelSource::Nothing
    } else if chars_eq_str(&p, "Gemini") {
        ModelSource::Gemini
    } else if chars_eq_str(&p, "OpenAI") {
        ModelSource::Chat("https://api.openai.com/v1/models")
    } else if chars_eq_str(&p, "DeepSeek") {
        ModelSource::Chat("https://api.deepseek.com/v1/models")
    } else if chars_eq_str(&p, "Mistral") {
        ModelSource::Chat("https://api.mistral.ai/v1/models")
    } else if ollama {
        ModelSource::Ollama
    } else if chars_eq_str(&p, "DeepL") {
        ModelSource::DeepL
    } else {
        ModelSource::Nothing
    }
}

/// DeepL's models.
pub fn deepl_models() -> (r: Vec<String>)
    ensures
        strings_view(r@) == seq!["deepl-free"@, "deepl-standard"@],
{
    let mut v: Vec<String> = Vec::new();
    v.push("deepl-free".to_owned());
    v.push("deepl-standard".to_owned());
    assert(strings_view(v@) =~= seq!["deepl-free"@, "deepl-standard"@]);
    v
}

/// The texts of the field `key` of the elements that have one, in order.
pub open spec fn field_texts(items: Seq<JsonValue>, key: Seq<char>) -> Seq<Seq<char>>
    decreases items.len(),
{
    if items.len() == 0 {
        Seq::empty()
    } else {
        let rest = field_texts(items.drop_last(), key);
        match str_of(field_of(Some(items.last()), key)) {
            Some(t) => rest.push(t),
            None => rest,
        }
    }
}

/// The texts of the field `key` of the elements of the array `list` of an
/// answer; none when there is no such array.
pub open spec fn spec_listed_texts(v: JsonValue, list: Seq<char>, key: Seq<char>) -> Seq<Seq<char>> {
    match field_of(Some(v), list) {
        Some(JsonValue::Array(items)) => field_texts(items@, key),
        _ => Seq::empty(),
    }
}

/// The texts of the field `key` of the elements of the array `list` (see
/// `spec_listed_texts`): Ollama's `models[].name`, a chat service's
/// `data[].id`.
pub fn listed_texts(v: &JsonValue, list: &str, key: &str) -> (r: Vec<String>)
    ensures
        strings_view(r@) == spec_listed_texts(*v, list@, key@),
{
    let mut out: Vec<String> = Vec::new();
    match json_field(Some(v), list) {
        Some(JsonValue::Array(items)) => {
            let mut i: usize = 0;
            assert(items@.take(0) =~= Seq::<JsonValue>::empty());
            while i < items.len()
                invariant
                    i <= items@.len(),
                    strings_view(out@) == field_texts(items@.take(i as int), key@),
                decreases items.len() - i,
            {
                assert(items@.take(i + 1).drop_last() =~= items@.take(i as int));
                assert(items@.take(i + 1).last() == items@[i as int]);
                let ghost before = strings_view(out@);
                match json_str(json_field(Some(&items[i]), key)) {
                    Some(t) => {
                        out.push(t);
                        assert(strings_view(out@) =~= before.push(t@));
                    },
                    None => {},
                }
                i = i + 1;
            }
            assert(items@.take(items@.len() as int) =~= items@);
        },
        _ => {
            assert(strings_view(out@) =~= Seq::<Seq<char>>::empty());
        },
    }
    out
}

/// Whether a model can generate content: its methods are an array holding
/// the text `generateContent`.
pub open spec fn generates_content(methods: Option<JsonValue>) -> bool {
    match methods {
        Some(JsonValue::Array(ms)) => exists|i: int|
            0 <= i < ms@.len() && str_of(Some(#[trigger] ms@[i])) == Some("generateContent"@),
        _ => false,
    }
}

/// The name under which a Gemini model is offered: a model named with
/// `gemini` that can generate content, its name without `models/`.
pub open spec fn gemini_model_entry(m: JsonValue) -> Option<Seq<char>> {
    match str_of(field_of(Some(m), "name"@)) {
        Some(n) => if occurs_in("gemini"@, n) && generates_content(field_of(Some(m), "supportedGenerationMethods"@)) {
            Some(replace_all(n, "models/"@, Seq::empty()))
        } else {
            None
        },
        None => None,
    }
}

/// The offered names of the Gemini models in order.
pub open spec fn gemini_entries(items: Seq<JsonValue>) -> Seq<Seq<char>>
    decreases items.len(),
{
    if items.len() == 0 {
        Seq::empty()
    } else {
        let rest = gemini_entries(items.drop_last());
        match gemini_model_entry(items.last()) {
            Some(t) => rest.push(t),
            None => rest,
        }
    }
}

/// The Gemini models an answer lists (see `gemini_model_entry`); none when
/// it has no `models` array.
pub open spec fn spec_gemini_models(v: JsonValue) -> Seq<Seq<char>> {
    match field_of(Some(v), "models"@) {
        Some(JsonValue::Array(items)) => gemini_entries(items@),
        _ => Seq::empty(),
    }
}

fn gemini_entry(m: &JsonValue) -> (r: Option<String>)
    ensures
        opt_view(r) == gemini_model_entry(*m),
{
    let name = match json_str(json_field(Some(m), "name")) {
        Some(n) => n,
        None => {
            return None;
        },
    };
    let nv = chars_of(name.as_str());
    if !contains_str(&nv, "gemini") {
        return None;
    }
    let generates = match json_field(Some(m), "supportedGenerationMethods") {
        Some(JsonValue::Array(ms)) => {
            let mut found = false;
            let mut i: usize = 0;
            while i < ms.len()
                invariant
                    i <= ms@.len(),
                    found == exists|j: int|
                        0 <= j < i && str_of(Some(#[trigger] ms@[j])) == Some("generateContent"@),
                decreases ms.len() - i,
            {
                match json_str(Some(&ms[i])) {
                    Some(t) => {
                        if chars_eq_str(&chars_of(t.as_str()), "generateContent") {
                            found = true;
                        }
                    },
                    None => {},
                }
                i = i + 1;
            }
            found
        },
        _ => false,
    };
    if !generates {
        return None;
    }
    proof {
        reveal_strlit("models/");
    }
    Some(string_of(&replace_all_chars(&nv, &chars_of("models/"), &Vec::new())))
}

/// The Gemini models an answer lists (see `spec_gemini_models`).
pub fn gemini_models(v: &JsonValue) -> (r: Vec<String>)
    ensures
        strings_view(r@) == spec_gemini_models(*v),
{
    let mut out: Vec<String> = Vec::new();
    match json_field(Some(v), "models") {
        Some(JsonValue::Array(items)) => {
            let mut i: usize = 0;
            assert(items@.take(0) =~= Seq::<JsonValue>::empty());
            while i < items.len()
                invariant
                    i <= items@.len(),
                    strings_view(out@) == gemini_entries(items@.take(i as int)),
                decreases items.len() - i,
            {
                assert(items@.take(i + 1).drop_last() =~= items@.take(i as int));
                assert(items@.take(i + 1).last() == items@[i as int]);
                let ghost before = strings_view(out@);
                match gemini_entry(&items[i]) {
                    Some(t) => {
                        out.push(t);
                        assert(strings_view(out@) =~= before.push(t@));
                    },
                    None => {},
                }
                i = i + 1;
            }
            assert(items@.take(items@.len() as int) =~= items@);
        },
        _ => {
            assert(strings_view(out@) =~= Seq::<Seq<char>>::empty());
        },
    }
    out
}

/// The `(type, id)` pairs of the version entries that have both as text, in
/// order.
pub open spec fn manifest_entries(items: Seq<JsonValue>) -> Seq<(Seq<char>, Seq<char>)>
    decreases items.len(),
{
    if items.len() == 0 {
        Seq::empty()
    } else {
        let rest = manifest_entries(items.drop_last());
        let v = items.last();
        match (str_of(field_of(Some(v), "type"@)), str_of(field_of(Some(v), "id"@))) {
            (Some(k), Some(i)) => rest.push((k, i)),
            _ => rest,
        }
    }
}

/// The version entries of a manifest's text: none when it is not JSON or
/// has no `versions` array.
pub open spec fn manifest_versions(text: Seq<char>) -> Option<Seq<(Seq<char>, Seq<char>)>> {
    match spec_parse_json(text) {
        Some(v) => match field_of(Some(v), "versions"@) {
            Some(JsonValue::Array(items)) => Some(manifest_entries(items@)),
            _ => None,
        },
        None => None,
    }
}

/// The releases of Mojang's version manifest (its JSON text), each with its
/// pack format (see `release_versions`); the built-in list when the text is
/// not a manifest.
pub fn releases_from_manifest(json_text: &str) -> (r: Vec<(String, u32)>)
    ensures
        match manifest_versions(json_text@) {
            Some(es) => version_pairs(r@) == spec_releases(es),
            None => version_pairs(r@) == static_versions().map_values(|v: Seq<char>| (v, spec_pack_format(v))),
        },
{
    let json = match parse_json(json_text) {
        Some(v) => v,
        None => {
            return get_static_mc_versions();
        },
    };
    let items = match json_field(Some(&json), "versions") {
        Some(JsonValue::Array(items)) => items,
        _ => {
            return get_static_mc_versions();
        },
    };
    let mut entries: Vec<(String, String)> = Vec::new();
    let mut i: usize = 0;
    assert(items@.take(0) =~= Seq::<JsonValue>::empty());
    while i < items.len()
        invariant
            i <= items@.len(),
            string_pairs(entries@) == manifest_entries(items@.take(i as int)),
        decreases items.len() - i,
    {
        assert(items@.take(i + 1).drop_last() =~= items@.take(i as int));
        assert(items@.take(i + 1).last() == items@[i as int]);
        let v = &items[i];
        let kind = json_str(json_field(Some(v), "type"));
        let id = json_str(json_field(Some(v), "id"));
        match (kind, id) {
            (Some(k), Some(d)) => {
                let ghost before = string_pairs(entries@);
                let ghost pair = (k@, d@);
                entries.push((k, d));
                assert(string_pairs(entries@) =~= before.push(pair));
            },
            _ => {},
        }
        i = i + 1;
    }
    assert(items@.take(items@.len() as int) =~= items@);
    release_versions(&entries)
}

} // verus!
