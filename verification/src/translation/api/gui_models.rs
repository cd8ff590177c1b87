//! The model list the settings window offers for a service: which list is
//! asked for, and the names read from the service's answer.
use vstd::prelude::*;
use crate::json::JsonValue;
use crate::order::{lemma_insert_ordered_at, sort_ordered};
use crate::text::{
    chars_eq_str, chars_less, chars_lt, chars_of, contains_str, occurs_in, starts_with_str, string_of,
    sub_chars,
};
use crate::translation::api::models::{listed_texts, spec_listed_texts};
use crate::translation::batching::strings_view;

verus! {

/// The services whose models the settings window lists.
#[derive(Clone, Copy, Debug, PartialEq, Eq, Structural)]
pub enum GuiModelSource {
    /// `GET {ollama_url}/api/tags`: `models[].name`.
    Ollama,
    /// Google's model list: `models[].name`.
    Gemini,
    /// OpenAI's model list: `data[].id`.
    OpenAI,
    /// DeepSeek's model list: `data[].id`.
    DeepSeek,
}

/// Which list the settings window asks for: Ollama's needs no key; Gemini's,
/// OpenAI's and DeepSeek's need one (`err_api_key_empty` without); any other
/// service has none (`err_unsupported_provider`).
pub open spec fn spec_gui_model_source(provider: Seq<char>, key_empty: bool) -> Result<GuiModelSource, Seq<char>> {
    if provider == "Ollama"@ {
        Ok(GuiModelSource::Ollama)
    } else if provider == "Gemini"@ || provider == "OpenAI"@ || provider == "DeepSeek"@ {
        if key_empty {
            Err("err_api_key_empty"@)
        } else if provider == "Gemini"@ {
            Ok(GuiModelSource::Gemini)
        } else if provider == "OpenAI"@ {
            Ok(GuiModelSource::OpenAI)
        } else {
            Ok(GuiModelSource::DeepSeek)
        }
    } else {
        Err("err_unsupported_provider"@)
    }
}

/// Which list the settings window asks for (see `spec_gui_model_source`).
pub fn gui_model_source(provider: &str, api_key: &str) -> (r: Result<GuiModelSource, String>)
    ensures
        match r {
            Ok(s) => spec_gui_model_source(provider@, api_key@.len() == 0) == Ok::<GuiModelSource, Seq<char>>(s),
            Err(e) => spec_gui_model_source(provider@, api_key@.len() == 0) == Err::<GuiModelSource, Seq<char>>(e@),
        },
{
    proof {
        reveal_strlit("err_api_key_empty");
        reveal_strlit("err_unsupported_provider");
    }
    let p = chars_of(provider);
    let key_empty = chars_of(api_key).len() == 0;
    if chars_eq_str(&p, "Ollama") {
        Ok(GuiModelSource::Ollama)
    } else if chars_eq_str(&p, "Gemini") || chars_eq_str(&p, "OpenAI") || chars_eq_str(&p, "DeepSeek") {
        if key_empty {
            Err("err_api_key_empty".to_string())
        } else if chars_eq_str(&p, "Gemini") {
            Ok(GuiModelSource::Gemini)
        } else if chars_eq_str(&p, "OpenAI") {
            Ok(GuiModelSource::OpenAI)
        } else {
            Ok(GuiModelSource::DeepSeek)
        }
    } else {
        Err("err_unsupported_provider".to_string())
    }
}

/// `n` with every leading `p` taken off (`str::trim_start_matches`).
pub open spec fn strip_leading(n: Seq<char>, p: Seq<char>) -> Seq<char>
    decreases n.len(),
{
    if p.len() > 0 && p.len() <= n.len() && n.subrange(0, p.len() as int) == p {
        strip_leading(n.skip(p.len() as int), p)
    } else {
        n
    }
}

/// The Gemini names among `ns`, each without its leading `models/`.
pub open spec fn gemini_names(ns: Seq<Seq<char>>) -> Seq<Seq<char>>
    decreases ns.len(),
{
    if ns.len() == 0 {
        Seq::empty()
    } else if occurs_in("gemini"@, ns.last()) {
        gemini_names(ns.drop_last()).push(strip_leading(ns.last(), "models/"@))
    } else {
        gemini_names(ns.drop_last())
    }
}

/// The names among `ns` that start with `gpt-`.
pub open spec fn gpt_names(ns: Seq<Seq<char>>) -> Seq<Seq<char>>
    decreases ns.len(),
{
    if ns.len() == 0 {
        Seq::empty()
    } else if "gpt-"@.is_prefix_of(ns.last()) {
        gpt_names(ns.drop_last()).push(ns.last())
    } else {
        gpt_names(ns.drop_last())
    }
}

/// The order of `String`.
pub open spec fn text_before() -> spec_fn(Seq<char>, Seq<char>) -> bool {
    |a: Seq<char>, b: Seq<char>| chars_lt(a, b)
}

/// The names a service's answer gives: Ollama's `models[].name`; the Gemini
/// names of `models[].name` without `models/`; OpenAI's `data[].id` that
/// start with `gpt-`, sorted; DeepSeek's `data[].id`.
pub open spec fn spec_gui_model_names(source: GuiModelSource, answer: JsonValue) -> Seq<Seq<char>> {
    match source {
        GuiModelSource::Ollama => spec_listed_texts(answer, "models"@, "name"@),
        GuiModelSource::Gemini => gemini_names(spec_listed_texts(answer, "models"@, "name"@)),
        GuiModelSource::OpenAI => sort_ordered(gpt_names(spec_listed_texts(answer, "data"@, "id"@)), text_before()),
        GuiModelSource::DeepSeek => spec_listed_texts(answer, "data"@, "id"@),
    }
}

/// The error a list that could not be had gives.
pub open spec fn gui_model_error(source: GuiModelSource) -> Seq<char> {
    match source {
        GuiModelSource::Ollama => "err_ollama_connect"@,
        GuiModelSource::Gemini => "err_gemini_models"@,
        GuiModelSource::OpenAI => "err_openai_models"@,
        GuiModelSource::DeepSeek => "err_deepseek_models"@,
    }
}

fn strip_leading_exec(n: &Vec<char>, p: &str) -> (r: Vec<char>)
    ensures
        r@ == strip_leading(n@, p@),
    decreases n@.len(),
{
    let pv = chars_of(p);
    if pv.len() > 0 && pv.len() <= n.len() && starts_with_str(n, p) {
        assert(n@.subrange(0, p@.len() as int) == p@);
        let rest = sub_chars(n, pv.len(), n.len());
        assert(rest@ =~= n@.skip(p@.len() as int));
        strip_leading_exec(&rest, p)
    } else {
        proof {
            if p@.len() > 0 && p@.len() <= n@.len() && n@.subrange(0, p@.len() as int) == p@ {
                assert(p@.is_prefix_of(n@));
            }
        }
        copy(n)
    }
}

fn copy(n: &Vec<char>) -> (r: Vec<char>)
    ensures
        r@ == n@,
{
    let mut r: Vec<char> = Vec::new();
    let mut i: usize = 0;
    while i < n.len()
        invariant
            i <= n@.len(),
            r@ == n@.take(i as int),
        decreases n.len() - i,
    {
        r.push(n[i]);
        i = i + 1;
        assert(r@ =~= n@.take(i as int));
    }
    assert(n@.take(n@.len() as int) =~= n@);
    r
}

fn gemini_names_exec(ns: &Vec<String>) -> (r: Vec<String>)
    ensures
        strings_view(r@) == gemini_names(strings_view(ns@)),
{
    let ghost nv = strings_view(ns@);
    let mut out: Vec<String> = Vec::new();
    let mut i: usize = 0;
    assert(nv.take(0) =~= Seq::<Seq<char>>::empty());
    while i < ns.len()
        invariant
            i <= ns@.len(),
            nv == strings_view(ns@),
            strings_view(out@) == gemini_names(nv.take(i as int)),
        decreases ns.len() - i,
    {
        let ghost t = nv.take(i + 1);
        assert(t.drop_last() =~= nv.take(i as int));
        assert(t.last() == ns@[i as int]@);
        let c = chars_of(ns[i].as_str());
        if contains_str(&c, "gemini") {
            let s = string_of(&strip_leading_exec(&c, "models/"));
            let ghost before = strings_view(out@);
            out.push(s);
            assert(strings_view(out@) =~= before.push(strip_leading(ns@[i as int]@, "models/"@)));
        }
        i = i + 1;
    }
    assert(nv.take(nv.len() as int) =~= nv);
    out
}

fn gpt_names_exec(ns: &Vec<String>) -> (r: Vec<String>)
    ensures
        strings_view(r@) == gpt_names(strings_view(ns@)),
{
    let ghost nv = strings_view(ns@);
    let mut out: Vec<String> = Vec::new();
    let mut i: usize = 0;
    assert(nv.take(0) =~= Seq::<Seq<char>>::empty());
    while i < ns.len()
        invariant
            i <= ns@.len(),
            nv == strings_view(ns@),
            strings_view(out@) == gpt_names(nv.take(i as int)),
        decreases ns.len() - i,
    {
        let ghost t = nv.take(i + 1);
        assert(t.drop_last() =~= nv.take(i as int));
        assert(t.last() == ns@[i as int]@);
        let c = chars_of(ns[i].as_str());
        if starts_with_str(&c, "gpt-") {
            let ghost before = strings_view(out@);
            out.push(ns[i].clone());
            assert(strings_view(out@) =~= before.push(ns@[i as int]@));
        }
        i = i + 1;
    }
    assert(nv.take(nv.len() as int) =~= nv);
    out
}

fn sort_texts(v: &Vec<String>) -> (r: Vec<String>)
    ensures
        strings_view(r@) == sort_ordered(strings_view(v@), text_before()),
{
    let ghost vv = strings_view(v@);
    let mut out: Vec<String> = Vec::new();
    let mut i: usize = 0;
    assert(vv.take(0) =~= Seq::<Seq<char>>::empty());
    while i < v.len()
        invariant
            vv == strings_view(v@),
            i <= v@.len(),
            strings_view(out@) == sort_ordered(vv.take(i as int), text_before()),
        decreases v.len() - i,
    {
        let x = v[i].clone();
        let xc = chars_of(x.as_str());
        let ghost xv = x@;
        assert(xv == vv[i as int]);
        let ghost o = strings_view(out@);
        let mut p: usize = out.len();
        while p > 0 && chars_less(&xc, &chars_of(out[p - 1].as_str()))
            invariant
                o == strings_view(out@),
                p <= out@.len(),
                xc@ == xv,
                forall|k: int| p <= k < o.len() ==> text_before()(xv, #[trigger] o[k]),
            decreases p,
        {
            assert(o[p - 1] == out@[p - 1]@);
            p = p - 1;
        }
        proof {
            if p > 0 {
                assert(o[p - 1] == out@[p - 1]@);
            }
            lemma_insert_ordered_at(o, xv, text_before(), p as int);
            assert(vv.take(i + 1).drop_last() =~= vv.take(i as int));
            assert(vv.take(i + 1).last() == xv);
        }
        out.insert(p, x);
        assert(strings_view(out@) =~= o.insert(p as int, xv));
        i = i + 1;
    }
    assert(vv.take(v@.len() as int) =~= vv);
    out
}

/// The names of a service's answer (see `spec_gui_model_names`): `None` for
/// the answer means the request failed. An error (see `gui_model_error`)
/// when there was no answer or it names no model.
pub fn gui_model_names(source: GuiModelSource, answer: Option<&JsonValue>) -> (r: Result<Vec<String>, String>)
    ensures
        match answer {
            Some(a) => match r {
                Ok(v) => strings_view(v@) == spec_gui_model_names(source, *a) && v@.len() > 0,
                Err(e) => spec_gui_model_names(source, *a).len() == 0 && e@ == gui_model_error(source),
            },
            None => r matches Err(e) && e@ == gui_model_error(source),
        },
{
    proof {
        reveal_strlit("err_ollama_connect");
        reveal_strlit("err_gemini_models");
        reveal_strlit("err_openai_models");
        reveal_strlit("err_deepseek_models");
    }
    let err = match source {
        GuiModelSource::Ollama => "err_ollama_connect",
        GuiModelSource::Gemini => "err_gemini_models",
        GuiModelSource::OpenAI => "err_openai_models",
        GuiModelSource::DeepSeek => "err_deepseek_models",
    };
    let a = match answer {
        Some(a) => a,
        None => {
            return Err(err.to_string());
        },
    };
    let names = match source {
        GuiModelSource::Ollama => listed_texts(a, "models", "name"),
        GuiModelSource::Gemini => gemini_names_exec(&listed_texts(a, "models", "name")),
        GuiModelSource::OpenAI => sort_texts(&gpt_names_exec(&listed_texts(a, "data", "id"))),
        GuiModelSource::DeepSeek => listed_texts(a, "data", "id"),
    };
    if names.len() == 0 {
        Err(err.to_string())
    } else {
        Ok(names)
    }
}

} // verus!
