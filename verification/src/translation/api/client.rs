//! The system prompt sent with each request, and the language codes of the
//! translation services.
use vstd::prelude::*;
use crate::order::{insert_ordered, lemma_sort_ordered, sort_ordered, strict_weak_order};
use crate::text::{lemma_chars_lt_irreflexive, lemma_chars_lt_transitive};
use crate::config::settings::DEFAULT_PROMPT;
use crate::text::{chars_eq_str, chars_less, chars_lt, chars_of, decimal, decimal_chars, extend_chars, extend_str, join, join_chars, lemma_chars_lt_total, string_of, sub_chars, trim, trim_chars, utf8_len, utf8_len_exec, char_is_whitespace, find_from, find_from_exec, lemma_find_from, last_index_of, last_index_of_exec, occurs_at, occurs_at_exec, spec_is_whitespace};
use crate::file::plan::opt_view;
use crate::json::{field_of, first_field, item_of, json_field, json_item, json_str, opt_json, parse_json, parses_as_json, spec_parse_json, str_of, JsonValue};
use crate::translation::glossary::automaton::{GlossaryEntry, TermType};

verus! {

/// A term as the prompt shows it: its original and its translation.
pub type TermPair = (Seq<char>, Seq<char>);

/// The terms of the given source, in order.
pub open spec fn terms_of(ts: Seq<GlossaryEntry>, kind: TermType) -> Seq<TermPair>
    decreases ts.len(),
{
    if ts.len() == 0 {
        Seq::empty()
    } else if ts.last().source == kind {
        terms_of(ts.drop_last(), kind).push((ts.last().original@, ts.last().translated@))
    } else {
        terms_of(ts.drop_last(), kind)
    }
}

/// `x` placed into the sorted `s` after every term whose original does not
/// come after its own.
pub open spec fn insert_by_original(s: Seq<TermPair>, x: TermPair) -> Seq<TermPair>
    decreases s.len(),
{
    if s.len() == 0 {
        seq![x]
    } else if chars_lt(x.0, s.last().0) {
        insert_by_original(s.drop_last(), x).push(s.last())
    } else {
        s.push(x)
    }
}

/// The terms sorted by original, terms with equal originals keeping their
/// order (a stable sort).
pub open spec fn sort_by_original(s: Seq<TermPair>) -> Seq<TermPair>
    decreases s.len(),
{
    if s.len() == 0 {
        s
    } else {
        insert_by_original(sort_by_original(s.drop_last()), s.last())
    }
}

/// One line of the term list: `- <original> => <translation>` and a newline.
pub open spec fn term_line(t: TermPair) -> Seq<char> {
    seq!['-', ' '] + t.0 + seq![' ', '=', '>', ' '] + t.1 + seq!['\n']
}

/// The lines of the terms, one after the other.
pub open spec fn term_lines(ts: Seq<TermPair>) -> Seq<char>
    decreases ts.len(),
{
    if ts.len() == 0 {
        Seq::empty()
    } else {
        term_lines(ts.drop_last()) + term_line(ts.last())
    }
}

/// The line that introduces the term list.
pub open spec fn glossary_header() -> Seq<char> {
    "\n\n請根據以下【術語建議】進行翻譯（僅供參考，請靈活使用）：\n"@
}

/// The most terms a prompt lists.
pub const MAX_PROMPT_TERMS: usize = 30;

/// The listed terms: official ones sorted by original, then inferred ones
/// sorted by original, the first thirty of them.
pub open spec fn listed_terms(ts: Seq<GlossaryEntry>) -> Seq<TermPair> {
    let all = sort_by_original(terms_of(ts, TermType::Official)) + sort_by_original(
        terms_of(ts, TermType::Inferred),
    );
    if all.len() <= 30 {
        all
    } else {
        all.take(30)
    }
}

/// The system prompt: the base prompt (or `DEFAULT_PROMPT` when it is
/// empty), then, when there are terms, the term list under its header, then
/// the technical constraints.
pub open spec fn spec_system_prompt(
    base: Seq<char>,
    glossary: Option<Seq<GlossaryEntry>>,
    constraints: Seq<char>,
) -> Seq<char> {
    let start = if base.len() == 0 {
        DEFAULT_PROMPT@
    } else {
        base
    };
    let terms = match glossary {
        Some(ts) => if ts.len() > 0 && listed_terms(ts).len() > 0 {
            glossary_header() + term_lines(listed_terms(ts))
        } else {
            Seq::empty()
        },
        None => Seq::empty(),
    };
    start + terms + constraints
}

/// The pairs of character vectors as term pairs.
pub open spec fn pair_views(v: Seq<(Vec<char>, Vec<char>)>) -> Seq<TermPair> {
    v.map_values(|p: (Vec<char>, Vec<char>)| (p.0@, p.1@))
}

proof fn lemma_insert_at(s: Seq<TermPair>, x: TermPair, p: int)
    requires
        0 <= p <= s.len(),
        forall|k: int| p <= k < s.len() ==> chars_lt(x.0, (#[trigger] s[k]).0),
        p > 0 ==> !chars_lt(x.0, s[p - 1].0),
    ensures
        insert_by_original(s, x) == s.insert(p, x),
    decreases s.len() - p,
{
    if p == s.len() {
        if s.len() == 0 {
            assert(s.insert(p, x) =~= seq![x]);
        } else {
            assert(s.insert(p, x) =~= s.push(x));
        }
    } else {
        assert(chars_lt(x.0, s.last().0));
        let d = s.drop_last();
        assert forall|k: int| p <= k < d.len() implies chars_lt(x.0, (#[trigger] d[k]).0) by {
            assert(d[k] == s[k]);
        }
        if p > 0 {
            assert(d[p - 1] == s[p - 1]);
        }
        lemma_insert_at(d, x, p);
        assert(d.insert(p, x).push(s.last()) =~= s.insert(p, x));
    }
}

pub(crate) fn sort_terms(v: Vec<(Vec<char>, Vec<char>)>) -> (r: Vec<(Vec<char>, Vec<char>)>)
    ensures
        pair_views(r@) == sort_by_original(pair_views(v@)),
{
    let ghost pv = pair_views(v@);
    let mut out: Vec<(Vec<char>, Vec<char>)> = Vec::new();
    let mut i: usize = 0;
    assert(pv.take(0) =~= Seq::<TermPair>::empty());
    while i < v.len()
        invariant
            pv == pair_views(v@),
            i <= v.len(),
            pair_views(out@) == sort_by_original(pv.take(i as int)),
        decreases v.len() - i,
    {
        let x0 = copy(&v[i].0);
        let x1 = copy(&v[i].1);
        let ghost xv: TermPair = (x0@, x1@);
        assert(xv == pv[i as int]);
        let ghost o = pair_views(out@);
        let mut p: usize = out.len();
        while p > 0 && chars_less(&x0, &out[p - 1].0)
            invariant
                o == pair_views(out@),
                p <= out.len(),
                xv.0 == x0@,
                forall|k: int| p <= k < o.len() ==> chars_lt(xv.0, (#[trigger] o[k]).0),
            decreases p,
        {
            assert(o[p - 1] == (out@[p - 1].0@, out@[p - 1].1@));
            p = p - 1;
        }
        proof {
            if p > 0 {
                assert(o[p - 1] == (out@[p - 1].0@, out@[p - 1].1@));
            }
            lemma_insert_at(o, xv, p as int);
            assert(pv.take(i + 1).drop_last() =~= pv.take(i as int));
            assert(pv.take(i + 1).last() == xv);
        }
        out.insert(p, (x0, x1));
        assert(pair_views(out@) =~= o.insert(p as int, xv));
        i = i + 1;
    }
    assert(pv.take(v.len() as int) =~= pv);
    out
}

fn copy(v: &Vec<char>) -> (r: Vec<char>)
    ensures
        r@ == v@,
{
    let mut r: Vec<char> = Vec::new();
    let mut i: usize = 0;
    while i < v.len()
        invariant
            i <= v.len(),
            r@ == v@.take(i as int),
        decreases v.len() - i,
    {
        r.push(v[i]);
        i = i + 1;
        assert(r@ =~= v@.take(i as int));
    }
    assert(v@.take(v.len() as int) =~= v@);
    r
}

fn collect_terms(ts: &[GlossaryEntry], kind: TermType) -> (r: Vec<(Vec<char>, Vec<char>)>)
    ensures
        pair_views(r@) == terms_of(ts@, kind),
{
    let mut out: Vec<(Vec<char>, Vec<char>)> = Vec::new();
    let mut i: usize = 0;
    assert(ts@.take(0) =~= Seq::<GlossaryEntry>::empty());
    while i < ts.len()
        invariant
            i <= ts.len(),
            pair_views(out@) == terms_of(ts@.take(i as int), kind),
        decreases ts.len() - i,
    {
        assert(ts@.take(i + 1).drop_last() =~= ts@.take(i as int));
        assert(ts@.take(i + 1).last() == ts@[i as int]);
        if ts[i].source == kind {
            let a = chars_of(ts[i].original.as_str());
            let b = chars_of(ts[i].translated.as_str());
            let ghost o = pair_views(out@);
            out.push((a, b));
            assert(pair_views(out@) =~= o.push((a@, b@)));
        }
        i = i + 1;
    }
    assert(ts@.take(ts.len() as int) =~= ts@);
    out
}

/// The system prompt for a request: the base prompt (the default when it
/// is empty), the glossary's terms when there are any (official ones first,
/// each group sorted by original, thirty at most), then the technical
/// constraints.
pub fn build_system_prompt(
    base_prompt: &str,
    glossary: Option<&[GlossaryEntry]>,
    technical_constraints: &str,
) -> (r: String)
    ensures
        r@ == spec_system_prompt(
            base_prompt@,
            match glossary {
                Some(g) => Some(g@),
                None => None,
            },
            technical_constraints@,
        ),
{
    let mut prompt: Vec<char> = if base_prompt.is_empty() {
        chars_of(DEFAULT_PROMPT)
    } else {
        chars_of(base_prompt)
    };
    let ghost base = prompt@;
    let ghost gl = match glossary {
        Some(g) => Some(g@),
        None => None::<Seq<GlossaryEntry>>,
    };
    let ghost terms_part = match gl {
        Some(ts) => if ts.len() > 0 && listed_terms(ts).len() > 0 {
            glossary_header() + term_lines(listed_terms(ts))
        } else {
            Seq::empty()
        },
        None => Seq::empty(),
    };
    if let Some(terms) = glossary {
        if terms.len() > 0 {
            let official = sort_terms(collect_terms(terms, TermType::Official));
            let inferred = sort_terms(collect_terms(terms, TermType::Inferred));
            if official.len() > 0 || inferred.len() > 0 {
                let ghost all = pair_views(official@) + pair_views(inferred@);
                assert(all == sort_by_original(terms_of(terms@, TermType::Official))
                    + sort_by_original(terms_of(terms@, TermType::Inferred)));
                extend_str(&mut prompt, "\n\n請根據以下【術語建議】進行翻譯（僅供參考，請靈活使用）：\n");
                let ghost start = prompt@;
                let mut count: usize = 0;
                let mut i: usize = 0;
                while i < official.len() && count < MAX_PROMPT_TERMS
                    invariant
                        all == pair_views(official@) + pair_views(inferred@),
                        i <= official.len(),
                        count == i,
                        count <= 30,
                        prompt@ == start + term_lines(all.take(count as int)),
                    decreases official.len() - i,
                {
                    push_line(&mut prompt, &official[i].0, &official[i].1);
                    proof {
                        assert(all.take(count + 1).drop_last() =~= all.take(count as int));
                        assert(all.take(count + 1).last() == all[count as int]);
                        assert(all[count as int] == pair_views(official@)[i as int]);
                    }
                    i = i + 1;
                    count = count + 1;
                }
                let mut j: usize = 0;
                while j < inferred.len() && count < MAX_PROMPT_TERMS
                    invariant
                        all == pair_views(official@) + pair_views(inferred@),
                        count <= 30,
                        count == i + j,
                        i <= official.len(),
                        i < official.len() ==> count == 30,
                        j <= inferred.len(),
                        prompt@ == start + term_lines(all.take(count as int)),
                    decreases inferred.len() - j,
                {
                    push_line(&mut prompt, &inferred[j].0, &inferred[j].1);
                    proof {
                        assert(all.take(count + 1).drop_last() =~= all.take(count as int));
                        assert(all.take(count + 1).last() == all[count as int]);
                        assert(all[count as int] == pair_views(inferred@)[j as int]);
                    }
                    j = j + 1;
                    count = count + 1;
                }
                proof {
                    if all.len() <= 30 {
                        assert(all.take(count as int) =~= all);
                    } else {
                        assert(count == 30);
                    }
                    assert(listed_terms(terms@) == all.take(count as int));
                    assert(prompt@ =~= base + terms_part);
                }
            } else {
                assert(listed_terms(terms@).len() == 0);
                assert(terms_part =~= Seq::<char>::empty());
                assert(prompt@ =~= base + terms_part);
            }
        } else {
            assert(prompt@ =~= base + terms_part);
        }
    } else {
        assert(prompt@ =~= base + terms_part);
    }
    extend_str(&mut prompt, technical_constraints);
    string_of(&prompt)
}

fn push_line(prompt: &mut Vec<char>, a: &Vec<char>, b: &Vec<char>)
    ensures
        final(prompt)@ == old(prompt)@ + term_line((a@, b@)),
{
    prompt.push('-');
    prompt.push(' ');
    extend_chars(prompt, a);
    prompt.push(' ');
    prompt.push('=');
    prompt.push('>');
    prompt.push(' ');
    extend_chars(prompt, b);
    prompt.push('\n');
    assert(prompt@ =~= old(prompt)@ + term_line((a@, b@)));
}

// ---------------------------------------------------------------------------
// Language codes of the services
// ---------------------------------------------------------------------------

/// Google Translate's code for a Minecraft language code (`en` for any it
/// does not know).
pub open spec fn google_code(lang: Seq<char>) -> Seq<char> {
    if lang == "en_us"@ || lang == "en_gb"@ {
        "en"@
    } else if lang == "zh_tw"@ {
        "zh-TW"@
    } else if lang == "zh_cn"@ {
        "zh-CN"@
    } else if lang == "ja_jp"@ {
        "ja"@
    } else if lang == "ko_kr"@ {
        "ko"@
    } else if lang == "fr_fr"@ {
        "fr"@
    } else if lang == "de_de"@ {
        "de"@
    } else if lang == "es_es"@ {
        "es"@
    } else if lang == "ru_ru"@ {
        "ru"@
    } else {
        "en"@
    }
}

/// DeepL's code for a Minecraft language code (`ZH` for any it does not
/// know, and for both Chinese variants).
pub open spec fn deepl_code(lang: Seq<char>) -> Seq<char> {
    if lang == "en_us"@ {
        "EN-US"@
    } else if lang == "en_gb"@ {
        "EN-GB"@
    } else if lang == "zh_tw"@ || lang == "zh_cn"@ {
        "ZH"@
    } else if lang == "ja_jp"@ {
        "JA"@
    } else if lang == "ko_kr"@ {
        "KO"@
    } else if lang == "fr_fr"@ {
        "FR"@
    } else if lang == "de_de"@ {
        "DE"@
    } else if lang == "es_es"@ {
        "ES"@
    } else if lang == "ru_ru"@ {
        "RU"@
    } else {
        "ZH"@
    }
}

/// Google Translate's code for a Minecraft language code.
pub fn map_lang_google(lang: &str) -> (r: &'static str)
    ensures
        r@ == google_code(lang@),
{
    let l = chars_of(lang);
    if chars_eq_str(&l, "en_us") || chars_eq_str(&l, "en_gb") {
        "en"
    } else if chars_eq_str(&l, "zh_tw") {
        "zh-TW"
    } else if chars_eq_str(&l, "zh_cn") {
        "zh-CN"
    } else if chars_eq_str(&l, "ja_jp") {
        "ja"
    } else if chars_eq_str(&l, "ko_kr") {
        "ko"
    } else if chars_eq_str(&l, "fr_fr") {
        "fr"
    } else if chars_eq_str(&l, "de_de") {
        "de"
    } else if chars_eq_str(&l, "es_es") {
        "es"
    } else if chars_eq_str(&l, "ru_ru") {
        "ru"
    } else {
        "en"
    }
}

/// DeepL's code for a Minecraft language code.
pub fn map_lang_deepl(lang: &str) -> (r: &'static str)
    ensures
        r@ == deepl_code(lang@),
{
    let l = chars_of(lang);
    if chars_eq_str(&l, "en_us") {
        "EN-US"
    } else if chars_eq_str(&l, "en_gb") {
        "EN-GB"
    } else if chars_eq_str(&l, "zh_tw") || chars_eq_str(&l, "zh_cn") {
        "ZH"
    } else if chars_eq_str(&l, "ja_jp") {
        "JA"
    } else if chars_eq_str(&l, "ko_kr") {
        "KO"
    } else if chars_eq_str(&l, "fr_fr") {
        "FR"
    } else if chars_eq_str(&l, "de_de") {
        "DE"
    } else if chars_eq_str(&l, "es_es") {
        "ES"
    } else if chars_eq_str(&l, "ru_ru") {
        "RU"
    } else {
        "ZH"
    }
}


/// Terms ordered by their originals.
pub open spec fn original_order() -> spec_fn(TermPair, TermPair) -> bool {
    |a: TermPair, b: TermPair| chars_lt(a.0, b.0)
}

proof fn lemma_insert_by_original_ordered(s: Seq<TermPair>, x: TermPair)
    ensures
        insert_by_original(s, x) == insert_ordered(s, x, original_order()),
    decreases s.len(),
{
    if s.len() > 0 {
        lemma_insert_by_original_ordered(s.drop_last(), x);
    }
}

proof fn lemma_sort_by_original_ordered(s: Seq<TermPair>)
    ensures
        sort_by_original(s) == sort_ordered(s, original_order()),
    decreases s.len(),
{
    if s.len() > 0 {
        lemma_sort_by_original_ordered(s.drop_last());
        lemma_insert_by_original_ordered(sort_by_original(s.drop_last()), s.last());
    }
}

proof fn lemma_original_order_strict_weak()
    ensures
        strict_weak_order(original_order()),
{
    let f = original_order();
    assert forall|a: TermPair| !#[trigger] f(a, a) by {
        lemma_chars_lt_irreflexive(a.0);
    }
    assert forall|a: TermPair, b: TermPair, c: TermPair| #[trigger] f(a, b) && #[trigger] f(b, c) implies f(a, c) by {
        lemma_chars_lt_transitive(a.0, b.0, c.0);
    }
    assert forall|a: TermPair, b: TermPair, c: TermPair|
        #![trigger f(a, b), f(b, c)]
        f(a, c) implies f(a, b) || f(b, c) by {
        lemma_chars_lt_total(a.0, b.0);
        if !f(a, b) && a.0 != b.0 {
            lemma_chars_lt_transitive(b.0, a.0, c.0);
        }
    }
}

/// The terms of a prompt are listed by original: the sorted list holds the
/// same terms, and no term is followed by one whose original sorts before
/// its own.
pub proof fn law_terms_sorted_by_original(s: Seq<TermPair>)
    ensures
        sort_by_original(s).to_multiset() == s.to_multiset(),
        forall|i: int, j: int|
            0 <= i < j < s.len() ==> !chars_lt((#[trigger] sort_by_original(s)[j]).0, (#[trigger] sort_by_original(s)[i]).0),
{
    lemma_sort_by_original_ordered(s);
    lemma_original_order_strict_weak();
    lemma_sort_ordered(s, original_order());
    let r = sort_by_original(s);
    assert forall|i: int, j: int| 0 <= i < j < s.len() implies !chars_lt((#[trigger] r[j]).0, (#[trigger] r[i]).0) by {
        assert(!original_order()(r[j], r[i]));
    }
}


// ---------------------------------------------------------------------------
// Requests and answers
// ---------------------------------------------------------------------------

/// The service a single text goes to.
#[derive(Clone, Copy, Debug, PartialEq, Eq, Structural)]
pub enum TranslateRoute {
    /// Google's free web translation.
    FreeGoogle,
    Gemini,
    /// OpenAI, DeepSeek or Mistral (one chat API).
    OpenAiCompatible,
    Ollama,
    DeepL,
}

/// Where a single text goes: the chosen service, except that Gemini and
/// the chat services fall back to the free Google translation without a
/// key, and an unknown service goes there too.
pub open spec fn spec_translate_route(provider: Seq<char>, key_empty: bool) -> TranslateRoute {
    if provider == "Gemini"@ {
        if key_empty {
            TranslateRoute::FreeGoogle
        } else {
            TranslateRoute::Gemini
        }
    } else if provider == "OpenAI"@ || provider == "DeepSeek"@ || provider == "Mistral"@ {
        if key_empty {
            TranslateRoute::FreeGoogle
        } else {
            TranslateRoute::OpenAiCompatible
        }
    } else if provider == "Ollama"@ {
        TranslateRoute::Ollama
    } else if provider == "DeepL"@ {
        TranslateRoute::DeepL
    } else {
        TranslateRoute::FreeGoogle
    }
}

/// Where a single text goes (see `spec_translate_route`).
pub fn translate_route(provider: &str, api_key: &str) -> (r: TranslateRoute)
    ensures
        r == spec_translate_route(provider@, api_key@.len() == 0),
{
    let p = chars_of(provider);
    let key_empty = chars_of(api_key).len() == 0;
    if chars_eq_str(&p, "Gemini") {
        if key_empty {
            TranslateRoute::FreeGoogle
        } else {
            TranslateRoute::Gemini
        }
    } else if chars_eq_str(&p, "OpenAI") || chars_eq_str(&p, "DeepSeek") || chars_eq_str(&p, "Mistral") {
        if key_empty {
            TranslateRoute::FreeGoogle
        } else {
            TranslateRoute::OpenAiCompatible
        }
    } else if chars_eq_str(&p, "Ollama") {
        TranslateRoute::Ollama
    } else if chars_eq_str(&p, "DeepL") {
        TranslateRoute::DeepL
    } else {
        TranslateRoute::FreeGoogle
    }
}

/// `s` without the characters `c` at its start (`str::trim_start_matches`).
pub open spec fn trim_char_start(s: Seq<char>, c: char) -> Seq<char>
    decreases s.len(),
{
    if s.len() > 0 && s[0] == c {
        trim_char_start(s.drop_first(), c)
    } else {
        s
    }
}

/// `s` without the characters `c` at its end (`str::trim_end_matches`).
pub open spec fn trim_char_end(s: Seq<char>, c: char) -> Seq<char>
    decreases s.len(),
{
    if s.len() > 0 && s.last() == c {
        trim_char_end(s.drop_last(), c)
    } else {
        s
    }
}

/// `s` without the characters `c` at either end (`str::trim_matches`).
pub open spec fn trim_char(s: Seq<char>, c: char) -> Seq<char> {
    trim_char_end(trim_char_start(s, c), c)
}

/// `trim_char_end` for executable code.
pub fn trim_char_end_exec(s: &Vec<char>, c: char) -> (r: Vec<char>)
    ensures
        r@ == trim_char_end(s@, c),
{
    let mut n: usize = s.len();
    assert(s@.take(n as int) =~= s@);
    while n > 0 && s[n - 1] == c
        invariant
            n <= s@.len(),
            trim_char_end(s@, c) == trim_char_end(s@.take(n as int), c),
        decreases n,
    {
        assert(s@.take(n as int).drop_last() =~= s@.take(n - 1));
        assert(s@.take(n as int).last() == s@[n - 1]);
        n = n - 1;
    }
    proof {
        if n > 0 {
            assert(s@.take(n as int).last() == s@[n - 1]);
        }
    }
    sub_chars(s, 0, n)
}

/// `trim_char` for executable code.
pub fn trim_char_exec(s: &Vec<char>, c: char) -> (r: Vec<char>)
    ensures
        r@ == trim_char(s@, c),
{
    let mut a: usize = 0;
    assert(s@.skip(0) =~= s@);
    while a < s.len() && s[a] == c
        invariant
            a <= s@.len(),
            trim_char_start(s@, c) == trim_char_start(s@.skip(a as int), c),
        decreases s.len() - a,
    {
        assert(s@.skip(a as int).drop_first() =~= s@.skip(a + 1));
        assert(s@.skip(a as int)[0] == s@[a as int]);
        a = a + 1;
    }
    proof {
        if a < s@.len() {
            assert(s@.skip(a as int)[0] == s@[a as int]);
        }
    }
    let rest = sub_chars(s, a, s.len());
    assert(rest@ =~= s@.skip(a as int));
    trim_char_end_exec(&rest, c)
}

/// The text of Gemini's answer: `candidates[0].content.parts[0].text`,
/// trimmed of whitespace and then of double quotes.
pub open spec fn spec_gemini_answer(v: JsonValue) -> Option<Seq<char>> {
    match str_of(
        field_of(item_of(field_of(field_of(item_of(field_of(Some(v), "candidates"@), 0), "content"@), "parts"@), 0), "text"@),
    ) {
        Some(t) => Some(trim_char(trim(t), '"')),
        None => None,
    }
}

/// The text of Gemini's answer (see `spec_gemini_answer`).
pub fn gemini_answer(v: &JsonValue) -> (r: Option<String>)
    ensures
        opt_view(r) == spec_gemini_answer(*v),
{
    let a = json_field(Some(v), "candidates");
    let b = json_item(a, 0);
    let c = json_field(b, "content");
    let d = json_field(c, "parts");
    let e = json_item(d, 0);
    let f = json_field(e, "text");
    match json_str(f) {
        Some(t) => Some(string_of(&trim_char_exec(&trim_chars(&chars_of(t.as_str())), '"'))),
        None => None,
    }
}

/// The text of a chat service's answer: `choices[0].message.content`,
/// trimmed of double quotes.
pub open spec fn spec_chat_answer(v: JsonValue) -> Option<Seq<char>> {
    match str_of(field_of(field_of(item_of(field_of(Some(v), "choices"@), 0), "message"@), "content"@)) {
        Some(t) => Some(trim_char(t, '"')),
        None => None,
    }
}

/// The text of a chat service's answer (see `spec_chat_answer`).
pub fn chat_answer(v: &JsonValue) -> (r: Option<String>)
    ensures
        opt_view(r) == spec_chat_answer(*v),
{
    let a = json_field(Some(v), "choices");
    let b = json_item(a, 0);
    let c = json_field(b, "message");
    let d = json_field(c, "content");
    match json_str(d) {
        Some(t) => Some(string_of(&trim_char_exec(&chars_of(t.as_str()), '"'))),
        None => None,
    }
}

/// The text of DeepL's answer: `translations[0].text`.
pub open spec fn spec_deepl_answer(v: JsonValue) -> Option<Seq<char>> {
    str_of(field_of(item_of(field_of(Some(v), "translations"@), 0), "text"@))
}

/// The text of DeepL's answer (see `spec_deepl_answer`).
pub fn deepl_answer(v: &JsonValue) -> (r: Option<String>)
    ensures
        opt_view(r) == spec_deepl_answer(*v),
{
    json_str(json_field(json_item(json_field(Some(v), "translations"), 0), "text"))
}

/// The text of the free Google translation's answer: `[0][0][0]`.
pub open spec fn spec_free_google_answer(v: JsonValue) -> Option<Seq<char>> {
    str_of(item_of(item_of(item_of(Some(v), 0), 0), 0))
}

/// The text of the free Google translation's answer (see
/// `spec_free_google_answer`).
pub fn free_google_answer(v: &JsonValue) -> (r: Option<String>)
    ensures
        opt_view(r) == spec_free_google_answer(*v),
{
    json_str(json_item(json_item(json_item(Some(v), 0), 0), 0))
}

/// The text of Ollama's answer: `response`.
pub open spec fn spec_ollama_response(v: JsonValue) -> Option<Seq<char>> {
    str_of(field_of(Some(v), "response"@))
}

/// The text of Ollama's answer (see `spec_ollama_response`).
pub fn ollama_response(v: &JsonValue) -> (r: Option<String>)
    ensures
        opt_view(r) == spec_ollama_response(*v),
{
    json_str(json_field(Some(v), "response"))
}

/// The translation in Ollama's reply: when the reply holds a JSON object,
/// its `translated` text, else the text of its first field when that is a
/// text; otherwise the whole reply (trimmed). Double quotes, then single
/// quotes, then whitespace are trimmed off; an empty object (`{}` or
/// `{ }`) is no translation.
pub open spec fn spec_ollama_translation(parsed: Option<JsonValue>, reply: Seq<char>) -> Option<Seq<char>> {
    let raw = trim(reply);
    let picked = match parsed {
        Some(JsonValue::Object(fields)) => match str_of(first_field(fields@, "translated"@)) {
            Some(t) => t,
            None => if fields@.len() > 0 {
                match str_of(Some(fields@[0].1)) {
                    Some(t) => t,
                    None => raw,
                }
            } else {
                raw
            },
        },
        _ => raw,
    };
    let cleaned = trim(trim_char(trim_char(picked, '"'), '\''));
    if cleaned == "{}"@ || cleaned == "{ }"@ {
        None
    } else {
        Some(cleaned)
    }
}

/// The translation in Ollama's reply, given the JSON found in it, if any
/// (see `spec_ollama_translation`).
pub fn ollama_translation(parsed: Option<&JsonValue>, reply: &str) -> (r: Option<String>)
    ensures
        opt_view(r) == spec_ollama_translation(opt_json(parsed), reply@),
{
    let raw = trim_chars(&chars_of(reply));
    let picked: Vec<char> = match parsed {
        Some(JsonValue::Object(fields)) => {
            let ghost pj = opt_json(parsed);
            assert(pj == Some(JsonValue::Object(*fields)));
            assert(field_of(pj, "translated"@) == first_field(fields@, "translated"@));
            match json_str(json_field(parsed, "translated")) {
                Some(t) => chars_of(t.as_str()),
                None => {
                    if fields.len() > 0 {
                        match json_str(Some(&fields[0].1)) {
                            Some(t) => chars_of(t.as_str()),
                            None => raw,
                        }
                    } else {
                        raw
                    }
                },
            }
        },
        _ => raw,
    };
    let cleaned = trim_chars(&trim_char_exec(&trim_char_exec(&picked, '"'), '\''));
    if chars_eq_str(&cleaned, "{}") || chars_eq_str(&cleaned, "{ }") {
        None
    } else {
        Some(string_of(&cleaned))
    }
}

/// The instruction that asks Ollama for a JSON answer, added to a text
/// shorter than 500 bytes.
pub open spec fn ollama_json_request() -> Seq<char> {
    "\nReturn a JSON object with a \"translated\" key containing ONLY the translated text."@
}

/// What is sent to Ollama for one text: the text, with the JSON request
/// added when it is shorter than 500 bytes.
pub open spec fn spec_ollama_prompt(text: Seq<char>) -> Seq<char> {
    if utf8_len(text) < 500 {
        text + ollama_json_request()
    } else {
        text
    }
}

/// What is sent to Ollama for one text (see `spec_ollama_prompt`).
pub fn ollama_prompt(text: &str) -> (r: String)
    ensures
        r@ == spec_ollama_prompt(text@),
{
    let t = chars_of(text);
    if utf8_len_exec(&t) < 500 {
        let mut out = t;
        extend_str(&mut out, "\nReturn a JSON object with a \"translated\" key containing ONLY the translated text.");
        string_of(&out)
    } else {
        text.to_owned()
    }
}

/// The line of a batch: `[<position from 1>] <text>`.
pub open spec fn numbered_line(i: nat, t: Seq<char>) -> Seq<char> {
    seq!['['] + decimal(i + 1) + "] "@ + t
}

/// The numbered lines of a batch's texts.
pub open spec fn numbered_lines(texts: Seq<Seq<char>>) -> Seq<Seq<char>> {
    Seq::new(texts.len(), |i: int| numbered_line(i as nat, texts[i]))
}

/// The request for a batch: an instruction to answer line by line with the
/// same numbers, then the numbered texts, one per line.
pub open spec fn spec_batch_prompt(texts: Seq<Seq<char>>) -> Seq<char> {
    "以下是需要翻譯的多行字串，請按照相同的編號格式輸出翻譯結果，每行一個：\n"@ + join(numbered_lines(texts), "\n"@)
}

/// The request for a batch (see `spec_batch_prompt`).
pub fn batch_prompt(texts: &Vec<String>) -> (r: String)
    requires
        texts@.len() < usize::MAX,
    ensures
        r@ == spec_batch_prompt(texts@.map_values(|s: String| s@)),
{
    let ghost tv = texts@.map_values(|s: String| s@);
    let mut lines: Vec<Vec<char>> = Vec::new();
    let mut i: usize = 0;
    while i < texts.len()
        invariant
            tv == texts@.map_values(|s: String| s@),
            texts@.len() < usize::MAX,
            i <= texts@.len(),
            lines@.len() == i,
            forall|k: int| 0 <= k < i ==> (#[trigger] lines@[k])@ == numbered_line(k as nat, tv[k]),
        decreases texts.len() - i,
    {
        let mut line: Vec<char> = Vec::new();
        line.push('[');
        let num = decimal_chars(i + 1);
        extend_chars(&mut line, &num);
        extend_str(&mut line, "] ");
        extend_str(&mut line, texts[i].as_str());
        assert(line@ =~= numbered_line(i as nat, tv[i as int]));
        lines.push(line);
        i = i + 1;
    }
    let joined = join_chars(&lines, "\n");
    assert(lines@.map_values(|p: Vec<char>| p@) =~= numbered_lines(tv));
    let mut out = chars_of("以下是需要翻譯的多行字串，請按照相同的編號格式輸出翻譯結果，每行一個：\n");
    extend_chars(&mut out, &joined);
    string_of(&out)
}

/// Gemini's address for a model and key.
pub open spec fn spec_gemini_url(model: Seq<char>, key: Seq<char>) -> Seq<char> {
    "https://generativelanguage.googleapis.com/v1beta/models/"@ + model + ":generateContent?key="@ + key
}

/// Gemini's address for a model and key (see `spec_gemini_url`).
pub fn gemini_url(model: &str, api_key: &str) -> (r: String)
    ensures
        r@ == spec_gemini_url(model@, api_key@),
{
    let mut out = chars_of("https://generativelanguage.googleapis.com/v1beta/models/");
    extend_str(&mut out, model);
    extend_str(&mut out, ":generateContent?key=");
    extend_str(&mut out, api_key);
    string_of(&out)
}

/// The chat address of a chat service: DeepSeek's, Mistral's, else
/// OpenAI's.
pub open spec fn spec_chat_url(provider: Seq<char>) -> Seq<char> {
    if provider == "DeepSeek"@ {
        "https://api.deepseek.com/v1/chat/completions"@
    } else if provider == "Mistral"@ {
        "https://api.mistral.ai/v1/chat/completions"@
    } else {
        "https://api.openai.com/v1/chat/completions"@
    }
}

/// The chat address of a chat service (see `spec_chat_url`).
pub fn chat_url(provider: &str) -> (r: &'static str)
    ensures
        r@ == spec_chat_url(provider@),
{
    let p = chars_of(provider);
    if chars_eq_str(&p, "DeepSeek") {
        "https://api.deepseek.com/v1/chat/completions"
    } else if chars_eq_str(&p, "Mistral") {
        "https://api.mistral.ai/v1/chat/completions"
    } else {
        "https://api.openai.com/v1/chat/completions"
    }
}

/// DeepL's address: the free one for the `deepl-free` model.
pub fn deepl_url(model: &str) -> (r: &'static str)
    ensures
        r@ == (if model@ == "deepl-free"@ {
            "https://api-free.deepl.com/v2/translate"@
        } else {
            "https://api.deepl.com/v2/translate"@
        }),
{
    if chars_eq_str(&chars_of(model), "deepl-free") {
        "https://api-free.deepl.com/v2/translate"
    } else {
        "https://api.deepl.com/v2/translate"
    }
}

/// An address under a base address, the base's trailing slashes dropped.
pub open spec fn under_base(base: Seq<char>, path: Seq<char>) -> Seq<char> {
    trim_char_end(base, '/') + path
}

/// An address under a base address (see `under_base`), such as Ollama's
/// `/api/generate` and `/api/tags`.
pub fn url_under_base(base: &str, path: &str) -> (r: String)
    ensures
        r@ == under_base(base@, path@),
{
    let mut out = trim_char_end_exec(&chars_of(base), '/');
    extend_str(&mut out, path);
    string_of(&out)
}

/// The wait before another try at the free Google translation: after the
/// first and second failures 2 and 4 seconds; after the third, no more
/// tries.
pub fn google_retry_wait(failures: u32) -> (r: Option<u64>)
    ensures
        r == (if 1 <= failures <= 2 {
            Some((failures * 2) as u64)
        } else {
            None::<u64>
        }),
{
    if failures >= 1 && failures <= 2 {
        Some((failures as u64) * 2)
    } else {
        None
    }
}


// ---------------------------------------------------------------------------
// JSON inside a reply
// ---------------------------------------------------------------------------

/// The first position at or after `k` whose character is not whitespace
/// (the end of `t` when there is none).
pub open spec fn skip_whitespace(t: Seq<char>, k: int) -> int
    decreases t.len() - k,
{
    if k >= t.len() || k < 0 {
        k
    } else if spec_is_whitespace(t[k]) {
        skip_whitespace(t, k + 1)
    } else {
        k
    }
}

/// The body of the first fenced block of a reply: after the first "```"
/// (and "json" right after it, when a closing fence follows), past any
/// whitespace, up to the next "```"; none without a closing fence.
pub open spec fn fenced_block(t: Seq<char>) -> Option<Seq<char>> {
    match find_from(t, "```"@, 0) {
        Some(p) => {
            let a = if occurs_at("json"@, t, p + 3) && find_from(t, "```"@, p + 7) is Some {
                p + 7
            } else {
                p + 3
            };
            let b = skip_whitespace(t, a);
            match find_from(t, "```"@, b) {
                Some(q) => Some(t.subrange(b, q)),
                None => None,
            }
        },
        None => None,
    }
}

/// The JSON starting at the first `{` of a reply: the text from there
/// (trimmed) up to its last `}` when that reads as JSON, else, when it does
/// not end with `}`, the text with a `}` added when that reads as JSON.
pub open spec fn brace_json(t: Seq<char>) -> Option<Seq<char>> {
    match find_from(t, "{"@, 0) {
        Some(i) => {
            let c = trim(t.skip(i));
            let cut = match last_index_of(c, '}') {
                Some(j) => if parses_as_json(c.take(j + 1)) {
                    Some(c.take(j + 1))
                } else {
                    None
                },
                None => None,
            };
            if cut is Some {
                cut
            } else if !(c.len() > 0 && c.last() == '}') && parses_as_json(c.push('}')) {
                Some(c.push('}'))
            } else {
                None
            }
        },
        None => None,
    }
}

/// The JSON in a reply: the whole reply (trimmed) when it reads as JSON,
/// else the trimmed body of its first fenced block when that does, else
/// the JSON starting at its first `{` (see `brace_json`).
pub open spec fn spec_extract_json(text: Seq<char>) -> Option<Seq<char>> {
    let t = trim(text);
    if parses_as_json(t) {
        Some(t)
    } else {
        match fenced_block(t) {
            Some(c) => if parses_as_json(trim(c)) {
                Some(trim(c))
            } else {
                brace_json(t)
            },
            None => brace_json(t),
        }
    }
}

fn parses(v: &Vec<char>) -> (r: bool)
    ensures
        r == parses_as_json(v@),
{
    parse_json(string_of(v).as_str()).is_some()
}

fn skip_whitespace_exec(t: &Vec<char>, k: usize) -> (r: usize)
    requires
        k <= t@.len(),
    ensures
        r == skip_whitespace(t@, k as int),
        k <= r <= t@.len(),
{
    let mut i = k;
    while i < t.len() && char_is_whitespace(t[i])
        invariant
            k <= i <= t@.len(),
            skip_whitespace(t@, k as int) == skip_whitespace(t@, i as int),
        decreases t.len() - i,
    {
        i = i + 1;
    }
    i
}

fn fenced_block_exec(t: &Vec<char>) -> (r: Option<Vec<char>>)
    ensures
        opt_chars(r) == fenced_block(t@),
{
    let fence = chars_of("```");
    proof {
        reveal_strlit("```");
        reveal_strlit("json");
    }
    match find_from_exec(t, &fence, 0) {
        Some(p) => {
            proof {
                lemma_find_from(t@, fence@, 0);
            }
            let tl: usize = t.len();
            assert(p + 3 <= tl);
            let has_json = occurs_at_exec(&chars_of("json"), t, p + 3);
            let a: usize = if has_json {
                assert(p + 7 <= tl);
                if find_from_exec(t, &fence, p + 7).is_some() {
                    p + 7
                } else {
                    p + 3
                }
            } else {
                p + 3
            };
            let b = skip_whitespace_exec(t, a);
            match find_from_exec(t, &fence, b) {
                Some(q) => {
                    proof {
                        lemma_find_from(t@, fence@, b as int);
                    }
                    Some(sub_chars(t, b, q))
                },
                None => None,
            }
        },
        None => None,
    }
}

fn brace_json_exec(t: &Vec<char>) -> (r: Option<Vec<char>>)
    ensures
        opt_chars(r) == brace_json(t@),
{
    let open = chars_of("{");
    match find_from_exec(t, &open, 0) {
        Some(i) => {
            proof {
                lemma_find_from(t@, open@, 0);
                reveal_strlit("{");
            }
            let rest = sub_chars(t, i, t.len());
            assert(rest@ =~= t@.skip(i as int));
            let c = trim_chars(&rest);
            let cl: usize = c.len();
            match last_index_of_exec(&c, '}') {
                Some(j) => {
                    assert(j < cl);
                    let cut = sub_chars(&c, 0, j + 1);
                    assert(cut@ =~= c@.take(j + 1));
                    if parses(&cut) {
                        return Some(cut);
                    }
                },
                None => {},
            }
            let ends = c.len() > 0 && c[c.len() - 1] == '}';
            if !ends {
                let mut c2 = c;
                c2.push('}');
                if parses(&c2) {
                    return Some(c2);
                }
            }
            None
        },
        None => None,
    }
}

/// Optional characters as a sequence.
pub open spec fn opt_chars(o: Option<Vec<char>>) -> Option<Seq<char>> {
    match o {
        Some(v) => Some(v@),
        None => None,
    }
}

/// The JSON in a reply (see `spec_extract_json`).
pub fn extract_json_from_text(text: &str) -> (r: Option<String>)
    ensures
        opt_view(r) == spec_extract_json(text@),
{
    let t = trim_chars(&chars_of(text));
    if parses(&t) {
        return Some(string_of(&t));
    }
    match fenced_block_exec(&t) {
        Some(c) => {
            let tc = trim_chars(&c);
            if parses(&tc) {
                return Some(string_of(&tc));
            }
        },
        None => {},
    }
    match brace_json_exec(&t) {
        Some(j) => Some(string_of(&j)),
        None => None,
    }
}

/// The JSON value in Ollama's reply, if any: the JSON the reply holds (see
/// `spec_extract_json`) as read.
pub open spec fn reply_json(reply: Seq<char>) -> Option<JsonValue> {
    match spec_extract_json(trim(reply)) {
        Some(j) => spec_parse_json(j),
        None => None,
    }
}

/// The translation in Ollama's reply: the JSON in it, read, then picked
/// from as `spec_ollama_translation` says.
pub fn ollama_reply_translation(reply: &str) -> (r: Option<String>)
    ensures
        opt_view(r) == spec_ollama_translation(reply_json(reply@), trim(reply@)),
{
    let trimmed = string_of(&trim_chars(&chars_of(reply)));
    let parsed = match extract_json_from_text(trimmed.as_str()) {
        Some(j) => parse_json(j.as_str()),
        None => None,
    };
    ollama_translation(parsed.as_ref(), trimmed.as_str())
}


proof fn lemma_insert_by_original_len(s: Seq<TermPair>, x: TermPair)
    ensures
        insert_by_original(s, x).len() == s.len() + 1,
    decreases s.len(),
{
    if s.len() > 0 {
        lemma_insert_by_original_len(s.drop_last(), x);
    }
}

proof fn lemma_sort_by_original_len(s: Seq<TermPair>)
    ensures
        sort_by_original(s).len() == s.len(),
    decreases s.len(),
{
    if s.len() > 0 {
        lemma_sort_by_original_len(s.drop_last());
        lemma_insert_by_original_len(sort_by_original(s.drop_last()), s.last());
    }
}

proof fn lemma_terms_split(ts: Seq<GlossaryEntry>)
    ensures
        terms_of(ts, TermType::Official).len() + terms_of(ts, TermType::Inferred).len() == ts.len(),
    decreases ts.len(),
{
    if ts.len() > 0 {
        lemma_terms_split(ts.drop_last());
    }
}

/// The shape of the system prompt: it opens with the base prompt (or
/// `DEFAULT_PROMPT` when that is empty) and closes with the technical
/// constraints; with no terms it is just those two; otherwise it lists
/// thirty terms, or all of them when there are fewer.
pub proof fn law_system_prompt_shape(base: Seq<char>, glossary: Option<Seq<GlossaryEntry>>, constraints: Seq<char>)
    ensures
        ({
            let start = if base.len() == 0 {
                DEFAULT_PROMPT@
            } else {
                base
            };
            let r = spec_system_prompt(base, glossary, constraints);
            &&& start.is_prefix_of(r)
            &&& constraints.is_suffix_of(r)
            &&& (glossary is None || glossary->0.len() == 0) ==> r == start + constraints
            &&& glossary matches Some(ts) ==> listed_terms(ts).len() == if ts.len() <= 30 {
                ts.len()
            } else {
                30
            }
        }),
{
    let start = if base.len() == 0 {
        DEFAULT_PROMPT@
    } else {
        base
    };
    let terms = match glossary {
        Some(ts) => if ts.len() > 0 && listed_terms(ts).len() > 0 {
            glossary_header() + term_lines(listed_terms(ts))
        } else {
            Seq::empty()
        },
        None => Seq::empty(),
    };
    let r = spec_system_prompt(base, glossary, constraints);
    assert(r == start + terms + constraints);
    assert(r.subrange(0, start.len() as int) =~= start);
    assert(r.subrange(r.len() - constraints.len(), r.len() as int) =~= constraints);
    if glossary is None || glossary->0.len() == 0 {
        assert(terms =~= Seq::<char>::empty());
        assert(r =~= start + constraints);
    }
    if let Some(ts) = glossary {
        lemma_terms_split(ts);
        lemma_sort_by_original_len(terms_of(ts, TermType::Official));
        lemma_sort_by_original_len(terms_of(ts, TermType::Inferred));
    }
}

} // verus!
