//! The texts of a script that a run translates, found by the script
//! patterns, each a small grammar over the script's characters (`\s` is
//! whitespace, a quote is `'` or `"`):
//!
//! 1. `Text.of(` `\s*` quote, the text up to the next quote;
//! 2. `add(` or `addItem(` `\s*` quote, no quote, quote `\s*` `,` `\s*` `[`,
//!    the list up to the next `]` (its quoted texts are taken, see below);
//! 3. `.text(` or `scene.text(`, then up to the first quote only whitespace,
//!    or anything ending in `,` and whitespace; that quote `'`, the text up
//!    to the next `'`;
//! 4. as 3, with `"`;
//! 5. `text` `\s*` `:` `\s*` `'`, the text up to the next `'`;
//! 6. as 5, with `"`;
//! 7. `.scene(` `\s*` `'`, no `'`, `'` `\s*` `,` `\s*` `'`, the text up to
//!    the next `'`;
//! 8. `.scene(` `\s*` quote, no quote, quote `\s*` `,` `\s*` `"`, the text up
//!    to the next `"`;
//! 9. `.title(` `\s*` `'`, the text up to the next `'`;
//! 10. as 9, with `"`.
//!
//! Each pattern is searched left to right, a search going on after the end
//! of the last match. In a list of pattern 2, the texts between `'` and `'`
//! are taken, left to right, then those between `"` and `"`. The matches
//! are numbered in the order found, pattern by pattern.
use vstd::prelude::*;
use vstd::string::StringSliceAdditionalSpecFns;
use crate::file::js_handler::{collect_js_matches, js_item_ok, match_views, spec_filter_js_matches};
use crate::translation::batching::GlobalBatchItem;
use crate::text::{
    chars_of, occurs_at, occurs_at_exec, spec_is_whitespace, char_is_whitespace, string_of, sub_chars, utf8_len,
    utf8_len_exec, lemma_utf8_len_append, lemma_encode_utf8_len,
};

verus! {

/// The first position from `p` on that is not whitespace (or the end).
pub open spec fn ws_end(s: Seq<char>, p: int) -> int
    decreases s.len() - p,
{
    if 0 <= p < s.len() && spec_is_whitespace(s[p]) {
        ws_end(s, p + 1)
    } else {
        p
    }
}

/// The first position from `p` on holding `a` or `b`.
pub open spec fn next_of(s: Seq<char>, p: int, a: char, b: char) -> Option<int>
    decreases s.len() - p,
{
    if p < 0 || p >= s.len() {
        None
    } else if s[p] == a || s[p] == b {
        Some(p)
    } else {
        next_of(s, p + 1, a, b)
    }
}

/// The last position in `b..q` that is not whitespace.
pub open spec fn last_non_ws(s: Seq<char>, b: int, q: int) -> Option<int>
    decreases q - b,
{
    if q <= b {
        None
    } else if !spec_is_whitespace(s[q - 1]) {
        Some(q - 1)
    } else {
        last_non_ws(s, b, q - 1)
    }
}

/// `s[i]` is `c`.
pub open spec fn at(s: Seq<char>, i: int, c: char) -> bool {
    0 <= i < s.len() && s[i] == c
}

/// `s[i]` is a quote.
pub open spec fn at_quote(s: Seq<char>, i: int) -> bool {
    at(s, i, '\'') || at(s, i, '"')
}

/// The text after the opening delimiter at `q` up to the next `a` or `b`:
/// (end of the match, start and end of the text).
pub open spec fn capture_after(s: Seq<char>, q: int, a: char, b: char) -> Option<(int, int, int)> {
    match next_of(s, q + 1, a, b) {
        Some(c) => Some((c + 1, q + 1, c)),
        None => None,
    }
}

/// Between the opening `(` (ending at `b`) and the quote at `q`: only
/// whitespace, or anything whose last non-whitespace character is `,`.
pub open spec fn text_args_ok(s: Seq<char>, b: int, q: int) -> bool {
    match last_non_ws(s, b, q) {
        None => true,
        Some(w) => s[w] == ',',
    }
}

/// The closing part `quote..quote \s* , \s*` then the text of pattern 7 or
/// 8 after the quote `q` that opens the first argument.
pub open spec fn scene_tail(s: Seq<char>, q: int, first_any: bool, quote: char) -> Option<(int, int, int)> {
    let r = if first_any {
        next_of(s, q + 1, '\'', '"')
    } else {
        next_of(s, q + 1, '\'', '\'')
    };
    match r {
        Some(r) => {
            let t = ws_end(s, r + 1);
            if at(s, t, ',') {
                let u = ws_end(s, t + 1);
                if at(s, u, quote) {
                    capture_after(s, u, quote, quote)
                } else {
                    None
                }
            } else {
                None
            }
        },
        None => None,
    }
}

/// A match of pattern `k` (1 to 10, then 11 and 12 for `'…'` and `"…"`)
/// starting at `p`: (end of the match, start and end of its text).
pub open spec fn pattern_at(k: nat, s: Seq<char>, p: int) -> Option<(int, int, int)> {
    if k == 1 {
        if occurs_at("Text.of("@, s, p) {
            let q = ws_end(s, p + "Text.of("@.len());
            if at_quote(s, q) {
                capture_after(s, q, '\'', '"')
            } else {
                None
            }
        } else {
            None
        }
    } else if k == 2 {
        if occurs_at("add"@, s, p) {
            let a = p + "add"@.len();
            let b = if occurs_at("Item("@, s, a) {
                a + "Item("@.len()
            } else if at(s, a, '(') {
                a + 1
            } else {
                -1
            };
            let q = ws_end(s, b);
            if b >= 0 && at_quote(s, q) {
                match next_of(s, q + 1, '\'', '"') {
                    Some(r) => {
                        let t = ws_end(s, r + 1);
                        if at(s, t, ',') {
                            let u = ws_end(s, t + 1);
                            if at(s, u, '[') {
                                capture_after(s, u, ']', ']')
                            } else {
                                None
                            }
                        } else {
                            None
                        }
                    },
                    None => None,
                }
            } else {
                None
            }
        } else {
            None
        }
    } else if k == 3 || k == 4 {
        let quote = if k == 3 {
            '\''
        } else {
            '"'
        };
        let b = if occurs_at(".text("@, s, p) {
            p + ".text("@.len()
        } else if occurs_at("scene.text("@, s, p) {
            p + "scene.text("@.len()
        } else {
            -1
        };
        if b >= 0 {
            match next_of(s, b, '\'', '"') {
                Some(q) => if s[q] == quote && text_args_ok(s, b, q) {
                    capture_after(s, q, quote, quote)
                } else {
                    None
                },
                None => None,
            }
        } else {
            None
        }
    } else if k == 5 || k == 6 {
        let quote = if k == 5 {
            '\''
        } else {
            '"'
        };
        if occurs_at("text"@, s, p) {
            let q = ws_end(s, p + "text"@.len());
            if at(s, q, ':') {
                let u = ws_end(s, q + 1);
                if at(s, u, quote) {
                    capture_after(s, u, quote, quote)
                } else {
                    None
                }
            } else {
                None
            }
        } else {
            None
        }
    } else if k == 7 || k == 8 {
        if occurs_at(".scene("@, s, p) {
            let q = ws_end(s, p + ".scene("@.len());
            if (k == 7 && at(s, q, '\'')) || (k == 8 && at_quote(s, q)) {
                scene_tail(s, q, k == 8, if k == 7 {
                    '\''
                } else {
                    '"'
                })
            } else {
                None
            }
        } else {
            None
        }
    } else if k == 9 || k == 10 {
        let quote = if k == 9 {
            '\''
        } else {
            '"'
        };
        if occurs_at(".title("@, s, p) {
            let q = ws_end(s, p + ".title("@.len());
            if at(s, q, quote) {
                capture_after(s, q, quote, quote)
            } else {
                None
            }
        } else {
            None
        }
    } else if k == 11 || k == 12 {
        let quote = if k == 11 {
            '\''
        } else {
            '"'
        };
        if at(s, p, quote) {
            capture_after(s, p, quote, quote)
        } else {
            None
        }
    } else {
        None
    }
}

/// The texts (start, end) that pattern `k` finds in `s` from `p` on, left
/// to right, each search going on after the end of the last match.
pub open spec fn scan(k: nat, s: Seq<char>, p: int) -> Seq<(int, int)>
    decreases s.len() + 1 - p,
{
    if p < 0 || p >= s.len() {
        Seq::empty()
    } else {
        match pattern_at(k, s, p) {
            Some(m) => seq![(m.1, m.2)] + scan(k, s, if p < m.0 <= s.len() {
                m.0
            } else {
                p + 1
            }),
            None => scan(k, s, p + 1),
        }
    }
}

/// Ranges moved by `d`.
pub open spec fn shifted(rs: Seq<(int, int)>, d: int) -> Seq<(int, int)> {
    rs.map_values(|r: (int, int)| (r.0 + d, r.1 + d))
}

/// The quoted texts of the lists found by pattern 2: for each list, those
/// between `'` and `'`, then those between `"` and `"`.
pub open spec fn list_texts(s: Seq<char>, lists: Seq<(int, int)>) -> Seq<(int, int)>
    decreases lists.len(),
{
    if lists.len() == 0 {
        Seq::empty()
    } else {
        let l = lists.last();
        let inner = s.subrange(l.0, l.1);
        list_texts(s, lists.drop_last()) + shifted(scan(11, inner, 0), l.0) + shifted(scan(12, inner, 0), l.0)
    }
}

/// All the texts a script's patterns find, in the order numbered.
pub open spec fn script_texts(s: Seq<char>) -> Seq<(int, int)> {
    scan(1, s, 0) + list_texts(s, scan(2, s, 0)) + scan(3, s, 0) + scan(4, s, 0) + scan(5, s, 0) + scan(6, s, 0)
        + scan(7, s, 0) + scan(8, s, 0) + scan(9, s, 0) + scan(10, s, 0)
}

/// The matches of a script as the run collects them: (start byte, end
/// byte, text, number).
pub open spec fn spec_js_matches(s: Seq<char>) -> Seq<(usize, usize, Seq<char>, usize)> {
    let t = script_texts(s);
    Seq::new(
        t.len(),
        |i: int|
            (
                utf8_len(s.take(t[i].0)) as usize,
                utf8_len(s.take(t[i].1)) as usize,
                s.subrange(t[i].0, t[i].1),
                i as usize,
            ),
    )
}

// ---------------------------------------------------------------------------
// Executable
// ---------------------------------------------------------------------------

fn ws_end_exec(s: &Vec<char>, p: usize) -> (r: usize)
    requires
        p <= s@.len(),
    ensures
        r == ws_end(s@, p as int),
        p <= r <= s@.len(),
{
    let mut i = p;
    while i < s.len() && char_is_whitespace(s[i])
        invariant
            p <= i <= s@.len(),
            ws_end(s@, p as int) == ws_end(s@, i as int),
        decreases s.len() - i,
    {
        i = i + 1;
    }
    i
}

fn next_of_exec(s: &Vec<char>, p: usize, a: char, b: char) -> (r: Option<usize>)
    requires
        p <= s@.len(),
    ensures
        match r {
            Some(c) => next_of(s@, p as int, a, b) == Some(c as int) && p <= c < s@.len(),
            None => next_of(s@, p as int, a, b) is None,
        },
{
    let mut i = p;
    while i < s.len()
        invariant
            p <= i <= s@.len(),
            next_of(s@, p as int, a, b) == next_of(s@, i as int, a, b),
        decreases s.len() - i,
    {
        if s[i] == a || s[i] == b {
            return Some(i);
        }
        i = i + 1;
    }
    None
}

fn last_non_ws_exec(s: &Vec<char>, b: usize, q: usize) -> (r: Option<usize>)
    requires
        b <= q <= s@.len(),
    ensures
        match r {
            Some(w) => last_non_ws(s@, b as int, q as int) == Some(w as int) && b <= w < q,
            None => last_non_ws(s@, b as int, q as int) is None,
        },
{
    let mut i = q;
    while i > b
        invariant
            b <= i <= q,
            q <= s@.len(),
            last_non_ws(s@, b as int, q as int) == last_non_ws(s@, b as int, i as int),
        decreases i,
    {
        if !char_is_whitespace(s[i - 1]) {
            return Some(i - 1);
        }
        i = i - 1;
    }
    None
}

fn at_exec(s: &Vec<char>, i: usize, c: char) -> (r: bool)
    ensures
        r == at(s@, i as int, c),
{
    i < s.len() && s[i] == c
}

fn at_quote_exec(s: &Vec<char>, i: usize) -> (r: bool)
    ensures
        r == at_quote(s@, i as int),
{
    at_exec(s, i, '\'') || at_exec(s, i, '"')
}

fn capture_after_exec(s: &Vec<char>, q: usize, a: char, b: char) -> (r: Option<(usize, usize, usize)>)
    requires
        q < s@.len(),
    ensures
        opt_match(r) == capture_after(s@, q as int, a, b),
        r matches Some(m) ==> m.1 <= m.2 < m.0 <= s@.len() && m.0 > q,
{
    let _n = s.len();
    match next_of_exec(s, q + 1, a, b) {
        Some(c) => Some((c + 1, q + 1, c)),
        None => None,
    }
}

/// A match as integers.
pub open spec fn opt_match(r: Option<(usize, usize, usize)>) -> Option<(int, int, int)> {
    match r {
        Some(m) => Some((m.0 as int, m.1 as int, m.2 as int)),
        None => None,
    }
}

fn lit_at(s: &Vec<char>, p: usize, lit: &str) -> (r: bool)
    ensures
        r == occurs_at(lit@, s@, p as int),
{
    occurs_at_exec(&chars_of(lit), s, p)
}

fn lit_len(lit: &str) -> (r: usize)
    ensures
        r == lit@.len(),
{
    chars_of(lit).len()
}

fn scene_tail_exec(s: &Vec<char>, q: usize, first_any: bool, quote: char) -> (r: Option<(usize, usize, usize)>)
    requires
        q < s@.len(),
    ensures
        opt_match(r) == scene_tail(s@, q as int, first_any, quote),
        r matches Some(m) ==> m.1 <= m.2 < m.0 <= s@.len() && m.0 > q,
{
    let _n = s.len();
    let r = if first_any {
        next_of_exec(s, q + 1, '\'', '"')
    } else {
        next_of_exec(s, q + 1, '\'', '\'')
    };
    match r {
        Some(r) => {
            let t = ws_end_exec(s, r + 1);
            if at_exec(s, t, ',') {
                let u = ws_end_exec(s, t + 1);
                if at_exec(s, u, quote) {
                    capture_after_exec(s, u, quote, quote)
                } else {
                    None
                }
            } else {
                None
            }
        },
        None => None,
    }
}

/// A match of pattern `k` starting at `p` (see `pattern_at`).
fn pattern_at_exec(k: u8, s: &Vec<char>, p: usize) -> (r: Option<(usize, usize, usize)>)
    requires
        p < s@.len(),
    ensures
        opt_match(r) == pattern_at(k as nat, s@, p as int),
        r matches Some(m) ==> m.1 <= m.2 < m.0 <= s@.len() && m.0 > p,
{
    let _n = s.len();
    if k == 1 {
        if lit_at(s, p, "Text.of(") {
            let q = ws_end_exec(s, p + lit_len("Text.of("));
            if at_quote_exec(s, q) {
                capture_after_exec(s, q, '\'', '"')
            } else {
                None
            }
        } else {
            None
        }
    } else if k == 2 {
        if lit_at(s, p, "add") {
            let a = p + lit_len("add");
            let b: Option<usize> = if lit_at(s, a, "Item(") {
                Some(a + lit_len("Item("))
            } else if at_exec(s, a, '(') {
                Some(a + 1)
            } else {
                None
            };
            match b {
                Some(b) => {
                    let q = ws_end_exec(s, b);
                    if at_quote_exec(s, q) {
                        match next_of_exec(s, q + 1, '\'', '"') {
                            Some(r) => {
                                let t = ws_end_exec(s, r + 1);
                                if at_exec(s, t, ',') {
                                    let u = ws_end_exec(s, t + 1);
                                    if at_exec(s, u, '[') {
                                        capture_after_exec(s, u, ']', ']')
                                    } else {
                                        None
                                    }
                                } else {
                                    None
                                }
                            },
                            None => None,
                        }
                    } else {
                        None
                    }
                },
                None => None,
            }
        } else {
            None
        }
    } else if k == 3 || k == 4 {
        let quote = if k == 3 {
            '\''
        } else {
            '"'
        };
        let b: Option<usize> = if lit_at(s, p, ".text(") {
            Some(p + lit_len(".text("))
        } else if lit_at(s, p, "scene.text(") {
            Some(p + lit_len("scene.text("))
        } else {
            None
        };
        match b {
            Some(b) => match next_of_exec(s, b, '\'', '"') {
                Some(q) => {
                    let ok = match last_non_ws_exec(s, b, q) {
                        None => true,
                        Some(w) => s[w] == ',',
                    };
                    if s[q] == quote && ok {
                        capture_after_exec(s, q, quote, quote)
                    } else {
                        None
                    }
                },
                None => None,
            },
            None => None,
        }
    } else if k == 5 || k == 6 {
        let quote = if k == 5 {
            '\''
        } else {
            '"'
        };
        if lit_at(s, p, "text") {
            let q = ws_end_exec(s, p + lit_len("text"));
            if at_exec(s, q, ':') {
                let u = ws_end_exec(s, q + 1);
                if at_exec(s, u, quote) {
                    capture_after_exec(s, u, quote, quote)
                } else {
                    None
                }
            } else {
                None
            }
        } else {
            None
        }
    } else if k == 7 || k == 8 {
        if lit_at(s, p, ".scene(") {
            let q = ws_end_exec(s, p + lit_len(".scene("));
            if (k == 7 && at_exec(s, q, '\'')) || (k == 8 && at_quote_exec(s, q)) {
                scene_tail_exec(s, q, k == 8, if k == 7 {
                    '\''
                } else {
                    '"'
                })
            } else {
                None
            }
        } else {
            None
        }
    } else if k == 9 || k == 10 {
        let quote = if k == 9 {
            '\''
        } else {
            '"'
        };
        if lit_at(s, p, ".title(") {
            let q = ws_end_exec(s, p + lit_len(".title("));
            if at_exec(s, q, quote) {
                capture_after_exec(s, q, quote, quote)
            } else {
                None
            }
        } else {
            None
        }
    } else if k == 11 || k == 12 {
        let quote = if k == 11 {
            '\''
        } else {
            '"'
        };
        if at_exec(s, p, quote) {
            capture_after_exec(s, p, quote, quote)
        } else {
            None
        }
    } else {
        None
    }
}

/// Ranges as integers.
pub open spec fn range_views(v: Seq<(usize, usize)>) -> Seq<(int, int)> {
    v.map_values(|r: (usize, usize)| (r.0 as int, r.1 as int))
}

/// Every range lies within `0..n`, start before end.
pub open spec fn ranges_within(rs: Seq<(int, int)>, n: int) -> bool {
    forall|i: int| 0 <= i < rs.len() ==> 0 <= (#[trigger] rs[i]).0 <= rs[i].1 <= n
}

/// The texts that pattern `k` finds in `s` (see `scan`).
fn scan_exec(k: u8, s: &Vec<char>) -> (r: Vec<(usize, usize)>)
    ensures
        range_views(r@) == scan(k as nat, s@, 0),
        ranges_within(range_views(r@), s@.len() as int),
{
    let mut out: Vec<(usize, usize)> = Vec::new();
    let mut p: usize = 0;
    while p < s.len()
        invariant
            p <= s@.len(),
            range_views(out@) + scan(k as nat, s@, p as int) == scan(k as nat, s@, 0),
            ranges_within(range_views(out@), s@.len() as int),
        decreases s.len() - p,
    {
        let ghost before = range_views(out@);
        match pattern_at_exec(k, s, p) {
            Some(m) => {
                out.push((m.1, m.2));
                assert(range_views(out@) =~= before.push((m.1 as int, m.2 as int)));
                assert(before + scan(k as nat, s@, p as int) =~= range_views(out@) + scan(k as nat, s@, m.0 as int));
                p = m.0;
            },
            None => {
                p = p + 1;
            },
        }
    }
    assert(range_views(out@) + Seq::<(int, int)>::empty() =~= range_views(out@));
    out
}

/// The quoted texts of the lists (see `list_texts`).
fn list_texts_exec(s: &Vec<char>, lists: &Vec<(usize, usize)>) -> (r: Vec<(usize, usize)>)
    requires
        ranges_within(range_views(lists@), s@.len() as int),
    ensures
        range_views(r@) == list_texts(s@, range_views(lists@)),
        ranges_within(range_views(r@), s@.len() as int),
{
    let mut out: Vec<(usize, usize)> = Vec::new();
    let mut i: usize = 0;
    let ghost lv = range_views(lists@);
    assert(lv.take(0) =~= Seq::<(int, int)>::empty());
    while i < lists.len()
        invariant
            i <= lists@.len(),
            lv == range_views(lists@),
            ranges_within(lv, s@.len() as int),
            range_views(out@) == list_texts(s@, lv.take(i as int)),
            ranges_within(range_views(out@), s@.len() as int),
        decreases lists.len() - i,
    {
        let (a, b) = lists[i];
        assert(lv[i as int] == (a as int, b as int));
        let inner = sub_chars(s, a, b);
        assert(inner@ =~= s@.subrange(a as int, b as int));
        let mut q: u8 = 11;
        while q <= 12
            invariant
                11 <= q <= 13,
                a <= b <= s@.len(),
                inner@ == s@.subrange(a as int, b as int),
                range_views(out@) == list_texts(s@, lv.take(i as int)) + if q > 11 {
                    shifted(scan(11, inner@, 0), a as int)
                } else {
                    Seq::empty()
                } + if q > 12 {
                    shifted(scan(12, inner@, 0), a as int)
                } else {
                    Seq::empty()
                },
                ranges_within(range_views(out@), s@.len() as int),
            decreases 13 - q,
        {
            let found = scan_exec(q, &inner);
            let ghost f = range_views(found@);
            let ghost base = range_views(out@);
            let mut j: usize = 0;
            while j < found.len()
                invariant
                    j <= found@.len(),
                    f == range_views(found@),
                    ranges_within(f, inner@.len() as int),
                    inner@.len() == b - a,
                    b <= s@.len(),
                    range_views(out@) == base + shifted(f.take(j as int), a as int),
                    ranges_within(range_views(out@), s@.len() as int),
                decreases found.len() - j,
            {
                assert(f[j as int] == (found@[j as int].0 as int, found@[j as int].1 as int));
                let ghost mid = range_views(out@);
                out.push((found[j].0 + a, found[j].1 + a));
                assert(shifted(f.take(j + 1), a as int) =~= shifted(f.take(j as int), a as int).push(
                    (f[j as int].0 + a, f[j as int].1 + a),
                ));
                assert(range_views(out@) =~= mid.push((found@[j as int].0 + a, found@[j as int].1 + a)));
                j = j + 1;
            }
            assert(f.take(found@.len() as int) =~= f);
            q = q + 1;
        }
        proof {
            assert(lv.take(i + 1).drop_last() =~= lv.take(i as int));
            assert(lv.take(i + 1).last() == lv[i as int]);
            assert(range_views(out@) =~= list_texts(s@, lv.take(i + 1)));
        }
        i = i + 1;
    }
    assert(lv.take(lists@.len() as int) =~= lv);
    out
}

/// All the texts of a script (see `script_texts`).
fn script_texts_exec(s: &Vec<char>) -> (r: Vec<(usize, usize)>)
    ensures
        range_views(r@) == script_texts(s@),
        ranges_within(range_views(r@), s@.len() as int),
{
    let mut out = scan_exec(1, s);
    let lists = scan_exec(2, s);
    let mut more = list_texts_exec(s, &lists);
    let ghost acc0 = range_views(out@);
    out.append(&mut more);
    let ghost acc = acc0 + list_texts(s@, range_views(lists@));
    assert(range_views(out@) =~= acc);
    let mut k: u8 = 3;
    while k <= 10
        invariant
            3 <= k <= 11,
            ranges_within(range_views(out@), s@.len() as int),
            k == 11 ==> range_views(out@) == script_texts(s@),
            k == 3 ==> range_views(out@) == scan(1, s@, 0) + list_texts(s@, scan(2, s@, 0)),
            k == 4 ==> range_views(out@) == scan(1, s@, 0) + list_texts(s@, scan(2, s@, 0)) + scan(3, s@, 0),
            k == 5 ==> range_views(out@) == scan(1, s@, 0) + list_texts(s@, scan(2, s@, 0)) + scan(3, s@, 0) + scan(4, s@, 0),
            k == 6 ==> range_views(out@) == scan(1, s@, 0) + list_texts(s@, scan(2, s@, 0)) + scan(3, s@, 0) + scan(4, s@, 0)
                + scan(5, s@, 0),
            k == 7 ==> range_views(out@) == scan(1, s@, 0) + list_texts(s@, scan(2, s@, 0)) + scan(3, s@, 0) + scan(4, s@, 0)
                + scan(5, s@, 0) + scan(6, s@, 0),
            k == 8 ==> range_views(out@) == scan(1, s@, 0) + list_texts(s@, scan(2, s@, 0)) + scan(3, s@, 0) + scan(4, s@, 0)
                + scan(5, s@, 0) + scan(6, s@, 0) + scan(7, s@, 0),
            k == 9 ==> range_views(out@) == scan(1, s@, 0) + list_texts(s@, scan(2, s@, 0)) + scan(3, s@, 0) + scan(4, s@, 0)
                + scan(5, s@, 0) + scan(6, s@, 0) + scan(7, s@, 0) + scan(8, s@, 0),
            k == 10 ==> range_views(out@) == scan(1, s@, 0) + list_texts(s@, scan(2, s@, 0)) + scan(3, s@, 0) + scan(4, s@, 0)
                + scan(5, s@, 0) + scan(6, s@, 0) + scan(7, s@, 0) + scan(8, s@, 0) + scan(9, s@, 0),
        decreases 11 - k,
    {
        let ghost before = range_views(out@);
        let mut found = scan_exec(k, s);
        let ghost f = range_views(found@);
        out.append(&mut found);
        assert(range_views(out@) =~= before + f);
        assert forall|i: int| 0 <= i < range_views(out@).len() implies 0 <= (#[trigger] range_views(out@)[i]).0
            <= range_views(out@)[i].1 <= s@.len() by {
            if i >= before.len() {
                assert(range_views(out@)[i] == f[i - before.len()]);
            } else {
                assert(range_views(out@)[i] == before[i]);
            }
        }
        k = k + 1;
    }
    out
}

/// The matches of a script (see `spec_js_matches`): each text's start and
/// end byte, the text, and its number. In the order numbered; which of them
/// are translated is decided by `collect_js_matches`.
pub fn js_text_matches(content: &str) -> (r: Vec<(usize, usize, String, usize)>)
    ensures
        crate::file::js_handler::match_views(r@) == spec_js_matches(content@),
{
    let s = chars_of(content);
    let total = content.as_bytes().len();
    proof {
        lemma_encode_utf8_len(content@);
        assert(content.spec_bytes() == vstd::utf8::encode_utf8(content@));
    }
    let texts = script_texts_exec(&s);
    let ghost t = range_views(texts@);
    let ghost want = spec_js_matches(content@);
    let mut out: Vec<(usize, usize, String, usize)> = Vec::new();
    let mut i: usize = 0;
    while i < texts.len()
        invariant
            i <= texts@.len(),
            s@ == content@,
            t == range_views(texts@),
            t == script_texts(s@),
            ranges_within(t, s@.len() as int),
            utf8_len(s@) == total,
            want == spec_js_matches(content@),
            crate::file::js_handler::match_views(out@) == want.take(i as int),
        decreases texts.len() - i,
    {
        let (a, b) = texts[i];
        assert(t[i as int] == (a as int, b as int));
        let ba = utf8_len_exec(&sub_chars(&s, 0, a));
        let bb = utf8_len_exec(&sub_chars(&s, 0, b));
        proof {
            assert(s@.subrange(0, a as int) =~= s@.take(a as int));
            assert(s@.subrange(0, b as int) =~= s@.take(b as int));
            lemma_utf8_len_append(s@.take(a as int), s@.skip(a as int));
            assert(s@.take(a as int) + s@.skip(a as int) =~= s@);
            lemma_utf8_len_append(s@.take(b as int), s@.skip(b as int));
            assert(s@.take(b as int) + s@.skip(b as int) =~= s@);
        }
        let text = string_of(&sub_chars(&s, a, b));
        let ghost before = crate::file::js_handler::match_views(out@);
        out.push((ba as usize, bb as usize, text, i));
        proof {
            assert(want[i as int] == (
                utf8_len(s@.take(a as int)) as usize,
                utf8_len(s@.take(b as int)) as usize,
                s@.subrange(a as int, b as int),
                i,
            ));
            assert(crate::file::js_handler::match_views(out@) =~= before.push(want[i as int]));
            assert(want.take(i + 1) =~= want.take(i as int).push(want[i as int]));
        }
        i = i + 1;
    }
    assert(want.take(texts@.len() as int) =~= want);
    out
}

/// What a script gives a run (see `js_text_matches` and
/// `collect_js_matches`): none when no pattern matched, else the matches
/// translated and their items.
pub fn collect_js_task(content: &str, file_id: usize, rel_path: &str) -> (r: Option<
    (Vec<(usize, usize, String, usize)>, Vec<GlobalBatchItem>),
>)
    ensures
        spec_js_matches(content@).len() == 0 <==> r is None,
        r matches Some((kept, items)) ==> {
            &&& match_views(kept@) == spec_filter_js_matches(spec_js_matches(content@))
            &&& items@.len() == kept@.len()
            &&& forall|k: int| 0 <= k < items@.len() ==> js_item_ok(#[trigger] items@[k], match_views(kept@)[k], file_id, rel_path@)
        },
{
    let found = js_text_matches(content);
    collect_js_matches(&found, file_id, rel_path)
}


// ---------------------------------------------------------------------------
// Law: every `text: "…"` is found
// ---------------------------------------------------------------------------

proof fn lemma_ws_end(s: Seq<char>, p: int)
    requires
        0 <= p <= s.len(),
    ensures
        p <= ws_end(s, p) <= s.len(),
        forall|i: int| p <= i < ws_end(s, p) ==> spec_is_whitespace(#[trigger] s[i]),
        ws_end(s, p) < s.len() ==> !spec_is_whitespace(s[ws_end(s, p)]),
    decreases s.len() - p,
{
    if p < s.len() && spec_is_whitespace(s[p]) {
        lemma_ws_end(s, p + 1);
    }
}

proof fn lemma_next_quote(s: Seq<char>, p: int, c: int, quote: char)
    requires
        0 <= p <= c < s.len(),
        s[c] == quote,
        forall|i: int| p <= i < c ==> s[i] != quote,
    ensures
        next_of(s, p, quote, quote) == Some(c),
    decreases c - p,
{
    if p < c {
        lemma_next_quote(s, p + 1, c, quote);
    }
}

/// At `p` stands `text`, whitespace, `:`, whitespace and the quote `quote`
/// (at `u`), then the text up to the next such quote (at `c`).
pub open spec fn text_field_at(s: Seq<char>, quote: char, p: int, u: int, c: int) -> bool {
    &&& 0 <= p
    &&& occurs_at("text"@, s, p)
    &&& at(s, ws_end(s, p + 4), ':')
    &&& u == ws_end(s, ws_end(s, p + 4) + 1)
    &&& at(s, u, quote)
    &&& u < c < s.len()
    &&& s[c] == quote
    &&& forall|i: int| u < i < c ==> s[i] != quote
}

/// The pattern of `text: '…'` (5) or `text: "…"` (6).
pub open spec fn text_pattern(quote: char) -> nat {
    if quote == '\'' {
        5
    } else {
        6
    }
}

#[verifier::spinoff_prover]
#[verifier::rlimit(60)]
proof fn lemma_no_earlier_text_field(s: Seq<char>, quote: char, p: int, u: int, c: int, p0: int)
    requires
        quote == '\'' || quote == '"',
        text_field_at(s, quote, p, u, c),
        forall|i: int| 0 <= i < p ==> s[i] != quote,
        0 <= p0 < p,
    ensures
        pattern_at(text_pattern(quote), s, p0) is None,
{
    reveal_strlit("text");
    if pattern_at(text_pattern(quote), s, p0) is Some {
        let e = p0 + 4;
        assert(occurs_at("text"@, s, p0));
        assert(p0 + 4 <= s.len());
        lemma_ws_end(s, e);
        let q = ws_end(s, e);
        assert(at(s, q, ':'));
        lemma_ws_end(s, q + 1);
        let u0 = ws_end(s, q + 1);
        assert(at(s, u0, quote));
        assert(s.subrange(p, p + 4) == "text"@);
        assert(s[p] == 't') by {
            assert(s.subrange(p, p + 4)[0] == s[p]);
        }
        assert(s[p + 1] == 'e') by {
            assert(s.subrange(p, p + 4)[1] == s[p + 1]);
        }
        assert(!spec_is_whitespace('t')) by {
            assert(('t' as u32) == 0x74);
        }
        assert(!spec_is_whitespace('e')) by {
            assert(('e' as u32) == 0x65);
        }
        if u0 < p {
            assert(s[u0] == quote);
        } else if p < e {
            let d = p - p0;
            assert(s.subrange(p0, p0 + 4)[d] == s[p]);
            assert(d == 3);
            assert(p + 1 == e);
            if e < q {
                assert(spec_is_whitespace(s[e]));
            } else {
                assert(s[e] == ':');
            }
        } else {
            if p < q {
                assert(spec_is_whitespace(s[p]));
            } else if p == q {
                assert(s[p] == ':');
            } else if p < u0 {
                assert(spec_is_whitespace(s[p]));
            } else {
                assert(s[p] == quote);
            }
        }
    }
}

proof fn lemma_scan_reaches(s: Seq<char>, quote: char, p: int, u: int, c: int, p0: int)
    requires
        quote == '\'' || quote == '"',
        text_field_at(s, quote, p, u, c),
        forall|i: int| 0 <= i < p ==> s[i] != quote,
        0 <= p0 <= p,
    ensures
        scan(text_pattern(quote), s, p0) == scan(text_pattern(quote), s, p),
    decreases p - p0,
{
    if p0 < p {
        lemma_no_earlier_text_field(s, quote, p, u, c, p0);
        lemma_scan_reaches(s, quote, p, u, c, p0 + 1);
    }
}

/// Every `text: '…'` and `text: "…"` of a script is found: when the script
/// has no quote of the same kind before it, the text between its quotes is
/// one of the script's matches, with its start and end byte.
#[verifier::spinoff_prover]
#[verifier::rlimit(60)]
pub proof fn law_text_field_found(s: Seq<char>, quote: char, p: int, u: int, c: int)
    requires
        quote == '\'' || quote == '"',
        text_field_at(s, quote, p, u, c),
        forall|i: int| 0 <= i < p ==> s[i] != quote,
    ensures
        exists|i: int|
            0 <= i < spec_js_matches(s).len() && #[trigger] spec_js_matches(s)[i] == (
                utf8_len(s.take(u + 1)) as usize,
                utf8_len(s.take(c)) as usize,
                s.subrange(u + 1, c),
                i as usize,
            ),
{
    reveal_strlit("text");
    let k = text_pattern(quote);
    lemma_scan_reaches(s, quote, p, u, c, 0);
    lemma_next_quote(s, u + 1, c, quote);
    assert(p + 4 <= s.len());
    lemma_ws_end(s, p + 4);
    assert(pattern_at(k, s, p) == Some((c + 1, u + 1, c)));
    let sc = scan(k, s, p);
    assert(sc[0] == (u + 1, c));
    let t = script_texts(s);
    let i: int = if quote == '\'' {
        (scan(1, s, 0) + list_texts(s, scan(2, s, 0)) + scan(3, s, 0) + scan(4, s, 0)).len() as int
    } else {
        (scan(1, s, 0) + list_texts(s, scan(2, s, 0)) + scan(3, s, 0) + scan(4, s, 0) + scan(5, s, 0)).len() as int
    };
    if quote == '\'' {
        let pre = scan(1, s, 0) + list_texts(s, scan(2, s, 0)) + scan(3, s, 0) + scan(4, s, 0);
        assert(t =~= pre + scan(5, s, 0) + (scan(6, s, 0) + scan(7, s, 0) + scan(8, s, 0) + scan(9, s, 0) + scan(
            10,
            s,
            0,
        )));
        assert(t[i] == (u + 1, c));
    } else {
        let pre = scan(1, s, 0) + list_texts(s, scan(2, s, 0)) + scan(3, s, 0) + scan(4, s, 0) + scan(5, s, 0);
        assert(t =~= pre + scan(6, s, 0) + (scan(7, s, 0) + scan(8, s, 0) + scan(9, s, 0) + scan(10, s, 0)));
        assert(t[i] == (u + 1, c));
    }
    assert(spec_js_matches(s)[i] == (
        utf8_len(s.take(u + 1)) as usize,
        utf8_len(s.take(c)) as usize,
        s.subrange(u + 1, c),
        i as usize,
    ));
}

/// At `p` stands the call `head` (`.title(` or `Text.of(`), whitespace and a
/// quote `quote` (at `u`), then the text up to the next quote that closes it
/// (at `c`): of the same kind for `.title(`, of either kind for `Text.of(`.
pub open spec fn call_text_at(s: Seq<char>, head: Seq<char>, quote: char, p: int, u: int, c: int) -> bool {
    &&& 0 <= p
    &&& occurs_at(head, s, p)
    &&& u == ws_end(s, p + head.len())
    &&& at(s, u, quote)
    &&& u < c < s.len()
    &&& (if head == "Text.of("@ {
        at_quote(s, c) && forall|i: int| u < i < c ==> !at_quote(s, i)
    } else {
        s[c] == quote && forall|i: int| u < i < c ==> s[i] != quote
    })
}

/// The pattern of a call: `Text.of(` (1), `.title('…')` (9), `.title("…")`
/// (10).
pub open spec fn call_pattern(head: Seq<char>, quote: char) -> nat {
    if head == "Text.of("@ {
        1
    } else if quote == '\'' {
        9
    } else {
        10
    }
}

/// The calls whose texts the law below speaks of, with their quotes.
pub open spec fn call_kind_ok(head: Seq<char>, quote: char) -> bool {
    (head == "Text.of("@ || head == ".title("@) && (quote == '\'' || quote == '"')
}

/// No quote of the kinds that could open the call's text stands before `p`.
pub open spec fn no_quote_before(s: Seq<char>, head: Seq<char>, quote: char, p: int) -> bool {
    forall|i: int| 0 <= i < p ==> if head == "Text.of("@ {
        !at_quote(s, i)
    } else {
        s[i] != quote
    }
}

proof fn lemma_next_of_first(s: Seq<char>, p: int, c: int, a: char, b: char)
    requires
        0 <= p <= c < s.len(),
        s[c] == a || s[c] == b,
        forall|i: int| p <= i < c ==> s[i] != a && s[i] != b,
    ensures
        next_of(s, p, a, b) == Some(c),
    decreases c - p,
{
    if p < c {
        lemma_next_of_first(s, p + 1, c, a, b);
    }
}

#[verifier::spinoff_prover]
#[verifier::rlimit(60)]
proof fn lemma_no_earlier_call(s: Seq<char>, head: Seq<char>, quote: char, p: int, u: int, c: int, p0: int)
    requires
        call_kind_ok(head, quote),
        call_text_at(s, head, quote, p, u, c),
        no_quote_before(s, head, quote, p),
        0 <= p0 < p,
    ensures
        pattern_at(call_pattern(head, quote), s, p0) is None,
{
    reveal_strlit("Text.of(");
    reveal_strlit(".title(");
    if pattern_at(call_pattern(head, quote), s, p0) is Some {
        let n = head.len() as int;
        assert(occurs_at(head, s, p0));
        lemma_ws_end(s, p0 + n);
        let u0 = ws_end(s, p0 + n);
        assert(s.subrange(p, p + n) == head);
        assert(s[p] == head[0]) by {
            assert(s.subrange(p, p + n)[0] == s[p]);
        }
        assert(!spec_is_whitespace('.')) by {
            assert(('.' as u32) == 0x2e);
        }
        assert(!spec_is_whitespace('T')) by {
            assert(('T' as u32) == 0x54);
        }
        if head == "Text.of("@ {
            assert(at_quote(s, u0));
        } else {
            assert(at(s, u0, quote));
        }
        if u0 < p {
            assert(false);
        } else if p < p0 + n {
            let d = p - p0;
            assert(s.subrange(p0, p0 + n)[d] == s[p]);
            assert(head[d] == head[0]);
        } else if p < u0 {
            assert(spec_is_whitespace(s[p]));
        } else {
            assert(p == u0);
        }
    }
}

proof fn lemma_scan_reaches_call(s: Seq<char>, head: Seq<char>, quote: char, p: int, u: int, c: int, p0: int)
    requires
        call_kind_ok(head, quote),
        call_text_at(s, head, quote, p, u, c),
        no_quote_before(s, head, quote, p),
        0 <= p0 <= p,
    ensures
        scan(call_pattern(head, quote), s, p0) == scan(call_pattern(head, quote), s, p),
    decreases p - p0,
{
    if p0 < p {
        lemma_no_earlier_call(s, head, quote, p, u, c, p0);
        lemma_scan_reaches_call(s, head, quote, p, u, c, p0 + 1);
    }
}

/// Every `Text.of('…')`, `Text.of("…")`, `.title('…')` and `.title("…")` of
/// a script is found: when no quote that could open such a text stands
/// before it, the text between its quotes is one of the script's matches,
/// with its start and end byte.
#[verifier::spinoff_prover]
#[verifier::rlimit(60)]
pub proof fn law_call_text_found(s: Seq<char>, head: Seq<char>, quote: char, p: int, u: int, c: int)
    requires
        call_kind_ok(head, quote),
        call_text_at(s, head, quote, p, u, c),
        no_quote_before(s, head, quote, p),
    ensures
        exists|i: int|
            0 <= i < spec_js_matches(s).len() && #[trigger] spec_js_matches(s)[i] == (
                utf8_len(s.take(u + 1)) as usize,
                utf8_len(s.take(c)) as usize,
                s.subrange(u + 1, c),
                i as usize,
            ),
{
    reveal_strlit("Text.of(");
    reveal_strlit(".title(");
    let k = call_pattern(head, quote);
    lemma_scan_reaches_call(s, head, quote, p, u, c, 0);
    lemma_ws_end(s, p + head.len());
    if head == "Text.of("@ {
        assert forall|i: int| u + 1 <= i < c implies s[i] != '\'' && s[i] != '"' by {
            assert(!at_quote(s, i));
        }
        lemma_next_of_first(s, u + 1, c, '\'', '"');
    } else {
        lemma_next_of_first(s, u + 1, c, quote, quote);
    }
    assert(pattern_at(k, s, p) == Some((c + 1, u + 1, c)));
    let sc = scan(k, s, p);
    assert(sc[0] == (u + 1, c));
    let t = script_texts(s);
    let rest = list_texts(s, scan(2, s, 0)) + scan(3, s, 0) + scan(4, s, 0) + scan(5, s, 0) + scan(6, s, 0)
        + scan(7, s, 0) + scan(8, s, 0);
    let i: int = if k == 1 {
        0
    } else if k == 9 {
        (scan(1, s, 0) + rest).len() as int
    } else {
        (scan(1, s, 0) + rest + scan(9, s, 0)).len() as int
    };
    if k == 1 {
        assert(t =~= scan(1, s, 0) + (rest + scan(9, s, 0) + scan(10, s, 0)));
    } else if k == 9 {
        assert(t =~= scan(1, s, 0) + rest + scan(9, s, 0) + scan(10, s, 0));
    } else {
        assert(t =~= scan(1, s, 0) + rest + scan(9, s, 0) + scan(10, s, 0));
    }
    assert(t[i] == (u + 1, c));
    assert(spec_js_matches(s)[i] == (
        utf8_len(s.take(u + 1)) as usize,
        utf8_len(s.take(c)) as usize,
        s.subrange(u + 1, c),
        i as usize,
    ));
}

} // verus!
