//! Term maps: turning them into glossary entries, and laying one over
//! another.
use vstd::prelude::*;
use crate::translation::glossary::automaton::{GlossaryEntry, TermType};
use crate::text::{chars_eq, chars_of};

verus! {

/// The glossary entries of a map from terms to translations, in the map's
/// order, each marked official.
pub fn hashmap_to_entries(map: &Vec<(String, String)>) -> (r: Vec<GlossaryEntry>)
    ensures
        r@.len() == map@.len(),
        forall|k: int|
            0 <= k < map@.len() ==> (#[trigger] r@[k]).original@ == map@[k].0@ && r@[k].translated@
                == map@[k].1@ && r@[k].source == TermType::Official,
{
    let mut out: Vec<GlossaryEntry> = Vec::new();
    let mut i: usize = 0;
    while i < map.len()
        invariant
            i <= map.len(),
            out@.len() == i,
            forall|k: int|
                0 <= k < i ==> (#[trigger] out@[k]).original@ == map@[k].0@ && out@[k].translated@
                    == map@[k].1@ && out@[k].source == TermType::Official,
        decreases map.len() - i,
    {
        out.push(
            GlossaryEntry {
                original: map[i].0.clone(),
                translated: map[i].1.clone(),
                source: TermType::Official,
            },
        );
        i = i + 1;
    }
    out
}


/// The value of the first pair whose key is `key`.
pub open spec fn first_value(m: Seq<(String, String)>, key: Seq<char>) -> Option<Seq<char>>
    decreases m.len(),
{
    if m.len() == 0 {
        None
    } else if m[0].0@ == key {
        Some(m[0].1@)
    } else {
        first_value(m.drop_first(), key)
    }
}

/// The value of the last pair whose key is `key`.
pub open spec fn last_value(m: Seq<(String, String)>, key: Seq<char>) -> Option<Seq<char>>
    decreases m.len(),
{
    if m.len() == 0 {
        None
    } else if m.last().0@ == key {
        Some(m.last().1@)
    } else {
        last_value(m.drop_last(), key)
    }
}

/// A key's value after the pairs `over` were inserted into `base` in order:
/// the last of `over`, else the first of `base`.
pub open spec fn inserted_value(base: Seq<(String, String)>, over: Seq<(String, String)>, key: Seq<char>) -> Option<
    Seq<char>,
> {
    match last_value(over, key) {
        Some(v) => Some(v),
        None => first_value(base, key),
    }
}

proof fn lemma_first_value_none(m: Seq<(String, String)>, key: Seq<char>)
    requires
        forall|j: int| 0 <= j < m.len() ==> (#[trigger] m[j]).0@ != key,
    ensures
        first_value(m, key) is None,
    decreases m.len(),
{
    if m.len() > 0 {
        assert forall|j: int| 0 <= j < m.drop_first().len() implies (#[trigger] m.drop_first()[j]).0@ != key by {
            assert(m.drop_first()[j] == m[j + 1]);
        }
        lemma_first_value_none(m.drop_first(), key);
    }
}

proof fn lemma_first_value_update(m: Seq<(String, String)>, j: int, p: (String, String), key: Seq<char>)
    requires
        0 <= j < m.len(),
        m[j].0@ == p.0@,
        forall|i: int| 0 <= i < j ==> (#[trigger] m[i]).0@ != p.0@,
    ensures
        first_value(m.update(j, p), key) == if key == p.0@ {
            Some(p.1@)
        } else {
            first_value(m, key)
        },
    decreases j,
{
    let u = m.update(j, p);
    if j > 0 {
        assert(u.drop_first() =~= m.drop_first().update(j - 1, p));
        assert forall|i: int| 0 <= i < j - 1 implies (#[trigger] m.drop_first()[i]).0@ != p.0@ by {
            assert(m.drop_first()[i] == m[i + 1]);
        }
        lemma_first_value_update(m.drop_first(), j - 1, p, key);
        assert(u[0] == m[0]);
    } else {
        assert(u.drop_first() =~= m.drop_first());
        assert(u[0] == p);
    }
}

proof fn lemma_first_value_push(m: Seq<(String, String)>, p: (String, String), key: Seq<char>)
    ensures
        first_value(m.push(p), key) == match first_value(m, key) {
            Some(v) => Some(v),
            None => if p.0@ == key {
                Some(p.1@)
            } else {
                None
            },
        },
    decreases m.len(),
{
    reveal_with_fuel(first_value, 2);
    if m.len() > 0 {
        assert(m.push(p).drop_first() =~= m.drop_first().push(p));
        assert(m.push(p)[0] == m[0]);
        lemma_first_value_push(m.drop_first(), p, key);
    } else {
        assert(m.push(p).drop_first() =~= Seq::<(String, String)>::empty());
        assert(m.push(p)[0] == p);
    }
}

/// The pairs of `over` inserted into `base` one after the other, as
/// `HashMap::insert` does: a key already there gets the new value in its
/// place, a new key comes last.
pub fn insert_pairs(base: Vec<(String, String)>, over: &Vec<(String, String)>) -> (r: Vec<(String, String)>)
    ensures
        forall|key: Seq<char>| #[trigger] first_value(r@, key) == inserted_value(base@, over@, key),
{
    let mut out = base;
    let mut i: usize = 0;
    assert(over@.take(0) =~= Seq::<(String, String)>::empty());
    while i < over.len()
        invariant
            i <= over@.len(),
            forall|key: Seq<char>| #[trigger] first_value(out@, key) == inserted_value(base@, over@.take(i as int), key),
        decreases over.len() - i,
    {
        let k = over[i].0.clone();
        let v = over[i].1.clone();
        let kc = chars_of(k.as_str());
        let ghost before = out@;
        let ghost p = (k, v);
        let mut j: usize = 0;
        let mut found = false;
        while j < out.len() && !found
            invariant
                out@ == before,
                j <= out.len(),
                kc@ == k@,
                forall|m: int| 0 <= m < j ==> (#[trigger] out@[m]).0@ != k@,
                found ==> j < out.len() && out@[j as int].0@ == k@,
            decreases out.len() - j, if found { 0int } else { 1int },
        {
            if chars_eq(&chars_of(out[j].0.as_str()), &kc) {
                found = true;
            } else {
                j = j + 1;
            }
        }
        let ghost t = over@.take(i + 1);
        assert(t.drop_last() =~= over@.take(i as int));
        assert(t.last() == over@[i as int]);
        if found {
            out.set(j, (k, v));
            proof {
                assert forall|key: Seq<char>| #[trigger] first_value(out@, key) == inserted_value(base@, t, key) by {
                    lemma_first_value_update(before, j as int, p, key);
                }
            }
        } else {
            out.push((k, v));
            proof {
                assert forall|key: Seq<char>| #[trigger] first_value(out@, key) == inserted_value(base@, t, key) by {
                    lemma_first_value_push(before, p, key);
                    if key == p.0@ {
                        lemma_first_value_none(before, key);
                    }
                }
            }
        }
        i = i + 1;
    }
    assert(over@.take(over@.len() as int) =~= over@);
    out
}

} // verus!
