//! Character-level helpers shared by the rest of the library: moving between
//! `String`/`&str` and `Vec<char>`, comparing and searching character
//! sequences, decimal rendering of numbers and UTF-8 byte lengths.
use vstd::prelude::*;
use vstd::string::StringSliceAdditionalSpecFns;

verus! {

// ---------------------------------------------------------------------------
// Specifications
// ---------------------------------------------------------------------------

/// Number of bytes that the UTF-8 encoding of `c` takes.
pub open spec fn char_utf8_width(c: char) -> nat {
    if (c as u32) < 0x80 {
        1
    } else if (c as u32) < 0x800 {
        2
    } else if (c as u32) < 0x10000 {
        3
    } else {
        4
    }
}

/// Number of bytes of the UTF-8 encoding of a character sequence (what
/// `str::len` returns).
pub open spec fn utf8_len(s: Seq<char>) -> nat
    decreases s.len(),
{
    if s.len() == 0 {
        0
    } else {
        utf8_len(s.drop_last()) + char_utf8_width(s.last())
    }
}

/// Lexicographic order of character sequences by code point, the order of
/// `String`'s `Ord`.
pub open spec fn chars_lt(a: Seq<char>, b: Seq<char>) -> bool
    decreases a.len(),
{
    if a.len() == 0 {
        b.len() > 0
    } else if b.len() == 0 {
        false
    } else if (a[0] as int) < (b[0] as int) {
        true
    } else if a[0] == b[0] {
        chars_lt(a.drop_first(), b.drop_first())
    } else {
        false
    }
}

/// `s` occurs in `t` starting at character position `k`.
pub open spec fn occurs_at(s: Seq<char>, t: Seq<char>, k: int) -> bool {
    0 <= k && k + s.len() <= t.len() && t.subrange(k, k + s.len()) == s
}

/// `s` occurs somewhere in `t` (what `str::contains` with a string pattern
/// decides).
pub open spec fn occurs_in(s: Seq<char>, t: Seq<char>) -> bool {
    exists|k: int| occurs_at(s, t, k)
}

/// The decimal digits of a natural number, without leading zeros.
pub open spec fn decimal(n: nat) -> Seq<char>
    decreases n,
{
    if n < 10 {
        seq![digit_char(n)]
    } else {
        decimal(n / 10).push(digit_char(n % 10))
    }
}

/// The character of a decimal digit.
pub open spec fn digit_char(d: nat) -> char {
    if d == 0 {
        '0'
    } else if d == 1 {
        '1'
    } else if d == 2 {
        '2'
    } else if d == 3 {
        '3'
    } else if d == 4 {
        '4'
    } else if d == 5 {
        '5'
    } else if d == 6 {
        '6'
    } else if d == 7 {
        '7'
    } else if d == 8 {
        '8'
    } else {
        '9'
    }
}

/// Distinct elements of `s`, in the order of their first occurrence.
pub open spec fn dedup<A>(s: Seq<A>) -> Seq<A>
    decreases s.len(),
{
    if s.len() == 0 {
        s
    } else {
        let d = dedup(s.drop_last());
        if d.contains(s.last()) {
            d
        } else {
            d.push(s.last())
        }
    }
}

/// Join a sequence of character sequences with a separator between them.
pub open spec fn join(parts: Seq<Seq<char>>, sep: Seq<char>) -> Seq<char>
    decreases parts.len(),
{
    if parts.len() == 0 {
        Seq::empty()
    } else if parts.len() == 1 {
        parts[0]
    } else {
        join(parts.drop_last(), sep) + sep + parts.last()
    }
}

// ---------------------------------------------------------------------------
// Lemmas
// ---------------------------------------------------------------------------

pub proof fn lemma_utf8_len_append(a: Seq<char>, b: Seq<char>)
    ensures
        utf8_len(a + b) == utf8_len(a) + utf8_len(b),
    decreases b.len(),
{
    if b.len() == 0 {
        assert(a + b =~= a);
    } else {
        lemma_utf8_len_append(a, b.drop_last());
        assert((a + b).drop_last() =~= a + b.drop_last());
    }
}

pub proof fn lemma_encode_utf8_len(s: Seq<char>)
    ensures
        vstd::utf8::encode_utf8(s).len() == utf8_len(s),
    decreases s.len(),
{
    if s.len() > 0 {
        lemma_encode_utf8_len(s.drop_first());
        let one = seq![s[0]];
        lemma_utf8_len_append(one, s.drop_first());
        assert(one + s.drop_first() =~= s);
        assert(one.drop_last() =~= Seq::<char>::empty());
        lemma_encode_scalar_len(s[0]);
        assert(one.last() == s[0]);
        assert(utf8_len(one.drop_last()) == 0);
        assert(utf8_len(one) == char_utf8_width(s[0]));
        assert(utf8_len(s) == char_utf8_width(s[0]) + utf8_len(s.drop_first()));
        assert(vstd::utf8::encode_utf8(s) == vstd::utf8::encode_scalar(s[0] as u32)
            + vstd::utf8::encode_utf8(s.drop_first()));
    }
}

proof fn lemma_encode_scalar_len(c: char)
    ensures
        vstd::utf8::encode_scalar(c as u32).len() == char_utf8_width(c),
{
}

/// The number of bytes of `s` (what `str::len` returns).
pub fn byte_len(s: &str) -> (n: usize)
    requires
        utf8_len(s@) <= usize::MAX,
    ensures
        n == utf8_len(s@),
{
    proof {
        lemma_encode_utf8_len(s@);
        assert(s.spec_bytes() == vstd::utf8::encode_utf8(s@));
    }
    s.len()
}

pub proof fn lemma_chars_lt_irreflexive(a: Seq<char>)
    ensures
        !chars_lt(a, a),
    decreases a.len(),
{
    if a.len() > 0 {
        lemma_chars_lt_irreflexive(a.drop_first());
    }
}

pub proof fn lemma_chars_lt_total(a: Seq<char>, b: Seq<char>)
    ensures
        a != b ==> (chars_lt(a, b) || chars_lt(b, a)),
        !(chars_lt(a, b) && chars_lt(b, a)),
    decreases a.len(),
{
    if a.len() > 0 && b.len() > 0 {
        lemma_chars_lt_total(a.drop_first(), b.drop_first());
        if a != b && a[0] == b[0] {
            assert(a =~= seq![a[0]] + a.drop_first());
            assert(b =~= seq![b[0]] + b.drop_first());
        }
    } else if a.len() == 0 && b.len() == 0 {
        assert(a =~= b);
    }
}

pub proof fn lemma_chars_lt_transitive(a: Seq<char>, b: Seq<char>, c: Seq<char>)
    requires
        chars_lt(a, b),
        chars_lt(b, c),
    ensures
        chars_lt(a, c),
    decreases a.len(),
{
    if a.len() > 0 && b.len() > 0 && c.len() > 0 && a[0] == b[0] && b[0] == c[0] {
        lemma_chars_lt_transitive(a.drop_first(), b.drop_first(), c.drop_first());
    }
}

pub proof fn lemma_dedup_contains<A>(s: Seq<A>, x: A)
    ensures
        dedup(s).contains(x) <==> s.contains(x),
    decreases s.len(),
{
    if s.len() > 0 {
        let p = s.drop_last();
        lemma_dedup_contains(p, x);
        assert(s =~= p.push(s.last()));
        if p.contains(x) {
            let i = choose|i: int| 0 <= i < p.len() && p[i] == x;
            assert(s[i] == x);
        }
        if s.contains(x) {
            let i = choose|i: int| 0 <= i < s.len() && s[i] == x;
            if i < s.len() - 1 {
                assert(p[i] == x);
            }
        }
        let d = dedup(p);
        if !d.contains(s.last()) {
            assert(d.push(s.last())[d.len() as int] == s.last());
            if d.contains(x) {
                let j = choose|j: int| 0 <= j < d.len() && d[j] == x;
                assert(d.push(s.last())[j] == x);
            }
            if d.push(s.last()).contains(x) {
                let j = choose|j: int| 0 <= j < d.len() + 1 && d.push(s.last())[j] == x;
                if j < d.len() {
                    assert(d[j] == x);
                }
            }
        }
    }
}

pub proof fn lemma_dedup_no_duplicates<A>(s: Seq<A>)
    ensures
        dedup(s).no_duplicates(),
    decreases s.len(),
{
    if s.len() > 0 {
        lemma_dedup_no_duplicates(s.drop_last());
    }
}

// ---------------------------------------------------------------------------
// Executable helpers
// ---------------------------------------------------------------------------

/// `String::push`.
#[verifier::external_body]
pub(crate) fn push_char(s: &mut String, c: char)
    ensures
        final(s)@ == old(s)@.push(c),
{
    s.push(c);
}

/// The characters of a string slice, in order.
pub fn chars_of(s: &str) -> (v: Vec<char>)
    ensures
        v@ == s@,
{
    let mut v: Vec<char> = Vec::new();
    for c in it: s.chars()
        invariant
            v@ == it.seq().take(it.index()),
            it.seq() == s@,
    {
        v.push(c);
    }
    v
}

/// A `String` holding exactly the given characters.
pub fn string_of(v: &Vec<char>) -> (s: String)
    ensures
        s@ == v@,
{
    let mut s = String::new();
    let mut i: usize = 0;
    while i < v.len()
        invariant
            i <= v.len(),
            s@ == v@.take(i as int),
        decreases v.len() - i,
    {
        push_char(&mut s, v[i]);
        i = i + 1;
        assert(s@ =~= v@.take(i as int));
    }
    assert(v@.take(v.len() as int) =~= v@);
    s
}

/// Append the characters of `b` to `a`.
pub fn extend_chars(a: &mut Vec<char>, b: &Vec<char>)
    ensures
        final(a)@ == old(a)@ + b@,
{
    let ghost a0 = a@;
    let mut i: usize = 0;
    while i < b.len()
        invariant
            i <= b.len(),
            a@ == a0 + b@.take(i as int),
        decreases b.len() - i,
    {
        a.push(b[i]);
        i = i + 1;
        assert(a@ =~= a0 + b@.take(i as int));
    }
    assert(b@.take(b.len() as int) =~= b@);
}

/// Append the characters of a string slice to `a`.
pub fn extend_str(a: &mut Vec<char>, b: &str)
    ensures
        final(a)@ == old(a)@ + b@,
{
    let bv = chars_of(b);
    extend_chars(a, &bv);
}

/// Character-wise equality of two sequences.
pub fn chars_eq(a: &Vec<char>, b: &Vec<char>) -> (r: bool)
    ensures
        r == (a@ == b@),
{
    if a.len() != b.len() {
        return false;
    }
    let mut i: usize = 0;
    while i < a.len()
        invariant
            a.len() == b.len(),
            i <= a.len(),
            forall|j: int| 0 <= j < i ==> a@[j] == b@[j],
        decreases a.len() - i,
    {
        if a[i] != b[i] {
            return false;
        }
        i = i + 1;
    }
    assert(a@ =~= b@);
    true
}

/// Whether a character sequence equals the characters of a string slice.
pub fn chars_eq_str(a: &Vec<char>, b: &str) -> (r: bool)
    ensures
        r == (a@ == b@),
{
    let bv = chars_of(b);
    chars_eq(a, &bv)
}

/// The characters `a[from..to]`.
pub fn sub_chars(a: &Vec<char>, from: usize, to: usize) -> (r: Vec<char>)
    requires
        from <= to <= a.len(),
    ensures
        r@ == a@.subrange(from as int, to as int),
{
    let mut r: Vec<char> = Vec::new();
    let mut i = from;
    while i < to
        invariant
            from <= i <= to <= a.len(),
            r@ == a@.subrange(from as int, i as int),
        decreases to - i,
    {
        r.push(a[i]);
        i = i + 1;
        assert(r@ =~= a@.subrange(from as int, i as int));
    }
    r
}

/// Whether `s` occurs in `t` at position `k`.
pub fn occurs_at_exec(s: &Vec<char>, t: &Vec<char>, k: usize) -> (r: bool)
    ensures
        r == occurs_at(s@, t@, k as int),
{
    if k > t.len() || s.len() > t.len() - k {
        return false;
    }
    let mut i: usize = 0;
    while i < s.len()
        invariant
            k + s.len() <= t.len(),
            i <= s.len(),
            forall|j: int| 0 <= j < i ==> s@[j] == t@[k + j],
        decreases s.len() - i,
    {
        if s[i] != t[k + i] {
            assert(t@.subrange(k as int, k + s.len())[i as int] != s@[i as int]);
            return false;
        }
        i = i + 1;
    }
    assert(t@.subrange(k as int, k + s.len()) =~= s@);
    true
}

/// Whether `s` is a prefix of `t`.
pub fn starts_with_chars(t: &Vec<char>, s: &Vec<char>) -> (r: bool)
    ensures
        r == s@.is_prefix_of(t@),
{
    let r = occurs_at_exec(s, t, 0);
    proof {
        if r {
            assert(t@.subrange(0, s@.len() as int) == s@);
        }
        if s@.is_prefix_of(t@) {
            assert(t@.subrange(0, s@.len() as int) =~= s@);
        }
    }
    r
}

/// Whether `s` is a suffix of `t`.
pub fn ends_with_chars(t: &Vec<char>, s: &Vec<char>) -> (r: bool)
    ensures
        r == s@.is_suffix_of(t@),
{
    if s.len() > t.len() {
        return false;
    }
    let r = occurs_at_exec(s, t, t.len() - s.len());
    proof {
        if s@.is_suffix_of(t@) {
            assert(t@.subrange(t@.len() - s@.len(), t@.len() as int) =~= s@);
        }
    }
    r
}

/// Whether `s` occurs anywhere in `t`.
pub fn contains_chars(t: &Vec<char>, s: &Vec<char>) -> (r: bool)
    ensures
        r == occurs_in(s@, t@),
{
    if s.len() > t.len() {
        return false;
    }
    let last = t.len() - s.len();
    let mut k: usize = 0;
    loop
        invariant
            s.len() <= t.len(),
            last == t.len() - s.len(),
            k <= last,
            forall|j: int| 0 <= j < k ==> !occurs_at(s@, t@, j),
        decreases last - k,
    {
        if occurs_at_exec(s, t, k) {
            return true;
        }
        if k == last {
            return false;
        }
        k = k + 1;
    }
}

/// Whether the string slice `s` occurs anywhere in `t`.
pub fn contains_str(t: &Vec<char>, s: &str) -> (r: bool)
    ensures
        r == occurs_in(s@, t@),
{
    let sv = chars_of(s);
    contains_chars(t, &sv)
}

/// Whether `t` ends with the string slice `s`.
pub fn ends_with_str(t: &Vec<char>, s: &str) -> (r: bool)
    ensures
        r == s@.is_suffix_of(t@),
{
    let sv = chars_of(s);
    ends_with_chars(t, &sv)
}

/// Whether `t` starts with the string slice `s`.
pub fn starts_with_str(t: &Vec<char>, s: &str) -> (r: bool)
    ensures
        r == s@.is_prefix_of(t@),
{
    let sv = chars_of(s);
    starts_with_chars(t, &sv)
}

/// `a < b` in the order of `String`.
pub fn chars_less(a: &Vec<char>, b: &Vec<char>) -> (r: bool)
    ensures
        r == chars_lt(a@, b@),
{
    let mut i: usize = 0;
    assert(a@.skip(0) =~= a@);
    assert(b@.skip(0) =~= b@);
    while i < a.len() && i < b.len()
        invariant
            i <= a.len(),
            i <= b.len(),
            forall|j: int| 0 <= j < i ==> a@[j] == b@[j],
            chars_lt(a@, b@) == chars_lt(a@.skip(i as int), b@.skip(i as int)),
        decreases a.len() - i,
    {
        if a[i] != b[i] {
            proof {
                assert(a@.skip(i as int)[0] == a@[i as int]);
                assert(b@.skip(i as int)[0] == b@[i as int]);
            }
            return a[i] < b[i];
        }
        proof {
            assert(a@.skip(i as int).drop_first() =~= a@.skip(i + 1));
            assert(b@.skip(i as int).drop_first() =~= b@.skip(i + 1));
        }
        i = i + 1;
    }
    i == a.len() && i < b.len()
}

/// The decimal digits of `n`.
pub fn decimal_chars(n: usize) -> (r: Vec<char>)
    ensures
        r@ == decimal(n as nat),
    decreases n,
{
    let d = n % 10;
    let c = if d == 0 {
        '0'
    } else if d == 1 {
        '1'
    } else if d == 2 {
        '2'
    } else if d == 3 {
        '3'
    } else if d == 4 {
        '4'
    } else if d == 5 {
        '5'
    } else if d == 6 {
        '6'
    } else if d == 7 {
        '7'
    } else if d == 8 {
        '8'
    } else {
        '9'
    };
    if n < 10 {
        let mut r = Vec::new();
        r.push(c);
        assert(r@ =~= seq![digit_char(n as nat)]);
        r
    } else {
        let mut r = decimal_chars(n / 10);
        r.push(c);
        r
    }
}

/// Byte length of the UTF-8 encoding of a character sequence.
pub fn utf8_len_exec(s: &Vec<char>) -> (n: u128)
    ensures
        n == utf8_len(s@),
{
    let mut n: u128 = 0;
    let mut i: usize = 0;
    while i < s.len()
        invariant
            i <= s.len(),
            n == utf8_len(s@.take(i as int)),
            n <= 4 * i,
        decreases s.len() - i,
    {
        let c = s[i];
        let w: u128 = if (c as u32) < 0x80 {
            1
        } else if (c as u32) < 0x800 {
            2
        } else if (c as u32) < 0x10000 {
            3
        } else {
            4
        };
        proof {
            assert(s@.take(i + 1).drop_last() =~= s@.take(i as int));
        }
        n = n + w;
        i = i + 1;
    }
    assert(s@.take(s.len() as int) =~= s@);
    n
}

} // verus!

verus! {

// ---------------------------------------------------------------------------
// Unicode character classes and case mapping of std
// ---------------------------------------------------------------------------

/// What `char::is_whitespace` returns: whether the character has the Unicode
/// `White_Space` property (U+0009 to U+000D, U+0020, U+0085, U+00A0, U+1680,
/// U+2000 to U+200A, U+2028, U+2029, U+202F, U+205F and U+3000).
pub open spec fn spec_is_whitespace(c: char) -> bool {
    let u = c as u32;
    ||| 0x09 <= u <= 0x0d
    ||| u == 0x20
    ||| u == 0x85
    ||| u == 0xa0
    ||| u == 0x1680
    ||| 0x2000 <= u <= 0x200a
    ||| u == 0x2028
    ||| u == 0x2029
    ||| u == 0x202f
    ||| u == 0x205f
    ||| u == 0x3000
}

/// What `char::is_alphabetic` returns: whether the character has the Unicode
/// `Alphabetic` property.
pub uninterp spec fn spec_is_alphabetic(c: char) -> bool;

/// What `str::to_lowercase` returns for a string with the given characters.
pub uninterp spec fn spec_to_lowercase(s: Seq<char>) -> Seq<char>;

/// `char::is_whitespace`: the Unicode `White_Space` property.
pub fn char_is_whitespace(c: char) -> (r: bool)
    ensures
        r == spec_is_whitespace(c),
{
    let u = c as u32;
    (0x09 <= u && u <= 0x0d) || u == 0x20 || u == 0x85 || u == 0xa0 || u == 0x1680 || (0x2000
        <= u && u <= 0x200a) || u == 0x2028 || u == 0x2029 || u == 0x202f || u == 0x205f || u
        == 0x3000
}

/// `char::is_alphabetic`; the result is named by `spec_is_alphabetic` (the
/// Unicode `Alphabetic` table is not written out here).
#[verifier::external_body]
pub(crate) fn char_is_alphabetic(c: char) -> (r: bool)
    ensures
        r == spec_is_alphabetic(c),
{
    c.is_alphabetic()
}

/// `str::to_lowercase`; the result is named by `spec_to_lowercase` (the
/// Unicode case-mapping tables are not written out here).
#[verifier::external_body]
pub(crate) fn to_lowercase(s: &str) -> (r: String)
    ensures
        r@ == spec_to_lowercase(s@),
{
    s.to_lowercase()
}

/// `s` with leading whitespace removed (`str::trim_start`).
pub open spec fn trim_start(s: Seq<char>) -> Seq<char>
    decreases s.len(),
{
    if s.len() > 0 && spec_is_whitespace(s[0]) {
        trim_start(s.drop_first())
    } else {
        s
    }
}

/// `s` with trailing whitespace removed (`str::trim_end`).
pub open spec fn trim_end(s: Seq<char>) -> Seq<char>
    decreases s.len(),
{
    if s.len() > 0 && spec_is_whitespace(s.last()) {
        trim_end(s.drop_last())
    } else {
        s
    }
}

/// `s` with leading and trailing whitespace removed (`str::trim`).
pub open spec fn trim(s: Seq<char>) -> Seq<char> {
    trim_end(trim_start(s))
}

/// Every character of `s` is whitespace.
pub open spec fn all_whitespace(s: Seq<char>) -> bool {
    forall|i: int| 0 <= i < s.len() ==> spec_is_whitespace(#[trigger] s[i])
}

pub proof fn lemma_trim_start_skip(s: Seq<char>, i: int)
    requires
        0 <= i <= s.len(),
        forall|j: int| 0 <= j < i ==> spec_is_whitespace(#[trigger] s[j]),
    ensures
        trim_start(s) == trim_start(s.skip(i)),
    decreases i,
{
    if i > 0 {
        assert(s.skip(1) =~= s.drop_first());
        lemma_trim_start_skip(s.drop_first(), i - 1);
        assert(s.drop_first().skip(i - 1) =~= s.skip(i));
    } else {
        assert(s.skip(0) =~= s);
    }
}

pub proof fn lemma_trim_end_take(s: Seq<char>, i: int)
    requires
        0 <= i <= s.len(),
        forall|j: int| i <= j < s.len() ==> spec_is_whitespace(#[trigger] s[j]),
    ensures
        trim_end(s) == trim_end(s.take(i)),
    decreases s.len() - i,
{
    if i < s.len() {
        lemma_trim_end_take(s.drop_last(), i);
        assert(s.drop_last().take(i) =~= s.take(i));
    } else {
        assert(s.take(i) =~= s);
    }
}

/// `trim` of a character sequence.
pub fn trim_chars(s: &Vec<char>) -> (r: Vec<char>)
    ensures
        r@ == trim(s@),
{
    let mut a: usize = 0;
    while a < s.len() && char_is_whitespace(s[a])
        invariant
            a <= s.len(),
            forall|j: int| 0 <= j < a ==> spec_is_whitespace(#[trigger] s@[j]),
        decreases s.len() - a,
    {
        a = a + 1;
    }
    proof {
        lemma_trim_start_skip(s@, a as int);
    }
    let mut b: usize = s.len();
    while b > a && char_is_whitespace(s[b - 1])
        invariant
            a <= b <= s.len(),
            forall|j: int| b <= j < s.len() ==> spec_is_whitespace(#[trigger] s@[j]),
        decreases b,
    {
        b = b - 1;
    }
    let r = sub_chars(s, a, b);
    proof {
        let t = s@.skip(a as int);
        assert(trim_start(t) == t);
        assert forall|j: int| b - a <= j < t.len() implies spec_is_whitespace(#[trigger] t[j]) by {
            assert(t[j] == s@[a + j]);
        }
        lemma_trim_end_take(t, b - a);
        assert(t.take(b - a) =~= s@.subrange(a as int, b as int));
        let u = s@.subrange(a as int, b as int);
        if u.len() > 0 {
            assert(u.last() == s@[b - 1]);
        }
        assert(trim_end(u) == u);
    }
    r
}

/// `str::trim` followed by `is_empty`: every character is whitespace.
pub fn is_blank(s: &Vec<char>) -> (r: bool)
    ensures
        r == all_whitespace(s@),
{
    let mut i: usize = 0;
    while i < s.len()
        invariant
            i <= s.len(),
            forall|j: int| 0 <= j < i ==> spec_is_whitespace(#[trigger] s@[j]),
        decreases s.len() - i,
    {
        if !char_is_whitespace(s[i]) {
            return false;
        }
        i = i + 1;
    }
    true
}

} // verus!

verus! {

/// `s` with every non-overlapping occurrence of `pat`, scanning from the
/// left, replaced by `rep` (what `str::replace` returns for a non-empty
/// pattern).
pub open spec fn replace_all(s: Seq<char>, pat: Seq<char>, rep: Seq<char>) -> Seq<char>
    decreases s.len(),
{
    if s.len() == 0 {
        s
    } else if pat.len() > 0 && occurs_at(pat, s, 0) {
        rep + replace_all(s.skip(pat.len() as int), pat, rep)
    } else {
        seq![s[0]] + replace_all(s.drop_first(), pat, rep)
    }
}

/// `str::replace` on character sequences, for a non-empty pattern.
pub fn replace_all_chars(s: &Vec<char>, pat: &Vec<char>, rep: &Vec<char>) -> (r: Vec<char>)
    requires
        pat.len() > 0,
    ensures
        r@ == replace_all(s@, pat@, rep@),
{
    let mut out: Vec<char> = Vec::new();
    let mut i: usize = 0;
    assert(s@.skip(0) =~= s@);
    while i < s.len()
        invariant
            i <= s.len(),
            pat.len() > 0,
            out@ + replace_all(s@.skip(i as int), pat@, rep@) == replace_all(s@, pat@, rep@),
        decreases s.len() - i,
    {
        let ghost t = s@.skip(i as int);
        if occurs_at_exec(pat, s, i) {
            proof {
                assert(t.subrange(0, pat@.len() as int) =~= s@.subrange(i as int, i + pat@.len()));
                assert(occurs_at(pat@, t, 0));
                assert(t.skip(pat@.len() as int) =~= s@.skip(i + pat@.len()));
                assert(out@ + rep@ + replace_all(s@.skip(i + pat@.len()), pat@, rep@) =~= out@ + (
                rep@ + replace_all(s@.skip(i + pat@.len()), pat@, rep@)));
            }
            extend_chars(&mut out, rep);
            i = i + pat.len();
        } else {
            proof {
                if occurs_at(pat@, t, 0) {
                    assert(t.subrange(0, pat@.len() as int) =~= s@.subrange(i as int, i + pat@.len()));
                }
                assert(t.drop_first() =~= s@.skip(i + 1));
                assert(t[0] == s@[i as int]);
                assert(out@.push(s@[i as int]) + replace_all(s@.skip(i + 1), pat@, rep@) =~= out@ + (
                seq![t[0]] + replace_all(t.drop_first(), pat@, rep@)));
            }
            out.push(s[i]);
            i = i + 1;
        }
    }
    proof {
        assert(s@.skip(i as int).len() == 0);
        assert(out@ + replace_all(s@.skip(i as int), pat@, rep@) =~= out@);
    }
    out
}

} // verus!

verus! {

/// The position of the last occurrence of `c` in `s` (`str::rfind` of a
/// character, by character position).
pub open spec fn last_index_of(s: Seq<char>, c: char) -> Option<int>
    decreases s.len(),
{
    if s.len() == 0 {
        None
    } else if s.last() == c {
        Some(s.len() - 1)
    } else {
        last_index_of(s.drop_last(), c)
    }
}

/// `last_index_of` for executable code.
pub fn last_index_of_exec(s: &Vec<char>, c: char) -> (r: Option<usize>)
    ensures
        r matches Some(p) ==> last_index_of(s@, c) == Some(p as int) && p < s@.len() && s@[p as int] == c,
        r is None ==> last_index_of(s@, c) is None,
{
    let mut i: usize = s.len();
    assert(s@.take(i as int) =~= s@);
    while i > 0 && s[i - 1] != c
        invariant
            i <= s@.len(),
            last_index_of(s@, c) == last_index_of(s@.take(i as int), c),
        decreases i,
    {
        assert(s@.take(i as int).drop_last() =~= s@.take(i - 1));
        assert(s@.take(i as int).last() == s@[i - 1]);
        i = i - 1;
    }
    if i == 0 {
        assert(s@.take(0) =~= Seq::<char>::empty());
        None
    } else {
        assert(s@.take(i as int).last() == s@[i - 1]);
        Some(i - 1)
    }
}

/// Position of the first occurrence of `pat` in `s` at or after `k`
/// (`str::find` on the tail of `s` that starts at `k`, as an absolute
/// position).
pub open spec fn find_from(s: Seq<char>, pat: Seq<char>, k: int) -> Option<int>
    decreases s.len() - k,
    when k >= 0
{
    if k + pat.len() > s.len() {
        None
    } else if occurs_at(pat, s, k) {
        Some(k)
    } else {
        proof {
            if pat.len() == 0 {
                assert(s.subrange(k, k) =~= pat);
            }
        }
        find_from(s, pat, k + 1)
    }
}

pub proof fn lemma_find_from(s: Seq<char>, pat: Seq<char>, k: int)
    requires
        k >= 0,
    ensures
        find_from(s, pat, k) matches Some(p) ==> k <= p && occurs_at(pat, s, p) && forall|j: int|
            k <= j < p ==> !occurs_at(pat, s, j),
        find_from(s, pat, k) is None ==> forall|j: int| k <= j ==> !occurs_at(pat, s, j),
    decreases s.len() - k,
{
    if k + pat.len() > s.len() {
    } else if occurs_at(pat, s, k) {
    } else {
        if pat.len() == 0 {
            assert(s.subrange(k, k) =~= pat);
        }
        lemma_find_from(s, pat, k + 1);
    }
}

/// `find_from` for executable code.
pub fn find_from_exec(s: &Vec<char>, pat: &Vec<char>, k: usize) -> (r: Option<usize>)
    ensures
        r matches Some(p) ==> find_from(s@, pat@, k as int) == Some(p as int),
        r is None ==> find_from(s@, pat@, k as int) is None,
{
    proof {
        lemma_find_from(s@, pat@, k as int);
    }
    if k > s.len() || pat.len() > s.len() - k {
        return None;
    }
    let mut j = k;
    loop
        invariant
            k <= j,
            pat.len() <= s.len(),
            j <= s.len() - pat.len() + 1,
            forall|i: int| k <= i < j ==> !occurs_at(pat@, s@, i),
            find_from(s@, pat@, k as int) == find_from(s@, pat@, j as int),
        decreases s.len() - j,
    {
        if j > s.len() - pat.len() {
            return None;
        }
        if occurs_at_exec(pat, s, j) {
            return Some(j);
        }
        proof {
            if pat.len() == 0 {
                assert(s@.subrange(j as int, j as int) =~= pat@);
            }
        }
        j = j + 1;
    }
}

} // verus!

verus! {

// ---------------------------------------------------------------------------
// Unsigned integers from text (`from_str_radix` of the unsigned types)
// ---------------------------------------------------------------------------

/// The value of a digit character in base 10 or 16 (letters in either case).
pub open spec fn digit_value(c: char, radix: nat) -> Option<nat> {
    if '0' <= c && c <= '9' {
        Some((c as int - '0' as int) as nat)
    } else if radix == 16 && 'a' <= c && c <= 'f' {
        Some((c as int - 'a' as int + 10) as nat)
    } else if radix == 16 && 'A' <= c && c <= 'F' {
        Some((c as int - 'A' as int + 10) as nat)
    } else {
        None
    }
}

/// All characters of `d` are digits of the radix.
pub open spec fn all_digits(d: Seq<char>, radix: nat) -> bool {
    forall|i: int| 0 <= i < d.len() ==> (#[trigger] digit_value(d[i], radix)) is Some
}

/// The number written by a sequence of digits.
pub open spec fn digits_value(d: Seq<char>, radix: nat) -> nat
    decreases d.len(),
{
    if d.len() == 0 {
        0
    } else {
        digits_value(d.drop_last(), radix) * radix + digit_value(d.last(), radix).unwrap_or(0)
    }
}

/// What `from_str_radix` of an unsigned type with the given maximum returns:
/// an optional `+`, then at least one digit, and a value that fits.
pub open spec fn parse_unsigned(s: Seq<char>, radix: nat, max: nat) -> Option<nat> {
    let d = if s.len() > 0 && s[0] == '+' {
        s.drop_first()
    } else {
        s
    };
    if d.len() == 0 || !all_digits(d, radix) || digits_value(d, radix) > max {
        None
    } else {
        Some(digits_value(d, radix))
    }
}

proof fn lemma_digits_value_grows(d: Seq<char>, radix: nat)
    requires
        d.len() > 0,
        radix >= 1,
    ensures
        digits_value(d, radix) >= digits_value(d.drop_last(), radix),
{
    assert(digits_value(d.drop_last(), radix) * radix >= digits_value(d.drop_last(), radix))
        by (nonlinear_arith)
        requires
            radix >= 1,
    ;
}

proof fn lemma_digits_value_prefix_le(d: Seq<char>, a: int, b: int, radix: nat)
    requires
        0 <= a <= b <= d.len(),
        radix >= 1,
    ensures
        digits_value(d.take(a), radix) <= digits_value(d.take(b), radix),
    decreases b - a,
{
    if a < b {
        lemma_digits_value_prefix_le(d, a, b - 1, radix);
        assert(d.take(b).drop_last() =~= d.take(b - 1));
        lemma_digits_value_grows(d.take(b), radix);
    }
}

fn digit_value_exec(c: char, radix: u32) -> (r: Option<u32>)
    requires
        radix == 10 || radix == 16,
    ensures
        r matches Some(v) ==> digit_value(c, radix as nat) == Some(v as nat) && v < radix,
        r is None ==> digit_value(c, radix as nat) is None,
{
    if '0' <= c && c <= '9' {
        Some((c as u32) - ('0' as u32))
    } else if radix == 16 && 'a' <= c && c <= 'f' {
        Some((c as u32) - ('a' as u32) + 10)
    } else if radix == 16 && 'A' <= c && c <= 'F' {
        Some((c as u32) - ('A' as u32) + 10)
    } else {
        None
    }
}

/// `str::parse` for an unsigned type whose maximum is `max` (the digits are
/// decimal).
pub fn parse_decimal_upto(s: &Vec<char>, max: usize) -> (r: Option<usize>)
    ensures
        match r {
            Some(v) => parse_unsigned(s@, 10, max as nat) == Some(v as nat),
            None => parse_unsigned(s@, 10, max as nat) is None,
        },
{
    let start: usize = if s.len() > 0 && s[0] == '+' {
        1
    } else {
        0
    };
    let ghost d = if s@.len() > 0 && s@[0] == '+' {
        s@.drop_first()
    } else {
        s@
    };
    assert(d =~= s@.skip(start as int));
    if start >= s.len() {
        return None;
    }
    let mut acc: u128 = 0;
    let mut i: usize = start;
    while i < s.len()
        invariant
            start <= i <= s.len(),
            d == s@.skip(start as int),
            d == (if s@.len() > 0 && s@[0] == '+' {
                s@.drop_first()
            } else {
                s@
            }),
            d.len() > 0,
            forall|m: int| 0 <= m < i - start ==> (#[trigger] digit_value(d[m], 10)) is Some,
            acc as nat == digits_value(d.take(i - start), 10),
            acc <= max,
        decreases s.len() - i,
    {
        let c = s[i];
        assert(d[i - start] == c);
        let ghost pre = d.take(i - start);
        let ghost next = d.take(i - start + 1);
        assert(next.drop_last() =~= pre);
        assert(next.last() == c);
        if !('0' <= c && c <= '9') {
            assert(digit_value(d[i - start], 10) is None);
            assert(!all_digits(d, 10));
            return None;
        }
        let dv: u128 = ((c as u32) - ('0' as u32)) as u128;
        proof {
            assert(acc * 10 + dv <= 0x1_0000_0000_0000_0000 * 10 + 10) by (nonlinear_arith)
                requires
                    acc <= 0x1_0000_0000_0000_0000,
                    dv <= 10,
            ;
        }
        let nv: u128 = acc * 10 + dv;
        assert(digits_value(next, 10) == nv);
        if nv > max as u128 {
            proof {
                lemma_digits_value_prefix_le(d, i - start + 1, d.len() as int, 10);
                assert(d.take(d.len() as int) =~= d);
            }
            return None;
        }
        acc = nv;
        i = i + 1;
    }
    proof {
        assert(d.take(i - start) =~= d);
        assert(all_digits(d, 10));
    }
    Some(acc as usize)
}

/// `from_str_radix` for an unsigned type whose maximum is `max`, in base 10
/// or 16.
#[verifier::spinoff_prover]
#[verifier::rlimit(40)]
pub fn parse_unsigned_exec(s: &Vec<char>, radix: u32, max: u32) -> (r: Option<u32>)
    requires
        radix == 10 || radix == 16,
    ensures
        r matches Some(v) ==> parse_unsigned(s@, radix as nat, max as nat) == Some(v as nat),
        r is None ==> parse_unsigned(s@, radix as nat, max as nat) is None,
{
    let start: usize = if s.len() > 0 && s[0] == '+' {
        1
    } else {
        0
    };
    let ghost d = if s@.len() > 0 && s@[0] == '+' {
        s@.drop_first()
    } else {
        s@
    };
    assert(d =~= s@.skip(start as int));
    if start >= s.len() {
        return None;
    }
    let mut i: usize = start;
    while i < s.len()
        invariant
            start <= i <= s.len(),
            d == s@.skip(start as int),
            d == (if s@.len() > 0 && s@[0] == '+' {
                s@.drop_first()
            } else {
                s@
            }),
            radix == 10 || radix == 16,
            forall|k: int| 0 <= k < i - start ==> (#[trigger] digit_value(d[k], radix as nat)) is Some,
        decreases s.len() - i,
    {
        if digit_value_exec(s[i], radix).is_none() {
            assert(d[i - start] == s@[i as int]);
            assert(digit_value(d[i - start], radix as nat) is None);
            assert(!all_digits(d, radix as nat));
            return None;
        }
        i = i + 1;
    }
    assert(all_digits(d, radix as nat));
    let mut acc: u64 = 0;
    let mut i: usize = start;
    while i < s.len()
        invariant
            start <= i <= s.len(),
            d == s@.skip(start as int),
            d == (if s@.len() > 0 && s@[0] == '+' {
                s@.drop_first()
            } else {
                s@
            }),
            radix == 10 || radix == 16,
            all_digits(d, radix as nat),
            acc as nat == digits_value(d.take(i - start), radix as nat),
            acc <= max,
        decreases s.len() - i,
    {
        let ghost pre = d.take(i - start);
        let ghost next = d.take(i - start + 1);
        assert(d[i - start] == s@[i as int]);
        let dv = match digit_value_exec(s[i], radix) {
            Some(v) => v,
            None => {
                return None;
            },
        };
        proof {
            assert(next.drop_last() =~= pre);
            assert(next.last() == s@[i as int]);
            assert(acc * (radix as u64) + (dv as u64) <= u32::MAX * 16 + 16) by (nonlinear_arith)
                requires
                    acc <= u32::MAX,
                    radix <= 16,
                    dv <= 16,
            ;
        }
        let nv: u64 = acc * (radix as u64) + (dv as u64);
        assert(digits_value(next, radix as nat) == nv);
        if nv > max as u64 {
            proof {
                lemma_digits_value_prefix_le(d, i - start + 1, d.len() as int, radix as nat);
                assert(d.take(d.len() as int) =~= d);
            }
            return None;
        }
        acc = nv;
        i = i + 1;
    }
    proof {
        assert(d.take(i - start) =~= d);
    }
    Some(acc as u32)
}

} // verus!

verus! {

// ---------------------------------------------------------------------------
// Byte offsets of character positions
// ---------------------------------------------------------------------------

/// Byte offset `b` falls between two characters of `s` (or at its ends).
pub open spec fn is_byte_boundary(s: Seq<char>, b: int) -> bool {
    exists|k: int| 0 <= k <= s.len() && utf8_len(s.take(k)) == b
}

/// The character position at byte offset `b`, where `b` is a boundary.
pub open spec fn char_index_of_byte(s: Seq<char>, b: int) -> int {
    choose|k: int| 0 <= k <= s.len() && utf8_len(s.take(k)) == b
}

pub proof fn lemma_utf8_len_take_strict(s: Seq<char>, j: int, k: int)
    requires
        0 <= j < k <= s.len(),
    ensures
        utf8_len(s.take(j)) < utf8_len(s.take(k)),
    decreases k - j,
{
    assert(s.take(k).drop_last() =~= s.take(k - 1));
    if j < k - 1 {
        lemma_utf8_len_take_strict(s, j, k - 1);
    }
}

pub proof fn lemma_char_index_of_byte_unique(s: Seq<char>, b: int, k: int)
    requires
        0 <= k <= s.len(),
        utf8_len(s.take(k)) == b,
    ensures
        char_index_of_byte(s, b) == k,
{
    let c = char_index_of_byte(s, b);
    assert(0 <= c <= s.len() && utf8_len(s.take(c)) == b);
    if c < k {
        lemma_utf8_len_take_strict(s, c, k);
    } else if k < c {
        lemma_utf8_len_take_strict(s, k, c);
    }
}

fn char_width(c: char) -> (w: usize)
    ensures
        w == char_utf8_width(c),
        1 <= w <= 4,
{
    if (c as u32) < 0x80 {
        1
    } else if (c as u32) < 0x800 {
        2
    } else if (c as u32) < 0x10000 {
        3
    } else {
        4
    }
}

/// The character position at byte offset `b`, if `b` is a boundary.
pub fn char_index_at_byte(s: &Vec<char>, b: usize) -> (r: Option<usize>)
    ensures
        r matches Some(k) ==> k <= s.len() && utf8_len(s@.take(k as int)) == b
            && char_index_of_byte(s@, b as int) == k,
        r is None ==> !is_byte_boundary(s@, b as int),
{
    let mut k: usize = 0;
    let mut acc: u128 = 0;
    assert(s@.take(0) =~= Seq::<char>::empty());
    while k < s.len() && acc < b as u128
        invariant
            k <= s.len(),
            acc == utf8_len(s@.take(k as int)),
            acc <= b + 4,
            k > 0 ==> utf8_len(s@.take(k - 1)) < b,
        decreases s.len() - k,
    {
        assert(s@.take(k + 1).drop_last() =~= s@.take(k as int));
        acc = acc + char_width(s[k]) as u128;
        k = k + 1;
    }
    if acc == b as u128 {
        proof {
            lemma_char_index_of_byte_unique(s@, b as int, k as int);
        }
        Some(k)
    } else {
        proof {
            assert forall|j: int| 0 <= j <= s@.len() implies utf8_len(s@.take(j)) != b by {
                if j < k {
                    if j < k - 1 {
                        lemma_utf8_len_take_strict(s@, j, k - 1);
                    }
                } else if j > k {
                    lemma_utf8_len_take_strict(s@, k as int, j);
                }
            }
        }
        None
    }
}

/// `join` of character vectors.
pub fn join_chars(parts: &Vec<Vec<char>>, sep: &str) -> (r: Vec<char>)
    ensures
        r@ == join(parts@.map_values(|p: Vec<char>| p@), sep@),
{
    let ghost ps = parts@.map_values(|p: Vec<char>| p@);
    let mut r: Vec<char> = Vec::new();
    let mut i: usize = 0;
    assert(ps.take(0) =~= Seq::<Seq<char>>::empty());
    while i < parts.len()
        invariant
            ps == parts@.map_values(|p: Vec<char>| p@),
            i <= parts.len(),
            r@ == join(ps.take(i as int), sep@),
        decreases parts.len() - i,
    {
        assert(ps.take(i + 1).drop_last() =~= ps.take(i as int));
        assert(ps.take(i + 1).last() == parts@[i as int]@);
        if i > 0 {
            extend_str(&mut r, sep);
        } else {
            assert(ps.take(1)[0] == parts@[0]@);
        }
        extend_chars(&mut r, &parts[i]);
        i = i + 1;
    }
    assert(ps.take(parts.len() as int) =~= ps);
    r
}

} // verus!
