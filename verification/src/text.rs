use vstd::prelude::*;
use vstd::utf8::{decode_utf8, valid_utf8};

verus! {

// ---------------------------------------------------------------------------
// Character classes
// ---------------------------------------------------------------------------

/// Unicode `White_Space`, the set that `char::is_whitespace` tests.
pub open spec fn is_ws(c: char) -> bool {
    ||| ('\u{9}' <= c && c <= '\u{d}')
    ||| c == ' '
    ||| c == '\u{85}'
    ||| c == '\u{a0}'
    ||| c == '\u{1680}'
    ||| ('\u{2000}' <= c && c <= '\u{200a}')
    ||| c == '\u{2028}'
    ||| c == '\u{2029}'
    ||| c == '\u{202f}'
    ||| c == '\u{205f}'
    ||| c == '\u{3000}'
}

pub fn char_is_ws(c: char) -> (res: bool)
    ensures
        res == is_ws(c),
{
    ('\u{9}' <= c && c <= '\u{d}') || c == ' ' || c == '\u{85}' || c == '\u{a0}' || c
        == '\u{1680}' || ('\u{2000}' <= c && c <= '\u{200a}') || c == '\u{2028}' || c
        == '\u{2029}' || c == '\u{202f}' || c == '\u{205f}' || c == '\u{3000}'
}

pub open spec fn is_ascii_digit(c: char) -> bool {
    '0' <= c && c <= '9'
}

pub open spec fn is_ascii_alnum(c: char) -> bool {
    ||| ('a' <= c && c <= 'z')
    ||| ('A' <= c && c <= 'Z')
    ||| is_ascii_digit(c)
}

/// What `char::is_alphanumeric` answers: Unicode `Alphabetic` or `Numeric`.
pub uninterp spec fn unicode_alphanumeric(c: char) -> bool;

/// Calls `char::is_alphanumeric`. Its result is named `unicode_alphanumeric`;
/// the Unicode properties it reads are not written out. Claimed besides: on
/// ASCII it answers for the letters and digits alone, as no other ASCII
/// character is alphabetic or numeric.
#[verifier::external_body]
pub(crate) fn char_is_alphanumeric(c: char) -> (res: bool)
    ensures
        res == unicode_alphanumeric(c),
        (c as u32) < 128 ==> (res == is_ascii_alnum(c)),
{
    c.is_alphanumeric()
}

/// What `char::is_uppercase` answers: the Unicode `Uppercase` property.
pub uninterp spec fn unicode_uppercase(c: char) -> bool;

/// Calls `char::is_uppercase`. Its result is named `unicode_uppercase`; the
/// Unicode property it reads is not written out. Claimed besides: on ASCII
/// it answers for `A` to `Z` alone.
#[verifier::external_body]
pub(crate) fn char_is_uppercase(c: char) -> (res: bool)
    ensures
        res == unicode_uppercase(c),
        (c as u32) < 128 ==> (res == ('A' <= c && c <= 'Z')),
{
    c.is_uppercase()
}

/// `char::is_alphanumeric`: the ASCII letters and digits on ASCII.
pub open spec fn is_alphanumeric(c: char) -> bool {
    if (c as u32) < 128 {
        is_ascii_alnum(c)
    } else {
        unicode_alphanumeric(c)
    }
}

/// `char::is_uppercase`: `A` to `Z` on ASCII.
pub open spec fn is_uppercase(c: char) -> bool {
    if (c as u32) < 128 {
        'A' <= c && c <= 'Z'
    } else {
        unicode_uppercase(c)
    }
}

/// A character that belongs to a word: alphanumeric or `_`.
pub open spec fn is_word_char(c: char) -> bool {
    is_alphanumeric(c) || c == '_'
}

pub fn word_char(c: char) -> (res: bool)
    ensures
        res == is_word_char(c),
{
    char_is_alphanumeric(c) || c == '_'
}

pub open spec fn ascii_lower_char(c: char) -> char {
    if 'A' <= c && c <= 'Z' {
        ((c as u32) + 32) as char
    } else {
        c
    }
}

pub open spec fn ascii_lower(s: Seq<char>) -> Seq<char> {
    s.map_values(|c: char| ascii_lower_char(c))
}

pub fn lower_ascii_char(c: char) -> (res: char)
    ensures
        res == ascii_lower_char(c),
{
    if 'A' <= c && c <= 'Z' {
        let u: u32 = (c as u32) + 32;
        assert(u == 97 + (c as u32 - 65));
        char_from_ascii_letter(u)
    } else {
        c
    }
}

/// The character with code `u`, for a lower-case ASCII letter.
fn char_from_ascii_letter(u: u32) -> (res: char)
    requires
        97 <= u <= 122,
    ensures
        res == u as char,
{
    let b: u8 = u as u8;
    b as char
}

// ---------------------------------------------------------------------------
// Sequences of characters
// ---------------------------------------------------------------------------

pub open spec fn starts_with(s: Seq<char>, p: Seq<char>) -> bool {
    p.len() <= s.len() && s.subrange(0, p.len() as int) == p
}

pub open spec fn ends_with(s: Seq<char>, p: Seq<char>) -> bool {
    p.len() <= s.len() && s.subrange(s.len() - p.len(), s.len() as int) == p
}

/// `p` occurs in `s` at position `i`.
pub open spec fn occurs_at(s: Seq<char>, p: Seq<char>, i: int) -> bool {
    0 <= i && i + p.len() <= s.len() && s.subrange(i, i + p.len()) == p
}

pub open spec fn contains_seq(s: Seq<char>, p: Seq<char>) -> bool {
    exists|i: int| occurs_at(s, p, i)
}

/// Index of the first character of `s` that is not white space (or `s.len()`).
pub open spec fn ws_prefix_len(s: Seq<char>) -> nat
    decreases s.len(),
{
    if s.len() > 0 && is_ws(s[0]) {
        1 + ws_prefix_len(s.drop_first())
    } else {
        0
    }
}

/// Length of `s` once trailing white space is removed.
pub open spec fn trim_end_len(s: Seq<char>) -> nat
    decreases s.len(),
{
    if s.len() > 0 && is_ws(s.last()) {
        trim_end_len(s.drop_last())
    } else {
        s.len()
    }
}

/// `str::trim_start`.
pub open spec fn trim_start(s: Seq<char>) -> Seq<char> {
    s.subrange(ws_prefix_len(s) as int, s.len() as int)
}

/// `str::trim_end`.
pub open spec fn trim_end(s: Seq<char>) -> Seq<char> {
    s.subrange(0, trim_end_len(s) as int)
}

/// `str::trim`.
pub open spec fn trim(s: Seq<char>) -> Seq<char> {
    trim_end(trim_start(s))
}

pub proof fn lemma_ws_prefix_len(s: Seq<char>)
    ensures
        ws_prefix_len(s) <= s.len(),
        forall|i: int| 0 <= i < ws_prefix_len(s) ==> is_ws(#[trigger] s[i]),
        ws_prefix_len(s) < s.len() ==> !is_ws(s[ws_prefix_len(s) as int]),
    decreases s.len(),
{
    if s.len() > 0 && is_ws(s[0]) {
        lemma_ws_prefix_len(s.drop_first());
        assert forall|i: int| 0 <= i < ws_prefix_len(s) implies is_ws(#[trigger] s[i]) by {
            if i > 0 {
                assert(s[i] == s.drop_first()[i - 1]);
            }
        }
    }
}

pub proof fn lemma_trim_end_len(s: Seq<char>)
    ensures
        trim_end_len(s) <= s.len(),
        forall|i: int| trim_end_len(s) <= i < s.len() ==> is_ws(#[trigger] s[i]),
        trim_end_len(s) > 0 ==> !is_ws(s[trim_end_len(s) - 1]),
    decreases s.len(),
{
    if s.len() > 0 && is_ws(s.last()) {
        lemma_trim_end_len(s.drop_last());
        assert forall|i: int| trim_end_len(s) <= i < s.len() implies is_ws(#[trigger] s[i]) by {
            if i < s.len() - 1 {
                assert(s[i] == s.drop_last()[i]);
            }
        }
    }
}

/// A prefix of white space followed by a non-white-space character (or the end)
/// determines `ws_prefix_len`.
pub proof fn lemma_ws_prefix_len_unique(s: Seq<char>, k: int)
    requires
        0 <= k <= s.len(),
        forall|i: int| 0 <= i < k ==> is_ws(#[trigger] s[i]),
        k < s.len() ==> !is_ws(s[k]),
    ensures
        ws_prefix_len(s) == k,
    decreases s.len(),
{
    if k > 0 {
        assert(is_ws(s[0]));
        assert forall|i: int| 0 <= i < k - 1 implies is_ws(#[trigger] s.drop_first()[i]) by {
            assert(s.drop_first()[i] == s[i + 1]);
        }
        if k - 1 < s.drop_first().len() {
            assert(s.drop_first()[k - 1] == s[k]);
        }
        lemma_ws_prefix_len_unique(s.drop_first(), k - 1);
    }
}

/// A suffix of white space preceded by a non-white-space character (or the start)
/// determines `trim_end_len`.
pub proof fn lemma_trim_end_len_unique(s: Seq<char>, k: int)
    requires
        0 <= k <= s.len(),
        forall|i: int| k <= i < s.len() ==> is_ws(#[trigger] s[i]),
        k > 0 ==> !is_ws(s[k - 1]),
    ensures
        trim_end_len(s) == k,
    decreases s.len(),
{
    if k < s.len() {
        assert(is_ws(s.last()));
        assert forall|i: int| k <= i < s.drop_last().len() implies is_ws(
            #[trigger] s.drop_last()[i],
        ) by {
            assert(s.drop_last()[i] == s[i]);
        }
        if k > 0 {
            assert(s.drop_last()[k - 1] == s[k - 1]);
        }
        lemma_trim_end_len_unique(s.drop_last(), k);
    }
}

/// `starts_with` compares the first characters one by one.
pub proof fn lemma_starts_with_chars(s: Seq<char>, p: Seq<char>)
    ensures
        starts_with(s, p) <==> (p.len() <= s.len() && forall|i: int|
            0 <= i < p.len() ==> s[i] == p[i]),
{
    if p.len() <= s.len() {
        let pre = s.subrange(0, p.len() as int);
        assert forall|i: int| 0 <= i < p.len() implies #[trigger] pre[i] == s[i] by {}
        if forall|i: int| 0 <= i < p.len() ==> s[i] == p[i] {
            assert(pre =~= p);
        }
    }
}

// ---------------------------------------------------------------------------
// Executable helpers on strings
// ---------------------------------------------------------------------------

/// The characters of `s`, in order.
pub fn chars_of(s: &str) -> (res: Vec<char>)
    ensures
        res@ == s@,
{
    let mut out: Vec<char> = Vec::new();
    for c in it: s.chars()
        invariant
            out@ == it.seq().take(it.index() as int),
    {
        out.push(c);
    }
    out
}

/// Calls `String::push`, which appends one character.
#[verifier::external_body]
pub(crate) fn push_char(s: &mut String, c: char)
    ensures
        final(s)@ == old(s)@.push(c),
{
    s.push(c);
}

/// The string made of `v[lo..hi]`.
pub fn string_of_range(v: &Vec<char>, lo: usize, hi: usize) -> (res: String)
    requires
        lo <= hi <= v.len(),
    ensures
        res@ == v@.subrange(lo as int, hi as int),
{
    let mut out = String::new();
    let mut i = lo;
    while i < hi
        invariant
            lo <= i <= hi <= v.len(),
            out@ == v@.subrange(lo as int, i as int),
        decreases hi - i,
    {
        push_char(&mut out, v[i]);
        assert(v@.subrange(lo as int, i + 1) == v@.subrange(lo as int, i as int).push(v@[i as int]));
        i += 1;
    }
    out
}

/// The string made of all of `v`.
pub fn string_of(v: &Vec<char>) -> (res: String)
    ensures
        res@ == v@,
{
    let r = string_of_range(v, 0, v.len());
    assert(v@.subrange(0, v@.len() as int) == v@);
    r
}

/// A string of the characters `s` followed by those of `t`.
pub fn concat(s: &str, t: &str) -> (res: String)
    ensures
        res@ == s@ + t@,
{
    let mut out = s.to_owned();
    let tc = chars_of(t);
    let mut i: usize = 0;
    while i < tc.len()
        invariant
            0 <= i <= tc.len(),
            tc@ == t@,
            out@ == s@ + t@.subrange(0, i as int),
        decreases tc.len() - i,
    {
        push_char(&mut out, tc[i]);
        assert(t@.subrange(0, i + 1) == t@.subrange(0, i as int).push(t@[i as int]));
        i += 1;
    }
    assert(t@.subrange(0, t@.len() as int) == t@);
    out
}

pub fn seq_eq(a: &Vec<char>, b: &Vec<char>) -> (res: bool)
    ensures
        res == (a@ == b@),
{
    if a.len() != b.len() {
        return false;
    }
    let mut i: usize = 0;
    while i < a.len()
        invariant
            0 <= i <= a.len(),
            a.len() == b.len(),
            forall|j: int| 0 <= j < i ==> a@[j] == b@[j],
        decreases a.len() - i,
    {
        if a[i] != b[i] {
            return false;
        }
        i += 1;
    }
    assert(a@ =~= b@);
    true
}

/// `str == str` on the characters.
pub fn str_eq(a: &str, b: &str) -> (res: bool)
    ensures
        res == (a@ == b@),
{
    let av = chars_of(a);
    let bv = chars_of(b);
    seq_eq(&av, &bv)
}

/// Does `v[at..]` begin with `p`?
pub fn matches_at(v: &Vec<char>, at: usize, p: &Vec<char>) -> (res: bool)
    ensures
        res == occurs_at(v@, p@, at as int),
{
    if at > v.len() || p.len() > v.len() - at {
        return false;
    }
    let mut i: usize = 0;
    while i < p.len()
        invariant
            0 <= i <= p.len(),
            at + p.len() <= v.len(),
            forall|j: int| 0 <= j < i ==> v@[at + j] == p@[j],
        decreases p.len() - i,
    {
        if v[at + i] != p[i] {
            assert(v@.subrange(at as int, at + p.len())[i as int] != p@[i as int]);
            return false;
        }
        i += 1;
    }
    assert(v@.subrange(at as int, at + p.len()) =~= p@);
    true
}

/// Index of the first character at or after `from` that is not white space.
pub fn skip_ws(v: &Vec<char>, from: usize) -> (res: usize)
    requires
        from <= v.len(),
    ensures
        from <= res <= v.len(),
        forall|i: int| from <= i < res ==> is_ws(#[trigger] v@[i]),
        res < v.len() ==> !is_ws(v@[res as int]),
{
    let mut i = from;
    while i < v.len() && char_is_ws(v[i])
        invariant
            from <= i <= v.len(),
            forall|j: int| from <= j < i ==> is_ws(#[trigger] v@[j]),
        decreases v.len() - i,
    {
        i += 1;
    }
    i
}

/// `ws_prefix_len` of `v[from..to]`, measured from `from`.
pub fn trim_start_range(v: &Vec<char>, from: usize, to: usize) -> (res: usize)
    requires
        from <= to <= v.len(),
    ensures
        from <= res <= to,
        res - from == ws_prefix_len(v@.subrange(from as int, to as int)),
{
    let mut i = from;
    while i < to && char_is_ws(v[i])
        invariant
            from <= i <= to,
            to <= v.len(),
            forall|j: int| from <= j < i ==> is_ws(#[trigger] v@[j]),
        decreases to - i,
    {
        i += 1;
    }
    proof {
        let sub = v@.subrange(from as int, to as int);
        assert forall|j: int| 0 <= j < i - from implies is_ws(#[trigger] sub[j]) by {
            assert(sub[j] == v@[from + j]);
        }
        if i < to {
            assert(sub[i - from] == v@[i as int]);
        }
        lemma_ws_prefix_len_unique(sub, i - from);
    }
    i
}

/// `trim_end_len` of `v[from..to]`, measured from `from`.
pub fn trim_end_range(v: &Vec<char>, from: usize, to: usize) -> (res: usize)
    requires
        from <= to <= v.len(),
    ensures
        from <= res <= to,
        res - from == trim_end_len(v@.subrange(from as int, to as int)),
{
    let mut i = to;
    while i > from && char_is_ws(v[i - 1])
        invariant
            from <= i <= to,
            to <= v.len(),
            forall|j: int| i <= j < to ==> is_ws(#[trigger] v@[j]),
        decreases i - from,
    {
        i -= 1;
    }
    proof {
        let sub = v@.subrange(from as int, to as int);
        assert forall|j: int| i - from <= j < sub.len() implies is_ws(#[trigger] sub[j]) by {
            assert(sub[j] == v@[from + j]);
        }
        if i > from {
            assert(sub[i - from - 1] == v@[i - 1]);
        }
        lemma_trim_end_len_unique(sub, i - from);
    }
    i
}

/// Bounds of `trim(v[from..to])` inside `v`.
pub fn trim_range(v: &Vec<char>, from: usize, to: usize) -> (res: (usize, usize))
    requires
        from <= to <= v.len(),
    ensures
        from <= res.0 <= res.1 <= to,
        v@.subrange(res.0 as int, res.1 as int) == trim(v@.subrange(from as int, to as int)),
{
    let s = trim_start_range(v, from, to);
    let e = trim_end_range(v, s, to);
    proof {
        let sub = v@.subrange(from as int, to as int);
        assert(trim_start(sub) =~= v@.subrange(s as int, to as int));
        assert(trim_end(v@.subrange(s as int, to as int)) =~= v@.subrange(s as int, e as int));
    }
    (s, e)
}

/// `str::trim`, as a new string.
pub fn trimmed(s: &str) -> (res: String)
    ensures
        res@ == trim(s@),
{
    let v = chars_of(s);
    let (a, b) = trim_range(&v, 0, v.len());
    assert(v@.subrange(0, v@.len() as int) == v@);
    string_of_range(&v, a, b)
}

/// `to_ascii_lowercase` of `v`.
pub fn lower_ascii(v: &Vec<char>) -> (res: Vec<char>)
    ensures
        res@ == ascii_lower(v@),
{
    let mut out: Vec<char> = Vec::new();
    let mut i: usize = 0;
    while i < v.len()
        invariant
            0 <= i <= v.len(),
            out@ == ascii_lower(v@.subrange(0, i as int)),
        decreases v.len() - i,
    {
        out.push(lower_ascii_char(v[i]));
        assert(ascii_lower(v@.subrange(0, i + 1)) =~= ascii_lower(v@.subrange(0, i as int)).push(
            ascii_lower_char(v@[i as int]),
        ));
        i += 1;
    }
    assert(v@.subrange(0, v@.len() as int) == v@);
    out
}

/// Index of the first occurrence of `p` in `v` at or after `from`.
pub fn find_from(v: &Vec<char>, p: &Vec<char>, from: usize) -> (res: Option<usize>)
    requires
        from <= v.len(),
    ensures
        match res {
            Some(i) => from <= i && occurs_at(v@, p@, i as int) && forall|j: int|
                from <= j < i ==> !occurs_at(v@, p@, j),
            None => forall|j: int| from <= j ==> !occurs_at(v@, p@, j),
        },
{
    let mut i = from;
    loop
        invariant
            from <= i <= v.len(),
            forall|j: int| from <= j < i ==> !occurs_at(v@, p@, j),
        decreases v.len() - i,
    {
        if matches_at(v, i, p) {
            return Some(i);
        }
        if i == v.len() {
            assert forall|j: int| from <= j implies !occurs_at(v@, p@, j) by {
                if j > v.len() {
                }
            }
            return None;
        }
        i += 1;
    }
}

/// Does `p` occur anywhere in `v`?
pub fn vec_contains(v: &Vec<char>, p: &Vec<char>) -> (res: bool)
    ensures
        res == contains_seq(v@, p@),
{
    match find_from(v, p, 0) {
        Some(i) => true,
        None => {
            assert forall|j: int| !occurs_at(v@, p@, j) by {
                if j < 0 {
                }
            }
            false
        },
    }
}

// ---------------------------------------------------------------------------
// Decimal numbers
// ---------------------------------------------------------------------------

pub open spec fn digit_char(d: nat) -> char {
    (('0' as u32) + d) as char
}

/// The decimal digits of `n`, as `format!("{n}")` writes them.
pub open spec fn dec(n: nat) -> Seq<char>
    decreases n,
{
    if n < 10 {
        seq![digit_char(n)]
    } else {
        dec(n / 10).push(digit_char(n % 10))
    }
}

/// The decimal form of a signed number.
pub open spec fn dec_int(n: int) -> Seq<char> {
    if n < 0 {
        seq!['-'] + dec((-n) as nat)
    } else {
        dec(n as nat)
    }
}

fn digit_of(d: u64) -> (res: char)
    requires
        d < 10,
    ensures
        res == digit_char(d as nat),
{
    let b: u8 = 48u8 + (d as u8);
    b as char
}

/// Appends the decimal digits of `n`.
pub fn push_dec(out: &mut Vec<char>, n: u64)
    ensures
        final(out)@ == old(out)@ + dec(n as nat),
    decreases n,
{
    if n >= 10 {
        push_dec(out, n / 10);
    }
    out.push(digit_of(n % 10));
    proof {
        if n < 10 {
            assert(n % 10 == n);
        }
    }
}

/// Appends the decimal form of a signed number.
pub fn push_dec_i64(out: &mut Vec<char>, n: i64)
    ensures
        final(out)@ == old(out)@ + dec_int(n as int),
{
    if n < 0 {
        out.push('-');
        let m: u64 = if n == i64::MIN {
            9223372036854775808u64
        } else {
            (-n) as u64
        };
        push_dec(out, m);
        assert(out@ =~= old(out)@ + dec_int(n as int));
    } else {
        push_dec(out, n as u64);
    }
}

/// Value of a string of ASCII digits.
pub open spec fn digits_value(s: Seq<char>) -> nat
    decreases s.len(),
{
    if s.len() == 0 {
        0
    } else {
        digits_value(s.drop_last()) * 10 + ((s.last() as u32) - ('0' as u32)) as nat
    }
}

pub open spec fn all_digits(s: Seq<char>) -> bool {
    forall|i: int| 0 <= i < s.len() ==> is_ascii_digit(#[trigger] s[i])
}

/// The digits that an unsigned `FromStr` reads: an optional `+`, then the rest.
pub open spec fn unsigned_body(s: Seq<char>) -> Seq<char> {
    if s.len() > 0 && s[0] == '+' {
        s.drop_first()
    } else {
        s
    }
}

/// The number that `str::parse` gives for an unsigned type whose largest value is `max`.
pub open spec fn parse_unsigned(s: Seq<char>, max: nat) -> Option<nat> {
    let body = unsigned_body(s);
    if body.len() > 0 && all_digits(body) && digits_value(body) <= max {
        Some(digits_value(body))
    } else {
        None
    }
}

proof fn lemma_digits_value_push(s: Seq<char>, c: char)
    ensures
        digits_value(s.push(c)) == digits_value(s) * 10 + ((c as u32) - ('0' as u32)) as nat,
{
    assert(s.push(c).drop_last() =~= s);
}

proof fn lemma_digits_value_mono(s: Seq<char>, k: int)
    requires
        0 <= k <= s.len(),
        all_digits(s),
    ensures
        digits_value(s.subrange(0, k)) <= digits_value(s),
    decreases s.len() - k,
{
    if k < s.len() {
        lemma_digits_value_mono(s, k + 1);
        let t = s.subrange(0, k);
        assert(s.subrange(0, k + 1) =~= t.push(s[k]));
        lemma_digits_value_push(t, s[k]);
        assert(is_ascii_digit(s[k]));
    } else {
        assert(s.subrange(0, k) =~= s);
    }
}

/// `str::parse::<u64>()` restricted to values not above `max`.
pub fn parse_unsigned_chars(v: &Vec<char>, max: u64) -> (res: Option<u64>)
    ensures
        match parse_unsigned(v@, max as nat) {
            Some(n) => res == Some(n as u64),
            None => res is None,
        },
{
    let start: usize = if v.len() > 0 && v[0] == '+' {
        1
    } else {
        0
    };
    let ghost body = unsigned_body(v@);
    assert(body =~= v@.subrange(start as int, v@.len() as int));
    if start >= v.len() {
        return None;
    }
    let mut acc: u64 = 0;
    let mut i = start;
    while i < v.len()
        invariant
            start <= i <= v.len(),
            body == unsigned_body(v@),
            body =~= v@.subrange(start as int, v@.len() as int),
            all_digits(body.subrange(0, i - start)),
            acc as nat == digits_value(body.subrange(0, i - start)),
            acc <= max,
        decreases v.len() - i,
    {
        let c = v[i];
        if !('0' <= c && c <= '9') {
            assert(!is_ascii_digit(body[i - start]));
            return None;
        }
        let d: u64 = ((c as u32) - 48) as u64;
        proof {
            assert(body.subrange(0, i - start + 1) =~= body.subrange(0, i - start).push(c));
            lemma_digits_value_push(body.subrange(0, i - start), c);
        }
        if acc > max / 10 || (acc == max / 10 && d > max % 10) {
            proof {
                assert(acc * 10 + d > max) by (nonlinear_arith)
                    requires
                        acc > max / 10 || (acc == max / 10 && d > max % 10),
                        d < 10,
                ;
                if all_digits(body) {
                    lemma_digits_value_mono(body, i - start + 1);
                }
            }
            return None;
        }
        proof {
            assert(acc * 10 + d <= max) by (nonlinear_arith)
                requires
                    !(acc > max / 10 || (acc == max / 10 && d > max % 10)),
                    d < 10,
            ;
        }
        acc = acc * 10 + d;
        i += 1;
    }
    assert(body.subrange(0, body.len() as int) =~= body);
    Some(acc)
}


// ---------------------------------------------------------------------------
// UTF-8 widths and literal lists
// ---------------------------------------------------------------------------

/// Bytes that UTF-8 takes for `c`.
pub open spec fn char_width(c: char) -> nat {
    if (c as u32) < 0x80 {
        1
    } else if (c as u32) < 0x800 {
        2
    } else if (c as u32) < 0x10000 {
        3
    } else {
        4
    }
}

/// Bytes that UTF-8 takes for `s` (what `str::len` counts).
pub open spec fn byte_len(s: Seq<char>) -> nat
    decreases s.len(),
{
    if s.len() == 0 {
        0
    } else {
        byte_len(s.drop_last()) + char_width(s.last())
    }
}

pub proof fn lemma_byte_len_bound(s: Seq<char>)
    ensures
        s.len() <= byte_len(s) <= 4 * s.len(),
    decreases s.len(),
{
    if s.len() > 0 {
        lemma_byte_len_bound(s.drop_last());
    }
}

pub fn width_of(c: char) -> (res: usize)
    ensures
        res == char_width(c),
{
    let u = c as u32;
    if u < 0x80 {
        1
    } else if u < 0x800 {
        2
    } else if u < 0x10000 {
        3
    } else {
        4
    }
}

/// `byte_len(v[0..k])`, for every `k`, as a table of `v.len() + 1` entries.
pub fn byte_offsets(v: &Vec<char>) -> (res: Vec<usize>)
    requires
        4 * v.len() <= usize::MAX,
    ensures
        res.len() == v.len() + 1,
        forall|k: int| 0 <= k <= v.len() ==> res@[k] == byte_len(#[trigger] v@.subrange(0, k)),
{
    let mut out: Vec<usize> = Vec::new();
    out.push(0);
    assert(v@.subrange(0, 0) =~= Seq::<char>::empty());
    let mut acc: usize = 0;
    let mut i: usize = 0;
    while i < v.len()
        invariant
            0 <= i <= v.len(),
            4 * v.len() <= usize::MAX,
            out.len() == i + 1,
            acc == byte_len(v@.subrange(0, i as int)),
            forall|k: int| 0 <= k <= i ==> out@[k] == byte_len(#[trigger] v@.subrange(0, k)),
        decreases v.len() - i,
    {
        proof {
            lemma_byte_len_bound(v@.subrange(0, i as int));
            assert(v@.subrange(0, i + 1).drop_last() =~= v@.subrange(0, i as int));
        }
        acc = acc + width_of(v[i]);
        out.push(acc);
        i += 1;
    }
    out
}

/// Is `s` one of the strings of `list`?
pub open spec fn in_list(s: Seq<char>, list: Seq<&str>) -> bool {
    exists|i: int| 0 <= i < list.len() && list[i]@ == s
}

pub fn one_of(s: &Vec<char>, list: &[&str]) -> (res: bool)
    ensures
        res == in_list(s@, list@),
{
    let mut i: usize = 0;
    while i < list.len()
        invariant
            0 <= i <= list.len(),
            forall|j: int| 0 <= j < i ==> list@[j]@ != s@,
        decreases list.len() - i,
    {
        let item = chars_of(list[i]);
        if seq_eq(&item, s) {
            return true;
        }
        i += 1;
    }
    false
}

/// Is `s` equal to the literal `lit`?
pub fn is_lit(s: &Vec<char>, lit: &str) -> (res: bool)
    ensures
        res == (s@ == lit@),
{
    let l = chars_of(lit);
    seq_eq(s, &l)
}

/// Calls `std::str::from_utf8`: `Ok` exactly for valid UTF-8, with the
/// characters that the bytes encode.
#[verifier::external_body]
pub(crate) fn utf8_text(b: &[u8]) -> (res: Option<String>)
    ensures
        res is Some <==> valid_utf8(b@),
        res matches Some(s) ==> s@ == decode_utf8(b@),
{
    std::str::from_utf8(b).ok().map(|s| s.to_string())
}


/// Index of the first `c` in `s`.
pub open spec fn first_index_of(s: Seq<char>, c: char) -> Option<int>
    decreases s.len(),
{
    if s.len() == 0 {
        None
    } else if s[0] == c {
        Some(0)
    } else {
        match first_index_of(s.drop_first(), c) {
            Some(i) => Some(i + 1),
            None => None,
        }
    }
}

pub proof fn lemma_first_index_of(s: Seq<char>, c: char)
    ensures
        match first_index_of(s, c) {
            Some(i) => 0 <= i < s.len() && s[i] == c && forall|j: int| 0 <= j < i ==> s[j] != c,
            None => forall|j: int| 0 <= j < s.len() ==> s[j] != c,
        },
    decreases s.len(),
{
    if s.len() > 0 && s[0] != c {
        lemma_first_index_of(s.drop_first(), c);
        match first_index_of(s.drop_first(), c) {
            Some(i) => {
                assert forall|j: int| 0 <= j < i + 1 implies s[j] != c by {
                    if j > 0 {
                        assert(s[j] == s.drop_first()[j - 1]);
                    }
                }
            },
            None => {
                assert forall|j: int| 0 <= j < s.len() implies s[j] != c by {
                    if j > 0 {
                        assert(s[j] == s.drop_first()[j - 1]);
                    }
                }
            },
        }
    }
}

/// A first occurrence found by search is the one `first_index_of` names.
pub proof fn lemma_first_index_of_unique(s: Seq<char>, c: char, k: int)
    requires
        0 <= k <= s.len(),
        forall|j: int| 0 <= j < k ==> s[j] != c,
        k < s.len() ==> s[k] == c,
    ensures
        first_index_of(s, c) == (if k < s.len() {
            Some(k)
        } else {
            None::<int>
        }),
    decreases s.len(),
{
    if s.len() > 0 && k > 0 {
        assert forall|j: int| 0 <= j < k - 1 implies s.drop_first()[j] != c by {
            assert(s.drop_first()[j] == s[j + 1]);
        }
        if k < s.len() {
            assert(s.drop_first()[k - 1] == s[k]);
        }
        lemma_first_index_of_unique(s.drop_first(), c, k - 1);
    }
}

/// Index of the first `c` in `v[from..]`, counted from the start of `v`.
pub fn find_char(v: &Vec<char>, from: usize, c: char) -> (res: Option<usize>)
    requires
        from <= v.len(),
    ensures
        match first_index_of(v@.subrange(from as int, v@.len() as int), c) {
            Some(i) => res == Some((from + i) as usize),
            None => res is None,
        },
        match res {
            Some(i) => from <= i < v.len() && v@[i as int] == c,
            None => true,
        },
{
    let ghost sub = v@.subrange(from as int, v@.len() as int);
    let mut i = from;
    while i < v.len()
        invariant
            from <= i <= v.len(),
            sub == v@.subrange(from as int, v@.len() as int),
            forall|j: int| from <= j < i ==> v@[j] != c,
        decreases v.len() - i,
    {
        if v[i] == c {
            proof {
                assert forall|j: int| 0 <= j < i - from implies sub[j] != c by {
                    assert(sub[j] == v@[from + j]);
                }
                lemma_first_index_of_unique(sub, c, i - from);
            }
            return Some(i);
        }
        i += 1;
    }
    proof {
        assert forall|j: int| 0 <= j < sub.len() implies sub[j] != c by {
            assert(sub[j] == v@[from + j]);
        }
        lemma_first_index_of_unique(sub, c, sub.len() as int);
    }
    None
}

/// Appends `v[lo..hi]` to `out`.
pub fn push_range(out: &mut Vec<char>, v: &Vec<char>, lo: usize, hi: usize)
    requires
        lo <= hi <= v.len(),
    ensures
        final(out)@ == old(out)@ + v@.subrange(lo as int, hi as int),
{
    let mut i = lo;
    while i < hi
        invariant
            lo <= i <= hi <= v.len(),
            out@ == old(out)@ + v@.subrange(lo as int, i as int),
        decreases hi - i,
    {
        out.push(v[i]);
        assert(v@.subrange(lo as int, i + 1) =~= v@.subrange(lo as int, i as int).push(v@[i as int]));
        i += 1;
    }
}

/// Appends the characters of `s` to `out`.
pub fn push_str(out: &mut Vec<char>, s: &str)
    ensures
        final(out)@ == old(out)@ + s@,
{
    let c = chars_of(s);
    push_range(out, &c, 0, c.len());
    assert(c@.subrange(0, c@.len() as int) =~= s@);
}


/// `str::strip_prefix`.
pub open spec fn strip_prefix(s: Seq<char>, p: Seq<char>) -> Option<Seq<char>> {
    if starts_with(s, p) {
        Some(s.subrange(p.len() as int, s.len() as int))
    } else {
        None
    }
}

/// `v[lo..hi]` as a new vector.
pub fn sub_vec(v: &Vec<char>, lo: usize, hi: usize) -> (res: Vec<char>)
    requires
        lo <= hi <= v.len(),
    ensures
        res@ == v@.subrange(lo as int, hi as int),
{
    let mut out: Vec<char> = Vec::new();
    push_range(&mut out, v, lo, hi);
    assert(out@ =~= v@.subrange(lo as int, hi as int));
    out
}

/// `str::strip_prefix` on a vector of characters.
pub fn strip_prefix_vec(v: &Vec<char>, p: &str) -> (res: Option<Vec<char>>)
    ensures
        match strip_prefix(v@, p@) {
            Some(r) => res matches Some(x) && x@ == r,
            None => res is None,
        },
{
    let pv = chars_of(p);
    if matches_at(v, 0, &pv) {
        Some(sub_vec(v, pv.len(), v.len()))
    } else {
        None
    }
}

/// `str::trim_start` on a vector of characters.
pub fn trim_start_vec(v: &Vec<char>) -> (res: Vec<char>)
    ensures
        res@ == trim_start(v@),
{
    let s = trim_start_range(v, 0, v.len());
    assert(v@.subrange(0, v@.len() as int) =~= v@);
    sub_vec(v, s, v.len())
}


/// `s < t` in the order of `str`: byte order of UTF-8, which is the order of
/// code points, compared left to right, a proper prefix first.
pub open spec fn lex_lt(s: Seq<char>, t: Seq<char>) -> bool
    decreases s.len(),
{
    if s.len() == 0 {
        t.len() > 0
    } else if t.len() == 0 {
        false
    } else if s[0] != t[0] {
        s[0] < t[0]
    } else {
        lex_lt(s.drop_first(), t.drop_first())
    }
}

pub proof fn lemma_lex_lt_irreflexive(s: Seq<char>)
    ensures
        !lex_lt(s, s),
    decreases s.len(),
{
    if s.len() > 0 {
        lemma_lex_lt_irreflexive(s.drop_first());
    }
}

pub proof fn lemma_lex_lt_transitive(a: Seq<char>, b: Seq<char>, c: Seq<char>)
    requires
        lex_lt(a, b),
        lex_lt(b, c),
    ensures
        lex_lt(a, c),
    decreases a.len(),
{
    if a.len() > 0 && b.len() > 0 && c.len() > 0 && a[0] == b[0] && b[0] == c[0] {
        lemma_lex_lt_transitive(a.drop_first(), b.drop_first(), c.drop_first());
    }
}

pub proof fn lemma_lex_lt_total(a: Seq<char>, b: Seq<char>)
    ensures
        a == b || lex_lt(a, b) || lex_lt(b, a),
    decreases a.len(),
{
    if a.len() > 0 && b.len() > 0 && a[0] == b[0] {
        lemma_lex_lt_total(a.drop_first(), b.drop_first());
        if a.drop_first() == b.drop_first() {
            assert(a =~= seq![a[0]] + a.drop_first());
            assert(b =~= seq![b[0]] + b.drop_first());
        }
    } else if a.len() == 0 && b.len() == 0 {
        assert(a =~= b);
    }
}

/// `str < str` on the characters.
pub fn lt_chars(a: &Vec<char>, b: &Vec<char>) -> (res: bool)
    ensures
        res == lex_lt(a@, b@),
{
    let mut i: usize = 0;
    assert(a@.subrange(0, a@.len() as int) =~= a@);
    assert(b@.subrange(0, b@.len() as int) =~= b@);
    while i < a.len() && i < b.len() && a[i] == b[i]
        invariant
            i <= a.len(),
            i <= b.len(),
            lex_lt(a@, b@) == lex_lt(a@.subrange(i as int, a@.len() as int), b@.subrange(i as int, b@.len() as int)),
        decreases a.len() - i,
    {
        proof {
            let sa = a@.subrange(i as int, a@.len() as int);
            let sb = b@.subrange(i as int, b@.len() as int);
            assert(sa.drop_first() =~= a@.subrange(i + 1, a@.len() as int));
            assert(sb.drop_first() =~= b@.subrange(i + 1, b@.len() as int));
        }
        i += 1;
    }
    proof {
        let sa = a@.subrange(i as int, a@.len() as int);
        let sb = b@.subrange(i as int, b@.len() as int);
        if i < a.len() && i < b.len() {
            assert(sa[0] == a@[i as int] && sb[0] == b@[i as int]);
        }
    }
    if i == a.len() {
        i < b.len()
    } else if i == b.len() {
        false
    } else {
        a[i] < b[i]
    }
}


/// What `str::to_lowercase` gives for the whole string: the Unicode lower-case
/// mapping, where a final sigma depends on the characters round it.
pub uninterp spec fn unicode_lower(s: Seq<char>) -> Seq<char>;

/// Every character of `s` is ASCII.
pub open spec fn all_ascii(s: Seq<char>) -> bool {
    forall|i: int| 0 <= i < s.len() ==> (s[i] as u32) < 128
}

/// `str::to_lowercase`: the ASCII lower case on ASCII text.
pub open spec fn lowercase(s: Seq<char>) -> Seq<char> {
    if all_ascii(s) {
        ascii_lower(s)
    } else {
        unicode_lower(s)
    }
}

/// Calls `str::to_lowercase`. Its result is named `unicode_lower`; the
/// Unicode case mapping is not written out. Claimed besides: ASCII text
/// comes back with `A` to `Z` lowered and the rest as it was.
#[verifier::external_body]
fn to_lowercase_std(s: &str) -> (res: String)
    ensures
        res@ == unicode_lower(s@),
        all_ascii(s@) ==> res@ == ascii_lower(s@),
{
    s.to_lowercase()
}

/// `str::to_lowercase`.
pub fn to_lowercase(s: &str) -> (res: String)
    ensures
        res@ == lowercase(s@),
{
    to_lowercase_std(s)
}

} // verus!
