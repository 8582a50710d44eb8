//! Character-level helpers shared by the parsers and formatters.
//!
//! Text is handled as sequences of `char`; the specifications below are
//! stated over `Seq<char>`, the view of both `str` and `String`.
use vstd::prelude::*;

verus! {

broadcast use vstd::string::group_string_axioms;

// ---------------------------------------------------------------------
// Character classes
// ---------------------------------------------------------------------
/// Unicode `White_Space`, the set that `char::is_whitespace` and
/// `str::trim` use.
pub open spec fn is_ws(c: char) -> bool {
    ||| c == ' '
    ||| ('\t' <= c && c <= '\r')
    ||| c == '\u{85}'
    ||| c == '\u{a0}'
    ||| c == '\u{1680}'
    ||| ('\u{2000}' <= c && c <= '\u{200a}')
    ||| c == '\u{2028}'
    ||| c == '\u{2029}'
    ||| c == '\u{202f}'
    ||| c == '\u{205f}'
    ||| c == '\u{3000}'
}

/// The ASCII whitespace set of `char::is_ascii_whitespace`.
pub open spec fn is_ascii_ws(c: char) -> bool {
    c == ' ' || c == '\t' || c == '\n' || c == '\u{0c}' || c == '\r'
}

pub open spec fn is_digit(c: char) -> bool {
    '0' <= c && c <= '9'
}

pub open spec fn is_upper(c: char) -> bool {
    'A' <= c && c <= 'Z'
}

pub open spec fn is_lower(c: char) -> bool {
    'a' <= c && c <= 'z'
}

pub open spec fn is_alpha(c: char) -> bool {
    is_upper(c) || is_lower(c)
}

pub open spec fn is_alnum(c: char) -> bool {
    is_alpha(c) || is_digit(c)
}

pub open spec fn is_hex(c: char) -> bool {
    is_digit(c) || ('a' <= c && c <= 'f') || ('A' <= c && c <= 'F')
}

/// `char::to_ascii_uppercase`.
pub open spec fn upper(c: char) -> char {
    if is_lower(c) {
        ((c as u32) - 32) as char
    } else {
        c
    }
}

/// `char::to_ascii_lowercase`.
pub open spec fn lower(c: char) -> char {
    if is_upper(c) {
        ((c as u32) + 32) as char
    } else {
        c
    }
}

pub fn is_whitespace(c: char) -> (b: bool)
    ensures
        b == is_ws(c),
{
    c == ' ' || ('\t' <= c && c <= '\r') || c == '\u{85}' || c == '\u{a0}' || c == '\u{1680}' || (
    '\u{2000}' <= c && c <= '\u{200a}') || c == '\u{2028}' || c == '\u{2029}' || c == '\u{202f}'
        || c == '\u{205f}' || c == '\u{3000}'
}

pub fn is_ascii_whitespace(c: char) -> (b: bool)
    ensures
        b == is_ascii_ws(c),
{
    c == ' ' || c == '\t' || c == '\n' || c == '\u{0c}' || c == '\r'
}

pub fn is_ascii_digit(c: char) -> (b: bool)
    ensures
        b == is_digit(c),
{
    '0' <= c && c <= '9'
}

pub fn is_ascii_alphabetic(c: char) -> (b: bool)
    ensures
        b == is_alpha(c),
{
    ('A' <= c && c <= 'Z') || ('a' <= c && c <= 'z')
}

pub fn is_ascii_alphanumeric(c: char) -> (b: bool)
    ensures
        b == is_alnum(c),
{
    ('A' <= c && c <= 'Z') || ('a' <= c && c <= 'z') || ('0' <= c && c <= '9')
}

pub fn is_ascii_hexdigit(c: char) -> (b: bool)
    ensures
        b == is_hex(c),
{
    ('0' <= c && c <= '9') || ('a' <= c && c <= 'f') || ('A' <= c && c <= 'F')
}

pub fn to_ascii_upper(c: char) -> (r: char)
    ensures
        r == upper(c),
{
    if 'a' <= c && c <= 'z' {
        let code = (c as u32) - 32;
        let r = char_from_ascii(code);
        r
    } else {
        c
    }
}

pub fn to_ascii_lower(c: char) -> (r: char)
    ensures
        r == lower(c),
{
    if 'A' <= c && c <= 'Z' {
        let code = (c as u32) + 32;
        char_from_ascii(code)
    } else {
        c
    }
}

/// The ASCII-lowercased text.
pub open spec fn lower_seq(s: Seq<char>) -> Seq<char> {
    Seq::new(s.len(), |i: int| lower(s[i]))
}

/// ASCII-lowercases every character.
pub fn lower_chars(v: &Vec<char>) -> (r: Vec<char>)
    ensures
        r@ == lower_seq(v@),
{
    let mut r: Vec<char> = Vec::new();
    let mut i: usize = 0;
    while i < v.len()
        invariant
            i <= v.len(),
            r@ == lower_seq(v@.take(i as int)),
        decreases v.len() - i,
    {
        r.push(to_ascii_lower(v[i]));
        i += 1;
        assert(r@ =~= lower_seq(v@.take(i as int)));
    }
    assert(v@.take(i as int) =~= v@);
    r
}

/// The character with ASCII code `code`.
pub fn char_from_ascii(code: u32) -> (c: char)
    requires
        code < 128,
    ensures
        c == code as char,
        c as u32 == code,
{
    let b = code as u8;
    b as char
}

// ---------------------------------------------------------------------
// Strings and character vectors
// ---------------------------------------------------------------------
/// Collects the characters of `s` in order.
pub fn chars_of(s: &str) -> (v: Vec<char>)
    ensures
        v@ == s@,
{
    let mut v: Vec<char> = Vec::new();
    for c in it: s.chars()
        invariant
            it.seq() == s@,
            v@ == it.seq().take(it.index() as int),
    {
        v.push(c);
    }
    v
}

/// Builds a `String` from characters (`String::from_iter`).
#[verifier::external_body]
pub(crate) fn string_of(v: &Vec<char>) -> (s: String)
    ensures
        s@ == v@,
{
    String::from_iter(v)
}

/// Appends the characters of `s`.
pub fn push_str(out: &mut Vec<char>, s: &str)
    ensures
        final(out)@ == old(out)@ + s@,
{
    let v = chars_of(s);
    push_all(out, &v);
}

/// Appends `v`.
pub fn push_all(out: &mut Vec<char>, v: &Vec<char>)
    ensures
        final(out)@ == old(out)@ + v@,
{
    let ghost start = out@;
    let mut i: usize = 0;
    while i < v.len()
        invariant
            i <= v.len(),
            out@ == start + v@.take(i as int),
        decreases v.len() - i,
    {
        out.push(v[i]);
        i += 1;
        assert(out@ =~= start + v@.take(i as int));
    }
    assert(v@.take(i as int) =~= v@);
}

/// The characters `v[from..to]`.
pub fn slice(v: &Vec<char>, from: usize, to: usize) -> (r: Vec<char>)
    requires
        from <= to <= v.len(),
    ensures
        r@ == v@.subrange(from as int, to as int),
{
    let mut r: Vec<char> = Vec::new();
    let mut i = from;
    while i < to
        invariant
            from <= i <= to <= v.len(),
            r@ == v@.subrange(from as int, i as int),
        decreases to - i,
    {
        r.push(v[i]);
        i += 1;
        assert(r@ =~= v@.subrange(from as int, i as int));
    }
    r
}

/// Character-wise equality.
pub fn chars_eq(a: &Vec<char>, b: &Vec<char>) -> (r: bool)
    ensures
        r == (a@ == b@),
{
    if a.len() != b.len() {
        return false;
    }
    let mut i: usize = 0;
    while i < a.len()
        invariant
            a.len() == b.len(),
            i <= a.len(),
            forall|k: int| 0 <= k < i ==> a@[k] == b@[k],
        decreases a.len() - i,
    {
        if a[i] != b[i] {
            return false;
        }
        i += 1;
    }
    assert(a@ =~= b@);
    true
}

/// Whether `v` equals the text of `s`.
pub fn eq_str(v: &Vec<char>, s: &str) -> (r: bool)
    ensures
        r == (v@ == s@),
{
    let w = chars_of(s);
    chars_eq(v, &w)
}

// ---------------------------------------------------------------------
// Prefixes, suffixes, search
// ---------------------------------------------------------------------
pub open spec fn matches_at(s: Seq<char>, p: Seq<char>, i: int) -> bool {
    0 <= i && i + p.len() <= s.len() && s.subrange(i, i + p.len()) == p
}

pub open spec fn has_prefix(s: Seq<char>, p: Seq<char>) -> bool {
    matches_at(s, p, 0)
}

pub open spec fn has_suffix(s: Seq<char>, p: Seq<char>) -> bool {
    matches_at(s, p, s.len() - p.len())
}

pub open spec fn contains_seq(s: Seq<char>, p: Seq<char>) -> bool {
    exists|i: int| matches_at(s, p, i)
}

/// The first position at or after `from` where `p` occurs in `s`.
pub open spec fn find_from(s: Seq<char>, p: Seq<char>, from: int) -> Option<int>
    decreases s.len() + 1 - from,
{
    if from < 0 || from + p.len() > s.len() {
        None
    } else if matches_at(s, p, from) {
        Some(from)
    } else {
        find_from(s, p, from + 1)
    }
}

pub proof fn lemma_find_from(s: Seq<char>, p: Seq<char>, from: int)
    requires
        0 <= from,
    ensures
        find_from(s, p, from) matches Some(i) ==> from <= i && matches_at(s, p, i) && forall|
            j: int,
        | from <= j < i ==> !matches_at(s, p, j),
        find_from(s, p, from) is None ==> forall|j: int| from <= j ==> !matches_at(s, p, j),
    decreases s.len() + 1 - from,
{
    if from + p.len() > s.len() {
    } else if matches_at(s, p, from) {
    } else {
        lemma_find_from(s, p, from + 1);
    }
}

pub proof fn lemma_find_from_is(s: Seq<char>, p: Seq<char>, from: int, i: int)
    requires
        0 <= from <= i,
        matches_at(s, p, i),
        forall|j: int| from <= j < i ==> !matches_at(s, p, j),
    ensures
        find_from(s, p, from) == Some(i),
    decreases i - from,
{
    if from < i {
        lemma_find_from_is(s, p, from + 1, i);
    }
}

pub proof fn lemma_find_from_none(s: Seq<char>, p: Seq<char>, from: int)
    requires
        0 <= from,
        forall|j: int| from <= j ==> !matches_at(s, p, j),
    ensures
        find_from(s, p, from) is None,
    decreases s.len() + 1 - from,
{
    if from + p.len() <= s.len() {
        lemma_find_from_none(s, p, from + 1);
    }
}

/// Whether `p` occurs in `v` starting at `i`.
pub fn matches_at_exec(v: &Vec<char>, p: &Vec<char>, i: usize) -> (r: bool)
    ensures
        r == matches_at(v@, p@, i as int),
{
    if i > v.len() || p.len() > v.len() - i {
        return false;
    }
    let mut k: usize = 0;
    while k < p.len()
        invariant
            i + p.len() <= v.len(),
            k <= p.len(),
            forall|m: int| 0 <= m < k ==> v@[i + m] == p@[m],
        decreases p.len() - k,
    {
        if v[i + k] != p[k] {
            assert(v@.subrange(i as int, i + p.len())[k as int] != p@[k as int]);
            return false;
        }
        k += 1;
    }
    assert(v@.subrange(i as int, i + p.len()) =~= p@);
    true
}

/// The first position at or after `from` where `p` occurs in `v`.
pub fn find_from_exec(v: &Vec<char>, p: &Vec<char>, from: usize) -> (r: Option<usize>)
    ensures
        r == (match find_from(v@, p@, from as int) {
            Some(i) => Some(i as usize),
            None => None,
        }),
        r matches Some(i) ==> from <= i && i + p.len() <= v.len() && find_from(v@, p@, from as int)
            == Some(i as int),
        r is None ==> find_from(v@, p@, from as int) is None,
{
    proof {
        lemma_find_from(v@, p@, from as int);
    }
    if from > v.len() || p.len() > v.len() - from {
        return None;
    }
    let last = v.len() - p.len();
    let mut i = from;
    loop
        invariant
            from <= i <= last,
            last == v.len() - p.len(),
            forall|j: int| from <= j < i ==> !matches_at(v@, p@, j),
        ensures
            forall|j: int| from <= j ==> !matches_at(v@, p@, j),
        decreases last - i,
    {
        if matches_at_exec(v, p, i) {
            proof {
                lemma_find_from_is(v@, p@, from as int, i as int);
            }
            return Some(i);
        }
        if i == last {
            break;
        }
        i += 1;
    }
    proof {
        lemma_find_from_none(v@, p@, from as int);
    }
    None
}

pub fn starts_with(v: &Vec<char>, p: &str) -> (r: bool)
    ensures
        r == has_prefix(v@, p@),
{
    let pv = chars_of(p);
    matches_at_exec(v, &pv, 0)
}

pub fn ends_with(v: &Vec<char>, p: &str) -> (r: bool)
    ensures
        r == has_suffix(v@, p@),
{
    let pv = chars_of(p);
    if pv.len() > v.len() {
        return false;
    }
    matches_at_exec(v, &pv, v.len() - pv.len())
}

pub fn contains(v: &Vec<char>, p: &Vec<char>) -> (r: bool)
    ensures
        r == contains_seq(v@, p@),
{
    proof {
        lemma_find_from(v@, p@, 0);
    }
    match find_from_exec(v, p, 0) {
        Some(_) => true,
        None => false,
    }
}

pub fn contains_str(v: &Vec<char>, p: &str) -> (r: bool)
    ensures
        r == contains_seq(v@, p@),
{
    let pv = chars_of(p);
    contains(v, &pv)
}

/// Whether `c` occurs in `v`.
pub fn contains_char(v: &Vec<char>, c: char) -> (r: bool)
    ensures
        r == v@.contains(c),
{
    let mut i: usize = 0;
    while i < v.len()
        invariant
            i <= v.len(),
            forall|k: int| 0 <= k < i ==> v@[k] != c,
        decreases v.len() - i,
    {
        if v[i] == c {
            return true;
        }
        i += 1;
    }
    false
}

// ---------------------------------------------------------------------
// Trimming
// ---------------------------------------------------------------------
/// Number of leading characters satisfying `pred`.
pub open spec fn lead_len(s: Seq<char>, pred: spec_fn(char) -> bool) -> nat
    decreases s.len(),
{
    if s.len() > 0 && pred(s[0]) {
        1 + lead_len(s.drop_first(), pred)
    } else {
        0
    }
}

/// Number of trailing characters satisfying `pred`.
pub open spec fn trail_len(s: Seq<char>, pred: spec_fn(char) -> bool) -> nat
    decreases s.len(),
{
    if s.len() > 0 && pred(s.last()) {
        1 + trail_len(s.drop_last(), pred)
    } else {
        0
    }
}

pub open spec fn trim_start_by(s: Seq<char>, pred: spec_fn(char) -> bool) -> Seq<char> {
    s.skip(lead_len(s, pred) as int)
}

pub open spec fn trim_end_by(s: Seq<char>, pred: spec_fn(char) -> bool) -> Seq<char> {
    s.take(s.len() - trail_len(s, pred))
}

pub open spec fn ws_pred() -> spec_fn(char) -> bool {
    |c: char| is_ws(c)
}

/// `str::trim`.
pub open spec fn trim(s: Seq<char>) -> Seq<char> {
    trim_end_by(trim_start_by(s, ws_pred()), ws_pred())
}

pub proof fn lemma_lead_len(s: Seq<char>, pred: spec_fn(char) -> bool, i: int)
    requires
        0 <= i <= s.len(),
        forall|k: int| 0 <= k < i ==> pred(s[k]),
        i == s.len() || !pred(s[i]),
    ensures
        lead_len(s, pred) == i,
    decreases i,
{
    if i > 0 {
        lemma_lead_len(s.drop_first(), pred, i - 1);
    }
}

pub proof fn lemma_trail_len(s: Seq<char>, pred: spec_fn(char) -> bool, i: int)
    requires
        0 <= i <= s.len(),
        forall|k: int| s.len() - i <= k < s.len() ==> pred(s[k]),
        i == s.len() || !pred(s[s.len() - 1 - i]),
    ensures
        trail_len(s, pred) == i,
    decreases i,
{
    if i > 0 {
        lemma_trail_len(s.drop_last(), pred, i - 1);
    }
}

pub proof fn lemma_lead_len_bound(s: Seq<char>, pred: spec_fn(char) -> bool)
    ensures
        lead_len(s, pred) <= s.len(),
        forall|k: int| 0 <= k < lead_len(s, pred) ==> pred(s[k]),
        lead_len(s, pred) < s.len() ==> !pred(s[lead_len(s, pred) as int]),
    decreases s.len(),
{
    if s.len() > 0 && pred(s[0]) {
        lemma_lead_len_bound(s.drop_first(), pred);
        assert forall|k: int| 0 <= k < lead_len(s, pred) implies pred(s[k]) by {
            if k > 0 {
                assert(s[k] == s.drop_first()[k - 1]);
            }
        }
    }
}

pub proof fn lemma_trail_len_bound(s: Seq<char>, pred: spec_fn(char) -> bool)
    ensures
        trail_len(s, pred) <= s.len(),
        forall|k: int| s.len() - trail_len(s, pred) <= k < s.len() ==> pred(s[k]),
        trail_len(s, pred) < s.len() ==> !pred(s[s.len() - 1 - trail_len(s, pred)]),
    decreases s.len(),
{
    if s.len() > 0 && pred(s.last()) {
        lemma_trail_len_bound(s.drop_last(), pred);
        assert forall|k: int| s.len() - trail_len(s, pred) <= k < s.len() implies pred(s[k]) by {
            if k < s.len() - 1 {
                assert(s[k] == s.drop_last()[k]);
            }
        }
    }
}

/// Start index of `trim_start_by` for whitespace.
pub fn lead_ws_len(v: &Vec<char>) -> (n: usize)
    ensures
        n == lead_len(v@, ws_pred()),
        n <= v.len(),
{
    let mut i: usize = 0;
    while i < v.len() && is_whitespace(v[i])
        invariant
            i <= v.len(),
            forall|k: int| 0 <= k < i ==> is_ws(v@[k]),
        decreases v.len() - i,
    {
        i += 1;
    }
    proof {
        lemma_lead_len(v@, ws_pred(), i as int);
    }
    i
}

/// Number of trailing whitespace characters.
pub fn trail_ws_len(v: &Vec<char>) -> (n: usize)
    ensures
        n == trail_len(v@, ws_pred()),
        n <= v.len(),
{
    let mut i: usize = 0;
    while i < v.len() && is_whitespace(v[v.len() - 1 - i])
        invariant
            i <= v.len(),
            forall|k: int| v.len() - i <= k < v.len() ==> is_ws(v@[k]),
        decreases v.len() - i,
    {
        i += 1;
    }
    proof {
        lemma_trail_len(v@, ws_pred(), i as int);
    }
    i
}

/// `str::trim` on characters.
pub fn trim_chars(v: &Vec<char>) -> (r: Vec<char>)
    ensures
        r@ == trim(v@),
{
    let lo = lead_ws_len(v);
    let tail = slice(v, lo, v.len());
    let n = trail_ws_len(&tail);
    slice(&tail, 0, tail.len() - n)
}

/// `str::trim` on a string slice.
pub fn trim_str(s: &str) -> (r: Vec<char>)
    ensures
        r@ == trim(s@),
{
    let v = chars_of(s);
    trim_chars(&v)
}

// ---------------------------------------------------------------------
// Decimal numbers
// ---------------------------------------------------------------------
pub open spec fn digit_char(d: nat) -> char {
    ((d % 10) + 48) as char
}

/// Decimal rendering without leading zeros, as `Display` writes integers.
pub open spec fn decimal(n: nat) -> Seq<char>
    decreases n,
{
    if n < 10 {
        seq![digit_char(n)]
    } else {
        decimal(n / 10).push(digit_char(n % 10))
    }
}

/// Decimal rendering padded with zeros to at least `width` digits.
pub open spec fn decimal_padded(n: nat, width: nat) -> Seq<char> {
    let d = decimal(n);
    if d.len() >= width {
        d
    } else {
        Seq::new((width - d.len()) as nat, |i: int| '0') + d
    }
}

pub fn digit_to_char(d: u128) -> (c: char)
    requires
        d < 10,
    ensures
        c == digit_char(d as nat),
{
    char_from_ascii((d as u32) + 48)
}

/// Decimal digits of `n`.
pub fn decimal_chars(n: u128) -> (r: Vec<char>)
    ensures
        r@ == decimal(n as nat),
        r.len() >= 1,
    decreases n,
{
    if n < 10 {
        let mut r = Vec::new();
        r.push(digit_to_char(n));
        r
    } else {
        let mut r = decimal_chars(n / 10);
        r.push(digit_to_char(n % 10));
        r
    }
}

/// Appends the decimal digits of `n`.
pub fn push_decimal(out: &mut Vec<char>, n: u128)
    ensures
        final(out)@ == old(out)@ + decimal(n as nat),
{
    let d = decimal_chars(n);
    push_all(out, &d);
}

/// Appends `n` zero-padded to `width` digits.
pub fn push_decimal_padded(out: &mut Vec<char>, n: u128, width: usize)
    ensures
        final(out)@ == old(out)@ + decimal_padded(n as nat, width as nat),
{
    let d = decimal_chars(n);
    let ghost start = out@;
    if d.len() < width {
        let mut i: usize = 0;
        while i < width - d.len()
            invariant
                d.len() < width,
                i <= width - d.len(),
                out@ == start + Seq::new(i as nat, |k: int| '0'),
            decreases width - d.len() - i,
        {
            out.push('0');
            i += 1;
            assert(out@ =~= start + Seq::new(i as nat, |k: int| '0'));
        }
    }
    let ghost mid = out@;
    push_all(out, &d);
    assert(out@ =~= start + decimal_padded(n as nat, width as nat));
}

/// Decimal text of a `usize`.
pub fn usize_text(n: usize) -> (r: Vec<char>)
    ensures
        r@ == decimal(n as nat),
{
    decimal_chars(n as u128)
}

// ---------------------------------------------------------------------
// Unsigned integer parsing
// ---------------------------------------------------------------------
pub open spec fn digit_value(c: char) -> nat {
    (c as u32 - 48) as nat
}

/// Value of a sequence of decimal digits.
pub open spec fn digits_value(s: Seq<char>) -> nat
    decreases s.len(),
{
    if s.len() == 0 {
        0
    } else {
        digits_value(s.drop_last()) * 10 + digit_value(s.last())
    }
}

pub open spec fn all_digits(s: Seq<char>) -> bool {
    forall|i: int| 0 <= i < s.len() ==> is_digit(s[i])
}

/// `str::parse::<usize>`: an optional `+`, then one or more decimal digits
/// whose value fits in `usize`.
pub open spec fn parse_usize(s: Seq<char>) -> Option<usize> {
    let d = if s.len() > 0 && s[0] == '+' {
        s.drop_first()
    } else {
        s
    };
    if d.len() > 0 && all_digits(d) && digits_value(d) <= usize::MAX {
        Some(digits_value(d) as usize)
    } else {
        None
    }
}

pub proof fn lemma_digits_value_monotone(s: Seq<char>, i: int)
    requires
        0 <= i <= s.len(),
        all_digits(s),
    ensures
        digits_value(s.take(i)) <= digits_value(s),
    decreases s.len() - i,
{
    if i < s.len() {
        lemma_digits_value_monotone(s, i + 1);
        assert(s.take(i + 1).drop_last() =~= s.take(i));
    } else {
        assert(s.take(i) =~= s);
    }
}

/// Parses a decimal `usize` as `str::parse` does.
pub fn parse_usize_chars(s: &Vec<char>) -> (r: Option<usize>)
    ensures
        r == parse_usize(s@),
{
    let start: usize = if s.len() > 0 && s[0] == '+' {
        1
    } else {
        0
    };
    let ghost d = if s@.len() > 0 && s@[0] == '+' {
        s@.drop_first()
    } else {
        s@
    };
    assert(d =~= s@.skip(start as int));
    if start >= s.len() {
        return None;
    }
    let mut value: usize = 0;
    let mut i = start;
    while i < s.len()
        invariant
            start <= i <= s.len(),
            d == s@.skip(start as int),
            d == (if s@.len() > 0 && s@[0] == '+' {
                s@.drop_first()
            } else {
                s@
            }),
            all_digits(d.take(i - start)),
            value as nat == digits_value(d.take(i - start)),
        decreases s.len() - i,
    {
        let c = s[i];
        if !is_ascii_digit(c) {
            assert(d[i - start] == c);
            assert(!all_digits(d));
            return None;
        }
        assert(d.take(i + 1 - start).drop_last() =~= d.take(i - start));
        assert(d.take(i + 1 - start).last() == c);
        let dv = (c as u32 - 48) as usize;
        if value > (usize::MAX - dv) / 10 {
            proof {
                assert(all_digits(d.take(i + 1 - start)));
                if all_digits(d) {
                    lemma_digits_value_monotone(d, i + 1 - start);
                }
                assert(value * 10 + dv > usize::MAX) by (nonlinear_arith)
                    requires
                        value > (usize::MAX - dv) / 10,
                        dv <= 9,
                ;
            }
            return None;
        }
        proof {
            assert(value * 10 + dv <= usize::MAX) by (nonlinear_arith)
                requires
                    value <= (usize::MAX - dv) / 10,
                    dv <= 9,
            ;
        }
        value = value * 10 + dv;
        i += 1;
        assert(all_digits(d.take(i - start)));
    }
    assert(d.take(i - start) =~= d);
    Some(value)
}



// ---------------------------------------------------------------------
// Runs of characters of one class
// ---------------------------------------------------------------------
pub open spec fn digit_pred() -> spec_fn(char) -> bool {
    |c: char| is_digit(c)
}

pub open spec fn ascii_ws_pred() -> spec_fn(char) -> bool {
    |c: char| is_ascii_ws(c)
}

pub open spec fn alnum_pred() -> spec_fn(char) -> bool {
    |c: char| is_alnum(c)
}

pub open spec fn not_newline_pred() -> spec_fn(char) -> bool {
    |c: char| c != '\n'
}

/// `lead_len` of the suffix from `start`, given the first position at or
/// after `start` where `pred` fails.
pub proof fn lemma_lead_len_from(s: Seq<char>, pred: spec_fn(char) -> bool, start: int, i: int)
    requires
        0 <= start <= i <= s.len(),
        forall|k: int| start <= k < i ==> pred(s[k]),
        i == s.len() || !pred(s[i]),
    ensures
        lead_len(s.skip(start), pred) == i - start,
{
    let t = s.skip(start);
    assert forall|k: int| 0 <= k < i - start implies pred(t[k]) by {
        assert(t[k] == s[start + k]);
    }
    if i < s.len() {
        assert(t[i - start] == s[i]);
    }
    lemma_lead_len(t, pred, i - start);
}

/// Number of ASCII digits starting at `start`.
pub fn count_digits_from(v: &Vec<char>, start: usize) -> (n: usize)
    requires
        start <= v.len(),
    ensures
        n == lead_len(v@.skip(start as int), digit_pred()),
        start + n <= v.len(),
{
    let mut i = start;
    while i < v.len() && is_ascii_digit(v[i])
        invariant
            start <= i <= v.len(),
            forall|k: int| start <= k < i ==> is_digit(v@[k]),
        decreases v.len() - i,
    {
        i += 1;
    }
    proof {
        lemma_lead_len_from(v@, digit_pred(), start as int, i as int);
    }
    i - start
}

/// Number of ASCII whitespace characters starting at `start`.
pub fn count_ascii_ws_from(v: &Vec<char>, start: usize) -> (n: usize)
    requires
        start <= v.len(),
    ensures
        n == lead_len(v@.skip(start as int), ascii_ws_pred()),
        start + n <= v.len(),
{
    let mut i = start;
    while i < v.len() && is_ascii_whitespace(v[i])
        invariant
            start <= i <= v.len(),
            forall|k: int| start <= k < i ==> is_ascii_ws(v@[k]),
        decreases v.len() - i,
    {
        i += 1;
    }
    proof {
        lemma_lead_len_from(v@, ascii_ws_pred(), start as int, i as int);
    }
    i - start
}

/// Number of ASCII alphanumeric characters starting at `start`.
pub fn count_alnum_from(v: &Vec<char>, start: usize) -> (n: usize)
    requires
        start <= v.len(),
    ensures
        n == lead_len(v@.skip(start as int), alnum_pred()),
        start + n <= v.len(),
{
    let mut i = start;
    while i < v.len() && is_ascii_alphanumeric(v[i])
        invariant
            start <= i <= v.len(),
            forall|k: int| start <= k < i ==> is_alnum(v@[k]),
        decreases v.len() - i,
    {
        i += 1;
    }
    proof {
        lemma_lead_len_from(v@, alnum_pred(), start as int, i as int);
    }
    i - start
}

/// Length of the first line of `s`, its line feed included
/// (`str::split_inclusive('\n')`).
pub open spec fn first_line_len(s: Seq<char>) -> nat {
    let k = lead_len(s, not_newline_pred());
    if k < s.len() {
        k + 1
    } else {
        k
    }
}

/// End (exclusive) of the line that starts at `start`.
pub fn line_end_from(v: &Vec<char>, start: usize) -> (e: usize)
    requires
        start < v.len(),
    ensures
        e == start + first_line_len(v@.skip(start as int)),
        start < e <= v.len(),
{
    let mut i = start;
    while i < v.len() && v[i] != '\n'
        invariant
            start <= i <= v.len(),
            forall|k: int| start <= k < i ==> v@[k] != '\n',
        decreases v.len() - i,
    {
        i += 1;
    }
    proof {
        lemma_lead_len_from(v@, not_newline_pred(), start as int, i as int);
    }
    if i < v.len() {
        i + 1
    } else {
        i
    }
}

/// Applies `f` to every line of `s` (each with its line feed) and joins the
/// results.
pub open spec fn map_lines(s: Seq<char>, f: spec_fn(Seq<char>) -> Seq<char>) -> Seq<char>
    decreases s.len(),
{
    if s.len() == 0 {
        s
    } else {
        let k = first_line_len(s);
        if 0 < k <= s.len() {
            f(s.take(k as int)) + map_lines(s.skip(k as int), f)
        } else {
            s
        }
    }
}

// ---------------------------------------------------------------------
// Response lines
// ---------------------------------------------------------------------
/// Views of a vector of character vectors.
pub open spec fn seqs_view(v: Seq<Vec<char>>) -> Seq<Seq<char>> {
    v.map_values(|x: Vec<char>| x@)
}

/// Views of a vector of strings.
pub open spec fn strings_view(v: Seq<String>) -> Seq<Seq<char>> {
    v.map_values(|x: String| x@)
}

pub open spec fn is_line_break(c: char) -> bool {
    c == '\r' || c == '\n'
}

/// Adds the trimmed `piece` when it is not empty.
pub open spec fn push_trimmed(acc: Seq<Seq<char>>, piece: Seq<char>) -> Seq<Seq<char>> {
    if trim(piece).len() > 0 {
        acc.push(trim(piece))
    } else {
        acc
    }
}

/// Completed lines and the pending piece after reading `s`.
pub open spec fn lines_state(s: Seq<char>) -> (Seq<Seq<char>>, Seq<char>)
    decreases s.len(),
{
    if s.len() == 0 {
        (Seq::empty(), Seq::empty())
    } else {
        let prev = lines_state(s.drop_last());
        if is_line_break(s.last()) {
            (push_trimmed(prev.0, prev.1), Seq::empty())
        } else {
            (prev.0, prev.1.push(s.last()))
        }
    }
}

/// The text split at every CR and LF, each piece trimmed, empty pieces
/// dropped.
pub open spec fn text_lines(s: Seq<char>) -> Seq<Seq<char>> {
    push_trimmed(lines_state(s).0, lines_state(s).1)
}

/// Pushes `trim(piece)` when it is not empty.
pub fn push_trimmed_exec(acc: &mut Vec<Vec<char>>, piece: &Vec<char>)
    ensures
        seqs_view(final(acc)@) == push_trimmed(seqs_view(old(acc)@), piece@),
{
    let t = trim_chars(piece);
    if t.len() > 0 {
        let ghost before = acc@;
        acc.push(t);
        assert(seqs_view(acc@) =~= seqs_view(before).push(trim(piece@)));
    }
}

/// Splits text into trimmed, non-empty lines.
pub fn text_lines_exec(v: &Vec<char>) -> (r: Vec<Vec<char>>)
    ensures
        seqs_view(r@) == text_lines(v@),
{
    let mut acc: Vec<Vec<char>> = Vec::new();
    let mut cur: Vec<char> = Vec::new();
    let mut i: usize = 0;
    assert(seqs_view(acc@) =~= Seq::<Seq<char>>::empty());
    assert(v@.take(0) =~= Seq::<char>::empty());
    while i < v.len()
        invariant
            i <= v.len(),
            lines_state(v@.take(i as int)) == (seqs_view(acc@), cur@),
        decreases v.len() - i,
    {
        let c = v[i];
        assert(v@.take(i + 1).drop_last() =~= v@.take(i as int));
        assert(v@.take(i + 1).last() == c);
        if c == '\r' || c == '\n' {
            push_trimmed_exec(&mut acc, &cur);
            cur = Vec::new();
            assert(cur@ =~= Seq::<char>::empty());
        } else {
            cur.push(c);
        }
        i += 1;
    }
    assert(v@.take(i as int) =~= v@);
    push_trimmed_exec(&mut acc, &cur);
    acc
}

/// Converts character vectors to strings.
pub fn strings_of(v: &Vec<Vec<char>>) -> (r: Vec<String>)
    ensures
        strings_view(r@) == seqs_view(v@),
{
    let mut r: Vec<String> = Vec::new();
    let mut i: usize = 0;
    while i < v.len()
        invariant
            i <= v.len(),
            r.len() == i,
            strings_view(r@) == seqs_view(v@.take(i as int)),
        decreases v.len() - i,
    {
        let s = string_of(&v[i]);
        let ghost old_r = r@;
        r.push(s);
        proof {
            assert(r@ == old_r.push(s));
            assert(old_r.len() == i);
            assert(strings_view(r@)[i as int] == s@);
            assert(seqs_view(v@.take(i + 1))[i as int] == v@[i as int]@);
            assert forall|k: int| 0 <= k < i + 1 implies strings_view(r@)[k] == seqs_view(
                v@.take(i + 1),
            )[k] by {
                if k < i {
                    assert(strings_view(old_r)[k] == seqs_view(v@.take(i as int))[k]);
                }
            }
        }
        i += 1;
        assert(strings_view(r@) =~= seqs_view(v@.take(i as int)));
    }
    assert(v@.take(i as int) =~= v@);
    r
}


/// A copy of a vector of strings that equals it.
pub fn clone_strings(v: &Vec<String>) -> (r: Vec<String>)
    ensures
        r@ == v@,
{
    let mut r: Vec<String> = Vec::new();
    let mut i: usize = 0;
    while i < v.len()
        invariant
            i <= v.len(),
            r@ == v@.take(i as int),
        decreases v.len() - i,
    {
        r.push(v[i].clone());
        i += 1;
        assert(r@ =~= v@.take(i as int));
    }
    assert(v@.take(i as int) =~= v@);
    r
}


/// The parts joined with `sep` between neighbours.
pub open spec fn join_seqs(parts: Seq<Seq<char>>, sep: Seq<char>) -> Seq<char>
    decreases parts.len(),
{
    if parts.len() == 0 {
        Seq::empty()
    } else if parts.len() == 1 {
        parts[0]
    } else {
        join_seqs(parts.drop_last(), sep) + sep + parts.last()
    }
}

/// `parts.join(sep)`.
pub fn join_chars(parts: &Vec<Vec<char>>, sep: &str) -> (r: Vec<char>)
    ensures
        r@ == join_seqs(seqs_view(parts@), sep@),
{
    let mut out: Vec<char> = Vec::new();
    let mut i: usize = 0;
    let ghost all = seqs_view(parts@);
    assert(all.take(0) =~= Seq::<Seq<char>>::empty());
    while i < parts.len()
        invariant
            i <= parts.len(),
            all == seqs_view(parts@),
            out@ == join_seqs(all.take(i as int), sep@),
        decreases parts.len() - i,
    {
        if i > 0 {
            push_str(&mut out, sep);
        }
        push_all(&mut out, &parts[i]);
        proof {
            let t = all.take(i + 1);
            assert(t.drop_last() =~= all.take(i as int));
            assert(t.last() == parts@[i as int]@);
            if i == 0 {
                assert(out@ =~= join_seqs(t, sep@));
            }
        }
        i += 1;
    }
    assert(all.take(i as int) =~= all);
    out
}

/// Pushes the characters of `s` as a new part.
pub fn push_part(parts: &mut Vec<Vec<char>>, s: Vec<char>)
    ensures
        seqs_view(final(parts)@) == seqs_view(old(parts)@).push(s@),
{
    let ghost before = parts@;
    parts.push(s);
    assert(seqs_view(parts@) =~= seqs_view(before).push(s@));
}

} // verus!
