//! Command-line normalization and terminators.
use vstd::prelude::*;

use crate::text::{
    chars_of, is_ws, lead_len, lemma_lead_len, lemma_lead_len_bound, lemma_trail_len,
    lemma_trail_len_bound, lower, slice, string_of, to_ascii_upper, trail_len, trim, trim_chars,
    trim_end_by, trim_start_by, upper, ws_pred,
};

verus! {

broadcast use vstd::string::group_string_axioms;

pub open spec fn is_crlf(c: char) -> bool {
    c == '\r' || c == '\n'
}

pub open spec fn crlf_pred() -> spec_fn(char) -> bool {
    |c: char| is_crlf(c)
}

/// The ASCII-uppercased text.
pub open spec fn upper_seq(s: Seq<char>) -> Seq<char> {
    Seq::new(s.len(), |i: int| upper(s[i]))
}

/// The normalized form used for classification: trimmed, without trailing
/// CR/LF, trimmed again, and ASCII-uppercased.
pub open spec fn normalized(s: Seq<char>) -> Seq<char> {
    upper_seq(trim(trim_end_by(trim(s), crlf_pred())))
}

/// The ASCII-lowercased text.
pub open spec fn lower_seq(s: Seq<char>) -> Seq<char> {
    Seq::new(s.len(), |i: int| lower(s[i]))
}

/// Changing ASCII case keeps whether a character is whitespace.
proof fn lemma_case_keeps_ws(c: char)
    ensures
        is_ws(upper(c)) == is_ws(c),
        is_ws(lower(c)) == is_ws(c),
        upper(upper(c)) == upper(c),
        upper(lower(c)) == upper(c),
{
}

/// Trimming commutes with a case change applied to every character.
proof fn lemma_trim_map(s: Seq<char>, m: Seq<char>)
    requires
        m.len() == s.len(),
        forall|i: int| 0 <= i < s.len() ==> is_ws(#[trigger] m[i]) == is_ws(s[i]),
    ensures
        trim(m).len() == trim(s).len(),
        forall|i: int|
            0 <= i < trim(s).len() ==> #[trigger] trim(m)[i] == m[i + lead_len(s, ws_pred()) as int],
        lead_len(s, ws_pred()) + trim(s).len() <= s.len(),
        forall|i: int|
            0 <= i < trim(s).len() ==> #[trigger] trim(s)[i] == s[i + lead_len(s, ws_pred()) as int],
{
    let w = ws_pred();
    lemma_lead_len_bound(s, w);
    let a = lead_len(s, w) as int;
    lemma_lead_len(m, w, a);
    let ss = trim_start_by(s, w);
    let ms = trim_start_by(m, w);
    assert(ss =~= s.skip(a));
    assert(ms =~= m.skip(a));
    lemma_trail_len_bound(ss, w);
    let z = trail_len(ss, w) as int;
    assert forall|k: int| ms.len() - z <= k < ms.len() implies w(ms[k]) by {
        assert(ms[k] == m[a + k]);
        assert(ss[k] == s[a + k]);
    }
    if z < ms.len() {
        assert(ms[ms.len() - 1 - z] == m[a + ss.len() - 1 - z]);
        assert(ss[ss.len() - 1 - z] == s[a + ss.len() - 1 - z]);
    }
    lemma_trail_len(ms, w, z);
    assert(trim(s) =~= ss.take(ss.len() - z));
    assert(trim(m) =~= ms.take(ms.len() - z));
}

/// A trimmed text has nothing left to trim.
proof fn lemma_trim_idempotent(s: Seq<char>)
    ensures
        trim(trim(s)) == trim(s),
        trim_end_by(trim(s), crlf_pred()) == trim(s),
{
    let w = ws_pred();
    let t = trim(s);
    lemma_lead_len_bound(s, w);
    let a = lead_len(s, w) as int;
    let ss = s.skip(a);
    assert(trim_start_by(s, w) =~= ss);
    lemma_trail_len_bound(ss, w);
    let z = trail_len(ss, w) as int;
    assert(t =~= ss.take(ss.len() - z));
    if t.len() > 0 {
        assert(t[0] == ss[0]);
        assert(!w(t[0]));
        lemma_lead_len(t, w, 0);
        assert(trim_start_by(t, w) =~= t);
        assert(t.last() == ss[ss.len() - 1 - z]);
        lemma_trail_len(t, w, 0);
        assert(!is_crlf(t.last()));
        lemma_trail_len(t, crlf_pred(), 0);
        assert(trim_end_by(t, w) =~= t);
        assert(trim_end_by(t, crlf_pred()) =~= t);
    } else {
        lemma_lead_len(t, w, 0);
        lemma_trail_len(t, w, 0);
        lemma_trail_len(t, crlf_pred(), 0);
        assert(trim(t) =~= t);
        assert(trim_end_by(t, crlf_pred()) =~= t);
    }
}

/// The normal form is the trimmed text, uppercased.
proof fn lemma_normalized_is_upper_trim(s: Seq<char>)
    ensures
        normalized(s) == upper_seq(trim(s)),
{
    lemma_trim_idempotent(s);
}

/// Texts that agree on whitespace and on their uppercase forms normalize
/// alike.
proof fn lemma_normalized_map(s: Seq<char>, m: Seq<char>)
    requires
        m.len() == s.len(),
        forall|i: int| 0 <= i < s.len() ==> is_ws(#[trigger] m[i]) == is_ws(s[i]) && upper(m[i]) == upper(s[i]),
    ensures
        normalized(m) == normalized(s),
{
    lemma_normalized_is_upper_trim(s);
    lemma_normalized_is_upper_trim(m);
    lemma_trim_map(s, m);
    let a = lead_len(s, ws_pred()) as int;
    assert forall|i: int| 0 <= i < trim(s).len() implies upper(trim(m)[i]) == upper(trim(s)[i]) by {
        assert(trim(m)[i] == m[i + a]);
        assert(trim(s)[i] == s[i + a]);
    }
    assert(upper_seq(trim(m)) =~= upper_seq(trim(s)));
}

/// Normalizing is idempotent and ignores ASCII case: a normalized command
/// normalizes to itself, and upper- or lowercasing a command first changes
/// nothing. So the risk classification, which reads the normal form, does
/// not depend on spacing, line terminators or ASCII case.
pub proof fn law_normalization(s: Seq<char>)
    ensures
        normalized(normalized(s)) == normalized(s),
        normalized(upper_seq(s)) == normalized(s),
        normalized(lower_seq(s)) == normalized(s),
{
    assert forall|i: int| 0 <= i < s.len() implies is_ws(#[trigger] upper_seq(s)[i]) == is_ws(s[i])
        && upper(upper_seq(s)[i]) == upper(s[i]) by {
        lemma_case_keeps_ws(s[i]);
    }
    lemma_normalized_map(s, upper_seq(s));
    assert forall|i: int| 0 <= i < s.len() implies is_ws(#[trigger] lower_seq(s)[i]) == is_ws(s[i])
        && upper(lower_seq(s)[i]) == upper(s[i]) by {
        lemma_case_keeps_ws(s[i]);
    }
    lemma_normalized_map(s, lower_seq(s));
    let t = trim(s);
    lemma_normalized_is_upper_trim(s);
    assert forall|i: int| 0 <= i < t.len() implies is_ws(#[trigger] upper_seq(t)[i]) == is_ws(t[i])
        && upper(upper_seq(t)[i]) == upper(t[i]) by {
        lemma_case_keeps_ws(t[i]);
    }
    lemma_normalized_map(t, upper_seq(t));
    lemma_normalized_is_upper_trim(t);
    lemma_trim_idempotent(s);
}

/// `s` with a carriage return appended unless it already ends with CR or LF.
pub open spec fn with_terminator(s: Seq<char>) -> Seq<char> {
    if s.len() > 0 && is_crlf(s.last()) {
        s
    } else {
        s.push('\r')
    }
}

/// ASCII-uppercases every character.
pub fn upper_chars(v: &Vec<char>) -> (r: Vec<char>)
    ensures
        r@ == upper_seq(v@),
{
    let mut r: Vec<char> = Vec::new();
    let mut i: usize = 0;
    while i < v.len()
        invariant
            i <= v.len(),
            r@ == upper_seq(v@.take(i as int)),
        decreases v.len() - i,
    {
        r.push(to_ascii_upper(v[i]));
        i += 1;
        assert(r@ =~= upper_seq(v@.take(i as int)));
    }
    assert(v@.take(i as int) =~= v@);
    r
}

/// Removes trailing CR and LF characters.
pub fn trim_end_crlf(v: &Vec<char>) -> (r: Vec<char>)
    ensures
        r@ == trim_end_by(v@, crlf_pred()),
{
    let mut i: usize = 0;
    while i < v.len() && (v[v.len() - 1 - i] == '\r' || v[v.len() - 1 - i] == '\n')
        invariant
            i <= v.len(),
            forall|k: int| v.len() - i <= k < v.len() ==> is_crlf(v@[k]),
        decreases v.len() - i,
    {
        i += 1;
    }
    proof {
        lemma_trail_len(v@, crlf_pred(), i as int);
    }
    slice(v, 0, v.len() - i)
}

/// Normalizes characters for classification.
pub fn normalize_chars(v: &Vec<char>) -> (r: Vec<char>)
    ensures
        r@ == normalized(v@),
{
    let a = trim_chars(v);
    let b = trim_end_crlf(&a);
    let c = trim_chars(&b);
    upper_chars(&c)
}

/// Trims the command, drops trailing line terminators and uppercases ASCII
/// letters, so that classification does not depend on spacing or case.
pub fn normalize_command(command: &str) -> (r: String)
    ensures
        r@ == normalized(command@),
{
    let v = chars_of(command);
    let n = normalize_chars(&v);
    string_of(&n)
}

/// The command with a carriage return appended, unless it already ends in a
/// carriage return or line feed.
pub fn command_with_terminator(command: &str) -> (r: String)
    ensures
        r@ == with_terminator(command@),
{
    let mut v = chars_of(command);
    if v.len() > 0 && (v[v.len() - 1] == '\r' || v[v.len() - 1] == '\n') {
        string_of(&v)
    } else {
        v.push('\r');
        string_of(&v)
    }
}

} // verus!
