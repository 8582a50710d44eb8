//! Masking of identifiers and credentials in modem traffic.
use vstd::prelude::*;

use crate::text::{
    alnum_pred, ascii_ws_pred, chars_of, count_alnum_from, count_ascii_ws_from,
    count_digits_from, digit_pred, find_from, find_from_exec, first_line_len, is_ascii_digit,
    is_digit, lead_len, lemma_lead_len_bound, line_end_from, lower_chars, lower_seq, map_lines,
    push_all, seqs_view, slice, string_of, trim, trim_chars, trail_len,
};

verus! {

broadcast use vstd::string::group_string_axioms;

// ---------------------------------------------------------------------
// Identifiers
// ---------------------------------------------------------------------
/// `n` asterisks.
pub open spec fn stars(n: nat) -> Seq<char> {
    Seq::new(n, |_i: int| '*')
}

/// The display form of an identifier: short values are fully hidden,
/// medium ones keep two leading characters, long ones keep four leading and
/// two trailing characters.
pub open spec fn masked_identifier(s: Seq<char>) -> Seq<char> {
    let n = s.len();
    if n == 0 {
        s
    } else if n <= 4 {
        stars(n)
    } else if n <= 8 {
        s.take(2) + stars((n - 2) as nat)
    } else {
        s.take(4) + stars((n - 6) as nat) + s.skip(n - 2)
    }
}

/// Keeps the first eight characters and hides the rest.
pub open spec fn masked_value(s: Seq<char>) -> Seq<char> {
    let keep = if s.len() < 8 {
        s.len()
    } else {
        8
    };
    s.take(keep as int) + stars((s.len() - keep) as nat)
}

/// Appends `n` asterisks.
pub fn push_stars(out: &mut Vec<char>, n: usize)
    ensures
        final(out)@ == old(out)@ + stars(n as nat),
{
    let ghost start = out@;
    let mut i: usize = 0;
    while i < n
        invariant
            i <= n,
            out@ == start + stars(i as nat),
        decreases n - i,
    {
        out.push('*');
        i += 1;
        assert(out@ =~= start + stars(i as nat));
    }
}

/// `masked_identifier` on characters.
pub fn mask_identifier_chars(v: &Vec<char>) -> (r: Vec<char>)
    ensures
        r@ == masked_identifier(v@),
{
    let n = v.len();
    if n == 0 {
        Vec::new()
    } else if n <= 4 {
        let mut out: Vec<char> = Vec::new();
        push_stars(&mut out, n);
        assert(out@ =~= stars(n as nat));
        out
    } else if n <= 8 {
        let mut out = slice(v, 0, 2);
        push_stars(&mut out, n - 2);
        assert(v@.subrange(0, 2) =~= v@.take(2));
        out
    } else {
        let mut out = slice(v, 0, 4);
        push_stars(&mut out, n - 6);
        let tail = slice(v, n - 2, n);
        push_all(&mut out, &tail);
        assert(v@.subrange(0, 4) =~= v@.take(4));
        assert(v@.subrange(n - 2, n as int) =~= v@.skip(n - 2));
        out
    }
}

/// Masks an identifier such as a phone number or ICCID for display.
pub fn mask_identifier(input: &str) -> (r: String)
    ensures
        r@ == masked_identifier(input@),
{
    let v = chars_of(input);
    let m = mask_identifier_chars(&v);
    string_of(&m)
}

/// Appends `masked_value(v)`.
pub fn push_masked_value(out: &mut Vec<char>, v: &Vec<char>)
    ensures
        final(out)@ == old(out)@ + masked_value(v@),
{
    let keep = if v.len() < 8 {
        v.len()
    } else {
        8
    };
    let head = slice(v, 0, keep);
    push_all(out, &head);
    push_stars(out, v.len() - keep);
    assert(v@.subrange(0, keep as int) =~= v@.take(keep as int));
    assert(old(out)@ + head@ + stars((v.len() - keep) as nat) =~= old(out)@ + masked_value(v@));
}

// ---------------------------------------------------------------------
// Long digit runs
// ---------------------------------------------------------------------
/// A run of digits is hidden after its first eight digits when it has at
/// least twelve.
pub open spec fn masked_run(d: Seq<char>) -> Seq<char> {
    if d.len() >= 12 {
        masked_value(d)
    } else {
        d
    }
}

/// Every maximal run of ASCII digits replaced by `masked_run` of it.
pub open spec fn mask_digit_runs(s: Seq<char>) -> Seq<char>
    decreases s.len(),
{
    if s.len() == 0 {
        s
    } else if is_digit(s[0]) {
        let k = lead_len(s, digit_pred());
        if 0 < k <= s.len() {
            masked_run(s.take(k as int)) + mask_digit_runs(s.skip(k as int))
        } else {
            s
        }
    } else {
        seq![s[0]] + mask_digit_runs(s.skip(1))
    }
}

/// `s[i..j]` is a maximal run of ASCII digits: digits only, with no digit
/// just before or just after it.
pub open spec fn digit_run(s: Seq<char>, i: int, j: int) -> bool {
    &&& 0 <= i < j <= s.len()
    &&& forall|t: int| i <= t < j ==> is_digit(#[trigger] s[t])
    &&& i == 0 || !is_digit(s[i - 1])
    &&& j == s.len() || !is_digit(s[j])
}

/// Masking digit runs keeps the text's length and every character that is
/// not a digit in place; wherever it occurs, a maximal run of fewer than
/// twelve digits is kept, and one of twelve or more becomes its first eight
/// digits followed by an asterisk for each other digit.
pub proof fn law_long_digit_runs_masked(s: Seq<char>)
    ensures
        mask_digit_runs(s).len() == s.len(),
        forall|t: int| 0 <= t < s.len() && !is_digit(s[t]) ==> #[trigger] mask_digit_runs(s)[t] == s[t],
        forall|i: int, j: int|
            #[trigger] digit_run(s, i, j) && j - i < 12 ==> mask_digit_runs(s).subrange(i, j)
                == s.subrange(i, j),
        forall|i: int, j: int|
            #[trigger] digit_run(s, i, j) && j - i >= 12 ==> mask_digit_runs(s).subrange(i, j)
                == s.subrange(i, i + 8) + stars((j - i - 8) as nat),
    decreases s.len(),
{
    let out = mask_digit_runs(s);
    if s.len() == 0 {
        return;
    }
    let k: int = if is_digit(s[0]) {
        lemma_lead_len_bound(s, digit_pred());
        assert(digit_pred()(s[0]));
        assert(lead_len(s, digit_pred()) >= 1);
        lead_len(s, digit_pred()) as int
    } else {
        1
    };
    assert(0 < k <= s.len());
    assert(forall|t: int| 0 <= t < k ==> is_digit(#[trigger] s[t]) == is_digit(s[0])) by {
        if is_digit(s[0]) {
            assert forall|t: int| 0 <= t < k implies is_digit(#[trigger] s[t]) == is_digit(s[0]) by {
                assert(digit_pred()(s[t]));
            }
        }
    }
    assert(is_digit(s[0]) && k < s.len() ==> !is_digit(s[k])) by {
        if is_digit(s[0]) && k < s.len() {
            assert(!digit_pred()(s[k]));
        }
    }
    let rest = s.skip(k);
    law_long_digit_runs_masked(rest);
    let mr = mask_digit_runs(rest);
    let head = if is_digit(s[0]) {
        masked_run(s.take(k))
    } else {
        seq![s[0]]
    };
    assert(out == head + mr);
    assert(head.len() == k);
    assert(out.len() == s.len());
    assert forall|t: int| 0 <= t < s.len() && !is_digit(s[t]) implies #[trigger] out[t] == s[t] by {
        if t < k {
            assert(!is_digit(s[0]));
            assert(t == 0);
        } else {
            assert(out[t] == mr[t - k]);
            assert(rest[t - k] == s[t]);
        }
    }
    assert forall|i: int, j: int| #[trigger] digit_run(s, i, j) implies (j - i < 12 ==> out.subrange(i, j)
        == s.subrange(i, j)) && (j - i >= 12 ==> out.subrange(i, j) == s.subrange(i, i + 8) + stars(
        (j - i - 8) as nat,
    )) by {
        if i == 0 {
            assert(is_digit(s[0]));
            if j > k {
                assert(is_digit(s[k]));
            }
            if j < k {
                assert(is_digit(s[j]));
            }
            assert(j == k);
            assert(out.subrange(0, k) =~= head);
            if k < 12 {
                assert(head =~= s.subrange(0, k));
            } else {
                assert(head =~= s.subrange(0, 8) + stars((k - 8) as nat));
            }
        } else {
            if i < k {
                assert(is_digit(s[i - 1]) == is_digit(s[0]));
                assert(is_digit(s[i]));
                assert(is_digit(s[0]));
            }
            if i == k {
                assert(is_digit(s[k]));
                if is_digit(s[0]) {
                    assert(false);
                } else {
                    assert(k == 1);
                }
            }
            assert(i >= k);
            assert(digit_run(rest, i - k, j - k)) by {
                assert forall|t: int| i - k <= t < j - k implies is_digit(#[trigger] rest[t]) by {
                    assert(rest[t] == s[t + k]);
                }
                if i - k > 0 {
                    assert(rest[i - k - 1] == s[i - 1]);
                }
                if j - k < rest.len() {
                    assert(rest[j - k] == s[j]);
                }
            }
            assert(out.subrange(i, j) =~= mr.subrange(i - k, j - k));
            assert(s.subrange(i, j) =~= rest.subrange(i - k, j - k));
            if j - i >= 12 {
                assert(s.subrange(i, i + 8) =~= rest.subrange(i - k, i - k + 8));
            }
        }
    }
}

/// Where the digit run through position `t` starts.
pub open spec fn run_start(s: Seq<char>, t: int) -> int
    decreases t,
{
    if t > 0 && is_digit(s[t - 1]) {
        run_start(s, t - 1)
    } else {
        t
    }
}

/// Where the digit run through position `t` ends.
pub open spec fn run_end(s: Seq<char>, t: int) -> int
    decreases s.len() - t,
{
    if t + 1 < s.len() && is_digit(s[t + 1]) {
        run_end(s, t + 1)
    } else {
        t + 1
    }
}

proof fn lemma_run_start(s: Seq<char>, t: int)
    requires
        0 <= t < s.len(),
    ensures
        0 <= run_start(s, t) <= t,
        run_start(s, t) == 0 || !is_digit(s[run_start(s, t) - 1]),
        forall|u: int| run_start(s, t) <= u < t ==> is_digit(#[trigger] s[u]),
    decreases t,
{
    if t > 0 && is_digit(s[t - 1]) {
        lemma_run_start(s, t - 1);
    }
}

proof fn lemma_run_end(s: Seq<char>, t: int)
    requires
        0 <= t < s.len(),
    ensures
        t < run_end(s, t) <= s.len(),
        run_end(s, t) == s.len() || !is_digit(s[run_end(s, t)]),
        forall|u: int| t < u < run_end(s, t) ==> is_digit(#[trigger] s[u]),
    decreases s.len() - t,
{
    if t + 1 < s.len() && is_digit(s[t + 1]) {
        lemma_run_end(s, t + 1);
    }
}

/// Some character of `o[i..i + n]` is not a digit.
pub open spec fn non_digit_within(o: Seq<char>, i: int, n: int) -> bool {
    exists|t: int| i <= t < i + n && !is_digit(#[trigger] o[t])
}

/// After masking, no twelve consecutive characters are all digits.
pub proof fn law_no_twelve_digits_after_masking(s: Seq<char>)
    ensures
        forall|i: int|
            0 <= i && i + 12 <= mask_digit_runs(s).len() ==> #[trigger] non_digit_within(
                mask_digit_runs(s),
                i,
                12,
            ),
{
    let out = mask_digit_runs(s);
    law_long_digit_runs_masked(s);
    assert forall|i: int| 0 <= i && i + 12 <= out.len() implies #[trigger] non_digit_within(out, i, 12) by {
        if forall|t: int| i <= t < i + 12 ==> is_digit(#[trigger] out[t]) {
            assert forall|t: int| i <= t < i + 12 implies is_digit(#[trigger] s[t]) by {
                if !is_digit(s[t]) {
                    assert(out[t] == s[t]);
                }
            }
            let a = run_start(s, i);
            let b = run_end(s, i);
            lemma_run_start(s, i);
            lemma_run_end(s, i);
            if b < i + 12 {
                assert(is_digit(s[b]));
            }
            assert forall|u: int| a <= u < b implies is_digit(#[trigger] s[u]) by {
                if u < i {
                } else if u > i {
                } else {
                    assert(is_digit(s[i]));
                }
            }
            assert(digit_run(s, a, b));
            let t = if a + 8 > i {
                a + 8
            } else {
                i
            };
            assert(out.subrange(a, b) == s.subrange(a, a + 8) + stars((b - a - 8) as nat));
            assert(out[t] == out.subrange(a, b)[t - a]);
            assert(out[t] == '*');
            assert(is_digit(out[t]));
        }
    }
}

/// A masked text never shows twelve digits in a row, whatever the text.
pub proof fn law_masked_text_shows_no_twelve_digits(s: Seq<char>)
    ensures
        forall|i: int|
            0 <= i && i + 12 <= masked_text(s).len() ==> #[trigger] non_digit_within(masked_text(s), i, 12),
{
    law_no_twelve_digits_after_masking(map_lines(map_lines(s, cgauth_fn()), qccid_fn()));
}

fn mask_digit_runs_exec(v: &Vec<char>) -> (r: Vec<char>)
    ensures
        r@ == mask_digit_runs(v@),
{
    let mut out: Vec<char> = Vec::new();
    let mut i: usize = 0;
    assert(v@.skip(0) =~= v@);
    while i < v.len()
        invariant
            i <= v.len(),
            out@ + mask_digit_runs(v@.skip(i as int)) == mask_digit_runs(v@),
        decreases v.len() - i,
    {
        let ghost rest = v@.skip(i as int);
        let ghost before = out@;
        if is_ascii_digit(v[i]) {
            let k = count_digits_from(v, i);
            proof {
                lemma_lead_len_bound(rest, digit_pred());
                assert(rest[0] == v@[i as int]);
                assert(rest.drop_first().len() + 1 == rest.len());
            }
            let run = slice(v, i, i + k);
            if k >= 12 {
                push_masked_value(&mut out, &run);
            } else {
                push_all(&mut out, &run);
            }
            proof {
                assert(rest.take(k as int) =~= run@);
                assert(rest.skip(k as int) =~= v@.skip(i + k));
                assert(out@ + mask_digit_runs(v@.skip(i + k)) =~= before + (masked_run(
                    rest.take(k as int),
                ) + mask_digit_runs(rest.skip(k as int))));
            }
            i += k;
        } else {
            out.push(v[i]);
            proof {
                assert(rest[0] == v@[i as int]);
                assert(rest.skip(1) =~= v@.skip(i + 1));
                assert(out@ + mask_digit_runs(v@.skip(i + 1)) =~= before + (seq![rest[0]]
                    + mask_digit_runs(rest.skip(1))));
            }
            i += 1;
        }
    }
    assert(out@ + mask_digit_runs(v@.skip(i as int)) =~= out@);
    out
}

// ---------------------------------------------------------------------
// Quote-aware comma fields
// ---------------------------------------------------------------------
/// Splits at commas outside double quotes; quotes stay in the fields.
pub open spec fn split_fields_from(
    s: Seq<char>,
    in_quotes: bool,
    cur: Seq<char>,
    acc: Seq<Seq<char>>,
) -> Seq<Seq<char>>
    decreases s.len(),
{
    if s.len() == 0 {
        acc.push(cur)
    } else if s[0] == '"' {
        split_fields_from(s.drop_first(), !in_quotes, cur.push('"'), acc)
    } else if s[0] == ',' && !in_quotes {
        split_fields_from(s.drop_first(), in_quotes, Seq::empty(), acc.push(cur))
    } else {
        split_fields_from(s.drop_first(), in_quotes, cur.push(s[0]), acc)
    }
}

pub open spec fn split_fields(s: Seq<char>) -> Seq<Seq<char>> {
    split_fields_from(s, false, Seq::empty(), Seq::empty())
}

/// Fields joined with commas.
pub open spec fn join_commas(fs: Seq<Seq<char>>) -> Seq<char>
    decreases fs.len(),
{
    if fs.len() == 0 {
        Seq::empty()
    } else if fs.len() == 1 {
        fs[0]
    } else {
        join_commas(fs.drop_last()) + seq![','] + fs.last()
    }
}

fn split_fields_exec(v: &Vec<char>) -> (r: Vec<Vec<char>>)
    ensures
        seqs_view(r@) == split_fields(v@),
{
    let mut acc: Vec<Vec<char>> = Vec::new();
    let mut cur: Vec<char> = Vec::new();
    let mut in_quotes = false;
    let mut i: usize = 0;
    assert(v@.skip(0) =~= v@);
    assert(seqs_view(acc@) =~= Seq::<Seq<char>>::empty());
    assert(cur@ =~= Seq::<char>::empty());
    while i < v.len()
        invariant
            i <= v.len(),
            split_fields_from(v@.skip(i as int), in_quotes, cur@, seqs_view(acc@)) == split_fields(
                v@,
            ),
        decreases v.len() - i,
    {
        let c = v[i];
        let ghost rest = v@.skip(i as int);
        assert(rest[0] == c);
        assert(rest.drop_first() =~= v@.skip(i + 1));
        if c == '"' {
            in_quotes = !in_quotes;
            cur.push('"');
        } else if c == ',' && !in_quotes {
            let ghost before = acc@;
            acc.push(cur);
            cur = Vec::new();
            assert(cur@ =~= Seq::<char>::empty());
            assert(seqs_view(acc@) =~= seqs_view(before).push(seqs_view(acc@).last()));
        } else {
            cur.push(c);
        }
        i += 1;
    }
    let ghost before = acc@;
    acc.push(cur);
    assert(seqs_view(acc@) =~= seqs_view(before).push(seqs_view(acc@).last()));
    assert(v@.skip(i as int) =~= Seq::<char>::empty());
    acc
}

// ---------------------------------------------------------------------
// CGAUTH credentials
// ---------------------------------------------------------------------
/// Position after `start` and the ASCII whitespace that follows it.
pub open spec fn after_ascii_ws(s: Seq<char>, start: int) -> int {
    start + lead_len(s.skip(start), ascii_ws_pred())
}

/// Where the parameters of an `AT+CGAUTH=` command or a `+CGAUTH:`
/// response start, matching the prefix without regard to ASCII case.
pub open spec fn cgauth_params_start(line: Seq<char>) -> Option<int> {
    match find_from(lower_seq(line), "at+cgauth="@, 0) {
        Some(i) => Some(after_ascii_ws(line, i + "at+cgauth="@.len())),
        None => match find_from(lower_seq(line), "+cgauth:"@, 0) {
            Some(i) => Some(after_ascii_ws(line, i + "+cgauth:"@.len())),
            None => None,
        },
    }
}

/// A trimmed, non-empty field of ASCII digits.
pub open spec fn is_integer_field(f: Seq<char>) -> bool {
    trim(f).len() > 0 && forall|k: int| 0 <= k < trim(f).len() ==> is_digit(#[trigger] trim(f)[k])
}

/// Context id and auth type present: the user name and password follow.
pub open spec fn has_credentials(fields: Seq<Seq<char>>) -> bool {
    fields.len() >= 4 && is_integer_field(fields[0]) && is_integer_field(fields[1])
}

/// An auth field with its surrounding ASCII whitespace kept and its value
/// (inside quotes when quoted) masked.
pub open spec fn masked_auth_field(f: Seq<char>) -> Seq<char> {
    let lead = lead_len(f, ascii_ws_pred());
    let rest = f.skip(lead as int);
    let core_len = rest.len() - trail_len(rest, ascii_ws_pred());
    let core = rest.take(core_len);
    let inner = if core.len() >= 2 && core[0] == '"' && core.last() == '"' {
        seq!['"'] + masked_identifier(core.subrange(1, core.len() - 1)) + seq!['"']
    } else {
        masked_identifier(core)
    };
    f.take(lead as int) + inner + rest.skip(core_len)
}

pub open spec fn cgauth_output_fields(fields: Seq<Seq<char>>) -> Seq<Seq<char>> {
    Seq::new(
        fields.len(),
        |i: int|
            if has_credentials(fields) && (i == 2 || i == 3) {
                masked_auth_field(fields[i])
            } else {
                fields[i]
            },
    )
}

/// A line with the user name and password of a CGAUTH command or response
/// masked.
pub open spec fn mask_cgauth_line(line: Seq<char>) -> Seq<char> {
    match cgauth_params_start(line) {
        Some(ps) => line.take(ps) + join_commas(cgauth_output_fields(split_fields(line.skip(ps)))),
        None => line,
    }
}

fn is_integer_field_exec(f: &Vec<char>) -> (b: bool)
    ensures
        b == is_integer_field(f@),
{
    let t = trim_chars(f);
    if t.len() == 0 {
        return false;
    }
    let mut i: usize = 0;
    while i < t.len()
        invariant
            i <= t.len(),
            t@ == trim(f@),
            forall|k: int| 0 <= k < i ==> is_digit(t@[k]),
        decreases t.len() - i,
    {
        if !is_ascii_digit(t[i]) {
            return false;
        }
        i += 1;
    }
    true
}

fn masked_auth_field_exec(f: &Vec<char>) -> (r: Vec<char>)
    ensures
        r@ == masked_auth_field(f@),
{
    let lead = count_ascii_ws_from(f, 0);
    assert(f@.skip(0) =~= f@);
    let rest = slice(f, lead, f.len());
    assert(rest@ =~= f@.skip(lead as int));
    let mut trail: usize = 0;
    while trail < rest.len() && crate::text::is_ascii_whitespace(rest[rest.len() - 1 - trail])
        invariant
            trail <= rest.len(),
            forall|k: int| rest.len() - trail <= k < rest.len() ==> crate::text::is_ascii_ws(
                rest@[k],
            ),
        decreases rest.len() - trail,
    {
        trail += 1;
    }
    proof {
        crate::text::lemma_trail_len(rest@, ascii_ws_pred(), trail as int);
    }
    let core_len = rest.len() - trail;
    let core = slice(&rest, 0, core_len);
    assert(core@ =~= rest@.take(core_len as int));
    let mut out = slice(f, 0, lead);
    assert(out@ =~= f@.take(lead as int));
    if core.len() >= 2 && core[0] == '"' && core[core.len() - 1] == '"' {
        let inner = slice(&core, 1, core.len() - 1);
        let m = mask_identifier_chars(&inner);
        out.push('"');
        push_all(&mut out, &m);
        out.push('"');
    } else {
        let m = mask_identifier_chars(&core);
        push_all(&mut out, &m);
    }
    let tail = slice(&rest, core_len, rest.len());
    assert(tail@ =~= rest@.skip(core_len as int));
    push_all(&mut out, &tail);
    assert(out@ =~= masked_auth_field(f@));
    out
}

/// Pushes `fields` joined with commas, masking the credentials.
fn push_cgauth_fields(out: &mut Vec<char>, fields: &Vec<Vec<char>>)
    ensures
        final(out)@ == old(out)@ + join_commas(cgauth_output_fields(seqs_view(fields@))),
{
    let ghost fs = seqs_view(fields@);
    let ghost outs = cgauth_output_fields(fs);
    let should_mask = fields.len() >= 4 && is_integer_field_exec(&fields[0])
        && is_integer_field_exec(&fields[1]);
    assert(should_mask == has_credentials(fs)) by {
        if fields.len() >= 4 {
            assert(fs[0] == fields@[0]@);
            assert(fs[1] == fields@[1]@);
        }
    }
    let ghost start = out@;
    let mut i: usize = 0;
    assert(outs.take(0) =~= Seq::<Seq<char>>::empty());
    assert(start + join_commas(outs.take(0)) =~= start);
    while i < fields.len()
        invariant
            i <= fields.len(),
            fs == seqs_view(fields@),
            outs == cgauth_output_fields(fs),
            should_mask == has_credentials(fs),
            out@ == start + join_commas(outs.take(i as int)),
        decreases fields.len() - i,
    {
        let ghost prev = out@;
        if i > 0 {
            out.push(',');
        }
        assert(fs[i as int] == fields@[i as int]@);
        if should_mask && (i == 2 || i == 3) {
            let m = masked_auth_field_exec(&fields[i]);
            push_all(out, &m);
        } else {
            push_all(out, &fields[i]);
        }
        proof {
            let t = outs.take(i + 1);
            assert(t.drop_last() =~= outs.take(i as int));
            assert(t.last() == outs[i as int]);
            if i == 0 {
                assert(t.len() == 1);
                assert(out@ =~= start + join_commas(t));
            } else {
                assert(join_commas(t) == join_commas(outs.take(i as int)) + seq![','] + outs[i as int]);
                assert(out@ =~= start + join_commas(t));
            }
        }
        i += 1;
    }
    assert(outs.take(i as int) =~= outs);
}

fn mask_cgauth_line_exec(line: &Vec<char>) -> (r: Vec<char>)
    ensures
        r@ == mask_cgauth_line(line@),
{
    let lowered = lower_chars(line);
    let cmd = chars_of("at+cgauth=");
    let resp = chars_of("+cgauth:");
    let start: usize = match find_from_exec(&lowered, &cmd, 0) {
        Some(i) => {
            let p = i + cmd.len();
            let n = count_ascii_ws_from(line, p);
            assert(find_from(lower_seq(line@), "at+cgauth="@, 0) == Some(i as int));
            assert(p + n == after_ascii_ws(line@, i + "at+cgauth="@.len()));
            p + n
        },
        None => match find_from_exec(&lowered, &resp, 0) {
            Some(i) => {
                let p = i + resp.len();
                p + count_ascii_ws_from(line, p)
            },
            None => {
                let r = slice(line, 0, line.len());
                assert(r@ =~= line@);
                return r;
            },
        },
    };
    assert(cgauth_params_start(line@) == Some(start as int));
    let mut out = slice(line, 0, start);
    assert(out@ =~= line@.take(start as int));
    let params = slice(line, start, line.len());
    assert(params@ =~= line@.skip(start as int));
    let fields = split_fields_exec(&params);
    push_cgauth_fields(&mut out, &fields);
    out
}

// ---------------------------------------------------------------------
// QCCID values
// ---------------------------------------------------------------------
/// A line with the alphanumeric value after `+QCCID:` (any ASCII case)
/// kept to its first eight characters.
pub open spec fn mask_qccid_line(line: Seq<char>) -> Seq<char> {
    match find_from(lower_seq(line), "+qccid:"@, 0) {
        Some(i) => {
            let vs = after_ascii_ws(line, i + "+qccid:"@.len());
            let vl = lead_len(line.skip(vs), alnum_pred());
            if vl == 0 {
                line
            } else {
                line.take(vs) + masked_value(line.subrange(vs, vs + vl)) + line.skip(vs + vl)
            }
        },
        None => line,
    }
}

fn mask_qccid_line_exec(line: &Vec<char>) -> (r: Vec<char>)
    ensures
        r@ == mask_qccid_line(line@),
{
    let lowered = lower_chars(line);
    let tag = chars_of("+qccid:");
    match find_from_exec(&lowered, &tag, 0) {
        Some(i) => {
            let p = i + tag.len();
            let vs = p + count_ascii_ws_from(line, p);
            let vl = count_alnum_from(line, vs);
            assert(vs == after_ascii_ws(line@, i + "+qccid:"@.len()));
            if vl == 0 {
                let r = slice(line, 0, line.len());
                assert(r@ =~= line@);
                return r;
            }
            let mut out = slice(line, 0, vs);
            assert(out@ =~= line@.take(vs as int));
            let value = slice(line, vs, vs + vl);
            push_masked_value(&mut out, &value);
            let tail = slice(line, vs + vl, line.len());
            assert(tail@ =~= line@.skip(vs + vl));
            push_all(&mut out, &tail);
            out
        },
        None => {
            let r = slice(line, 0, line.len());
            assert(r@ =~= line@);
            r
        },
    }
}

// ---------------------------------------------------------------------
// Whole texts
// ---------------------------------------------------------------------
pub open spec fn cgauth_fn() -> spec_fn(Seq<char>) -> Seq<char> {
    |l: Seq<char>| mask_cgauth_line(l)
}

pub open spec fn qccid_fn() -> spec_fn(Seq<char>) -> Seq<char> {
    |l: Seq<char>| mask_qccid_line(l)
}

/// The masked form of a text: CGAUTH credentials and QCCID values line by
/// line, then every run of twelve or more digits.
pub open spec fn masked_text(s: Seq<char>) -> Seq<char> {
    mask_digit_runs(map_lines(map_lines(s, cgauth_fn()), qccid_fn()))
}

fn map_cgauth_lines(v: &Vec<char>) -> (r: Vec<char>)
    ensures
        r@ == map_lines(v@, cgauth_fn()),
{
    let mut out: Vec<char> = Vec::new();
    let mut i: usize = 0;
    assert(v@.skip(0) =~= v@);
    while i < v.len()
        invariant
            i <= v.len(),
            out@ + map_lines(v@.skip(i as int), cgauth_fn()) == map_lines(v@, cgauth_fn()),
        decreases v.len() - i,
    {
        let ghost rest = v@.skip(i as int);
        let ghost before = out@;
        let e = line_end_from(v, i);
        let line = slice(v, i, e);
        let m = mask_cgauth_line_exec(&line);
        push_all(&mut out, &m);
        proof {
            let k = first_line_len(rest);
            assert(rest.take(k as int) =~= line@);
            assert(rest.skip(k as int) =~= v@.skip(e as int));
            assert(out@ + map_lines(v@.skip(e as int), cgauth_fn()) =~= before + (
            mask_cgauth_line(rest.take(k as int)) + map_lines(rest.skip(k as int), cgauth_fn())));
        }
        i = e;
    }
    assert(out@ + map_lines(v@.skip(i as int), cgauth_fn()) =~= out@);
    out
}

fn map_qccid_lines(v: &Vec<char>) -> (r: Vec<char>)
    ensures
        r@ == map_lines(v@, qccid_fn()),
{
    let mut out: Vec<char> = Vec::new();
    let mut i: usize = 0;
    assert(v@.skip(0) =~= v@);
    while i < v.len()
        invariant
            i <= v.len(),
            out@ + map_lines(v@.skip(i as int), qccid_fn()) == map_lines(v@, qccid_fn()),
        decreases v.len() - i,
    {
        let ghost rest = v@.skip(i as int);
        let ghost before = out@;
        let e = line_end_from(v, i);
        let line = slice(v, i, e);
        let m = mask_qccid_line_exec(&line);
        push_all(&mut out, &m);
        proof {
            let k = first_line_len(rest);
            assert(rest.take(k as int) =~= line@);
            assert(rest.skip(k as int) =~= v@.skip(e as int));
            assert(out@ + map_lines(v@.skip(e as int), qccid_fn()) =~= before + (
            mask_qccid_line(rest.take(k as int)) + map_lines(rest.skip(k as int), qccid_fn())));
        }
        i = e;
    }
    assert(out@ + map_lines(v@.skip(i as int), qccid_fn()) =~= out@);
    out
}

/// `masked_text` on characters.
pub fn mask_sensitive_chars(v: &Vec<char>) -> (r: Vec<char>)
    ensures
        r@ == masked_text(v@),
{
    let a = map_cgauth_lines(v);
    let b = map_qccid_lines(&a);
    mask_digit_runs_exec(&b)
}

/// Masks CGAUTH user names and passwords, QCCID values and long digit runs
/// (IMSI, IMEI, ICCID, phone numbers) in modem traffic.
pub fn mask_sensitive_values(input: &str) -> (r: String)
    ensures
        r@ == masked_text(input@),
{
    let v = chars_of(input);
    let m = mask_sensitive_chars(&v);
    string_of(&m)
}

} // verus!
