//! SMS listings (`+CMGL`) and reads (`+CMGR`): messages, UCS-2 bodies and
//! the candidates offered for an SMS storage index.
use vstd::prelude::*;

use crate::at::mask::{mask_identifier_chars, masked_identifier};
use crate::sequences::csv::{
    csv_fields, csv_value, csv_value_exec, fields_view, last_non_empty, last_non_empty_csv_value,
    split_csv_fields, strip_prefix, strip_prefix_exec, FieldView,
};
use crate::text::{
    chars_of, eq_str, has_prefix, is_ascii_ws, is_hex, join_chars, join_seqs, push_all, push_str,
    seqs_view, slice, starts_with, string_of, text_lines, text_lines_exec, trim, trim_chars,
};

verus! {

broadcast use vstd::string::group_string_axioms;

// ---------------------------------------------------------------------
// Response lines
// ---------------------------------------------------------------------
/// A final result line: `OK`, `ERROR`, `NO CARRIER`, `+CME ERROR:` or
/// `+CMS ERROR:`.
pub open spec fn is_terminal_line(l: Seq<char>) -> bool {
    ||| l == "OK"@
    ||| l == "ERROR"@
    ||| l == "NO CARRIER"@
    ||| has_prefix(l, "+CME ERROR:"@)
    ||| has_prefix(l, "+CMS ERROR:"@)
}

pub fn is_terminal_response_line(l: &Vec<char>) -> (b: bool)
    ensures
        b == is_terminal_line(l@),
{
    eq_str(l, "OK") || eq_str(l, "ERROR") || eq_str(l, "NO CARRIER") || starts_with(
        l,
        "+CME ERROR:",
    ) || starts_with(l, "+CMS ERROR:")
}

/// An echoed command line.
pub open spec fn is_echo_line(l: Seq<char>) -> bool {
    has_prefix(l, "AT"@)
}

pub fn is_command_echo_line(l: &Vec<char>) -> (b: bool)
    ensures
        b == is_echo_line(l@),
{
    starts_with(l, "AT")
}

// ---------------------------------------------------------------------
// Messages
// ---------------------------------------------------------------------
/// A `+CMGL:` (true) or `+CMGR:` (false) header and its fields.
pub open spec fn sms_header(line: Seq<char>) -> Option<(bool, Seq<FieldView>)> {
    match strip_prefix(line, "+CMGL:"@) {
        Some(r) => Some((true, csv_fields(r))),
        None => match strip_prefix(line, "+CMGR:"@) {
            Some(r) => Some((false, csv_fields(r))),
            None => None,
        },
    }
}

/// An SMS message: index, status, sender, timestamp and body.
#[derive(Debug, Clone, PartialEq, Eq)]
pub struct SmsMessage {
    pub index: Option<Vec<char>>,
    pub status: Option<Vec<char>>,
    pub sender: Option<Vec<char>>,
    pub timestamp: Option<Vec<char>>,
    pub body: Vec<char>,
}

pub type SmsView = (Option<Seq<char>>, Option<Seq<char>>, Option<Seq<char>>, Option<Seq<char>>, Seq<char>);

pub open spec fn ov(o: Option<Vec<char>>) -> Option<Seq<char>> {
    match o {
        Some(v) => Some(v@),
        None => None,
    }
}

pub open spec fn sms_view(m: SmsMessage) -> SmsView {
    (ov(m.index), ov(m.status), ov(m.sender), ov(m.timestamp), m.body@)
}

pub open spec fn sms_views(ms: Seq<SmsMessage>) -> Seq<SmsView> {
    ms.map_values(|m: SmsMessage| sms_view(m))
}

/// The message a header describes: a listing entry has an index first; a
/// read has none.
pub open spec fn sms_message(h: (bool, Seq<FieldView>), body: Seq<char>) -> SmsView {
    let f = h.1;
    if h.0 {
        (csv_value(f, 0), csv_value(f, 1), csv_value(f, 2), last_non_empty(f, 3), body)
    } else {
        (None, csv_value(f, 0), csv_value(f, 1), last_non_empty(f, 2), body)
    }
}

/// A body line: neither a header, a final result nor an echoed command.
pub open spec fn is_body_line(l: Seq<char>) -> bool {
    sms_header(l) is None && !is_terminal_line(l) && !is_echo_line(l)
}

/// The number of body lines at the start of `lines`.
pub open spec fn body_run(lines: Seq<Seq<char>>) -> nat
    decreases lines.len(),
{
    if lines.len() > 0 && is_body_line(lines[0]) {
        1 + body_run(lines.drop_first())
    } else {
        0
    }
}

pub proof fn lemma_body_run(lines: Seq<Seq<char>>, k: int)
    requires
        0 <= k <= lines.len(),
        forall|i: int| 0 <= i < k ==> is_body_line(#[trigger] lines[i]),
        k == lines.len() || !is_body_line(lines[k]),
    ensures
        body_run(lines) == k,
    decreases k,
{
    if k > 0 {
        let w = lines.drop_first();
        assert forall|i: int| 0 <= i < k - 1 implies is_body_line(#[trigger] w[i]) by {
            assert(w[i] == lines[i + 1]);
        }
        if k < lines.len() {
            assert(w[k - 1] == lines[k]);
        }
        lemma_body_run(w, k - 1);
    }
}

/// Lines consumed after a header: the body, and the final result or echo
/// line that ends it (a following header is left for the next message).
pub open spec fn consumed_after_header(rest: Seq<Seq<char>>) -> nat {
    let k = body_run(rest);
    if k < rest.len() && sms_header(rest[k as int]) is None {
        k + 1
    } else {
        k
    }
}

/// The messages in a list of response lines.
pub open spec fn sms_messages_from(lines: Seq<Seq<char>>) -> Seq<SmsView>
    decreases lines.len(),
{
    if lines.len() == 0 {
        Seq::empty()
    } else {
        match sms_header(lines[0]) {
            None => sms_messages_from(lines.drop_first()),
            Some(h) => {
                let rest = lines.drop_first();
                let k = body_run(rest);
                let c = consumed_after_header(rest);
                if c <= rest.len() {
                    seq![sms_message(h, join_seqs(rest.take(k as int), "\n"@))] + sms_messages_from(
                        rest.skip(c as int),
                    )
                } else {
                    Seq::empty()
                }
            },
        }
    }
}

/// The messages of a response text.
pub open spec fn sms_messages(text: Seq<char>) -> Seq<SmsView> {
    sms_messages_from(text_lines(text))
}

fn parse_sms_header(line: &Vec<char>) -> (r: Option<(bool, Vec<crate::sequences::csv::CsvField>)>)
    ensures
        match sms_header(line@) {
            Some(h) => r matches Some(x) && x.0 == h.0 && fields_view(x.1@) == h.1,
            None => r is None,
        },
{
    match strip_prefix_exec(line, "+CMGL:") {
        Some(rest) => Some((true, split_csv_fields(&rest))),
        None => match strip_prefix_exec(line, "+CMGR:") {
            Some(rest) => Some((false, split_csv_fields(&rest))),
            None => None,
        },
    }
}

fn sms_message_from_fields(
    is_listing: bool,
    fields: &Vec<crate::sequences::csv::CsvField>,
    body: Vec<char>,
) -> (r: SmsMessage)
    ensures
        sms_view(r) == sms_message((is_listing, fields_view(fields@)), body@),
{
    if is_listing {
        SmsMessage {
            index: csv_value_exec(fields, 0),
            status: csv_value_exec(fields, 1),
            sender: csv_value_exec(fields, 2),
            timestamp: last_non_empty_csv_value(fields, 3),
            body,
        }
    } else {
        SmsMessage {
            index: None,
            status: csv_value_exec(fields, 0),
            sender: csv_value_exec(fields, 1),
            timestamp: last_non_empty_csv_value(fields, 2),
            body,
        }
    }
}

/// The SMS messages in a response text.
#[verifier::rlimit(40)]
pub fn parse_sms_messages(text: &Vec<char>) -> (r: Vec<SmsMessage>)
    ensures
        sms_views(r@) == sms_messages(text@),
{
    let lines = text_lines_exec(text);
    let ghost all = seqs_view(lines@);
    let mut messages: Vec<SmsMessage> = Vec::new();
    let mut index: usize = 0;
    assert(all.skip(0) =~= all);
    assert(sms_views(messages@) =~= Seq::<SmsView>::empty());
    while index < lines.len()
        invariant
            index <= lines.len(),
            all == seqs_view(lines@),
            all == text_lines(text@),
            sms_views(messages@) + sms_messages_from(all.skip(index as int)) == sms_messages(
                text@,
            ),
        decreases lines.len() - index,
    {
        let ghost cur = all.skip(index as int);
        assert(cur[0] == lines@[index as int]@);
        match parse_sms_header(&lines[index]) {
            None => {
                assert(cur.drop_first() =~= all.skip(index + 1));
                index += 1;
            },
            Some((kind, fields)) => {
                let ghost rest = cur.drop_first();
                assert(rest =~= all.skip(index + 1));
                let mut body_lines: Vec<Vec<char>> = Vec::new();
                let start = index + 1;
                let mut j = start;
                let mut stop_consumed = false;
                loop
                    invariant_except_break
                        !stop_consumed,
                    invariant
                        start <= j <= lines.len(),
                        all == seqs_view(lines@),
                        rest == all.skip(start as int),
                        forall|q: int| start <= q < j ==> is_body_line(#[trigger] all[q]),
                        seqs_view(body_lines@) == all.subrange(start as int, j as int),
                    ensures
                        start <= j <= lines.len(),
                        forall|q: int| start <= q < j ==> is_body_line(#[trigger] all[q]),
                        seqs_view(body_lines@) == all.subrange(start as int, j as int),
                        !stop_consumed ==> (j == lines.len() || sms_header(all[j as int]) is Some),
                        stop_consumed ==> (j < lines.len() && sms_header(all[j as int]) is None
                            && !is_body_line(all[j as int])),
                    decreases lines.len() - j,
                {
                    if j >= lines.len() {
                        break;
                    }
                    let next = &lines[j];
                    assert(next@ == all[j as int]);
                    if parse_sms_header(next).is_some() {
                        break;
                    }
                    if is_terminal_response_line(next) || is_command_echo_line(next) {
                        stop_consumed = true;
                        break;
                    }
                    let ghost before = body_lines@;
                    body_lines.push(slice(next, 0, next.len()));
                    proof {
                        assert(body_lines@.last()@ =~= all[j as int]);
                        assert(seqs_view(body_lines@) =~= seqs_view(before).push(all[j as int]));
                        assert(all.subrange(start as int, j + 1) =~= all.subrange(start as int, j as int).push(all[j as int]));
                    }
                    j += 1;
                }
                let k = j - start;
                proof {
                    assert forall|q: int| 0 <= q < k implies is_body_line(#[trigger] rest[q]) by {
                        assert(rest[q] == all[start + q]);
                    }
                    if j < lines.len() {
                        assert(rest[k as int] == all[j as int]);
                    }
                    lemma_body_run(rest, k as int);
                    assert(rest.take(k as int) =~= all.subrange(start as int, j as int));
                }
                let body = join_chars(&body_lines, "\n");
                let ghost old_messages = messages@;
                let m = sms_message_from_fields(kind, &fields, body);
                messages.push(m);
                let next_index = if stop_consumed {
                    j + 1
                } else {
                    j
                };
                proof {
                    assert(next_index - start == consumed_after_header(rest));
                    assert(rest.skip(next_index - start) =~= all.skip(next_index as int));
                    assert(sms_views(messages@) =~= sms_views(old_messages).push(sms_view(m)));
                    assert(sms_views(messages@) + sms_messages_from(all.skip(next_index as int))
                        =~= sms_views(old_messages) + sms_messages_from(cur));
                }
                index = next_index;
            },
        }
    }
    assert(all.skip(index as int) =~= Seq::<Seq<char>>::empty());
    assert(sms_views(messages@) + Seq::<SmsView>::empty() =~= sms_views(messages@));
    messages
}

// ---------------------------------------------------------------------
// UCS-2 bodies
// ---------------------------------------------------------------------
/// `char::is_control`: the C0 and C1 control codes.
pub open spec fn is_control(c: char) -> bool {
    (c as u32) <= 0x1f || (0x7f <= (c as u32) && (c as u32) <= 0x9f)
}

/// The text without ASCII whitespace.
pub open spec fn without_ascii_ws(s: Seq<char>) -> Seq<char>
    decreases s.len(),
{
    if s.len() == 0 {
        s
    } else if is_ascii_ws(s.last()) {
        without_ascii_ws(s.drop_last())
    } else {
        without_ascii_ws(s.drop_last()).push(s.last())
    }
}

pub open spec fn hex_value(c: char) -> int {
    if '0' <= c && c <= '9' {
        (c as u32 - '0' as u32) as int
    } else if 'a' <= c && c <= 'f' {
        (c as u32 - 'a' as u32 + 10) as int
    } else {
        (c as u32 - 'A' as u32 + 10) as int
    }
}

/// The 16-bit units written as groups of four hex digits.
pub open spec fn hex_units(s: Seq<char>) -> Seq<int> {
    Seq::new(
        s.len() / 4,
        |i: int|
            hex_value(s[4 * i]) * 4096 + hex_value(s[4 * i + 1]) * 256 + hex_value(s[4 * i + 2])
                * 16 + hex_value(s[4 * i + 3]),
    )
}

/// UTF-16 decoding from position `i`: a unit outside the surrogate range is
/// a character, a high surrogate followed by a low one is a supplementary
/// character, anything else is invalid.
pub open spec fn utf16_from(u: Seq<int>, i: int) -> Option<Seq<char>>
    decreases u.len() - i,
{
    if i < 0 || i >= u.len() {
        Some(Seq::empty())
    } else if u[i] < 0xd800 || u[i] > 0xdfff {
        match utf16_from(u, i + 1) {
            Some(r) => Some(seq![u[i] as char] + r),
            None => None,
        }
    } else if u[i] <= 0xdbff && i + 1 < u.len() && 0xdc00 <= u[i + 1] <= 0xdfff {
        let code = 0x10000 + (u[i] - 0xd800) * 0x400 + (u[i + 1] - 0xdc00);
        match utf16_from(u, i + 2) {
            Some(r) => Some(seq![code as char] + r),
            None => None,
        }
    } else {
        None
    }
}

/// A hex-encoded UCS-2 body: its decoded text, when it is one.
pub open spec fn ucs2_body(body: Seq<char>) -> Option<Seq<char>> {
    let c = without_ascii_ws(body);
    if c.len() < 4 || c.len() % 4 != 0 || !(forall|i: int| 0 <= i < c.len() ==> is_hex(c[i])) {
        None
    } else {
        match utf16_from(hex_units(c), 0) {
            Some(d) => if forall|i: int|
                0 <= i < d.len() ==> !is_control(#[trigger] d[i]) || d[i] == '\n' || d[i] == '\t' {
                Some(d)
            } else {
                None
            },
            None => None,
        }
    }
}

/// A valid Unicode scalar value.
pub open spec fn is_scalar(code: int) -> bool {
    0 <= code <= 0x10ffff && !(0xd800 <= code <= 0xdfff)
}

/// `char::from_u32`: the character with code `code`, when `code` is a
/// Unicode scalar value.
#[verifier::external_body]
fn char_from_code(code: u32) -> (r: Option<char>)
    ensures
        is_scalar(code as int) ==> r == Some(code as char),
        !is_scalar(code as int) ==> r is None,
{
    char::from_u32(code)
}

fn hex_digit_value(c: char) -> (v: u32)
    requires
        is_hex(c),
    ensures
        v == hex_value(c),
        v < 16,
{
    if '0' <= c && c <= '9' {
        (c as u32) - ('0' as u32)
    } else if 'a' <= c && c <= 'f' {
        (c as u32) - ('a' as u32) + 10
    } else {
        (c as u32) - ('A' as u32) + 10
    }
}

fn without_ascii_ws_exec(v: &Vec<char>) -> (r: Vec<char>)
    ensures
        r@ == without_ascii_ws(v@),
{
    let mut r: Vec<char> = Vec::new();
    let mut i: usize = 0;
    while i < v.len()
        invariant
            i <= v.len(),
            r@ == without_ascii_ws(v@.take(i as int)),
        decreases v.len() - i,
    {
        assert(v@.take(i + 1).drop_last() =~= v@.take(i as int));
        if !crate::text::is_ascii_whitespace(v[i]) {
            r.push(v[i]);
        }
        i += 1;
    }
    assert(v@.take(i as int) =~= v@);
    r
}

pub proof fn lemma_ucs2_fails(body: Seq<char>)
    requires
        without_ascii_ws(body).len() >= 4,
        without_ascii_ws(body).len() % 4 == 0,
        forall|q: int| 0 <= q < without_ascii_ws(body).len() ==> is_hex(without_ascii_ws(body)[q]),
        utf16_from(hex_units(without_ascii_ws(body)), 0) is None,
    ensures
        ucs2_body(body) is None,
{
}

pub proof fn lemma_ucs2_control(body: Seq<char>, d: Seq<char>, k: int)
    requires
        without_ascii_ws(body).len() >= 4,
        without_ascii_ws(body).len() % 4 == 0,
        forall|q: int| 0 <= q < without_ascii_ws(body).len() ==> is_hex(without_ascii_ws(body)[q]),
        utf16_from(hex_units(without_ascii_ws(body)), 0) == Some(d),
        0 <= k < d.len(),
        is_control(d[k]) && d[k] != '\n' && d[k] != '\t',
    ensures
        ucs2_body(body) is None,
{
}

pub proof fn lemma_ucs2_ok(body: Seq<char>, d: Seq<char>)
    requires
        without_ascii_ws(body).len() >= 4,
        without_ascii_ws(body).len() % 4 == 0,
        forall|q: int| 0 <= q < without_ascii_ws(body).len() ==> is_hex(without_ascii_ws(body)[q]),
        utf16_from(hex_units(without_ascii_ws(body)), 0) == Some(d),
        forall|q: int| 0 <= q < d.len() ==> !is_control(#[trigger] d[q]) || d[q] == '\n' || d[q] == '\t',
    ensures
        ucs2_body(body) == Some(d),
{
}

/// Decodes a hex-encoded UCS-2 (UTF-16) SMS body.
pub fn decode_ucs2_hex_body(body: &Vec<char>) -> (r: Option<Vec<char>>)
    ensures
        match ucs2_body(body@) {
            Some(d) => r matches Some(x) && x@ == d,
            None => r is None,
        },
{
    let c = without_ascii_ws_exec(body);
    if c.len() < 4 || c.len() % 4 != 0 {
        return None;
    }
    assert(c@ == without_ascii_ws(body@));
    let mut h: usize = 0;
    while h < c.len()
        invariant
            h <= c.len(),
            c@ == without_ascii_ws(body@),
            c.len() >= 4 && c.len() % 4 == 0,
            forall|q: int| 0 <= q < h ==> is_hex(c@[q]),
        decreases c.len() - h,
    {
        if !crate::text::is_ascii_hexdigit(c[h]) {
            assert(!is_hex(c@[h as int]));
            assert(!is_hex(without_ascii_ws(body@)[h as int]));
            return None;
        }
        h += 1;
    }
    assert(forall|q: int| 0 <= q < c@.len() ==> is_hex(c@[q]));
    let ghost units = hex_units(c@);
    let n = c.len() / 4;
    // Decode the units.
    let mut out: Vec<char> = Vec::new();
    let mut i: usize = 0;
    proof {
        assert(units.len() == n);
    }
    while i < n
        invariant
            i <= n + 1,
            n == c.len() / 4,
            units == hex_units(c@),
            units.len() == n,
            c@ == without_ascii_ws(body@),
            c.len() >= 4 && c.len() % 4 == 0,
            forall|q: int| 0 <= q < c.len() ==> is_hex(c@[q]),
            utf16_from(units, 0) == match utf16_from(units, i as int) {
                Some(rest) => Some(out@ + rest),
                None => None::<Seq<char>>,
            },
        decreases n + 1 - i,
    {
        let u = unit_at(&c, i);
        if u < 0xd800 || u > 0xdfff {
            match char_from_code(u) {
                Some(ch) => {
                    let ghost before = out@;
                    out.push(ch);
                    proof {
                        match utf16_from(units, i + 1) {
                            Some(rest) => {
                                assert(out@ + rest =~= before + (seq![units[i as int] as char] + rest));
                            },
                            None => {},
                        }
                    }
                    i += 1;
                },
                None => {
                    assert(is_scalar(u as int));
                    return None;
                },
            }
        } else if u <= 0xdbff && i + 1 < n {
            let lo = unit_at(&c, i + 1);
            if 0xdc00 <= lo && lo <= 0xdfff {
                let code = 0x10000 + (u - 0xd800) * 0x400 + (lo - 0xdc00);
                match char_from_code(code) {
                    Some(ch) => {
                        let ghost before = out@;
                        out.push(ch);
                        proof {
                            match utf16_from(units, i + 2) {
                                Some(rest) => {
                                    assert(out@ + rest =~= before + (seq![code as char] + rest));
                                },
                                None => {},
                            }
                        }
                        i += 2;
                    },
                    None => {
                        assert(is_scalar(code as int));
                        return None;
                    },
                }
            } else {
                assert(units[i + 1] == lo);
                assert(utf16_from(units, i as int) is None);
                proof {
                    lemma_ucs2_fails(body@);
                }
                return None;
            }
        } else {
            assert(utf16_from(units, i as int) is None);
            proof {
                lemma_ucs2_fails(body@);
            }
            return None;
        }
    }
    proof {
        assert(utf16_from(units, i as int) == Some(Seq::<char>::empty()));
        assert(out@ + Seq::<char>::empty() =~= out@);
    }
    let mut k: usize = 0;
    while k < out.len()
        invariant
            k <= out.len(),
            c@ == without_ascii_ws(body@),
            c.len() >= 4 && c.len() % 4 == 0,
            forall|q: int| 0 <= q < c.len() ==> is_hex(c@[q]),
            utf16_from(hex_units(c@), 0) == Some(out@),
            forall|q: int| 0 <= q < k ==> !is_control(#[trigger] out@[q]) || out@[q] == '\n' || out@[q] == '\t',
        decreases out.len() - k,
    {
        let ch = out[k];
        let code = ch as u32;
        if (code <= 0x1f || (0x7f <= code && code <= 0x9f)) && ch != '\n' && ch != '\t' {
            proof {
                lemma_ucs2_control(body@, out@, k as int);
            }
            return None;
        }
        k += 1;
    }
    proof {
        lemma_ucs2_ok(body@, out@);
    }
    Some(out)
}

/// The unit written by the four hex digits at `4 * i`.
fn unit_at(c: &Vec<char>, i: usize) -> (u: u32)
    requires
        4 * i + 3 < c.len(),
        forall|q: int| 0 <= q < c.len() ==> is_hex(c@[q]),
    ensures
        u == hex_units(c@)[i as int],
        u <= 0xffff,
{
    let a = hex_digit_value(c[4 * i]);
    let b = hex_digit_value(c[4 * i + 1]);
    let d = hex_digit_value(c[4 * i + 2]);
    let e = hex_digit_value(c[4 * i + 3]);
    a * 4096 + b * 256 + d * 16 + e
}

/// A decoded body: whether it was UCS-2 (else plain text) and its text.
pub open spec fn decoded_body(body: Seq<char>) -> Option<(bool, Seq<char>)> {
    let t = trim(body);
    if t.len() == 0 {
        None
    } else {
        match ucs2_body(t) {
            Some(v) => Some((true, v)),
            None => Some((false, t)),
        }
    }
}

/// Decodes an SMS body: UCS-2 hex when it is that, else the trimmed text.
pub fn decode_sms_body(body: &Vec<char>) -> (r: Option<(bool, Vec<char>)>)
    ensures
        match decoded_body(body@) {
            Some(d) => r matches Some(x) && x.0 == d.0 && x.1@ == d.1,
            None => r is None,
        },
{
    let t = trim_chars(body);
    if t.len() == 0 {
        return None;
    }
    match decode_ucs2_hex_body(&t) {
        Some(v) => Some((true, v)),
        None => Some((false, t)),
    }
}

/// The name of the character set a decoded body used.
pub open spec fn charset_name(ucs2: bool) -> Seq<char> {
    if ucs2 {
        "ucs2"@
    } else {
        "text"@
    }
}

pub fn charset_name_exec(ucs2: bool) -> (r: &'static str)
    ensures
        r@ == charset_name(ucs2),
{
    if ucs2 {
        "ucs2"
    } else {
        "text"
    }
}

} // verus!
