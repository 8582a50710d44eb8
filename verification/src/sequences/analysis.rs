//! What a sequence step's responses show: SMS metadata and bodies, TCP
//! send and receive counters, ping replies, and PDP context state.
use vstd::prelude::*;

use crate::at::mask::{mask_identifier_chars, masked_identifier};
use crate::sequences::bindings::{lookup, BindingView, Bindings};
use crate::sequences::csv::{
    csv_fields, csv_usize, csv_usize_exec, csv_value, csv_value_exec, fields_view, split_csv_fields,
    strip_prefix, strip_prefix_exec, CsvField, FieldView,
};
use crate::sequences::sms::{
    charset_name, charset_name_exec, decode_sms_body, decoded_body, ov, sms_view, SmsMessage,
    SmsView,
};
use crate::text::{
    chars_of, contains_char, decimal, eq_str, has_prefix, is_alpha, join_chars, join_seqs,
    parse_usize, parse_usize_chars, push_all, push_decimal, push_part, push_str, seqs_view,
    slice, text_lines, text_lines_exec, trim, trim_chars,
};

verus! {

broadcast use vstd::string::group_string_axioms;

/// Whether an analysis line is a decoded SMS body or a general finding.
#[derive(Debug, Clone, Copy, PartialEq, Eq, Structural)]
pub enum AnalysisKind {
    General,
    DecodedSms,
}

/// A finding, as shown unmasked and masked.
#[derive(Debug, Clone, PartialEq, Eq)]
pub struct AnalysisLine {
    pub kind: AnalysisKind,
    pub raw: Vec<char>,
    pub masked: Vec<char>,
}

pub type LineView = (AnalysisKind, Seq<char>, Seq<char>);

pub open spec fn line_view(l: AnalysisLine) -> LineView {
    (l.kind, l.raw@, l.masked@)
}

pub open spec fn lines_view(ls: Seq<AnalysisLine>) -> Seq<LineView> {
    ls.map_values(|l: AnalysisLine| line_view(l))
}

/// A general finding that needs no masking.
pub open spec fn plain(text: Seq<char>) -> LineView {
    (AnalysisKind::General, text, text)
}

fn plain_line(text: Vec<char>) -> (r: AnalysisLine)
    ensures
        line_view(r) == plain(text@),
{
    let masked = slice(&text, 0, text.len());
    assert(masked@ =~= text@);
    AnalysisLine { kind: AnalysisKind::General, raw: text, masked }
}

fn push_line(out: &mut Vec<AnalysisLine>, l: AnalysisLine)
    ensures
        lines_view(final(out)@) == lines_view(old(out)@).push(line_view(l)),
{
    let ghost before = out@;
    out.push(l);
    assert(lines_view(out@) =~= lines_view(before).push(line_view(l)));
}

// ---------------------------------------------------------------------
// SMS
// ---------------------------------------------------------------------
pub open spec fn opt_part(prefix: Seq<char>, o: Option<Seq<char>>) -> Seq<Seq<char>> {
    match o {
        Some(v) => seq![prefix + v],
        None => Seq::empty(),
    }
}

/// `index=`, `status=`, `sender=` and `timestamp=` of a message, with the
/// sender masked when `masked`.
pub open spec fn sms_meta_parts(m: SmsView, masked: bool) -> Seq<Seq<char>> {
    let sender = match m.2 {
        Some(s) => Some(if masked {
            masked_identifier(s)
        } else {
            s
        }),
        None => None,
    };
    opt_part("index="@, m.0) + opt_part("status="@, m.1) + opt_part("sender="@, sender) + opt_part(
        "timestamp="@,
        m.3,
    )
}

pub open spec fn sms_meta_line(m: SmsView) -> LineView {
    (
        AnalysisKind::General,
        "SMS message: "@ + join_seqs(sms_meta_parts(m, false), " "@),
        "SMS message: "@ + join_seqs(sms_meta_parts(m, true), " "@),
    )
}

fn push_opt_part(parts: &mut Vec<Vec<char>>, prefix: &str, o: &Option<Vec<char>>)
    ensures
        seqs_view(final(parts)@) == seqs_view(old(parts)@) + opt_part(prefix@, ov(*o)),
{
    match o {
        Some(v) => {
            let mut p = chars_of(prefix);
            push_all(&mut p, v);
            push_part(parts, p);
            assert(seqs_view(old(parts)@).push(prefix@ + v@) =~= seqs_view(old(parts)@) + opt_part(prefix@, ov(*o)));
        },
        None => {
            assert(seqs_view(old(parts)@) + opt_part(prefix@, ov(*o)) =~= seqs_view(old(parts)@));
        },
    }
}

fn sms_meta_text(m: &SmsMessage, masked: bool) -> (r: Vec<char>)
    ensures
        r@ == "SMS message: "@ + join_seqs(sms_meta_parts(sms_view(*m), masked), " "@),
{
    let mut parts: Vec<Vec<char>> = Vec::new();
    assert(seqs_view(parts@) =~= Seq::<Seq<char>>::empty());
    push_opt_part(&mut parts, "index=", &m.index);
    push_opt_part(&mut parts, "status=", &m.status);
    let sender: Option<Vec<char>> = match &m.sender {
        Some(s) => Some(if masked {
            mask_identifier_chars(s)
        } else {
            slice(s, 0, s.len())
        }),
        None => None,
    };
    proof {
        if m.sender is Some && !masked {
            assert(m.sender->0@.subrange(0, m.sender->0@.len() as int) =~= m.sender->0@);
        }
    }
    push_opt_part(&mut parts, "sender=", &sender);
    push_opt_part(&mut parts, "timestamp=", &m.timestamp);
    assert(seqs_view(parts@) =~= sms_meta_parts(sms_view(*m), masked));
    let mut out = chars_of("SMS message: ");
    let joined = join_chars(&parts, " ");
    push_all(&mut out, &joined);
    out
}

/// The metadata finding for a message.
pub fn sms_metadata_analysis(m: &SmsMessage) -> (r: AnalysisLine)
    ensures
        line_view(r) == sms_meta_line(sms_view(*m)),
{
    AnalysisLine {
        kind: AnalysisKind::General,
        raw: sms_meta_text(m, false),
        masked: sms_meta_text(m, true),
    }
}

/// The finding for a message body: decoded (body masked when masked), or
/// marked undecodable; nothing for an empty body.
pub open spec fn sms_body_lines(body: Seq<char>) -> Seq<LineView> {
    match decoded_body(body) {
        Some(d) => seq![
            (
                AnalysisKind::DecodedSms,
                "SMS body ("@ + charset_name(d.0) + "): "@ + d.1,
                "SMS body ("@ + charset_name(d.0) + "): <masked sensitive body>"@,
            ),
        ],
        None => if trim(body).len() > 0 {
            seq![
                (
                    AnalysisKind::DecodedSms,
                    "SMS body: <undecodable>"@,
                    "SMS body: <undecodable>"@,
                ),
            ]
        } else {
            Seq::empty()
        },
    }
}

pub fn push_sms_body_analysis(out: &mut Vec<AnalysisLine>, body: &Vec<char>)
    ensures
        lines_view(final(out)@) == lines_view(old(out)@) + sms_body_lines(body@),
{
    match decode_sms_body(body) {
        Some((ucs2, value)) => {
            let cs = charset_name_exec(ucs2);
            let mut raw = chars_of("SMS body (");
            push_str(&mut raw, cs);
            push_str(&mut raw, "): ");
            push_all(&mut raw, &value);
            let mut masked = chars_of("SMS body (");
            push_str(&mut masked, cs);
            push_str(&mut masked, "): <masked sensitive body>");
            push_line(out, AnalysisLine { kind: AnalysisKind::DecodedSms, raw, masked });
            assert(lines_view(out@) =~= lines_view(old(out)@) + sms_body_lines(body@));
        },
        None => {
            let t = trim_chars(body);
            if t.len() > 0 {
                push_line(
                    out,
                    AnalysisLine {
                        kind: AnalysisKind::DecodedSms,
                        raw: chars_of("SMS body: <undecodable>"),
                        masked: chars_of("SMS body: <undecodable>"),
                    },
                );
            }
            assert(lines_view(out@) =~= lines_view(old(out)@) + sms_body_lines(body@));
        },
    }
}

// ---------------------------------------------------------------------
// Plain comma splitting
// ---------------------------------------------------------------------
/// `str::split(',')`.
pub open spec fn split_commas_from(s: Seq<char>, cur: Seq<char>, acc: Seq<Seq<char>>) -> Seq<
    Seq<char>,
>
    decreases s.len(),
{
    if s.len() == 0 {
        acc.push(cur)
    } else if s[0] == ',' {
        split_commas_from(s.drop_first(), Seq::empty(), acc.push(cur))
    } else {
        split_commas_from(s.drop_first(), cur.push(s[0]), acc)
    }
}

pub open spec fn split_commas(s: Seq<char>) -> Seq<Seq<char>> {
    split_commas_from(s, Seq::empty(), Seq::empty())
}

fn split_commas_exec(v: &Vec<char>) -> (r: Vec<Vec<char>>)
    ensures
        seqs_view(r@) == split_commas(v@),
{
    let mut acc: Vec<Vec<char>> = Vec::new();
    let mut cur: Vec<char> = Vec::new();
    let mut i: usize = 0;
    assert(v@.skip(0) =~= v@);
    assert(seqs_view(acc@) =~= Seq::<Seq<char>>::empty());
    assert(cur@ =~= Seq::<char>::empty());
    while i < v.len()
        invariant
            i <= v.len(),
            split_commas_from(v@.skip(i as int), cur@, seqs_view(acc@)) == split_commas(v@),
        decreases v.len() - i,
    {
        assert(v@.skip(i as int)[0] == v@[i as int]);
        assert(v@.skip(i as int).drop_first() =~= v@.skip(i + 1));
        if v[i] == ',' {
            let done = cur;
            push_part(&mut acc, done);
            cur = Vec::new();
            assert(cur@ =~= Seq::<char>::empty());
        } else {
            cur.push(v[i]);
        }
        i += 1;
    }
    assert(v@.skip(i as int) =~= Seq::<char>::empty());
    push_part(&mut acc, cur);
    acc
}

// ---------------------------------------------------------------------
// TCP counters
// ---------------------------------------------------------------------
/// Every piece trimmed and parsed as a `usize`.
pub open spec fn parse_all(pieces: Seq<Seq<char>>) -> Option<Seq<usize>>
    decreases pieces.len(),
{
    if pieces.len() == 0 {
        Some(Seq::empty())
    } else {
        match (parse_all(pieces.drop_last()), parse_usize(trim(pieces.last()))) {
            (Some(prev), Some(n)) => Some(prev.push(n)),
            _ => None,
        }
    }
}

/// `+QISEND: total,acknowledged,unacknowledged`.
pub open spec fn qisend_counters(line: Seq<char>) -> Option<(usize, usize, usize)> {
    match strip_prefix(line, "+QISEND:"@) {
        Some(rest) => match parse_all(split_commas(rest)) {
            Some(ns) => if ns.len() == 3 {
                Some((ns[0], ns[1], ns[2]))
            } else {
                None
            },
            None => None,
        },
        None => None,
    }
}

pub fn parse_qisend_counters(line: &Vec<char>) -> (r: Option<(usize, usize, usize)>)
    ensures
        r == qisend_counters(line@),
{
    let rest = match strip_prefix_exec(line, "+QISEND:") {
        Some(r) => r,
        None => return None,
    };
    let pieces = split_commas_exec(&rest);
    let ghost all = seqs_view(pieces@);
    let mut ns: Vec<usize> = Vec::new();
    let mut i: usize = 0;
    assert(all.take(0) =~= Seq::<Seq<char>>::empty());
    while i < pieces.len()
        invariant
            i <= pieces.len(),
            all == seqs_view(pieces@),
            all == split_commas(rest@),
            strip_prefix(line@, "+QISEND:"@) == Some(rest@),
            parse_all(all.take(i as int)) == Some(ns@),
        decreases pieces.len() - i,
    {
        assert(all.take(i + 1).drop_last() =~= all.take(i as int));
        assert(all.take(i + 1).last() == pieces@[i as int]@);
        let t = trim_chars(&pieces[i]);
        match parse_usize_chars(&t) {
            Some(n) => {
                ns.push(n);
            },
            None => {
                proof {
                    lemma_parse_all_none(all, i + 1);
                }
                return None;
            },
        }
        i += 1;
    }
    assert(all.take(i as int) =~= all);
    if ns.len() == 3 {
        Some((ns[0], ns[1], ns[2]))
    } else {
        None
    }
}

pub proof fn lemma_parse_all_none(pieces: Seq<Seq<char>>, k: int)
    requires
        0 <= k <= pieces.len(),
        parse_all(pieces.take(k)) is None,
    ensures
        parse_all(pieces) is None,
    decreases pieces.len() - k,
{
    if k < pieces.len() {
        assert(pieces.take(k + 1).drop_last() =~= pieces.take(k));
        lemma_parse_all_none(pieces, k + 1);
    } else {
        assert(pieces.take(k) =~= pieces);
    }
}

/// The counters of the last `+QISEND:` counter line.
pub open spec fn last_counters(lines: Seq<Seq<char>>) -> Option<(usize, usize, usize)>
    decreases lines.len(),
{
    if lines.len() == 0 {
        None
    } else {
        match qisend_counters(lines.last()) {
            Some(c) => Some(c),
            None => last_counters(lines.drop_last()),
        }
    }
}

/// The payload length bound as `payload_len`, when it parses.
pub open spec fn bound_payload_len(b: Seq<BindingView>) -> Option<usize> {
    match lookup(b, "payload_len"@) {
        Some(v) => parse_usize(v.0),
        None => None,
    }
}

fn payload_len_of(bindings: &Bindings) -> (r: Option<usize>)
    ensures
        r == bound_payload_len(bindings@),
{
    match bindings.get("payload_len") {
        Some(v) => parse_usize_chars(&chars_of(v.value.as_str())),
        None => None,
    }
}

/// Why a step that needs every payload byte acknowledged by the peer has
/// not got that; nothing without a payload length to check against.
pub open spec fn tcp_ack_failure(text: Seq<char>, b: Seq<BindingView>) -> Option<Seq<char>> {
    match bound_payload_len(b) {
        None => None,
        Some(pl) => match last_counters(text_lines(text)) {
            None => Some(
                "condition: TCP acknowledgement counters were not returned for payload_len="@
                    + decimal(pl as nat),
            ),
            Some(c) => if c.1 >= pl && c.2 == 0 {
                None
            } else {
                Some(
                    "condition: TCP acknowledgement incomplete for payload_len="@ + decimal(
                        pl as nat,
                    ) + " total="@ + decimal(c.0 as nat) + " acknowledged="@ + decimal(
                        c.1 as nat,
                    ) + " unacknowledged="@ + decimal(c.2 as nat),
                )
            },
        },
    }
}

/// The counters taken are those of the last line that carries them: that
/// line gives them, and no later line carries counters; without such a line
/// there are none.
pub proof fn law_last_counters_come_from_last_counter_line(lines: Seq<Seq<char>>)
    ensures
        last_counters(lines) matches Some(c) ==> exists|k: int|
            0 <= k < lines.len() && qisend_counters(#[trigger] lines[k]) == Some(c) && forall|j: int|
                k < j < lines.len() ==> qisend_counters(#[trigger] lines[j]) is None,
        last_counters(lines) is None ==> forall|j: int|
            0 <= j < lines.len() ==> qisend_counters(#[trigger] lines[j]) is None,
    decreases lines.len(),
{
    if lines.len() > 0 {
        let w = lines.drop_last();
        law_last_counters_come_from_last_counter_line(w);
        let n = lines.len() - 1;
        assert(lines[n] == lines.last());
        assert forall|j: int| 0 <= j < w.len() implies lines[j] == w[j] by {}
        if qisend_counters(lines.last()) is None {
            if let Some(c) = last_counters(w) {
                let k = choose|k: int|
                    0 <= k < w.len() && qisend_counters(#[trigger] w[k]) == Some(c) && forall|j: int|
                        k < j < w.len() ==> qisend_counters(#[trigger] w[j]) is None;
                assert(lines[k] == w[k]);
                assert forall|j: int| k < j < lines.len() implies qisend_counters(#[trigger] lines[j]) is None by {
                    if j < n {
                        assert(lines[j] == w[j]);
                    }
                }
            } else {
                assert forall|j: int| 0 <= j < lines.len() implies qisend_counters(#[trigger] lines[j]) is None by {
                    if j < n {
                        assert(lines[j] == w[j]);
                    }
                }
            }
        }
    }
}

/// A step that requires its payload to be TCP-acknowledged reports no
/// failure only when a payload length is bound and the last counters show at
/// least that many bytes acknowledged and none unacknowledged, or when no
/// payload length is bound at all; acknowledged bytes short of the payload
/// length, or any unacknowledged byte, is always a failure.
pub proof fn law_tcp_ack_needs_every_payload_byte(text: Seq<char>, b: Seq<BindingView>)
    ensures
        bound_payload_len(b) is None ==> tcp_ack_failure(text, b) is None,
        bound_payload_len(b) matches Some(pl) ==> (tcp_ack_failure(text, b) is None <==> (last_counters(
            text_lines(text),
        ) matches Some(c) && c.1 >= pl && c.2 == 0)),
        bound_payload_len(b) matches Some(pl) ==> (last_counters(text_lines(text)) matches Some(c) ==> ((
        c.1 < pl || c.2 > 0) ==> tcp_ack_failure(text, b) is Some)),
{
}

fn last_counters_exec(lines: &Vec<Vec<char>>) -> (r: Option<(usize, usize, usize)>)
    ensures
        r == last_counters(seqs_view(lines@)),
{
    let ghost all = seqs_view(lines@);
    let mut last: Option<(usize, usize, usize)> = None;
    let mut i: usize = 0;
    assert(all.take(0) =~= Seq::<Seq<char>>::empty());
    while i < lines.len()
        invariant
            i <= lines.len(),
            all == seqs_view(lines@),
            last == last_counters(all.take(i as int)),
        decreases lines.len() - i,
    {
        assert(all.take(i + 1).drop_last() =~= all.take(i as int));
        assert(all.take(i + 1).last() == lines@[i as int]@);
        match parse_qisend_counters(&lines[i]) {
            Some(c) => {
                last = Some(c);
            },
            None => {},
        }
        i += 1;
    }
    assert(all.take(i as int) =~= all);
    last
}

pub fn tcp_ack_requirement_failure(text: &Vec<char>, bindings: &Bindings) -> (r: Option<Vec<char>>)
    ensures
        ov(r) == tcp_ack_failure(text@, bindings@),
{
    let pl = match payload_len_of(bindings) {
        Some(n) => n,
        None => return None,
    };
    let lines = text_lines_exec(text);
    match last_counters_exec(&lines) {
        None => {
            let mut v = chars_of(
                "condition: TCP acknowledgement counters were not returned for payload_len=",
            );
            push_decimal(&mut v, pl as u128);
            Some(v)
        },
        Some((total, acknowledged, unacknowledged)) => {
            if acknowledged >= pl && unacknowledged == 0 {
                return None;
            }
            let mut v = chars_of("condition: TCP acknowledgement incomplete for payload_len=");
            push_decimal(&mut v, pl as u128);
            push_str(&mut v, " total=");
            push_decimal(&mut v, total as u128);
            push_str(&mut v, " acknowledged=");
            push_decimal(&mut v, acknowledged as u128);
            push_str(&mut v, " unacknowledged=");
            push_decimal(&mut v, unacknowledged as u128);
            Some(v)
        },
    }
}

/// The verdict on TCP send counters, checked against the payload length
/// when there is one.
pub open spec fn qisend_verdict(acknowledged: usize, unacknowledged: usize, pl: Option<usize>) -> Seq<
    char,
> {
    match pl {
        Some(length) => if acknowledged >= length && unacknowledged == 0 {
            "payload bytes are TCP-acknowledged by the peer; this is not application processing proof"@
        } else {
            "payload bytes are not fully TCP-acknowledged yet; this is not end-to-end success"@
        },
        None => if unacknowledged == 0 {
            "TCP counters report no unacknowledged bytes; this is not application processing proof"@
        } else {
            "TCP counters report unacknowledged bytes; this is not end-to-end success"@
        },
    }
}

pub open spec fn qisend_text(t: usize, a: usize, u: usize, pl: Option<usize>) -> Seq<char> {
    let payload = match pl {
        Some(length) => " payload_len="@ + decimal(length as nat),
        None => Seq::empty(),
    };
    "TCP send counters: total="@ + decimal(t as nat) + " acknowledged="@ + decimal(a as nat)
        + " unacknowledged="@ + decimal(u as nat) + payload + "; "@ + qisend_verdict(a, u, pl)
        + "."@
}

fn qisend_analysis(t: usize, a: usize, u: usize, bindings: &Bindings) -> (r: AnalysisLine)
    ensures
        line_view(r) == plain(qisend_text(t, a, u, bound_payload_len(bindings@))),
{
    let pl = payload_len_of(bindings);
    let verdict = match pl {
        Some(length) => if a >= length && u == 0 {
            "payload bytes are TCP-acknowledged by the peer; this is not application processing proof"
        } else {
            "payload bytes are not fully TCP-acknowledged yet; this is not end-to-end success"
        },
        None => if u == 0 {
            "TCP counters report no unacknowledged bytes; this is not application processing proof"
        } else {
            "TCP counters report unacknowledged bytes; this is not end-to-end success"
        },
    };
    let mut v = chars_of("TCP send counters: total=");
    push_decimal(&mut v, t as u128);
    push_str(&mut v, " acknowledged=");
    push_decimal(&mut v, a as u128);
    push_str(&mut v, " unacknowledged=");
    push_decimal(&mut v, u as u128);
    match pl {
        Some(length) => {
            push_str(&mut v, " payload_len=");
            push_decimal(&mut v, length as u128);
        },
        None => {},
    }
    push_str(&mut v, "; ");
    push_str(&mut v, verdict);
    push_str(&mut v, ".");
    assert(v@ =~= qisend_text(t, a, u, bound_payload_len(bindings@)));
    plain_line(v)
}

/// The length announced by `+QIRD: length,...`.
pub open spec fn qird_length(line: Seq<char>) -> Option<usize> {
    match strip_prefix(line, "+QIRD:"@) {
        Some(rest) => parse_usize(trim(split_commas(trim(rest))[0])),
        None => None,
    }
}

pub fn parse_qird_length(line: &Vec<char>) -> (r: Option<usize>)
    ensures
        r == qird_length(line@),
{
    match strip_prefix_exec(line, "+QIRD:") {
        Some(rest) => {
            let t = trim_chars(&rest);
            let pieces = split_commas_exec(&t);
            proof {
                lemma_split_commas_nonempty(t@, Seq::empty(), Seq::empty());
            }
            assert(seqs_view(pieces@)[0] == pieces@[0]@);
            parse_usize_chars(&trim_chars(&pieces[0]))
        },
        None => None,
    }
}

pub proof fn lemma_split_commas_nonempty(s: Seq<char>, cur: Seq<char>, acc: Seq<Seq<char>>)
    ensures
        split_commas_from(s, cur, acc).len() >= acc.len() + 1,
        acc.len() > 0 ==> split_commas_from(s, cur, acc)[0] == acc[0],
    decreases s.len(),
{
    if s.len() > 0 {
        if s[0] == ',' {
            lemma_split_commas_nonempty(s.drop_first(), Seq::empty(), acc.push(cur));
        } else {
            lemma_split_commas_nonempty(s.drop_first(), cur.push(s[0]), acc);
        }
    }
}

pub open spec fn qird_text(length: usize) -> Seq<char> {
    if length == 0 {
        "TCP receive data: no buffered response data (+QIRD: 0)."@
    } else {
        "TCP receive data: "@ + decimal(length as nat)
            + " byte(s) of buffered response data were returned; this is response data."@
    }
}

fn qird_analysis(length: usize) -> (r: AnalysisLine)
    ensures
        line_view(r) == plain(qird_text(length)),
{
    if length == 0 {
        plain_line(chars_of("TCP receive data: no buffered response data (+QIRD: 0)."))
    } else {
        let mut v = chars_of("TCP receive data: ");
        push_decimal(&mut v, length as u128);
        push_str(&mut v, " byte(s) of buffered response data were returned; this is response data.");
        plain_line(v)
    }
}

/// The TCP findings of a list of lines, in order.
pub open spec fn tcp_lines(lines: Seq<Seq<char>>, b: Seq<BindingView>) -> Seq<LineView>
    decreases lines.len(),
{
    if lines.len() == 0 {
        Seq::empty()
    } else {
        let l = lines.last();
        let a: Seq<LineView> = match qisend_counters(l) {
            Some(c) => seq![plain(qisend_text(c.0, c.1, c.2, bound_payload_len(b)))],
            None => Seq::empty(),
        };
        let q: Seq<LineView> = match qird_length(l) {
            Some(n) => seq![plain(qird_text(n))],
            None => Seq::empty(),
        };
        tcp_lines(lines.drop_last(), b) + a + q
    }
}

pub fn push_tcp_analysis(out: &mut Vec<AnalysisLine>, text: &Vec<char>, bindings: &Bindings)
    ensures
        lines_view(final(out)@) == lines_view(old(out)@) + tcp_lines(text_lines(text@), bindings@),
{
    let lines = text_lines_exec(text);
    let ghost all = seqs_view(lines@);
    let ghost start = lines_view(out@);
    let mut i: usize = 0;
    assert(all.take(0) =~= Seq::<Seq<char>>::empty());
    assert(start + tcp_lines(all.take(0), bindings@) =~= start);
    while i < lines.len()
        invariant
            i <= lines.len(),
            all == seqs_view(lines@),
            lines_view(out@) == start + tcp_lines(all.take(i as int), bindings@),
        decreases lines.len() - i,
    {
        assert(all.take(i + 1).drop_last() =~= all.take(i as int));
        assert(all.take(i + 1).last() == lines@[i as int]@);
        let ghost before = lines_view(out@);
        match parse_qisend_counters(&lines[i]) {
            Some((t, a, u)) => {
                let l = qisend_analysis(t, a, u, bindings);
                push_line(out, l);
            },
            None => {},
        }
        let ghost mid = lines_view(out@);
        match parse_qird_length(&lines[i]) {
            Some(n) => {
                let l = qird_analysis(n);
                push_line(out, l);
            },
            None => {},
        }
        proof {
            let l = all[i as int];
            let a: Seq<LineView> = match qisend_counters(l) {
                Some(c) => seq![plain(qisend_text(c.0, c.1, c.2, bound_payload_len(bindings@)))],
                None => Seq::empty(),
            };
            let q: Seq<LineView> = match qird_length(l) {
                Some(n) => seq![plain(qird_text(n))],
                None => Seq::empty(),
            };
            assert(mid =~= before + a);
            assert(lines_view(out@) =~= mid + q);
            assert(lines_view(out@) =~= start + tcp_lines(all.take(i + 1), bindings@));
        }
        i += 1;
    }
    assert(all.take(i as int) =~= all);
}

// ---------------------------------------------------------------------
// Ping
// ---------------------------------------------------------------------
/// A `+QPING:` line: a reply, a summary, or a failure result code.
pub enum PingView {
    Reply { host: Seq<char>, bytes: Option<usize>, time_ms: Option<usize>, ttl: Option<usize> },
    Summary { sent: usize, received: usize, lost: usize },
    ResultCode(Seq<char>),
}

/// A reply names its host: quoted, or with a dot, a colon or a letter.
pub open spec fn ping_reply(fs: Seq<FieldView>) -> Option<PingView> {
    if fs.len() < 2 {
        None
    } else {
        let host = fs[1];
        if !host.1 && !host.0.contains('.') && !host.0.contains(':') && !(exists|i: int|
            0 <= i < host.0.len() && is_alpha(#[trigger] host.0[i])) {
            None
        } else {
            Some(
                PingView::Reply {
                    host: host.0,
                    bytes: csv_usize(fs, 2),
                    time_ms: csv_usize(fs, 3),
                    ttl: csv_usize(fs, 4),
                },
            )
        }
    }
}

pub open spec fn ping_summary(fs: Seq<FieldView>) -> Option<PingView> {
    match (csv_usize(fs, 1), csv_usize(fs, 2), csv_usize(fs, 3)) {
        (Some(s), Some(r), Some(l)) => Some(PingView::Summary { sent: s, received: r, lost: l }),
        _ => None,
    }
}

pub open spec fn qping_line(line: Seq<char>) -> Option<PingView> {
    match strip_prefix(line, "+QPING:"@) {
        None => None,
        Some(rest) => {
            let fs = csv_fields(rest);
            match csv_value(fs, 0) {
                None => None,
                Some(result) => if result != "0"@ {
                    Some(PingView::ResultCode(result))
                } else {
                    match ping_reply(fs) {
                        Some(r) => Some(r),
                        None => ping_summary(fs),
                    }
                },
            }
        },
    }
}

/// A parsed `+QPING:` line.
pub enum PingLine {
    Reply { host: Vec<char>, bytes: Option<usize>, time_ms: Option<usize>, ttl: Option<usize> },
    Summary { sent: usize, received: usize, lost: usize },
    ResultCode(Vec<char>),
}

pub open spec fn ping_view(p: PingLine) -> PingView {
    match p {
        PingLine::Reply { host, bytes, time_ms, ttl } => PingView::Reply {
            host: host@,
            bytes,
            time_ms,
            ttl,
        },
        PingLine::Summary { sent, received, lost } => PingView::Summary { sent, received, lost },
        PingLine::ResultCode(c) => PingView::ResultCode(c@),
    }
}

fn has_alpha(v: &Vec<char>) -> (b: bool)
    ensures
        b == exists|i: int| 0 <= i < v@.len() && is_alpha(#[trigger] v@[i]),
{
    let mut i: usize = 0;
    while i < v.len()
        invariant
            i <= v.len(),
            forall|k: int| 0 <= k < i ==> !is_alpha(#[trigger] v@[k]),
        decreases v.len() - i,
    {
        if crate::text::is_ascii_alphabetic(v[i]) {
            return true;
        }
        i += 1;
    }
    false
}

fn parse_qping_reply(fields: &Vec<CsvField>) -> (r: Option<PingLine>)
    ensures
        match ping_reply(fields_view(fields@)) {
            Some(p) => r matches Some(x) && ping_view(x) == p,
            None => r is None,
        },
{
    if fields.len() < 2 {
        return None;
    }
    let host = &fields[1];
    assert(fields_view(fields@)[1] == (host.value@, host.quoted));
    if !host.quoted && !contains_char(&host.value, '.') && !contains_char(&host.value, ':')
        && !has_alpha(&host.value) {
        return None;
    }
    let h = slice(&host.value, 0, host.value.len());
    assert(h@ =~= host.value@);
    Some(
        PingLine::Reply {
            host: h,
            bytes: csv_usize_exec(fields, 2),
            time_ms: csv_usize_exec(fields, 3),
            ttl: csv_usize_exec(fields, 4),
        },
    )
}

pub fn parse_qping_line(line: &Vec<char>) -> (r: Option<PingLine>)
    ensures
        match qping_line(line@) {
            Some(p) => r matches Some(x) && ping_view(x) == p,
            None => r is None,
        },
{
    let rest = match strip_prefix_exec(line, "+QPING:") {
        Some(r) => r,
        None => return None,
    };
    let fields = split_csv_fields(&rest);
    let result = match csv_value_exec(&fields, 0) {
        Some(v) => v,
        None => return None,
    };
    if !eq_str(&result, "0") {
        return Some(PingLine::ResultCode(result));
    }
    match parse_qping_reply(&fields) {
        Some(r) => Some(r),
        None => {
            let s = csv_usize_exec(&fields, 1);
            let r = csv_usize_exec(&fields, 2);
            let l = csv_usize_exec(&fields, 3);
            match (s, r, l) {
                (Some(sent), Some(received), Some(lost)) => Some(
                    PingLine::Summary { sent, received, lost },
                ),
                _ => None,
            }
        },
    }
}

pub open spec fn opt_usize_part(prefix: Seq<char>, o: Option<usize>) -> Seq<Seq<char>> {
    match o {
        Some(n) => seq![prefix + decimal(n as nat)],
        None => Seq::empty(),
    }
}

/// The finding for a `+QPING:` line.
pub open spec fn ping_text(p: PingView) -> Seq<char> {
    match p {
        PingView::Reply { host, bytes, time_ms, ttl } => "Ping reply: "@ + join_seqs(
            seq!["host="@ + host] + opt_usize_part("bytes="@, bytes) + opt_usize_part(
                "time_ms="@,
                time_ms,
            ) + opt_usize_part("ttl="@, ttl),
            " "@,
        ),
        PingView::Summary { sent, received, lost } => "Ping summary: sent="@ + decimal(
            sent as nat,
        ) + " received="@ + decimal(received as nat) + " lost="@ + decimal(lost as nat),
        PingView::ResultCode(code) => "Ping result code: "@ + code,
    }
}

fn push_usize_part(parts: &mut Vec<Vec<char>>, prefix: &str, o: Option<usize>)
    ensures
        seqs_view(final(parts)@) == seqs_view(old(parts)@) + opt_usize_part(prefix@, o),
{
    match o {
        Some(n) => {
            let mut p = chars_of(prefix);
            push_decimal(&mut p, n as u128);
            push_part(parts, p);
            assert(seqs_view(old(parts)@).push(prefix@ + decimal(n as nat)) =~= seqs_view(old(parts)@) + opt_usize_part(prefix@, o));
        },
        None => {
            assert(seqs_view(old(parts)@) + opt_usize_part(prefix@, o) =~= seqs_view(old(parts)@));
        },
    }
}

fn ping_text_exec(p: &PingLine) -> (r: Vec<char>)
    ensures
        r@ == ping_text(ping_view(*p)),
{
    match p {
        PingLine::Reply { host, bytes, time_ms, ttl } => {
            let mut parts: Vec<Vec<char>> = Vec::new();
            let mut h = chars_of("host=");
            push_all(&mut h, host);
            push_part(&mut parts, h);
            push_usize_part(&mut parts, "bytes=", *bytes);
            push_usize_part(&mut parts, "time_ms=", *time_ms);
            push_usize_part(&mut parts, "ttl=", *ttl);
            let mut v = chars_of("Ping reply: ");
            let joined = join_chars(&parts, " ");
            push_all(&mut v, &joined);
            proof {
                assert(seqs_view(parts@) =~= seq!["host="@ + host@] + opt_usize_part("bytes="@, *bytes) + opt_usize_part("time_ms="@, *time_ms) + opt_usize_part("ttl="@, *ttl));
            }
            v
        },
        PingLine::Summary { sent, received, lost } => {
            let mut v = chars_of("Ping summary: sent=");
            push_decimal(&mut v, *sent as u128);
            push_str(&mut v, " received=");
            push_decimal(&mut v, *received as u128);
            push_str(&mut v, " lost=");
            push_decimal(&mut v, *lost as u128);
            v
        },
        PingLine::ResultCode(code) => {
            let mut v = chars_of("Ping result code: ");
            push_all(&mut v, code);
            v
        },
    }
}

/// The ping findings of a list of lines, in order.
pub open spec fn ping_lines(lines: Seq<Seq<char>>) -> Seq<LineView>
    decreases lines.len(),
{
    if lines.len() == 0 {
        Seq::empty()
    } else {
        match qping_line(lines.last()) {
            Some(p) => ping_lines(lines.drop_last()).push(plain(ping_text(p))),
            None => ping_lines(lines.drop_last()),
        }
    }
}

pub fn push_ping_analysis(out: &mut Vec<AnalysisLine>, text: &Vec<char>)
    ensures
        lines_view(final(out)@) == lines_view(old(out)@) + ping_lines(text_lines(text@)),
{
    let lines = text_lines_exec(text);
    let ghost all = seqs_view(lines@);
    let ghost start = lines_view(out@);
    let mut i: usize = 0;
    assert(all.take(0) =~= Seq::<Seq<char>>::empty());
    assert(start + ping_lines(all.take(0)) =~= start);
    while i < lines.len()
        invariant
            i <= lines.len(),
            all == seqs_view(lines@),
            lines_view(out@) == start + ping_lines(all.take(i as int)),
        decreases lines.len() - i,
    {
        assert(all.take(i + 1).drop_last() =~= all.take(i as int));
        assert(all.take(i + 1).last() == lines@[i as int]@);
        let ghost before = lines_view(out@);
        match parse_qping_line(&lines[i]) {
            Some(p) => {
                let l = plain_line(ping_text_exec(&p));
                push_line(out, l);
                assert(lines_view(out@) =~= start + ping_lines(all.take(i + 1)));
            },
            None => {
                assert(lines_view(out@) =~= start + ping_lines(all.take(i + 1)));
            },
        }
        i += 1;
    }
    assert(all.take(i as int) =~= all);
}

/// The state the ping requirement tracks over the `+QPING:` lines: a
/// success seen, whether any ping line was seen, the last summary without
/// replies and the last failure code.
pub open spec fn ping_scan(lines: Seq<Seq<char>>) -> (bool, bool, Option<(usize, usize, usize)>, Option<Seq<char>>)
    decreases lines.len(),
{
    if lines.len() == 0 {
        (false, false, None, None)
    } else {
        let prev = ping_scan(lines.drop_last());
        let l = lines.last();
        if prev.0 || !has_prefix(l, "+QPING:"@) {
            prev
        } else {
            match qping_line(l) {
                Some(PingView::Reply { .. }) => (true, true, prev.2, prev.3),
                Some(PingView::Summary { sent, received, lost }) => if received > 0 {
                    (true, true, prev.2, prev.3)
                } else {
                    (false, true, Some((sent, received, lost)), prev.3)
                },
                Some(PingView::ResultCode(c)) => (false, true, prev.2, Some(c)),
                None => (false, true, prev.2, prev.3),
            }
        }
    }
}

/// Why a step that needs a successful ping reply has not got one.
pub open spec fn ping_failure(text: Seq<char>) -> Option<Seq<char>> {
    let s = ping_scan(text_lines(text));
    if s.0 {
        None
    } else {
        match s.2 {
            Some(sm) => Some(
                "condition: ping received no replies sent="@ + decimal(sm.0 as nat) + " received="@
                    + decimal(sm.1 as nat) + " lost="@ + decimal(sm.2 as nat),
            ),
            None => match s.3 {
                Some(code) => Some(
                    "condition: ping result code "@ + code
                        + " did not report a successful reply"@,
                ),
                None => if s.1 {
                    Some("condition: ping did not report a successful reply"@)
                } else {
                    Some("condition: ping response lines were not returned"@)
                },
            },
        }
    }
}

pub fn ping_success_requirement_failure(text: &Vec<char>) -> (r: Option<Vec<char>>)
    ensures
        ov(r) == ping_failure(text@),
{
    let lines = text_lines_exec(text);
    let ghost all = seqs_view(lines@);
    let mut saw = false;
    let mut last_summary: Option<(usize, usize, usize)> = None;
    let mut last_code: Option<Vec<char>> = None;
    let mut i: usize = 0;
    assert(all.take(0) =~= Seq::<Seq<char>>::empty());
    while i < lines.len()
        invariant
            i <= lines.len(),
            all == seqs_view(lines@),
            all == text_lines(text@),
            ping_scan(all.take(i as int)) == (false, saw, last_summary, ov(last_code)),
        decreases lines.len() - i,
    {
        assert(all.take(i + 1).drop_last() =~= all.take(i as int));
        assert(all.take(i + 1).last() == lines@[i as int]@);
        if crate::text::starts_with(&lines[i], "+QPING:") {
            saw = true;
            match parse_qping_line(&lines[i]) {
                Some(PingLine::Reply { .. }) => {
                    proof {
                        lemma_ping_scan_success(all, i + 1);
                    }
                    return None;
                },
                Some(PingLine::Summary { sent, received, lost }) => {
                    if received > 0 {
                        proof {
                            lemma_ping_scan_success(all, i + 1);
                        }
                        return None;
                    }
                    last_summary = Some((sent, received, lost));
                },
                Some(PingLine::ResultCode(code)) => {
                    last_code = Some(code);
                },
                None => {},
            }
        }
        i += 1;
    }
    assert(all.take(i as int) =~= all);
    match last_summary {
        Some((s, r, l)) => {
            let mut v = chars_of("condition: ping received no replies sent=");
            push_decimal(&mut v, s as u128);
            push_str(&mut v, " received=");
            push_decimal(&mut v, r as u128);
            push_str(&mut v, " lost=");
            push_decimal(&mut v, l as u128);
            Some(v)
        },
        None => match last_code {
            Some(code) => {
                let mut v = chars_of("condition: ping result code ");
                push_all(&mut v, &code);
                push_str(&mut v, " did not report a successful reply");
                Some(v)
            },
            None => if saw {
                Some(chars_of("condition: ping did not report a successful reply"))
            } else {
                Some(chars_of("condition: ping response lines were not returned"))
            },
        },
    }
}

pub proof fn lemma_ping_scan_success(lines: Seq<Seq<char>>, k: int)
    requires
        0 <= k <= lines.len(),
        ping_scan(lines.take(k)).0,
    ensures
        ping_scan(lines).0,
    decreases lines.len() - k,
{
    if k < lines.len() {
        assert(lines.take(k + 1).drop_last() =~= lines.take(k));
        lemma_ping_scan_success(lines, k + 1);
    } else {
        assert(lines.take(k) =~= lines);
    }
}

// ---------------------------------------------------------------------
// PDP context state
// ---------------------------------------------------------------------
/// `+QIACT: id,state,...`: the context id and its state.
pub open spec fn qiact_state(line: Seq<char>) -> Option<(Seq<char>, Seq<char>)> {
    match strip_prefix(line, "+QIACT:"@) {
        None => None,
        Some(rest) => {
            let fs = csv_fields(rest);
            match (csv_value(fs, 0), csv_value(fs, 1)) {
                (Some(id), Some(state)) => Some((id, state)),
                _ => None,
            }
        },
    }
}

/// Whether a `+QIACT:` line reports context `id` active.
pub open spec fn context_active(text: Seq<char>, id: Seq<char>) -> bool {
    exists|i: int|
        0 <= i < text_lines(text).len() && #[trigger] qiact_state(text_lines(text)[i]) == Some(
            (id, "1"@),
        )
}

fn parse_qiact_context_state(line: &Vec<char>) -> (r: Option<(Vec<char>, Vec<char>)>)
    ensures
        match qiact_state(line@) {
            Some(p) => r matches Some(x) && x.0@ == p.0 && x.1@ == p.1,
            None => r is None,
        },
{
    let rest = match strip_prefix_exec(line, "+QIACT:") {
        Some(r) => r,
        None => return None,
    };
    let fields = split_csv_fields(&rest);
    let id = match csv_value_exec(&fields, 0) {
        Some(v) => v,
        None => return None,
    };
    let state = match csv_value_exec(&fields, 1) {
        Some(v) => v,
        None => return None,
    };
    Some((id, state))
}

pub fn qiact_context_is_active(text: &Vec<char>, context_id: &Vec<char>) -> (b: bool)
    ensures
        b == context_active(text@, context_id@),
{
    let lines = text_lines_exec(text);
    let ghost all = seqs_view(lines@);
    let mut i: usize = 0;
    while i < lines.len()
        invariant
            i <= lines.len(),
            all == seqs_view(lines@),
            all == text_lines(text@),
            forall|k: int| 0 <= k < i ==> #[trigger] qiact_state(all[k]) != Some((context_id@, "1"@)),
        decreases lines.len() - i,
    {
        assert(all[i as int] == lines@[i as int]@);
        match parse_qiact_context_state(&lines[i]) {
            Some((id, state)) => {
                if crate::text::chars_eq(&id, context_id) && eq_str(&state, "1") {
                    return true;
                }
            },
            None => {},
        }
        i += 1;
    }
    false
}

} // verus!
