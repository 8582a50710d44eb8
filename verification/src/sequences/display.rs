//! How modem responses appear in sequence transcripts: SMS bodies and TCP
//! receive data hidden in masked output, sensitive parameter values
//! masked, and SMS bodies left out of the response echo.
use vstd::prelude::*;

use crate::at::mask::{mask_identifier_chars, mask_sensitive_chars, masked_identifier, masked_text};
use crate::sequences::analysis::{parse_qird_length, qird_length};
use crate::sequences::bindings::{BindingView, Bindings, entry_view};
use crate::sequences::csv::{
    csv_fields, fields_view, render_csv_fields, render_fields, split_csv_fields, strip_prefix,
    strip_prefix_exec, FieldView,
};
use crate::sequences::sms::{
    is_command_echo_line, is_echo_line, is_terminal_line, is_terminal_response_line, sms_header,
};
use crate::text::{
    chars_of, find_from, find_from_exec, join_chars, join_seqs, lemma_find_from, push_all,
    push_part, push_str, seqs_view, slice, trim, trim_chars, trim_end_by,
};

verus! {

broadcast use vstd::string::group_string_axioms;

// ---------------------------------------------------------------------
// Lines with empty ones kept
// ---------------------------------------------------------------------
pub open spec fn split_newlines_from(s: Seq<char>, cur: Seq<char>, acc: Seq<Seq<char>>) -> Seq<
    Seq<char>,
>
    decreases s.len(),
{
    if s.len() == 0 {
        acc.push(cur)
    } else if s[0] == '\n' {
        split_newlines_from(s.drop_first(), Seq::empty(), acc.push(cur))
    } else {
        split_newlines_from(s.drop_first(), cur.push(s[0]), acc)
    }
}

pub open spec fn cr_pred() -> spec_fn(char) -> bool {
    |c: char| c == '\r'
}

/// The text split at line feeds, trailing carriage returns removed from
/// each line, empty lines kept.
pub open spec fn preserved_lines(s: Seq<char>) -> Seq<Seq<char>> {
    split_newlines_from(s, Seq::empty(), Seq::empty()).map_values(
        |l: Seq<char>| trim_end_by(l, cr_pred()),
    )
}

fn trim_end_cr(v: &Vec<char>) -> (r: Vec<char>)
    ensures
        r@ == trim_end_by(v@, cr_pred()),
{
    let mut i: usize = 0;
    while i < v.len() && v[v.len() - 1 - i] == '\r'
        invariant
            i <= v.len(),
            forall|k: int| v.len() - i <= k < v.len() ==> v@[k] == '\r',
        decreases v.len() - i,
    {
        i += 1;
    }
    proof {
        crate::text::lemma_trail_len(v@, cr_pred(), i as int);
    }
    slice(v, 0, v.len() - i)
}

pub fn response_lines_preserving_empty(v: &Vec<char>) -> (r: Vec<Vec<char>>)
    ensures
        seqs_view(r@) == preserved_lines(v@),
{
    let mut acc: Vec<Vec<char>> = Vec::new();
    let mut cur: Vec<char> = Vec::new();
    let mut i: usize = 0;
    assert(v@.skip(0) =~= v@);
    assert(seqs_view(acc@) =~= Seq::<Seq<char>>::empty());
    assert(cur@ =~= Seq::<char>::empty());
    while i < v.len()
        invariant
            i <= v.len(),
            split_newlines_from(v@.skip(i as int), cur@, seqs_view(acc@)) == split_newlines_from(
                v@,
                Seq::empty(),
                Seq::empty(),
            ),
        decreases v.len() - i,
    {
        assert(v@.skip(i as int)[0] == v@[i as int]);
        assert(v@.skip(i as int).drop_first() =~= v@.skip(i + 1));
        if v[i] == '\n' {
            let done = cur;
            push_part(&mut acc, done);
            cur = Vec::new();
            assert(cur@ =~= Seq::<char>::empty());
        } else {
            cur.push(v[i]);
        }
        i += 1;
    }
    assert(v@.skip(i as int) =~= Seq::<char>::empty());
    push_part(&mut acc, cur);
    let ghost pieces = seqs_view(acc@);
    let mut r: Vec<Vec<char>> = Vec::new();
    let mut k: usize = 0;
    while k < acc.len()
        invariant
            k <= acc.len(),
            pieces == seqs_view(acc@),
            seqs_view(r@) == pieces.take(k as int).map_values(
                |l: Seq<char>| trim_end_by(l, cr_pred()),
            ),
        decreases acc.len() - k,
    {
        let t = trim_end_cr(&acc[k]);
        let ghost before = seqs_view(r@);
        push_part(&mut r, t);
        assert(seqs_view(r@) =~= pieces.take(k + 1).map_values(
            |l: Seq<char>| trim_end_by(l, cr_pred()),
        ));
        k += 1;
    }
    assert(pieces.take(k as int) =~= pieces);
    r
}

// ---------------------------------------------------------------------
// SMS senders in headers
// ---------------------------------------------------------------------
pub open spec fn mask_field_at(fs: Seq<FieldView>, idx: int) -> Seq<FieldView> {
    if 0 <= idx < fs.len() && fs[idx].0.len() > 0 {
        fs.update(idx, (masked_identifier(fs[idx].0), true))
    } else {
        fs
    }
}

/// An SMS header with its sender masked and quoted, rebuilt from its
/// fields.
pub open spec fn masked_sms_header(line: Seq<char>) -> Option<Seq<char>> {
    let t = trim(line);
    match strip_prefix(t, "+CMGL:"@) {
        Some(rest) => Some("+CMGL:"@ + " "@ + render_fields(mask_field_at(csv_fields(rest), 2))),
        None => match strip_prefix(t, "+CMGR:"@) {
            Some(rest) => Some("+CMGR:"@ + " "@ + render_fields(mask_field_at(csv_fields(rest), 1))),
            None => None,
        },
    }
}

fn mask_header_fields(rest: &Vec<char>, idx: usize, prefix: &str) -> (r: Vec<char>)
    ensures
        r@ == prefix@ + " "@ + render_fields(mask_field_at(csv_fields(rest@), idx as int)),
{
    let mut fields = split_csv_fields(rest);
    let ghost before = fields_view(fields@);
    if idx < fields.len() && fields[idx].value.len() > 0 {
        let masked = mask_identifier_chars(&fields[idx].value);
        fields.set(idx, crate::sequences::csv::CsvField { value: masked, quoted: true });
        assert(fields_view(fields@) =~= mask_field_at(before, idx as int));
    } else {
        assert(fields_view(fields@) =~= mask_field_at(before, idx as int));
    }
    let mut out = chars_of(prefix);
    push_str(&mut out, " ");
    let rendered = render_csv_fields(&fields);
    push_all(&mut out, &rendered);
    out
}

pub fn mask_sms_header_sender(line: &Vec<char>) -> (r: Option<Vec<char>>)
    ensures
        match masked_sms_header(line@) {
            Some(h) => r matches Some(x) && x@ == h,
            None => r is None,
        },
{
    let t = trim_chars(line);
    match strip_prefix_exec(&t, "+CMGL:") {
        Some(rest) => Some(mask_header_fields(&rest, 2, "+CMGL:")),
        None => match strip_prefix_exec(&t, "+CMGR:") {
            Some(rest) => Some(mask_header_fields(&rest, 1, "+CMGR:")),
            None => None,
        },
    }
}

// ---------------------------------------------------------------------
// Protocol payloads
// ---------------------------------------------------------------------
/// Output lines so far, and whether an SMS body or TCP receive data is
/// being hidden.
pub open spec fn protocol_state(lines: Seq<Seq<char>>) -> (Seq<Seq<char>>, bool, bool)
    decreases lines.len(),
{
    if lines.len() == 0 {
        (Seq::empty(), false, false)
    } else {
        let p = protocol_state(lines.drop_last());
        let (out, sms, qird) = (p.0, p.1, p.2);
        let l = lines.last();
        match masked_sms_header(l) {
            Some(h) => (out.push(h), true, false),
            None => match qird_length(trim(l)) {
                Some(n) => (out.push(l), false, n > 0),
                None => if sms {
                    if trim(l).len() == 0 {
                        (out.push(l), sms, qird)
                    } else if is_terminal_line(trim(l)) {
                        (out.push(l), false, qird)
                    } else {
                        (out.push("<masked sms body>"@), sms, qird)
                    }
                } else if qird {
                    if trim(l).len() == 0 {
                        (out.push(l), sms, qird)
                    } else if is_terminal_line(trim(l)) {
                        (out.push(l), sms, false)
                    } else {
                        (out.push("<masked qird data>"@), sms, qird)
                    }
                } else {
                    (out.push(l), sms, qird)
                },
            },
        }
    }
}

/// The text with SMS senders masked, SMS bodies and TCP receive data
/// replaced by placeholders, line by line.
pub open spec fn masked_protocol(text: Seq<char>) -> Seq<char> {
    join_seqs(protocol_state(preserved_lines(text)).0, "\n"@)
}

pub fn mask_sequence_protocol_data(text: &Vec<char>) -> (r: Vec<char>)
    ensures
        r@ == masked_protocol(text@),
{
    let lines = response_lines_preserving_empty(text);
    let ghost all = seqs_view(lines@);
    let mut out: Vec<Vec<char>> = Vec::new();
    let mut sms = false;
    let mut qird = false;
    let mut i: usize = 0;
    assert(all.take(0) =~= Seq::<Seq<char>>::empty());
    assert(seqs_view(out@) =~= Seq::<Seq<char>>::empty());
    while i < lines.len()
        invariant
            i <= lines.len(),
            all == seqs_view(lines@),
            protocol_state(all.take(i as int)) == (seqs_view(out@), sms, qird),
        decreases lines.len() - i,
    {
        assert(all.take(i + 1).drop_last() =~= all.take(i as int));
        assert(all.take(i + 1).last() == lines@[i as int]@);
        let line = &lines[i];
        let t = trim_chars(line);
        let copy = slice(line, 0, line.len());
        assert(copy@ =~= line@);
        match mask_sms_header_sender(line) {
            Some(h) => {
                push_part(&mut out, h);
                sms = true;
                qird = false;
            },
            None => match parse_qird_length(&t) {
                Some(n) => {
                    push_part(&mut out, copy);
                    qird = n > 0;
                    sms = false;
                },
                None => {
                    if sms {
                        if t.len() == 0 {
                            push_part(&mut out, copy);
                        } else if is_terminal_response_line(&t) {
                            push_part(&mut out, copy);
                            sms = false;
                        } else {
                            push_part(&mut out, chars_of("<masked sms body>"));
                        }
                    } else if qird {
                        if t.len() == 0 {
                            push_part(&mut out, copy);
                        } else if is_terminal_response_line(&t) {
                            push_part(&mut out, copy);
                            qird = false;
                        } else {
                            push_part(&mut out, chars_of("<masked qird data>"));
                        }
                    } else {
                        push_part(&mut out, copy);
                    }
                },
            },
        }
        i += 1;
    }
    assert(all.take(i as int) =~= all);
    join_chars(&out, "\n")
}

// ---------------------------------------------------------------------
// Response echo without SMS bodies
// ---------------------------------------------------------------------
pub open spec fn display_state(lines: Seq<Seq<char>>) -> (Seq<Seq<char>>, bool)
    decreases lines.len(),
{
    if lines.len() == 0 {
        (Seq::empty(), false)
    } else {
        let p = display_state(lines.drop_last());
        let l = lines.last();
        let t = trim(l);
        if sms_header(t) is Some {
            (p.0.push(l), true)
        } else if p.1 {
            if is_terminal_line(t) || is_echo_line(t) {
                (p.0.push(l), false)
            } else {
                p
            }
        } else {
            (p.0.push(l), false)
        }
    }
}

/// The response as shown in a transcript: SMS body lines are left out,
/// since decoded bodies are reported separately.
pub open spec fn display_response(text: Seq<char>) -> Seq<char> {
    join_seqs(display_state(preserved_lines(text)).0, "\n"@)
}

pub fn render_sequence_modem_response_for_display(text: &Vec<char>) -> (r: Vec<char>)
    ensures
        r@ == display_response(text@),
{
    let lines = response_lines_preserving_empty(text);
    let ghost all = seqs_view(lines@);
    let mut out: Vec<Vec<char>> = Vec::new();
    let mut collect = false;
    let mut i: usize = 0;
    assert(all.take(0) =~= Seq::<Seq<char>>::empty());
    assert(seqs_view(out@) =~= Seq::<Seq<char>>::empty());
    while i < lines.len()
        invariant
            i <= lines.len(),
            all == seqs_view(lines@),
            display_state(all.take(i as int)) == (seqs_view(out@), collect),
        decreases lines.len() - i,
    {
        assert(all.take(i + 1).drop_last() =~= all.take(i as int));
        assert(all.take(i + 1).last() == lines@[i as int]@);
        let line = &lines[i];
        let t = trim_chars(line);
        let copy = slice(line, 0, line.len());
        assert(copy@ =~= line@);
        let is_header = match strip_prefix_exec(&t, "+CMGL:") {
            Some(_) => true,
            None => match strip_prefix_exec(&t, "+CMGR:") {
                Some(_) => true,
                None => false,
            },
        };
        if is_header {
            push_part(&mut out, copy);
            collect = true;
        } else if collect {
            if is_terminal_response_line(&t) || is_command_echo_line(&t) {
                push_part(&mut out, copy);
                collect = false;
            }
        } else {
            push_part(&mut out, copy);
        }
        i += 1;
    }
    assert(all.take(i as int) =~= all);
    join_chars(&out, "\n")
}

// ---------------------------------------------------------------------
// Sensitive parameter values
// ---------------------------------------------------------------------
/// `str::replace`: every non-overlapping occurrence of `pat`, left to
/// right, replaced by `rep`.
pub open spec fn replace_all(s: Seq<char>, pat: Seq<char>, rep: Seq<char>) -> Seq<char>
    decreases s.len(),
{
    match find_from(s, pat, 0) {
        None => s,
        Some(i) => {
            let rest = s.skip(i + pat.len());
            if pat.len() > 0 && rest.len() < s.len() {
                s.take(i) + rep + replace_all(rest, pat, rep)
            } else {
                s
            }
        },
    }
}

pub fn replace_all_exec(s: &Vec<char>, pat: &Vec<char>, rep: &Vec<char>) -> (r: Vec<char>)
    requires
        pat.len() > 0,
    ensures
        r@ == replace_all(s@, pat@, rep@),
{
    let ghost full = replace_all(s@, pat@, rep@);
    let mut out: Vec<char> = Vec::new();
    let mut rest = slice(s, 0, s.len());
    assert(rest@ =~= s@);
    assert(out@ + replace_all(rest@, pat@, rep@) =~= full);
    loop
        invariant
            pat.len() > 0,
            full == replace_all(s@, pat@, rep@),
            out@ + replace_all(rest@, pat@, rep@) == full,
        decreases rest.len(),
    {
        proof {
            lemma_find_from(rest@, pat@, 0);
        }
        match find_from_exec(&rest, pat, 0) {
            None => {
                push_all(&mut out, &rest);
                return out;
            },
            Some(i) => {
                let head = slice(&rest, 0, i);
                let next = slice(&rest, i + pat.len(), rest.len());
                let ghost before = out@;
                push_all(&mut out, &head);
                push_all(&mut out, rep);
                proof {
                    assert(head@ =~= rest@.take(i as int));
                    assert(next@ =~= rest@.skip(i + pat.len()));
                    assert(out@ + replace_all(next@, pat@, rep@) =~= before + (rest@.take(i as int)
                        + rep@ + replace_all(next@, pat@, rep@)));
                }
                rest = next;
            },
        }
    }
}

/// Each sensitive, non-empty bound value replaced by its masked form, in
/// binding order.
pub open spec fn mask_bound_values(s: Seq<char>, entries: Seq<BindingView>) -> Seq<char>
    decreases entries.len(),
{
    if entries.len() == 0 {
        s
    } else {
        let prev = mask_bound_values(s, entries.drop_last());
        let e = entries.last();
        if e.2 && e.1.len() > 0 {
            replace_all(prev, e.1, masked_identifier(e.1))
        } else {
            prev
        }
    }
}

/// Masked transcript text: sensitive parameter values, then protocol
/// payloads, then identifiers and credentials.
pub open spec fn masked_sequence_text(text: Seq<char>, b: Seq<BindingView>) -> Seq<char> {
    masked_text(masked_protocol(mask_bound_values(text, b)))
}

pub fn mask_sequence_text(text: &Vec<char>, bindings: &Bindings) -> (r: Vec<char>)
    ensures
        r@ == masked_sequence_text(text@, bindings@),
{
    let mut output = slice(text, 0, text.len());
    assert(output@ =~= text@);
    let n = bindings.len();
    let mut i: usize = 0;
    assert(bindings@.take(0) =~= Seq::<BindingView>::empty());
    while i < n
        invariant
            i <= n,
            n == bindings@.len(),
            output@ == mask_bound_values(text@, bindings@.take(i as int)),
        decreases n - i,
    {
        assert(bindings@.take(i + 1).drop_last() =~= bindings@.take(i as int));
        let e = bindings.entry(i);
        assert(bindings@.take(i + 1).last() == entry_view(*e));
        if e.param.sensitive {
            let value = chars_of(e.param.value.as_str());
            if value.len() > 0 {
                let masked = mask_identifier_chars(&value);
                output = replace_all_exec(&output, &value, &masked);
            }
        }
        i += 1;
    }
    assert(bindings@.take(i as int) =~= bindings@);
    let protocol = mask_sequence_protocol_data(&output);
    mask_sensitive_chars(&protocol)
}

} // verus!
