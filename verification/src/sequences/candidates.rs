//! Candidate values offered for a parameter: SMS storage indexes from SMS
//! listings and PDP context ids from context listings.
use vstd::prelude::*;

use crate::at::mask::{mask_identifier_chars, masked_identifier};
use crate::sequences::bindings::{lemma_less_asymmetric, lemma_less_irreflexive, lemma_less_total, lemma_less_transitive, less_chars, seq_less};
use crate::sequences::csv::{csv_fields, csv_value, csv_value_exec, split_csv_fields, strip_prefix, strip_prefix_exec};
use crate::sequences::model::SequenceCandidateSource;
use crate::sequences::sms::{decoded_body, decode_sms_body, ov, parse_sms_messages, sms_messages, sms_view, sms_views, SmsMessage, SmsView};
use crate::text::{
    chars_eq, chars_of, eq_str, join_seqs, push_all, push_part, push_str, seqs_view, slice, string_of,
    text_lines, text_lines_exec, trim, trim_chars,
};

verus! {

broadcast use vstd::string::group_string_axioms;

/// An SMS message offered as a value for an SMS storage index parameter.
#[derive(Debug, Clone, PartialEq, Eq)]
pub struct SmsMessageCandidate {
    pub index: String,
    pub status: Option<String>,
    pub sender: Option<String>,
    pub masked_sender: Option<String>,
    pub timestamp: Option<String>,
    pub raw_body_preview: Option<String>,
    pub masked_body_preview: Option<String>,
}

/// A candidate value with its label, unmasked and masked.
#[derive(Debug, Clone, PartialEq, Eq)]
pub struct SequenceValueCandidate {
    pub value: String,
    pub raw_label: String,
    pub masked_label: String,
}

/// The candidates one kind of modem output offers.
#[derive(Debug, Clone, PartialEq, Eq)]
pub struct SequenceValueCandidateSet {
    pub candidate: SequenceCandidateSource,
    pub candidates: Vec<SequenceValueCandidate>,
}

pub open spec fn os(o: Option<String>) -> Option<Seq<char>> {
    match o {
        Some(s) => Some(s@),
        None => None,
    }
}

pub type SmsCandidateView = (
    Seq<char>,
    Option<Seq<char>>,
    Option<Seq<char>>,
    Option<Seq<char>>,
    Option<Seq<char>>,
    Option<Seq<char>>,
    Option<Seq<char>>,
);

pub open spec fn sms_candidate_view(c: SmsMessageCandidate) -> SmsCandidateView {
    (
        c.index@,
        os(c.status),
        os(c.sender),
        os(c.masked_sender),
        os(c.timestamp),
        os(c.raw_body_preview),
        os(c.masked_body_preview),
    )
}

/// At most 32 characters of a body, with `...` when it is longer.
pub open spec fn body_preview(v: Seq<char>) -> Seq<char> {
    if v.len() > 32 {
        v.take(32) + "..."@
    } else {
        v
    }
}

/// The candidate a message offers: only messages with a storage index.
pub open spec fn sms_candidate(m: SmsView) -> Option<SmsCandidateView> {
    match m.0 {
        None => None,
        Some(ix) => {
            let index = trim(ix);
            if index.len() == 0 {
                None
            } else {
                let raw_preview = match decoded_body(m.4) {
                    Some(d) => Some(body_preview(d.1)),
                    None => if trim(m.4).len() > 0 {
                        Some("<undecodable>"@)
                    } else {
                        None
                    },
                };
                let masked_preview = match raw_preview {
                    Some(_) => Some("<masked sensitive body>"@),
                    None => None,
                };
                let masked_sender = match m.2 {
                    Some(s) => Some(masked_identifier(s)),
                    None => None,
                };
                Some((index, m.1, m.2, masked_sender, m.3, raw_preview, masked_preview))
            }
        },
    }
}

pub open spec fn sms_candidates(ms: Seq<SmsView>) -> Seq<SmsCandidateView>
    decreases ms.len(),
{
    if ms.len() == 0 {
        Seq::empty()
    } else {
        match sms_candidate(ms.last()) {
            Some(c) => sms_candidates(ms.drop_last()).push(c),
            None => sms_candidates(ms.drop_last()),
        }
    }
}

fn opt_string(o: &Option<Vec<char>>) -> (r: Option<String>)
    ensures
        os(r) == ov(*o),
{
    match o {
        Some(v) => Some(string_of(v)),
        None => None,
    }
}

fn body_preview_exec(v: &Vec<char>) -> (r: Vec<char>)
    ensures
        r@ == body_preview(v@),
{
    if v.len() > 32 {
        let mut p = slice(v, 0, 32);
        assert(p@ =~= v@.take(32));
        push_str(&mut p, "...");
        p
    } else {
        slice(v, 0, v.len())
    }
}

fn sms_candidate_from_message(m: &SmsMessage) -> (r: Option<SmsMessageCandidate>)
    ensures
        match sms_candidate(sms_view(*m)) {
            Some(c) => r matches Some(x) && sms_candidate_view(x) == c,
            None => r is None,
        },
{
    let ix = match &m.index {
        Some(v) => v,
        None => return None,
    };
    let index = trim_chars(ix);
    if index.len() == 0 {
        return None;
    }
    let raw_preview: Option<Vec<char>> = match decode_sms_body(&m.body) {
        Some((_, value)) => Some(body_preview_exec(&value)),
        None => {
            let t = trim_chars(&m.body);
            if t.len() > 0 {
                Some(chars_of("<undecodable>"))
            } else {
                None
            }
        },
    };
    let masked_preview: Option<String> = match raw_preview {
        Some(_) => Some("<masked sensitive body>".to_owned()),
        None => None,
    };
    let masked_sender: Option<String> = match &m.sender {
        Some(s) => Some(string_of(&mask_identifier_chars(s))),
        None => None,
    };
    Some(
        SmsMessageCandidate {
            index: string_of(&index),
            status: opt_string(&m.status),
            sender: opt_string(&m.sender),
            masked_sender,
            timestamp: opt_string(&m.timestamp),
            raw_body_preview: opt_string(&raw_preview),
            masked_body_preview: masked_preview,
        },
    )
}

/// The SMS messages of a response that carry a storage index.
pub fn sms_candidates_from_chars(text: &Vec<char>) -> (r: Vec<SmsMessageCandidate>)
    ensures
        r@.map_values(|c: SmsMessageCandidate| sms_candidate_view(c)) == sms_candidates(
            sms_messages(text@),
        ),
{
    let messages = parse_sms_messages(text);
    let ghost ms = sms_views(messages@);
    let mut r: Vec<SmsMessageCandidate> = Vec::new();
    let mut i: usize = 0;
    assert(ms.take(0) =~= Seq::<SmsView>::empty());
    assert(r@.map_values(|c: SmsMessageCandidate| sms_candidate_view(c)) =~= Seq::<SmsCandidateView>::empty());
    while i < messages.len()
        invariant
            i <= messages.len(),
            ms == sms_views(messages@),
            r@.map_values(|c: SmsMessageCandidate| sms_candidate_view(c)) == sms_candidates(
                ms.take(i as int),
            ),
        decreases messages.len() - i,
    {
        assert(ms.take(i + 1).drop_last() =~= ms.take(i as int));
        assert(ms.take(i + 1).last() == sms_view(messages@[i as int]));
        let ghost before = r@;
        match sms_candidate_from_message(&messages[i]) {
            Some(c) => {
                r.push(c);
                assert(r@.map_values(|c: SmsMessageCandidate| sms_candidate_view(c)) =~= before.map_values(|c: SmsMessageCandidate| sms_candidate_view(c)).push(sms_candidate_view(c)));
            },
            None => {},
        }
        i += 1;
    }
    assert(ms.take(i as int) =~= ms);
    r
}

/// The SMS candidates of a response text.
pub fn sms_candidates_from_text(text: &str) -> (r: Vec<SmsMessageCandidate>)
    ensures
        r@.map_values(|c: SmsMessageCandidate| sms_candidate_view(c)) == sms_candidates(
            sms_messages(text@),
        ),
{
    sms_candidates_from_chars(&chars_of(text))
}

pub open spec fn or_dash(o: Option<Seq<char>>) -> Seq<char> {
    match o {
        Some(v) => v,
        None => "-"@,
    }
}

/// `storage=<index>  <status>  <sender>  <timestamp>  <preview>`, each
/// missing part shown as `-`, the sender and preview masked when `masked`.
pub open spec fn sms_label(c: SmsCandidateView, masked: bool) -> Seq<char> {
    let sender = if masked {
        c.3
    } else {
        c.2
    };
    let preview = if masked {
        c.6
    } else {
        c.5
    };
    "storage="@ + c.0 + "  "@ + or_dash(c.1) + "  "@ + or_dash(sender) + "  "@ + or_dash(c.4)
        + "  "@ + or_dash(preview)
}

fn push_or_dash(v: &mut Vec<char>, o: &Option<String>)
    ensures
        final(v)@ == old(v)@ + or_dash(os(*o)),
{
    match o {
        Some(s) => push_str(v, s.as_str()),
        None => push_str(v, "-"),
    }
}

fn sms_candidate_label_text(c: &SmsMessageCandidate, masked: bool) -> (r: String)
    ensures
        r@ == sms_label(sms_candidate_view(*c), masked),
{
    let mut v = chars_of("storage=");
    push_str(&mut v, c.index.as_str());
    push_str(&mut v, "  ");
    push_or_dash(&mut v, &c.status);
    push_str(&mut v, "  ");
    if masked {
        push_or_dash(&mut v, &c.masked_sender);
    } else {
        push_or_dash(&mut v, &c.sender);
    }
    push_str(&mut v, "  ");
    push_or_dash(&mut v, &c.timestamp);
    push_str(&mut v, "  ");
    if masked {
        push_or_dash(&mut v, &c.masked_body_preview);
    } else {
        push_or_dash(&mut v, &c.raw_body_preview);
    }
    string_of(&v)
}

pub type ValueCandidateView = (Seq<char>, Seq<char>, Seq<char>);

pub open spec fn value_candidate_view(c: SequenceValueCandidate) -> ValueCandidateView {
    (c.value@, c.raw_label@, c.masked_label@)
}

pub open spec fn value_views(cs: Seq<SequenceValueCandidate>) -> Seq<ValueCandidateView> {
    cs.map_values(|c: SequenceValueCandidate| value_candidate_view(c))
}

/// An SMS candidate as a value: its index, labelled for display.
pub open spec fn sms_value(c: SmsCandidateView) -> ValueCandidateView {
    (c.0, sms_label(c, false), sms_label(c, true))
}

fn sequence_value_candidate_from_sms(c: &SmsMessageCandidate) -> (r: SequenceValueCandidate)
    ensures
        value_candidate_view(r) == sms_value(sms_candidate_view(*c)),
{
    SequenceValueCandidate {
        value: c.index.clone(),
        raw_label: sms_candidate_label_text(c, false),
        masked_label: sms_candidate_label_text(c, true),
    }
}

// ---------------------------------------------------------------------
// PDP contexts
// ---------------------------------------------------------------------
/// The context id of a `+CGACT:` or `+CGDCONT:` line.
pub open spec fn context_id(line: Seq<char>) -> Option<Seq<char>> {
    match strip_prefix(line, "+CGACT:"@) {
        Some(rest) => csv_value(csv_fields(rest), 0),
        None => match strip_prefix(line, "+CGDCONT:"@) {
            Some(rest) => csv_value(csv_fields(rest), 0),
            None => None,
        },
    }
}

/// Whether some line of the text names context `id`.
pub open spec fn names_context(lines: Seq<Seq<char>>, id: Seq<char>) -> bool {
    exists|i: int| 0 <= i < lines.len() && #[trigger] context_id(lines[i]) == Some(id)
}

/// Strictly ascending.
pub open spec fn strictly_sorted(v: Seq<Seq<char>>) -> bool {
    forall|i: int, j: int| 0 <= i < j < v.len() ==> seq_less(#[trigger] v[i], #[trigger] v[j])
}

/// Inserts `x` into a strictly ascending list unless it is there.
fn insert_sorted(v: &mut Vec<Vec<char>>, x: &Vec<char>)
    requires
        strictly_sorted(seqs_view(old(v)@)),
    ensures
        strictly_sorted(seqs_view(final(v)@)),
        forall|y: Seq<char>| seqs_view(final(v)@).contains(y) <==> (seqs_view(old(v)@).contains(y) || y == x@),
{
    let ghost before = seqs_view(v@);
    let mut p: usize = 0;
    while p < v.len() && less_chars(&v[p], x)
        invariant
            p <= v.len(),
            before == seqs_view(v@),
            forall|k: int| 0 <= k < p ==> seq_less(#[trigger] before[k], x@),
        decreases v.len() - p,
    {
        assert(before[p as int] == v@[p as int]@);
        p += 1;
    }
    if p < v.len() && chars_eq(&v[p], x) {
        assert(before[p as int] == x@);
        assert(before.contains(x@));
        return;
    }
    proof {
        if p < before.len() {
            assert(before[p as int] == v@[p as int]@);
            lemma_less_total(before[p as int], x@);
        }
    }
    let copy = slice(x, 0, x.len());
    assert(copy@ =~= x@);
    v.insert(p, copy);
    proof {
        let w = seqs_view(v@);
        assert(w =~= before.insert(p as int, x@));
        assert forall|i: int, j: int| 0 <= i < j < w.len() implies seq_less(#[trigger] w[i], #[trigger] w[j]) by {
            if j < p {
                assert(w[i] == before[i] && w[j] == before[j]);
            } else if j == p {
                assert(w[i] == before[i] && w[j] == x@);
            } else if i == p {
                assert(w[i] == x@ && w[j] == before[j - 1]);
                if j - 1 > p {
                    assert(seq_less(before[p as int], before[j - 1]));
                    lemma_less_transitive(x@, before[p as int], before[j - 1]);
                }
            } else if i < p {
                assert(w[i] == before[i] && w[j] == before[j - 1]);
                if j - 1 >= p {
                    if p < before.len() {
                        assert(seq_less(x@, before[p as int]));
                    }
                }
                if i < j - 1 {
                } else {
                }
                assert(seq_less(before[i], x@));
                if j - 1 == p {
                    lemma_less_transitive(before[i], x@, before[p as int]);
                } else {
                    assert(seq_less(before[p as int], before[j - 1]));
                    lemma_less_transitive(x@, before[p as int], before[j - 1]);
                    lemma_less_transitive(before[i], x@, before[j - 1]);
                }
            } else {
                assert(w[i] == before[i - 1] && w[j] == before[j - 1]);
            }
        }
        assert forall|y: Seq<char>| w.contains(y) <==> (before.contains(y) || y == x@) by {
            if w.contains(y) {
                let k = choose|k: int| 0 <= k < w.len() && w[k] == y;
                if k < p {
                    assert(before[k] == y);
                } else if k > p {
                    assert(before[k - 1] == y);
                }
            }
            if before.contains(y) {
                let k = choose|k: int| 0 <= k < before.len() && before[k] == y;
                if k < p {
                    assert(w[k] == y);
                } else {
                    assert(w[k + 1] == y);
                }
            }
            if y == x@ {
                assert(w[p as int] == y);
            }
        }
    }
}

fn context_id_exec(line: &Vec<char>) -> (r: Option<Vec<char>>)
    ensures
        ov(r) == context_id(line@),
{
    match strip_prefix_exec(line, "+CGACT:") {
        Some(rest) => csv_value_exec(&split_csv_fields(&rest), 0),
        None => match strip_prefix_exec(line, "+CGDCONT:") {
            Some(rest) => csv_value_exec(&split_csv_fields(&rest), 0),
            None => None,
        },
    }
}

/// What a `+CGACT:` line with a context id says of the context: `active`
/// for state 1, `inactive` for 0, `state=<value>` for another state, `-`
/// without one.
pub open spec fn cgact_detail_text(line: Seq<char>) -> Option<Seq<char>> {
    match strip_prefix(line, "+CGACT:"@) {
        None => None,
        Some(rest) => {
            let fields = csv_fields(rest);
            if csv_value(fields, 0) is None {
                None
            } else {
                match csv_value(fields, 1) {
                    Some(v) => if v == "1"@ {
                        Some("active"@)
                    } else if v == "0"@ {
                        Some("inactive"@)
                    } else {
                        Some("state="@ + v)
                    },
                    None => Some("-"@),
                }
            }
        },
    }
}

/// The PDP type and APN (those present) of a `+CGDCONT:` line with a
/// context id.
pub open spec fn cgdcont_detail_texts(line: Seq<char>) -> Seq<Seq<char>> {
    match strip_prefix(line, "+CGDCONT:"@) {
        None => Seq::empty(),
        Some(rest) => {
            let fields = csv_fields(rest);
            if csv_value(fields, 0) is None {
                Seq::empty()
            } else {
                let pdp_type = match csv_value(fields, 1) {
                    Some(v) => seq![v],
                    None => Seq::empty(),
                };
                let apn = match csv_value(fields, 2) {
                    Some(v) => seq![v],
                    None => Seq::empty(),
                };
                pdp_type + apn
            }
        },
    }
}

/// Whether `line` is about context `id` and says `d` of it.
pub open spec fn line_detail(line: Seq<char>, id: Seq<char>, d: Seq<char>) -> bool {
    context_id(line) == Some(id) && (cgact_detail_text(line) == Some(d) || cgdcont_detail_texts(
        line,
    ).contains(d))
}

/// Whether some line says `d` of context `id`.
pub open spec fn context_detail(lines: Seq<Seq<char>>, id: Seq<char>, d: Seq<char>) -> bool {
    exists|i: int| 0 <= i < lines.len() && #[trigger] line_detail(lines[i], id, d)
}

/// Whether `ds` is what the lines say of context `id`, each once, in
/// ascending order.
pub open spec fn detail_order(lines: Seq<Seq<char>>, id: Seq<char>, ds: Seq<Seq<char>>) -> bool {
    strictly_sorted(ds) && forall|d: Seq<char>| ds.contains(d) <==> context_detail(lines, id, d)
}

/// A context's label: its id, then its details, two spaces apart.
pub open spec fn pdp_label(id: Seq<char>, ds: Seq<Seq<char>>) -> Seq<char> {
    if ds.len() == 0 {
        id
    } else {
        id + "  "@ + join_seqs(ds, "  "@)
    }
}

/// Whether `label` is context `id`'s label after what the lines say of it.
pub open spec fn labels_context(lines: Seq<Seq<char>>, id: Seq<char>, label: Seq<char>) -> bool {
    exists|ds: Seq<Seq<char>>| #[trigger] detail_order(lines, id, ds) && label == pdp_label(id, ds)
}

/// Whether `cs` lists the contexts of `text`: one candidate per context
/// id, ascending, each labelled by what the text says of it, the same
/// label masked and unmasked.
pub open spec fn pdp_listing(text: Seq<char>, cs: Seq<ValueCandidateView>) -> bool {
    let lines = text_lines(text);
    &&& strictly_sorted(values_of(cs))
    &&& forall|id: Seq<char>| values_of(cs).contains(id) <==> names_context(lines, id)
    &&& forall|q: int|
        0 <= q < cs.len() ==> labels_context(lines, (#[trigger] cs[q]).0, cs[q].1) && cs[q].2
            == cs[q].1
}

proof fn lemma_context_detail_step(all: Seq<Seq<char>>, j: int, id: Seq<char>, d: Seq<char>)
    requires
        0 <= j < all.len(),
    ensures
        context_detail(all.take(j + 1), id, d) <==> (context_detail(all.take(j), id, d) || line_detail(
            all[j],
            id,
            d,
        )),
{
    let t = all.take(j + 1);
    let u = all.take(j);
    if context_detail(t, id, d) {
        let k = choose|k: int| 0 <= k < t.len() && #[trigger] line_detail(t[k], id, d);
        if k < j {
            assert(u[k] == t[k]);
        }
    }
    if context_detail(u, id, d) {
        let k = choose|k: int| 0 <= k < u.len() && #[trigger] line_detail(u[k], id, d);
        assert(t[k] == u[k]);
    }
    if line_detail(all[j], id, d) {
        assert(t[j] == all[j]);
    }
}

/// What a `+CGACT:` line says of a context: active, inactive, or its state.
fn cgact_detail(line: &Vec<char>) -> (r: Option<Vec<char>>)
    ensures
        ov(r) == cgact_detail_text(line@),
{
    let rest = match strip_prefix_exec(line, "+CGACT:") {
        Some(r) => r,
        None => return None,
    };
    let fields = split_csv_fields(&rest);
    match csv_value_exec(&fields, 0) {
        None => return None,
        Some(_) => {},
    }
    match csv_value_exec(&fields, 1) {
        Some(v) => {
            if eq_str(&v, "1") {
                Some(chars_of("active"))
            } else if eq_str(&v, "0") {
                Some(chars_of("inactive"))
            } else {
                let mut d = chars_of("state=");
                push_all(&mut d, &v);
                Some(d)
            }
        },
        None => Some(chars_of("-")),
    }
}

/// The PDP type and APN of a `+CGDCONT:` line.
fn cgdcont_details(line: &Vec<char>) -> (r: Vec<Vec<char>>)
    ensures
        seqs_view(r@) == cgdcont_detail_texts(line@),
{
    let mut r: Vec<Vec<char>> = Vec::new();
    let rest = match strip_prefix_exec(line, "+CGDCONT:") {
        Some(x) => x,
        None => return r,
    };
    let fields = split_csv_fields(&rest);
    match csv_value_exec(&fields, 0) {
        None => return r,
        Some(_) => {},
    }
    match csv_value_exec(&fields, 1) {
        Some(v) => r.push(v),
        None => {},
    }
    match csv_value_exec(&fields, 2) {
        Some(v) => r.push(v),
        None => {},
    }
    assert(seqs_view(r@) =~= cgdcont_detail_texts(line@));
    r
}

/// The PDP contexts listed in a response (`+CGACT:` and `+CGDCONT:`
/// lines), one candidate per context id in ascending order, labelled with
/// the context's state, PDP type and APN.
pub fn pdp_context_candidates_from_chars(text: &Vec<char>) -> (r: Vec<SequenceValueCandidate>)
    ensures
        pdp_listing(text@, value_views(r@)),
{
    let lines = text_lines_exec(text);
    let ghost all = seqs_view(lines@);
    let mut ids: Vec<Vec<char>> = Vec::new();
    let mut i: usize = 0;
    assert(seqs_view(ids@) =~= Seq::<Seq<char>>::empty());
    while i < lines.len()
        invariant
            i <= lines.len(),
            all == seqs_view(lines@),
            all == text_lines(text@),
            strictly_sorted(seqs_view(ids@)),
            forall|id: Seq<char>|
                seqs_view(ids@).contains(id) <==> names_context(all.take(i as int), id),
        decreases lines.len() - i,
    {
        let ghost before = seqs_view(ids@);
        assert(all[i as int] == lines@[i as int]@);
        match context_id_exec(&lines[i]) {
            Some(id) => {
                insert_sorted(&mut ids, &id);
            },
            None => {},
        }
        proof {
            assert forall|id: Seq<char>| seqs_view(ids@).contains(id) <==> names_context(all.take(i + 1), id) by {
                let t = all.take(i + 1);
                if names_context(t, id) {
                    let k = choose|k: int| 0 <= k < t.len() && #[trigger] context_id(t[k]) == Some(id);
                    if k < i {
                        assert(all.take(i as int)[k] == t[k]);
                        assert(names_context(all.take(i as int), id));
                    }
                }
                if names_context(all.take(i as int), id) {
                    let k = choose|k: int| 0 <= k < i && #[trigger] context_id(all.take(i as int)[k]) == Some(id);
                    assert(t[k] == all.take(i as int)[k]);
                    assert(names_context(t, id));
                }
                if context_id(all[i as int]) == Some(id) {
                    assert(t[i as int] == all[i as int]);
                    assert(names_context(t, id));
                }
            }
        }
        i += 1;
    }
    assert(all.take(i as int) =~= all);
    let mut r: Vec<SequenceValueCandidate> = Vec::new();
    let mut k: usize = 0;
    while k < ids.len()
        invariant
            k <= ids.len(),
            r.len() == k,
            all == seqs_view(lines@),
            forall|q: int| 0 <= q < k ==> (#[trigger] r@[q]).value@ == ids@[q]@,
            forall|q: int|
                0 <= q < k ==> labels_context(all, (#[trigger] r@[q]).value@, r@[q].raw_label@)
                    && r@[q].masked_label@ == r@[q].raw_label@,
        decreases ids.len() - k,
    {
        let id = &ids[k];
        let mut details: Vec<Vec<char>> = Vec::new();
        let mut j: usize = 0;
        assert(seqs_view(details@) =~= Seq::<Seq<char>>::empty());
        while j < lines.len()
            invariant
                j <= lines.len(),
                all == seqs_view(lines@),
                strictly_sorted(seqs_view(details@)),
                forall|d: Seq<char>|
                    seqs_view(details@).contains(d) <==> context_detail(all.take(j as int), id@, d),
            decreases lines.len() - j,
        {
            let ghost before = seqs_view(details@);
            let ghost line = all[j as int];
            assert(line == lines@[j as int]@);
            match context_id_exec(&lines[j]) {
                Some(line_id) => {
                    if chars_eq(&line_id, id) {
                        let act = cgact_detail(&lines[j]);
                        match &act {
                            Some(d) => insert_sorted(&mut details, d),
                            None => {},
                        }
                        let ghost after_state = seqs_view(details@);
                        assert(forall|d: Seq<char>|
                            after_state.contains(d) <==> (before.contains(d) || cgact_detail_text(line)
                                == Some(d)));
                        let more = cgdcont_details(&lines[j]);
                        let mut m: usize = 0;
                        while m < more.len()
                            invariant
                                m <= more.len(),
                                strictly_sorted(seqs_view(details@)),
                                seqs_view(more@) == cgdcont_detail_texts(line),
                                forall|d: Seq<char>|
                                    #[trigger] seqs_view(details@).contains(d) <==> (after_state.contains(d)
                                        || seqs_view(more@).take(m as int).contains(d)),
                            decreases more.len() - m,
                        {
                            let ghost mid = seqs_view(details@);
                            insert_sorted(&mut details, &more[m]);
                            proof {
                                let mv = seqs_view(more@);
                                assert(mv[m as int] == more@[m as int]@);
                                assert(mv.take(m + 1) =~= mv.take(m as int).push(mv[m as int]));
                                assert forall|d: Seq<char>|
                                    #[trigger] seqs_view(details@).contains(d) <==> (after_state.contains(d)
                                        || mv.take(m + 1).contains(d)) by {
                                    assert(mid.contains(d) <==> (after_state.contains(d) || mv.take(m as int).contains(d)));
                                    vstd::seq_lib::lemma_seq_contains_after_push(mv.take(m as int), mv[m as int], d);
                                }
                            }
                            m += 1;
                        }
                        proof {
                            assert(seqs_view(more@).take(m as int) =~= seqs_view(more@));
                            assert(context_id(line) == Some(id@));
                            assert forall|d: Seq<char>|
                                #[trigger] seqs_view(details@).contains(d) <==> (before.contains(d) || line_detail(
                                    line,
                                    id@,
                                    d,
                                )) by {
                                assert(seqs_view(details@).contains(d) <==> (after_state.contains(d)
                                    || seqs_view(more@).take(m as int).contains(d)));
                                assert(after_state.contains(d) <==> (before.contains(d) || cgact_detail_text(line)
                                    == Some(d)));
                            }
                        }
                    } else {
                        proof {
                            assert forall|d: Seq<char>| !line_detail(line, id@, d) by {}
                        }
                    }
                },
                None => {
                    proof {
                        assert forall|d: Seq<char>| !line_detail(line, id@, d) by {}
                    }
                },
            }
            proof {
                assert forall|d: Seq<char>|
                    seqs_view(details@).contains(d) <==> context_detail(all.take(j + 1), id@, d) by {
                    lemma_context_detail_step(all, j as int, id@, d);
                }
            }
            j += 1;
        }
        assert(all.take(j as int) =~= all);
        let mut label = slice(id, 0, id.len());
        if details.len() > 0 {
            push_str(&mut label, "  ");
            let joined = crate::text::join_chars(&details, "  ");
            push_all(&mut label, &joined);
        }
        proof {
            let ds = seqs_view(details@);
            assert(label@ =~= pdp_label(id@, ds));
            assert(detail_order(all, id@, ds));
        }
        let masked = slice(&label, 0, label.len());
        r.push(
            SequenceValueCandidate {
                value: string_of(id),
                raw_label: string_of(&label),
                masked_label: string_of(&masked),
            },
        );
        k += 1;
    }
    proof {
        let vals = values_of(value_views(r@));
        assert(vals =~= seqs_view(ids@));
        assert forall|q: int| 0 <= q < value_views(r@).len() implies labels_context(
            all,
            (#[trigger] value_views(r@)[q]).0,
            value_views(r@)[q].1,
        ) && value_views(r@)[q].2 == value_views(r@)[q].1 by {
            assert(value_views(r@)[q] == value_candidate_view(r@[q]));
        }
    }
    r
}

// ---------------------------------------------------------------------
// Candidate sets
// ---------------------------------------------------------------------
/// The candidates without later ones that repeat an earlier value.
pub open spec fn dedupe(cs: Seq<ValueCandidateView>) -> Seq<ValueCandidateView>
    decreases cs.len(),
{
    if cs.len() == 0 {
        Seq::empty()
    } else {
        let prev = dedupe(cs.drop_last());
        if values_of(prev).contains(cs.last().0) {
            prev
        } else {
            prev.push(cs.last())
        }
    }
}

fn dedupe_candidates(cs: Vec<SequenceValueCandidate>) -> (r: Vec<SequenceValueCandidate>)
    ensures
        value_views(r@) == dedupe(value_views(cs@)),
{
    let ghost all = value_views(cs@);
    let mut r: Vec<SequenceValueCandidate> = Vec::new();
    let mut i: usize = 0;
    assert(all.take(0) =~= Seq::<ValueCandidateView>::empty());
    assert(value_views(r@) =~= Seq::<ValueCandidateView>::empty());
    while i < cs.len()
        invariant
            i <= cs.len(),
            all == value_views(cs@),
            value_views(r@) == dedupe(all.take(i as int)),
        decreases cs.len() - i,
    {
        assert(all.take(i + 1).drop_last() =~= all.take(i as int));
        assert(all.take(i + 1).last() == value_candidate_view(cs@[i as int]));
        let c = &cs[i];
        let mut seen = false;
        let mut k: usize = 0;
        let ghost prev = value_views(r@);
        while k < r.len()
            invariant
                k <= r.len(),
                prev == value_views(r@),
                seen == exists|q: int| 0 <= q < k && prev[q].0 == c.value@,
            decreases r.len() - k,
        {
            assert(prev[k as int] == value_candidate_view(r@[k as int]));
            if r[k].value == c.value {
                seen = true;
            }
            k += 1;
        }
        proof {
            let vals = values_of(prev);
            assert(seen == vals.contains(c.value@)) by {
                if seen {
                    let q = choose|q: int| 0 <= q < r.len() && prev[q].0 == c.value@;
                    assert(vals[q] == c.value@);
                }
                if vals.contains(c.value@) {
                    let q = choose|q: int| 0 <= q < vals.len() && vals[q] == c.value@;
                    assert(prev[q].0 == c.value@);
                }
            }
        }
        if !seen {
            r.push(
                SequenceValueCandidate {
                    value: c.value.clone(),
                    raw_label: c.raw_label.clone(),
                    masked_label: c.masked_label.clone(),
                },
            );
            assert(value_views(r@) =~= prev.push(value_candidate_view(cs@[i as int])));
        }
        i += 1;
    }
    assert(all.take(i as int) =~= all);
    r
}

/// The SMS values offered by each response, in order.
pub open spec fn sms_values_of(responses: Seq<Seq<char>>) -> Seq<ValueCandidateView>
    decreases responses.len(),
{
    if responses.len() == 0 {
        Seq::empty()
    } else {
        sms_values_of(responses.drop_last()) + sms_candidates(sms_messages(responses.last())).map_values(
            |c: SmsCandidateView| sms_value(c),
        )
    }
}

/// Whether some response names context `id`.
pub open spec fn some_names_context(responses: Seq<Seq<char>>, id: Seq<char>) -> bool {
    exists|k: int| 0 <= k < responses.len() && names_context(text_lines(#[trigger] responses[k]), id)
}

pub open spec fn candidate_values(cs: Seq<SequenceValueCandidate>) -> Seq<Seq<char>> {
    values_of(value_views(cs))
}

pub open spec fn values_of(cs: Seq<ValueCandidateView>) -> Seq<Seq<char>> {
    cs.map_values(|c: ValueCandidateView| c.0)
}

/// The lists joined in order.
pub open spec fn flatten_views(lists: Seq<Seq<ValueCandidateView>>) -> Seq<ValueCandidateView>
    decreases lists.len(),
{
    if lists.len() == 0 {
        Seq::empty()
    } else {
        flatten_views(lists.drop_last()) + lists.last()
    }
}

/// Whether `lists` holds, for each response, its context listing.
pub open spec fn listings_of(responses: Seq<Seq<char>>, lists: Seq<Seq<ValueCandidateView>>) -> bool {
    lists.len() == responses.len() && forall|k: int|
        0 <= k < lists.len() ==> pdp_listing(responses[k], #[trigger] lists[k])
}

/// Whether `cs` is the PDP context set of the responses: the contexts of
/// each response, listed in order, without later repeats of a value.
pub open spec fn pdp_candidates_of(responses: Seq<Seq<char>>, cs: Seq<ValueCandidateView>) -> bool {
    exists|lists: Seq<Seq<ValueCandidateView>>|
        #[trigger] listings_of(responses, lists) && cs == dedupe(flatten_views(lists))
}

/// Deduplicating candidates whose values ascend strictly changes nothing.
pub proof fn lemma_dedupe_sorted(cs: Seq<ValueCandidateView>)
    requires
        strictly_sorted(values_of(cs)),
    ensures
        dedupe(cs) == cs,
    decreases cs.len(),
{
    if cs.len() > 0 {
        let init = cs.drop_last();
        assert(values_of(init) =~= values_of(cs).drop_last());
        lemma_dedupe_sorted(init);
        if values_of(init).contains(cs.last().0) {
            let w = choose|w: int| 0 <= w < values_of(init).len() && values_of(init)[w] == cs.last().0;
            assert(seq_less(values_of(cs)[w], values_of(cs)[cs.len() - 1]));
            lemma_less_irreflexive(cs.last().0);
        }
        assert(init.push(cs.last()) =~= cs);
    }
}

/// The candidate sets of a step's responses: SMS storage indexes, then PDP
/// context ids, each without repeated values and only when there are any.
pub fn value_candidate_sets_from_responses(responses: &Vec<Vec<char>>) -> (r: Vec<SequenceValueCandidateSet>)
    ensures
        r.len() <= 2,
        forall|i: int| 0 <= i < r.len() ==> (#[trigger] r@[i]).candidates.len() > 0,
        sms_values_of(seqs_view(responses@)).len() > 0 <==> (r.len() > 0 && r@[0].candidate
            == SequenceCandidateSource::SmsMessage),
        r.len() > 0 && r@[0].candidate == SequenceCandidateSource::SmsMessage ==> value_views(
            r@[0].candidates@,
        ) == dedupe(sms_values_of(seqs_view(responses@))),
        forall|i: int|
            0 <= i < r.len() && (#[trigger] r@[i]).candidate == SequenceCandidateSource::PdpContext
                ==> i == r.len() - 1 && forall|id: Seq<char>|
                candidate_values(r@[i].candidates@).contains(id) ==> some_names_context(
                seqs_view(responses@),
                id,
            ),
        forall|i: int|
            0 <= i < r.len() && (#[trigger] r@[i]).candidate == SequenceCandidateSource::PdpContext
                ==> pdp_candidates_of(seqs_view(responses@), value_views(r@[i].candidates@)),
        (forall|i: int| 0 <= i < r.len() ==> (#[trigger] r@[i]).candidate != SequenceCandidateSource::PdpContext)
            ==> pdp_candidates_of(seqs_view(responses@), Seq::empty()),
{
    let ghost rs = seqs_view(responses@);
    let ghost mut lists: Seq<Seq<ValueCandidateView>> = Seq::empty();
    let mut values: Vec<SequenceValueCandidate> = Vec::new();
    let mut pdp: Vec<SequenceValueCandidate> = Vec::new();
    let mut n: usize = 0;
    assert(rs.take(0) =~= Seq::<Seq<char>>::empty());
    assert(value_views(values@) =~= Seq::<ValueCandidateView>::empty());
    while n < responses.len()
        invariant
            n <= responses.len(),
            rs == seqs_view(responses@),
            value_views(values@) == sms_values_of(rs.take(n as int)),
            forall|id: Seq<char>| candidate_values(pdp@).contains(id) ==> some_names_context(rs, id),
            listings_of(rs.take(n as int), lists),
            value_views(pdp@) == flatten_views(lists),
        decreases responses.len() - n,
    {
        assert(rs.take(n + 1).drop_last() =~= rs.take(n as int));
        assert(rs.take(n + 1).last() == responses@[n as int]@);
        let sms = sms_candidates_from_chars(&responses[n]);
        let ghost sv = sms@.map_values(|c: SmsMessageCandidate| sms_candidate_view(c));
        let ghost start = value_views(values@);
        let mut i: usize = 0;
        assert(sv.take(0).map_values(|c: SmsCandidateView| sms_value(c)) =~= Seq::<ValueCandidateView>::empty());
        assert(start + sv.take(0).map_values(|c: SmsCandidateView| sms_value(c)) =~= start);
        while i < sms.len()
            invariant
                i <= sms.len(),
                sv == sms@.map_values(|c: SmsMessageCandidate| sms_candidate_view(c)),
                value_views(values@) == start + sv.take(i as int).map_values(|c: SmsCandidateView| sms_value(c)),
            decreases sms.len() - i,
        {
            let v = sequence_value_candidate_from_sms(&sms[i]);
            let ghost before = value_views(values@);
            values.push(v);
            proof {
                assert(value_views(values@) =~= before.push(value_candidate_view(v)));
                assert(sv[i as int] == sms_candidate_view(sms@[i as int]));
                assert(sv.take(i + 1).map_values(|c: SmsCandidateView| sms_value(c)) =~= sv.take(i as int).map_values(|c: SmsCandidateView| sms_value(c)).push(sms_value(sv[i as int])));
                assert(value_views(values@) =~= start + sv.take(i + 1).map_values(|c: SmsCandidateView| sms_value(c)));
            }
            i += 1;
        }
        assert(sv.take(i as int) =~= sv);
        let more = pdp_context_candidates_from_chars(&responses[n]);
        let ghost before_pdp = pdp@;
        let mut k: usize = 0;
        while k < more.len()
            invariant
                k <= more.len(),
                rs == seqs_view(responses@),
                n < responses.len(),
                rs[n as int] == responses@[n as int]@,
                forall|id: Seq<char>| candidate_values(more@).contains(id) <==> names_context(text_lines(responses@[n as int]@), id),
                forall|id: Seq<char>| candidate_values(pdp@).contains(id) ==> some_names_context(rs, id),
                value_views(pdp@) == value_views(before_pdp) + value_views(more@).take(k as int),
            decreases more.len() - k,
        {
            let c = &more[k];
            let ghost prev = pdp@;
            pdp.push(
                SequenceValueCandidate {
                    value: c.value.clone(),
                    raw_label: c.raw_label.clone(),
                    masked_label: c.masked_label.clone(),
                },
            );
            proof {
                assert forall|id: Seq<char>| candidate_values(pdp@).contains(id) implies some_names_context(rs, id) by {
                    let q = choose|q: int| 0 <= q < candidate_values(pdp@).len() && candidate_values(pdp@)[q] == id;
                    if q < prev.len() {
                        assert(candidate_values(prev)[q] == id);
                    } else {
                        assert(candidate_values(more@)[k as int] == id);
                        assert(candidate_values(more@).contains(id));
                        assert(names_context(text_lines(responses@[n as int]@), id));
                        assert(names_context(text_lines(rs[n as int]), id));
                    }
                }
                assert(value_views(pdp@) =~= value_views(prev).push(value_candidate_view(more@[k as int])));
                assert(value_views(more@).take(k + 1) =~= value_views(more@).take(k as int).push(
                    value_candidate_view(more@[k as int]),
                ));
            }
            k += 1;
        }
        proof {
            assert(value_views(more@).take(k as int) =~= value_views(more@));
            let next = lists.push(value_views(more@));
            assert(next.drop_last() =~= lists);
            assert(rs.take(n + 1) =~= rs.take(n as int).push(rs[n as int]));
            assert forall|q: int| 0 <= q < next.len() implies pdp_listing(rs.take(n + 1)[q], #[trigger] next[q]) by {
                if q < n {
                    assert(next[q] == lists[q]);
                    assert(rs.take(n + 1)[q] == rs.take(n as int)[q]);
                } else {
                    assert(next[q] == value_views(more@));
                }
            }
            lists = next;
        }
        n += 1;
    }
    assert(rs.take(n as int) =~= rs);
    let mut r: Vec<SequenceValueCandidateSet> = Vec::new();
    let sms_set = dedupe_candidates(values);
    proof {
        lemma_dedupe_nonempty(sms_values_of(rs));
    }
    if sms_set.len() > 0 {
        r.push(
            SequenceValueCandidateSet {
                candidate: SequenceCandidateSource::SmsMessage,
                candidates: sms_set,
            },
        );
    }
    let pdp_set = dedupe_candidates(pdp);
    proof {
        lemma_dedupe_values(value_views(pdp@));
        assert forall|id: Seq<char>| candidate_values(pdp_set@).contains(id) implies some_names_context(rs, id) by {
            let q = choose|q: int| 0 <= q < candidate_values(pdp_set@).len() && candidate_values(pdp_set@)[q] == id;
            assert(dedupe(value_views(pdp@))[q].0 == id);
        }
    }
    proof {
        assert(listings_of(rs, lists));
        assert(pdp_candidates_of(rs, value_views(pdp_set@)));
    }
    if pdp_set.len() > 0 {
        r.push(
            SequenceValueCandidateSet {
                candidate: SequenceCandidateSource::PdpContext,
                candidates: pdp_set,
            },
        );
        assert(r@[r.len() - 1].candidate == SequenceCandidateSource::PdpContext);
    } else {
        assert(value_views(pdp_set@) =~= Seq::<ValueCandidateView>::empty());
        assert(pdp_candidates_of(rs, Seq::empty()));
    }
    r
}

/// Every deduplicated candidate is one of the originals.
pub proof fn lemma_dedupe_values(cs: Seq<ValueCandidateView>)
    ensures
        forall|q: int| 0 <= q < dedupe(cs).len() ==> values_of(cs).contains(#[trigger] dedupe(cs)[q].0),
    decreases cs.len(),
{
    if cs.len() > 0 {
        lemma_dedupe_values(cs.drop_last());
        let d = dedupe(cs);
        let p = dedupe(cs.drop_last());
        assert forall|q: int| 0 <= q < d.len() implies values_of(cs).contains(#[trigger] d[q].0) by {
            if q < p.len() {
                assert(d[q] == p[q]);
                let w = choose|w: int| 0 <= w < cs.drop_last().len() && #[trigger] values_of(cs.drop_last())[w] == p[q].0;
                assert(values_of(cs)[w] == p[q].0);
            } else {
                assert(d[q] == cs.last());
                assert(values_of(cs)[cs.len() - 1] == cs.last().0);
            }
        }
    }
}

pub proof fn lemma_dedupe_nonempty(cs: Seq<ValueCandidateView>)
    ensures
        dedupe(cs).len() > 0 <==> cs.len() > 0,
    decreases cs.len(),
{
    if cs.len() > 0 {
        lemma_dedupe_nonempty(cs.drop_last());
    }
}

/// The candidate sets of a response text.
pub fn value_candidate_sets_from_text(text: &str) -> (r: Vec<SequenceValueCandidateSet>)
    ensures
        r.len() <= 2,
        forall|i: int| 0 <= i < r.len() ==> (#[trigger] r@[i]).candidates.len() > 0,
        sms_values_of(seq![text@]).len() > 0 <==> (r.len() > 0 && r@[0].candidate
            == SequenceCandidateSource::SmsMessage),
        r.len() > 0 && r@[0].candidate == SequenceCandidateSource::SmsMessage ==> value_views(
            r@[0].candidates@,
        ) == dedupe(sms_values_of(seq![text@])),
        forall|i: int|
            0 <= i < r.len() && (#[trigger] r@[i]).candidate == SequenceCandidateSource::PdpContext
                ==> i == r.len() - 1 && pdp_listing(text@, value_views(r@[i].candidates@)),
        (forall|i: int| 0 <= i < r.len() ==> (#[trigger] r@[i]).candidate != SequenceCandidateSource::PdpContext)
            ==> forall|id: Seq<char>| !names_context(text_lines(text@), id),
{
    let mut responses: Vec<Vec<char>> = Vec::new();
    responses.push(chars_of(text));
    assert(seqs_view(responses@) =~= seq![text@]);
    let r = value_candidate_sets_from_responses(&responses);
    proof {
        let rs = seq![text@];
        assert forall|cs: Seq<ValueCandidateView>| pdp_candidates_of(rs, cs) implies pdp_listing(text@, cs) by {
            let lists = choose|lists: Seq<Seq<ValueCandidateView>>|
                #[trigger] listings_of(rs, lists) && cs == dedupe(flatten_views(lists));
            assert(pdp_listing(rs[0], lists[0]));
            assert(lists.len() == 1);
            assert(lists.drop_last() =~= Seq::<Seq<ValueCandidateView>>::empty());
            assert(flatten_views(lists.drop_last()) =~= Seq::<ValueCandidateView>::empty());
            assert(flatten_views(lists) =~= lists[0]);
            lemma_dedupe_sorted(lists[0]);
        }
        if forall|i: int| 0 <= i < r.len() ==> (#[trigger] r@[i]).candidate != SequenceCandidateSource::PdpContext {
            assert(pdp_listing(text@, Seq::<ValueCandidateView>::empty()));
            assert forall|id: Seq<char>| !names_context(text_lines(text@), id) by {
                assert(!values_of(Seq::<ValueCandidateView>::empty()).contains(id));
            }
        }
    }
    r
}

} // verus!
