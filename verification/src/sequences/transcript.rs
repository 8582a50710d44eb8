//! Building the raw and masked transcripts of a sequence run: blocks of
//! lines separated by one empty line.
use vstd::prelude::*;

use crate::sequences::analysis::{line_view, lines_view, AnalysisKind, AnalysisLine, LineView};
use crate::sequences::bindings::{BindingView, Bindings};
use crate::sequences::display::{
    display_response, mask_sequence_text, masked_sequence_text, preserved_lines,
    render_sequence_modem_response_for_display, response_lines_preserving_empty,
};
use crate::text::{
    chars_of, decimal, push_all, push_decimal, push_part, push_str, seqs_view, slice, trim,
    trim_chars,
};

verus! {

broadcast use vstd::string::group_string_axioms;

pub type Lines = Seq<Seq<char>>;

/// An empty separator line unless the transcript is empty or already ends
/// with one.
pub open spec fn gap(t: Lines) -> Lines {
    if t.len() > 0 && t.last().len() > 0 {
        t.push(Seq::empty())
    } else {
        t
    }
}

pub open spec fn section(t: Lines, heading: Seq<char>, lines: Lines) -> Lines {
    gap(t).push(heading) + lines
}

pub open spec fn line_block(t: Lines, line: Seq<char>) -> Lines {
    gap(t).push(line)
}

/// A transcript only grows: what was there stays in front.
pub proof fn lemma_lines_prefix_trans(a: Lines, b: Lines, c: Lines)
    requires
        a.is_prefix_of(b),
        b.is_prefix_of(c),
    ensures
        a.is_prefix_of(c),
{
    assert(c.subrange(0, a.len() as int) =~= c.subrange(0, b.len() as int).subrange(0, a.len() as int));
}

/// A line shown stays shown as the transcript grows.
pub proof fn lemma_lines_prefix_contains(a: Lines, b: Lines, x: Seq<char>)
    requires
        a.is_prefix_of(b),
        a.contains(x),
    ensures
        b.contains(x),
{
    let k = choose|k: int| 0 <= k < a.len() && a[k] == x;
    assert(b.subrange(0, a.len() as int)[k] == b[k]);
}

/// Every transcript is a prefix of itself.
pub proof fn lemma_lines_prefix_refl(a: Lines)
    ensures
        a.is_prefix_of(a),
{
    assert(a.subrange(0, a.len() as int) =~= a);
}

/// A section keeps the transcript in front and shows its lines.
pub proof fn lemma_section_grows(t: Lines, heading: Seq<char>, lines: Lines)
    ensures
        t.is_prefix_of(section(t, heading, lines)),
        forall|i: int| 0 <= i < lines.len() ==> section(t, heading, lines).contains(#[trigger] lines[i]),
{
    let s = section(t, heading, lines);
    assert(s.subrange(0, t.len() as int) =~= t);
    assert forall|i: int| 0 <= i < lines.len() implies s.contains(#[trigger] lines[i]) by {
        assert(s[gap(t).len() + 1 + i] == lines[i]);
    }
}

/// A line block keeps the transcript in front.
pub proof fn lemma_line_block_grows(t: Lines, line: Seq<char>)
    ensures
        t.is_prefix_of(line_block(t, line)),
        t.is_prefix_of(gap(t).push(line)),
{
    assert(line_block(t, line).subrange(0, t.len() as int) =~= t);
    assert(gap(t).push(line).subrange(0, t.len() as int) =~= t);
}

/// The analysis sections keep the transcript in front.
pub proof fn lemma_analysis_sections_grows(t: Lines, ls: Seq<LineView>, masked: bool)
    ensures
        t.is_prefix_of(analysis_sections(t, ls, masked)),
{
    let d = bullets(ls, AnalysisKind::DecodedSms, masked);
    let g = bullets(ls, AnalysisKind::General, masked);
    let t1 = kind_section(t, "Decoded SMS:"@, d);
    lemma_lines_prefix_refl(t);
    lemma_section_grows(t, "Decoded SMS:"@, d);
    lemma_lines_prefix_refl(t1);
    lemma_section_grows(t1, "Analysis:"@, g);
    lemma_lines_prefix_trans(t, t1, analysis_sections(t, ls, masked));
}

/// The failure result keeps the transcript in front.
pub proof fn lemma_failure_block_grows(t: Lines, duration_ms: nat, reason: Seq<char>)
    ensures
        t.is_prefix_of(failure_block(t, duration_ms, reason)),
{
    assert(failure_block(t, duration_ms, reason).subrange(0, t.len() as int) =~= t);
}

/// The response sections keep both transcripts in front.
pub proof fn lemma_response_sections_grows(raw_t: Lines, masked_t: Lines, response: Seq<char>, b: Seq<BindingView>)
    ensures
        raw_t.is_prefix_of(response_sections(raw_t, masked_t, response, b).0),
        masked_t.is_prefix_of(response_sections(raw_t, masked_t, response, b).1),
{
    lemma_lines_prefix_refl(raw_t);
    lemma_lines_prefix_refl(masked_t);
    let raw = trim_crlf_both(response);
    let modem = display_response(raw);
    lemma_section_grows(raw_t, "Modem response:"@, preserved_lines(modem));
    lemma_section_grows(masked_t, "Modem response:"@, preserved_lines(masked_sequence_text(modem, b)));
}

pub fn push_block_gap(t: &mut Vec<Vec<char>>)
    ensures
        seqs_view(final(t)@) == gap(seqs_view(old(t)@)),
{
    let n = t.len();
    if n > 0 && t[n - 1].len() > 0 {
        assert(seqs_view(t@).last() == t@[n - 1]@);
        let e: Vec<char> = Vec::new();
        assert(e@ =~= Seq::<char>::empty());
        push_part(t, e);
    }
}

pub fn push_section(t: &mut Vec<Vec<char>>, heading: &str, lines: Vec<Vec<char>>)
    ensures
        seqs_view(final(t)@) == section(seqs_view(old(t)@), heading@, seqs_view(lines@)),
{
    push_block_gap(t);
    push_part(t, chars_of(heading));
    let ghost start = seqs_view(t@);
    let mut i: usize = 0;
    assert(seqs_view(lines@).take(0) =~= Seq::<Seq<char>>::empty());
    assert(start + seqs_view(lines@).take(0) =~= start);
    while i < lines.len()
        invariant
            i <= lines.len(),
            seqs_view(t@) == start + seqs_view(lines@).take(i as int),
        decreases lines.len() - i,
    {
        let l = slice(&lines[i], 0, lines[i].len());
        assert(l@ =~= lines@[i as int]@);
        push_part(t, l);
        assert(seqs_view(t@) =~= start + seqs_view(lines@).take(i + 1));
        i += 1;
    }
    assert(seqs_view(lines@).take(i as int) =~= seqs_view(lines@));
}

pub fn push_line_block(t: &mut Vec<Vec<char>>, line: Vec<char>)
    ensures
        seqs_view(final(t)@) == line_block(seqs_view(old(t)@), line@),
{
    push_block_gap(t);
    push_part(t, line);
}

/// `Step i/n label`.
pub open spec fn step_heading(index: nat, total: nat, label: Seq<char>) -> Seq<char> {
    "Step "@ + decimal(index + 1) + "/"@ + decimal(total) + " "@ + label
}

pub fn push_transcript_header(
    t: &mut Vec<Vec<char>>,
    index: usize,
    total: usize,
    label: &Vec<char>,
    masked: bool,
    bindings: &Bindings,
)
    requires
        index < total,
    ensures
        seqs_view(final(t)@) == line_block(
            seqs_view(old(t)@),
            step_heading(
                index as nat,
                total as nat,
                if masked {
                    masked_sequence_text(label@, bindings@)
                } else {
                    label@
                },
            ),
        ),
{
    let shown = if masked {
        mask_sequence_text(label, bindings)
    } else {
        slice(label, 0, label.len())
    };
    assert(!masked ==> shown@ =~= label@);
    let mut v = chars_of("Step ");
    push_decimal(&mut v, (index + 1) as u128);
    push_str(&mut v, "/");
    push_decimal(&mut v, total as u128);
    push_str(&mut v, " ");
    push_all(&mut v, &shown);
    push_line_block(t, v);
}

/// `response` without leading or trailing CR and LF.
pub open spec fn trim_crlf_both(s: Seq<char>) -> Seq<char> {
    crate::text::trim_end_by(
        crate::text::trim_start_by(s, crate::at::command::crlf_pred()),
        crate::at::command::crlf_pred(),
    )
}

fn trim_crlf_both_exec(v: &Vec<char>) -> (r: Vec<char>)
    ensures
        r@ == trim_crlf_both(v@),
{
    let mut i: usize = 0;
    while i < v.len() && (v[i] == '\r' || v[i] == '\n')
        invariant
            i <= v.len(),
            forall|k: int| 0 <= k < i ==> crate::at::command::is_crlf(v@[k]),
        decreases v.len() - i,
    {
        i += 1;
    }
    proof {
        crate::text::lemma_lead_len(v@, crate::at::command::crlf_pred(), i as int);
    }
    let rest = slice(v, i, v.len());
    assert(rest@ =~= v@.skip(i as int));
    crate::at::command::trim_end_crlf(&rest)
}

/// The modem response sections: the response echo without SMS bodies, raw
/// and masked; nothing for an empty response.
pub open spec fn response_sections(raw_t: Lines, masked_t: Lines, response: Seq<char>, b: Seq<BindingView>) -> (Lines, Lines) {
    let raw = trim_crlf_both(response);
    let modem = display_response(raw);
    if raw.len() > 0 && trim(modem).len() > 0 {
        (
            section(raw_t, "Modem response:"@, preserved_lines(modem)),
            section(masked_t, "Modem response:"@, preserved_lines(masked_sequence_text(modem, b))),
        )
    } else {
        (raw_t, masked_t)
    }
}

pub fn push_response_transcript(
    raw_t: &mut Vec<Vec<char>>,
    masked_t: &mut Vec<Vec<char>>,
    response: &Vec<char>,
    bindings: &Bindings,
)
    ensures
        (seqs_view(final(raw_t)@), seqs_view(final(masked_t)@)) == response_sections(
            seqs_view(old(raw_t)@),
            seqs_view(old(masked_t)@),
            response@,
            bindings@,
        ),
{
    let raw = trim_crlf_both_exec(response);
    if raw.len() > 0 {
        let modem = render_sequence_modem_response_for_display(&raw);
        let t = trim_chars(&modem);
        if t.len() > 0 {
            let lines = response_lines_preserving_empty(&modem);
            push_section(raw_t, "Modem response:", lines);
            let masked = mask_sequence_text(&modem, bindings);
            let masked_lines = response_lines_preserving_empty(&masked);
            push_section(masked_t, "Modem response:", masked_lines);
        }
    }
}

/// `- text` for each finding of one kind.
pub open spec fn bullets(ls: Seq<LineView>, kind: AnalysisKind, masked: bool) -> Lines
    decreases ls.len(),
{
    if ls.len() == 0 {
        Seq::empty()
    } else {
        let prev = bullets(ls.drop_last(), kind, masked);
        let l = ls.last();
        if l.0 == kind {
            prev.push(
                "- "@ + if masked {
                    l.2
                } else {
                    l.1
                },
            )
        } else {
            prev
        }
    }
}

pub open spec fn kind_section(t: Lines, heading: Seq<char>, items: Lines) -> Lines {
    if items.len() > 0 {
        section(t, heading, items)
    } else {
        t
    }
}

/// Decoded SMS bodies first, then the general findings, each under its
/// heading when there are any.
pub open spec fn analysis_sections(t: Lines, ls: Seq<LineView>, masked: bool) -> Lines {
    kind_section(
        kind_section(t, "Decoded SMS:"@, bullets(ls, AnalysisKind::DecodedSms, masked)),
        "Analysis:"@,
        bullets(ls, AnalysisKind::General, masked),
    )
}

fn bullets_exec(analysis: &Vec<AnalysisLine>, kind: AnalysisKind, masked: bool) -> (r: Vec<Vec<char>>)
    ensures
        seqs_view(r@) == bullets(lines_view(analysis@), kind, masked),
{
    let ghost all = lines_view(analysis@);
    let mut r: Vec<Vec<char>> = Vec::new();
    let mut i: usize = 0;
    assert(all.take(0) =~= Seq::<LineView>::empty());
    assert(seqs_view(r@) =~= Seq::<Seq<char>>::empty());
    while i < analysis.len()
        invariant
            i <= analysis.len(),
            all == lines_view(analysis@),
            seqs_view(r@) == bullets(all.take(i as int), kind, masked),
        decreases analysis.len() - i,
    {
        assert(all.take(i + 1).drop_last() =~= all.take(i as int));
        assert(all.take(i + 1).last() == line_view(analysis@[i as int]));
        let l = &analysis[i];
        if l.kind == kind {
            let mut v = chars_of("- ");
            if masked {
                push_all(&mut v, &l.masked);
            } else {
                push_all(&mut v, &l.raw);
            }
            push_part(&mut r, v);
        }
        i += 1;
    }
    assert(all.take(i as int) =~= all);
    r
}

pub fn push_analysis_transcript(
    raw_t: &mut Vec<Vec<char>>,
    masked_t: &mut Vec<Vec<char>>,
    analysis: &Vec<AnalysisLine>,
)
    ensures
        seqs_view(final(raw_t)@) == analysis_sections(seqs_view(old(raw_t)@), lines_view(analysis@), false),
        seqs_view(final(masked_t)@) == analysis_sections(seqs_view(old(masked_t)@), lines_view(analysis@), true),
{
    let decoded_raw = bullets_exec(analysis, AnalysisKind::DecodedSms, false);
    let decoded_masked = bullets_exec(analysis, AnalysisKind::DecodedSms, true);
    if decoded_raw.len() > 0 {
        push_section(raw_t, "Decoded SMS:", decoded_raw);
    }
    if decoded_masked.len() > 0 {
        push_section(masked_t, "Decoded SMS:", decoded_masked);
    }
    let general_raw = bullets_exec(analysis, AnalysisKind::General, false);
    let general_masked = bullets_exec(analysis, AnalysisKind::General, true);
    if general_raw.len() > 0 {
        push_section(raw_t, "Analysis:", general_raw);
    }
    if general_masked.len() > 0 {
        push_section(masked_t, "Analysis:", general_masked);
    }
}

/// `Result: failed duration=<ms>ms` and `Reason: <reason>`.
pub open spec fn failure_block(t: Lines, duration_ms: nat, reason: Seq<char>) -> Lines {
    line_block(t, "Result: failed duration="@ + decimal(duration_ms) + "ms"@).push(
        "Reason: "@ + reason,
    )
}

pub fn push_failure_result(t: &mut Vec<Vec<char>>, duration_ms: u64, reason: &Vec<char>)
    ensures
        seqs_view(final(t)@) == failure_block(seqs_view(old(t)@), duration_ms as nat, reason@),
{
    let mut v = chars_of("Result: failed duration=");
    push_decimal(&mut v, duration_ms as u128);
    push_str(&mut v, "ms");
    push_line_block(t, v);
    let mut w = chars_of("Reason: ");
    push_all(&mut w, reason);
    push_part(t, w);
}

/// `Result: OK duration=<ms>ms`.
pub fn push_success_result(t: &mut Vec<Vec<char>>, duration_ms: u64)
    ensures
        seqs_view(final(t)@) == line_block(
            seqs_view(old(t)@),
            "Result: OK duration="@ + decimal(duration_ms as nat) + "ms"@,
        ),
{
    let mut v = chars_of("Result: OK duration=");
    push_decimal(&mut v, duration_ms as u128);
    push_str(&mut v, "ms");
    push_line_block(t, v);
}

/// A cleanup step's label, masked when `masked`, after a separator.
pub fn push_cleanup_header(t: &mut Vec<Vec<char>>, label: &Vec<char>, masked: bool, bindings: &Bindings)
    ensures
        seqs_view(final(t)@) == gap(seqs_view(old(t)@)).push(
            if masked {
                masked_sequence_text(label@, bindings@)
            } else {
                label@
            },
        ),
{
    push_block_gap(t);
    let shown = if masked {
        mask_sequence_text(label, bindings)
    } else {
        slice(label, 0, label.len())
    };
    assert(!masked ==> shown@ =~= label@);
    push_part(t, shown);
}

/// Why a cleanup step failed, as an analysis section of both transcripts.
pub fn push_cleanup_analysis(
    raw_t: &mut Vec<Vec<char>>,
    masked_t: &mut Vec<Vec<char>>,
    reason: &Vec<char>,
    bindings: &Bindings,
)
    ensures
        seqs_view(final(raw_t)@) == section(seqs_view(old(raw_t)@), "Analysis:"@, seq!["- "@ + reason@]),
        seqs_view(final(masked_t)@) == section(
            seqs_view(old(masked_t)@),
            "Analysis:"@,
            seq!["- "@ + masked_sequence_text(reason@, bindings@)],
        ),
{
    let mut a = chars_of("- ");
    push_all(&mut a, reason);
    let mut la: Vec<Vec<char>> = Vec::new();
    push_part(&mut la, a);
    assert(seqs_view(la@) =~= seq!["- "@ + reason@]);
    push_section(raw_t, "Analysis:", la);
    let masked = mask_sequence_text(reason, bindings);
    let mut b = chars_of("- ");
    push_all(&mut b, &masked);
    let mut lb: Vec<Vec<char>> = Vec::new();
    push_part(&mut lb, b);
    assert(seqs_view(lb@) =~= seq!["- "@ + masked@]);
    push_section(masked_t, "Analysis:", lb);
}

} // verus!
