//! The decisions a sequence step makes about a response: when reading
//! stops, which expected marker is missing, what status the step ends
//! with, why it failed, and how much time it gets.
use vstd::prelude::*;

use crate::at::response::{status_is_success, status_is_terminal, status_label, AtStatus, StatusView};
use crate::error::AtctlError;
use crate::sequences::bindings::{BindingView, Bindings};
use crate::sequences::csv::strip_prefix;
use crate::sequences::model::{Sequence, SequenceStep, StepTerminator};
use crate::sequences::params::{render_chars, render_spec};
use crate::text::{
    chars_of, contains, contains_seq, eq_str, push_all, push_str, starts_with, slice, string_of,
};
use crate::transport::traits::ResponseMatcher;

verus! {

broadcast use vstd::string::group_string_axioms;

pub type TemplateError = (Seq<char>, Seq<char>);

pub open spec fn template_error(e: AtctlError, x: TemplateError) -> bool {
    e matches AtctlError::InvalidSequenceParam { param, reason } && param@ == x.0 && reason@ == x.1
}

/// The payload followed by its terminator: Ctrl-Z, Esc or nothing.
pub open spec fn terminated_payload(payload: Seq<char>, t: StepTerminator) -> Seq<char> {
    match t {
        StepTerminator::NoTerminator => payload,
        StepTerminator::CtrlZ => payload.push('\u{1a}'),
        StepTerminator::Esc => payload.push('\u{1b}'),
    }
}

pub fn payload_with_terminator(payload: &Vec<char>, terminator: StepTerminator) -> (r: Vec<char>)
    ensures
        r@ == terminated_payload(payload@, terminator),
{
    let mut r = slice(payload, 0, payload.len());
    assert(r@ =~= payload@);
    match terminator {
        StepTerminator::NoTerminator => {},
        StepTerminator::CtrlZ => r.push('\u{1a}'),
        StepTerminator::Esc => r.push('\u{1b}'),
    }
    r
}

/// A matcher as plain values.
pub enum MatcherView {
    Terminal,
    Contains(Seq<char>),
    ContainsOrErrorTerminal(Seq<char>),
    TerminalOrContains(Seq<char>),
}

pub open spec fn matcher_view(m: ResponseMatcher) -> MatcherView {
    match m {
        ResponseMatcher::Terminal => MatcherView::Terminal,
        ResponseMatcher::Contains(n) => MatcherView::Contains(n@),
        ResponseMatcher::ContainsOrErrorTerminal(n) => MatcherView::ContainsOrErrorTerminal(n@),
        ResponseMatcher::TerminalOrContains(n) => MatcherView::TerminalOrContains(n@),
    }
}

/// When a step stops reading: at its prompt or URC (or an error result),
/// at a marker other than `OK`/`ERROR` (or any final result), or at a
/// final result.
pub open spec fn step_matcher(step: SequenceStep, b: Seq<BindingView>, name: Seq<char>) -> Result<
    MatcherView,
    TemplateError,
> {
    match step.expect_prompt {
        Some(p) => match render_spec(p@, b, name, step.id@) {
            Ok(x) => Ok(MatcherView::ContainsOrErrorTerminal(x)),
            Err(e) => Err(e),
        },
        None => match step.expect_urc {
            Some(u) => match render_spec(u@, b, name, step.id@) {
                Ok(x) => Ok(MatcherView::ContainsOrErrorTerminal(x)),
                Err(e) => Err(e),
            },
            None => match step.expect {
                Some(e) => match render_spec(e@, b, name, step.id@) {
                    Ok(x) => if x != "OK"@ && x != "ERROR"@ {
                        Ok(MatcherView::TerminalOrContains(x))
                    } else {
                        Ok(MatcherView::Terminal)
                    },
                    Err(err) => Err(err),
                },
                None => Ok(MatcherView::Terminal),
            },
        },
    }
}

pub fn response_matcher_for_step(sequence: &Sequence, step: &SequenceStep, bindings: &Bindings) -> (r:
    Result<ResponseMatcher, AtctlError>)
    ensures
        match step_matcher(*step, bindings@, sequence.name@) {
            Ok(m) => r matches Ok(x) && matcher_view(x) == m,
            Err(x) => r matches Err(e) && template_error(e, x),
        },
{
    match &step.expect_prompt {
        Some(p) => {
            return match render_chars(&chars_of(p.as_str()), bindings, sequence, step.id.as_str()) {
                Ok(x) => Ok(ResponseMatcher::ContainsOrErrorTerminal(string_of(&x))),
                Err(e) => Err(e),
            };
        },
        None => {},
    }
    match &step.expect_urc {
        Some(u) => {
            return match render_chars(&chars_of(u.as_str()), bindings, sequence, step.id.as_str()) {
                Ok(x) => Ok(ResponseMatcher::ContainsOrErrorTerminal(string_of(&x))),
                Err(e) => Err(e),
            };
        },
        None => {},
    }
    match &step.expect {
        Some(e) => {
            match render_chars(&chars_of(e.as_str()), bindings, sequence, step.id.as_str()) {
                Ok(x) => {
                    if !eq_str(&x, "OK") && !eq_str(&x, "ERROR") {
                        Ok(ResponseMatcher::TerminalOrContains(string_of(&x)))
                    } else {
                        Ok(ResponseMatcher::Terminal)
                    }
                },
                Err(err) => Err(err),
            }
        },
        None => Ok(ResponseMatcher::Terminal),
    }
}

/// The marker templates a step expects, in checking order: prompt, URC,
/// then the expected marker.
pub open spec fn expected_templates(step: SequenceStep) -> Seq<Seq<char>> {
    let a: Seq<Seq<char>> = match step.expect_prompt {
        Some(p) => seq![p@],
        None => Seq::empty(),
    };
    let b = match step.expect_urc {
        Some(u) => a.push(u@),
        None => a,
    };
    match step.expect {
        Some(e) => b.push(e@),
        None => b,
    }
}

fn expected_templates_exec(step: &SequenceStep) -> (r: Vec<Vec<char>>)
    ensures
        crate::text::seqs_view(r@) == expected_templates(*step),
{
    let mut r: Vec<Vec<char>> = Vec::new();
    assert(crate::text::seqs_view(r@) =~= Seq::<Seq<char>>::empty());
    match &step.expect_prompt {
        Some(p) => crate::text::push_part(&mut r, chars_of(p.as_str())),
        None => {},
    }
    match &step.expect_urc {
        Some(u) => crate::text::push_part(&mut r, chars_of(u.as_str())),
        None => {},
    }
    match &step.expect {
        Some(e) => crate::text::push_part(&mut r, chars_of(e.as_str())),
        None => {},
    }
    assert(crate::text::seqs_view(r@) =~= expected_templates(*step));
    r
}

/// The first expected marker, rendered, that the text lacks.
pub open spec fn first_missing(
    templates: Seq<Seq<char>>,
    text: Seq<char>,
    b: Seq<BindingView>,
    name: Seq<char>,
    step: Seq<char>,
) -> Result<Option<Seq<char>>, TemplateError>
    decreases templates.len(),
{
    if templates.len() == 0 {
        Ok(None)
    } else {
        match render_spec(templates[0], b, name, step) {
            Err(e) => Err(e),
            Ok(x) => if !contains_seq(text, x) {
                Ok(Some(x))
            } else {
                first_missing(templates.drop_first(), text, b, name, step)
            },
        }
    }
}

pub fn step_expectation_failure(
    sequence: &Sequence,
    step: &SequenceStep,
    text: &Vec<char>,
    bindings: &Bindings,
) -> (r: Result<Option<Vec<char>>, AtctlError>)
    ensures
        match first_missing(expected_templates(*step), text@, bindings@, sequence.name@, step.id@) {
            Ok(Some(x)) => r matches Ok(Some(v)) && v@ == x,
            Ok(None) => r matches Ok(None),
            Err(x) => r matches Err(e) && template_error(e, x),
        },
{
    let templates = expected_templates_exec(step);
    let ghost all = crate::text::seqs_view(templates@);
    let mut i: usize = 0;
    assert(all.skip(0) =~= all);
    while i < templates.len()
        invariant
            i <= templates.len(),
            all == crate::text::seqs_view(templates@),
            all == expected_templates(*step),
            first_missing(all.skip(i as int), text@, bindings@, sequence.name@, step.id@)
                == first_missing(all, text@, bindings@, sequence.name@, step.id@),
        decreases templates.len() - i,
    {
        assert(all.skip(i as int)[0] == templates@[i as int]@);
        assert(all.skip(i as int).drop_first() =~= all.skip(i + 1));
        match render_chars(&templates[i], bindings, sequence, step.id.as_str()) {
            Err(e) => return Err(e),
            Ok(x) => {
                if !contains(text, &x) {
                    return Ok(Some(x));
                }
            },
        }
        i += 1;
    }
    assert(all.skip(i as int) =~= Seq::<Seq<char>>::empty());
    Ok(None)
}

/// Every template rendered, failing on the first that does not render.
pub open spec fn render_all(
    templates: Seq<Seq<char>>,
    b: Seq<BindingView>,
    name: Seq<char>,
    step: Seq<char>,
) -> Result<Seq<Seq<char>>, TemplateError>
    decreases templates.len(),
{
    if templates.len() == 0 {
        Ok(Seq::empty())
    } else {
        match render_spec(templates[0], b, name, step) {
            Err(e) => Err(e),
            Ok(x) => match render_all(templates.drop_first(), b, name, step) {
                Err(e) => Err(e),
                Ok(rest) => Ok(seq![x] + rest),
            },
        }
    }
}

/// Whether some marker occurs in the text.
pub open spec fn any_contained(text: Seq<char>, xs: Seq<Seq<char>>) -> bool {
    exists|k: int| 0 <= k < xs.len() && contains_seq(text, #[trigger] xs[k])
}

/// The status a step ends with: a final result as parsed; otherwise `OK`
/// when an expected marker arrived (a prompt or URC has no final result).
pub open spec fn step_status_spec(
    step: SequenceStep,
    b: Seq<BindingView>,
    name: Seq<char>,
    text: Seq<char>,
    parsed: StatusView,
) -> Result<StatusView, TemplateError> {
    if status_is_terminal(parsed) {
        Ok(parsed)
    } else {
        match render_all(expected_templates(step), b, name, step.id@) {
            Err(e) => Err(e),
            Ok(xs) => if any_contained(text, xs) {
                Ok(StatusView::OK)
            } else {
                Ok(parsed)
            },
        }
    }
}

pub fn step_status(
    sequence: &Sequence,
    step: &SequenceStep,
    bindings: &Bindings,
    text: &Vec<char>,
    parsed: &AtStatus,
) -> (r: Result<AtStatus, AtctlError>)
    ensures
        match step_status_spec(*step, bindings@, sequence.name@, text@, parsed@) {
            Ok(s) => r matches Ok(x) && x@ == s,
            Err(x) => r matches Err(e) && template_error(e, x),
        },
{
    if parsed.is_terminal() {
        return Ok(parsed.duplicate());
    }
    let templates = expected_templates_exec(step);
    let ghost all = crate::text::seqs_view(templates@);
    // Render every marker first: a marker that does not render is an error
    // even when an earlier one was found.
    let mut rendered: Vec<Vec<char>> = Vec::new();
    let mut i: usize = 0;
    assert(all.skip(0) =~= all);
    assert(crate::text::seqs_view(rendered@) =~= Seq::<Seq<char>>::empty());
    while i < templates.len()
        invariant
            i <= templates.len(),
            all == crate::text::seqs_view(templates@),
            all == expected_templates(*step),
            !status_is_terminal(parsed@),
            render_all(all, bindings@, sequence.name@, step.id@) == match render_all(
                all.skip(i as int),
                bindings@,
                sequence.name@,
                step.id@,
            ) {
                Ok(rest) => Ok(crate::text::seqs_view(rendered@) + rest),
                Err(e) => Err(e),
            },
        decreases templates.len() - i,
    {
        assert(all.skip(i as int)[0] == templates@[i as int]@);
        assert(all.skip(i as int).drop_first() =~= all.skip(i + 1));
        match render_chars(&templates[i], bindings, sequence, step.id.as_str()) {
            Err(e) => return Err(e),
            Ok(x) => {
                let ghost before = crate::text::seqs_view(rendered@);
                crate::text::push_part(&mut rendered, x);
                proof {
                    match render_all(all.skip(i + 1), bindings@, sequence.name@, step.id@) {
                        Ok(rest) => {
                            assert(crate::text::seqs_view(rendered@) + rest =~= before + (seq![x@]
                                + rest));
                        },
                        Err(_) => {},
                    }
                }
            },
        }
        i += 1;
    }
    assert(all.skip(i as int) =~= Seq::<Seq<char>>::empty());
    assert(crate::text::seqs_view(rendered@) + Seq::<Seq<char>>::empty() =~= crate::text::seqs_view(rendered@));
    let ghost xs = crate::text::seqs_view(rendered@);
    let mut k: usize = 0;
    while k < rendered.len()
        invariant
            k <= rendered.len(),
            xs == crate::text::seqs_view(rendered@),
            !status_is_terminal(parsed@),
            render_all(expected_templates(*step), bindings@, sequence.name@, step.id@) == Ok::<Seq<Seq<char>>, TemplateError>(xs),
            forall|q: int| 0 <= q < k ==> !contains_seq(text@, #[trigger] xs[q]),
        decreases rendered.len() - k,
    {
        assert(xs[k as int] == rendered@[k as int]@);
        if contains(text, &rendered[k]) {
            assert(contains_seq(text@, xs[k as int]));
            assert(exists|q: int| 0 <= q < xs.len() && contains_seq(text@, #[trigger] xs[q]));
            assert(any_contained(text@, xs));
            let r = AtStatus::OK;
            assert(r@ == StatusView::OK);
            return Ok(r);
        }
        k += 1;
    }
    Ok(parsed.duplicate())
}

/// Why a step failed: a condition it did not satisfy, an expected marker
/// it did not see, or a status other than `OK`.
pub open spec fn failure_reason(
    name: Seq<char>,
    step: Seq<char>,
    status: StatusView,
    expectation: Option<Seq<char>>,
) -> Option<Seq<char>> {
    match expectation {
        Some(expected) => match strip_prefix(expected, "condition: "@) {
            Some(condition) => Some(
                "sequence `"@ + name + "` step `"@ + step + "` did not satisfy condition `"@
                    + condition + "`"@,
            ),
            None => Some(
                "sequence `"@ + name + "` step `"@ + step + "` did not produce expected marker `"@
                    + expected + "`"@,
            ),
        },
        None => if !status_is_success(status) {
            Some(
                "sequence `"@ + name + "` step `"@ + step + "` ended with status `"@
                    + status_label(status) + "`"@,
            )
        } else {
            None
        },
    }
}

pub fn step_failure_reason(
    sequence: &Sequence,
    step: &SequenceStep,
    status: &AtStatus,
    expectation: Option<Vec<char>>,
) -> (r: Option<Vec<char>>)
    ensures
        crate::sequences::sms::ov(r) == failure_reason(
            sequence.name@,
            step.id@,
            status@,
            crate::sequences::sms::ov(expectation),
        ),
{
    match expectation {
        Some(expected) => {
            let mut v = chars_of("sequence `");
            push_str(&mut v, sequence.name.as_str());
            push_str(&mut v, "` step `");
            push_str(&mut v, step.id.as_str());
            match crate::sequences::csv::strip_prefix_exec(&expected, "condition: ") {
                Some(condition) => {
                    push_str(&mut v, "` did not satisfy condition `");
                    push_all(&mut v, &condition);
                },
                None => {
                    push_str(&mut v, "` did not produce expected marker `");
                    push_all(&mut v, &expected);
                },
            }
            push_str(&mut v, "`");
            Some(v)
        },
        None => {
            if !status.is_success() {
                let mut v = chars_of("sequence `");
                push_str(&mut v, sequence.name.as_str());
                push_str(&mut v, "` step `");
                push_str(&mut v, step.id.as_str());
                push_str(&mut v, "` ended with status `");
                let l = status.label();
                push_all(&mut v, &l);
                push_str(&mut v, "`");
                Some(v)
            } else {
                None
            }
        },
    }
}

// ---------------------------------------------------------------------
// Time budgets, in milliseconds
// ---------------------------------------------------------------------
pub open spec fn min_u64(a: u64, b: u64) -> u64 {
    if a < b {
        a
    } else {
        b
    }
}

pub open spec fn secs_to_ms(s: u64) -> u64 {
    if s > u64::MAX / 1000 {
        u64::MAX
    } else {
        (s * 1000) as u64
    }
}

pub fn secs_to_ms_exec(s: u64) -> (r: u64)
    ensures
        r == secs_to_ms(s),
{
    if s > u64::MAX / 1000 {
        u64::MAX
    } else {
        s * 1000
    }
}

/// A sequence's total time: its own timeout, else the given one, and at
/// least a second.
pub open spec fn total_timeout(sequence_secs: Option<u64>, default_ms: u64) -> u64 {
    let t = match sequence_secs {
        Some(s) => secs_to_ms(s),
        None => default_ms,
    };
    if t < 1000 {
        1000
    } else {
        t
    }
}

pub fn total_timeout_ms(sequence_secs: Option<u64>, default_ms: u64) -> (r: u64)
    ensures
        r == total_timeout(sequence_secs, default_ms),
{
    let t = match sequence_secs {
        Some(s) => secs_to_ms_exec(s),
        None => default_ms,
    };
    if t < 1000 {
        1000
    } else {
        t
    }
}

/// A step's time: its own timeout (else the default) within what is left
/// of the sequence's time, and at least a second; none once the sequence's
/// time is up.
pub open spec fn step_timeout_spec(step_secs: Option<u64>, default_ms: u64, now: u64, deadline: u64) -> Option<
    u64,
> {
    if now >= deadline {
        None
    } else {
        let own = match step_secs {
            Some(s) => secs_to_ms(s),
            None => default_ms,
        };
        let t = min_u64(own, (deadline - now) as u64);
        Some(
            if t < 1000 {
                1000
            } else {
                t
            },
        )
    }
}

pub fn step_timeout(step_secs: Option<u64>, default_ms: u64, now: u64, deadline: u64) -> (r: Result<
    u64,
    AtctlError,
>)
    ensures
        match step_timeout_spec(step_secs, default_ms, now, deadline) {
            Some(t) => r == Ok::<u64, AtctlError>(t),
            None => r == Err::<u64, AtctlError>(AtctlError::Timeout),
        },
{
    if now >= deadline {
        return Err(AtctlError::Timeout);
    }
    let own = match step_secs {
        Some(s) => secs_to_ms_exec(s),
        None => default_ms,
    };
    let remaining = deadline - now;
    let t = if own < remaining {
        own
    } else {
        remaining
    };
    Ok(
        if t < 1000 {
            1000
        } else {
            t
        },
    )
}

/// Cleanup commands get what is left of the sequence's time, between one
/// and ten seconds.
pub open spec fn cleanup_timeout_spec(now: u64, deadline: u64) -> u64 {
    if now >= deadline {
        1000
    } else {
        let t = min_u64((deadline - now) as u64, 10000);
        if t < 1000 {
            1000
        } else {
            t
        }
    }
}

pub fn cleanup_timeout(now: u64, deadline: u64) -> (r: u64)
    ensures
        r == cleanup_timeout_spec(now, deadline),
{
    if now >= deadline {
        1000
    } else {
        let remaining = deadline - now;
        let t = if remaining < 10000 {
            remaining
        } else {
            10000
        };
        if t < 1000 {
            1000
        } else {
            t
        }
    }
}

} // verus!
