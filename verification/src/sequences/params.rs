//! Binding parameter values to a sequence and rendering `{{name}}`
//! templates.
use vstd::prelude::*;

use crate::error::AtctlError;
use crate::sequences::bindings::{
    law_lookup_after_upsert, lemma_upsert_sorted, lookup, sorted_names, upsert, utf8_len,
    utf8_len_exec, BindingView, Bindings, BoundParam,
};
use crate::sequences::model::{
    candidate_source_label, param_source_label, Sequence, SequenceParam, SequenceParamSource,
};
use crate::text::{
    chars_of, decimal, find_from, find_from_exec, join_chars, join_seqs, push_all, push_decimal,
    push_part, push_str, seqs_view, slice, string_of, trim, trim_chars,
};

verus! {

broadcast use vstd::string::group_string_axioms;

/// A parameter value given by the user.
#[derive(Debug, Clone, PartialEq, Eq)]
pub struct SequenceParamValue {
    pub name: String,
    pub value: String,
}

/// A value shown for review before a sequence runs.
#[derive(Debug, Clone, PartialEq, Eq)]
pub struct SequenceReviewValue {
    pub label: String,
    pub value: String,
    pub sensitive: bool,
}

// ---------------------------------------------------------------------
// Messages about parameters
// ---------------------------------------------------------------------
pub open spec fn opt_text(o: Option<String>) -> Option<Seq<char>> {
    match o {
        Some(s) => Some(s@),
        None => None,
    }
}

/// The reason given for a name that the sequence does not define.
pub open spec fn undefined_param_reason(sequence_name: Seq<char>) -> Seq<char> {
    "sequence `"@ + sequence_name + "` does not define this parameter"@
}

pub fn undefined_param_reason_exec(sequence_name: &str) -> (r: String)
    ensures
        r@ == undefined_param_reason(sequence_name@),
{
    let mut v = chars_of("sequence `");
    push_str(&mut v, sequence_name);
    push_str(&mut v, "` does not define this parameter");
    string_of(&v)
}

/// What can resolve a missing parameter: its default, its source, its
/// candidate source and its hint.
pub open spec fn hint_parts(p: SequenceParam) -> Seq<Seq<char>> {
    let a: Seq<Seq<char>> = match p.default_value {
        Some(d) => seq!["default value `"@ + d@ + "` is available"@],
        None => Seq::empty(),
    };
    let b = if p.source != SequenceParamSource::User {
        a.push("source="@ + param_source_label(p.source))
    } else {
        a
    };
    let c = match p.candidate {
        Some(cs) => b.push("candidate="@ + candidate_source_label(cs)),
        None => b,
    };
    match p.hint {
        Some(h) => c.push(h@),
        None => c,
    }
}

/// `": part; part"`, or nothing when there is nothing to say.
pub open spec fn hint_suffix(p: SequenceParam) -> Seq<char> {
    if hint_parts(p).len() == 0 {
        Seq::empty()
    } else {
        ": "@ + join_seqs(hint_parts(p), "; "@)
    }
}

fn missing_param_hint_suffix(param: &SequenceParam) -> (r: String)
    ensures
        r@ == hint_suffix(*param),
{
    let mut parts: Vec<Vec<char>> = Vec::new();
    assert(seqs_view(parts@) =~= Seq::<Seq<char>>::empty());
    match &param.default_value {
        Some(d) => {
            let mut v = chars_of("default value `");
            push_str(&mut v, d.as_str());
            push_str(&mut v, "` is available");
            push_part(&mut parts, v);
        },
        None => {},
    }
    if param.source != SequenceParamSource::User {
        let mut v = chars_of("source=");
        push_str(&mut v, param.source.label());
        push_part(&mut parts, v);
    }
    match param.candidate {
        Some(c) => {
            let mut v = chars_of("candidate=");
            push_str(&mut v, c.label());
            push_part(&mut parts, v);
        },
        None => {},
    }
    match &param.hint {
        Some(h) => {
            push_part(&mut parts, chars_of(h.as_str()));
        },
        None => {},
    }
    assert(seqs_view(parts@) =~= hint_parts(*param));
    if parts.len() == 0 {
        String::new()
    } else {
        let mut v = chars_of(": ");
        let joined = join_chars(&parts, "; ");
        push_all(&mut v, &joined);
        string_of(&v)
    }
}

/// The message shown when a required parameter has no value.
pub open spec fn missing_param_message(p: SequenceParam) -> Seq<char> {
    let head = "Sequence parameter `"@ + p.name@ + "` is required."@;
    match p.hint {
        Some(h) => head + " "@ + h@,
        None => match p.default_value {
            Some(d) => head + " Default value: `"@ + d@ + "`."@,
            None => match p.candidate {
                Some(c) => head + " Candidate source: "@ + candidate_source_label(c) + "."@,
                None => if p.source != SequenceParamSource::User {
                    head + " Value source: "@ + param_source_label(p.source) + "."@
                } else {
                    head
                },
            },
        },
    }
}

/// Explains how to supply a required parameter: its hint, else its
/// default, else its candidate source, else where its value comes from.
pub fn format_missing_sequence_param(param: &SequenceParam) -> (r: String)
    ensures
        r@ == missing_param_message(*param),
{
    let mut v = chars_of("Sequence parameter `");
    push_str(&mut v, param.name.as_str());
    push_str(&mut v, "` is required.");
    match &param.hint {
        Some(h) => {
            push_str(&mut v, " ");
            push_str(&mut v, h.as_str());
        },
        None => match &param.default_value {
            Some(d) => {
                push_str(&mut v, " Default value: `");
                push_str(&mut v, d.as_str());
                push_str(&mut v, "`.");
            },
            None => match param.candidate {
                Some(c) => {
                    push_str(&mut v, " Candidate source: ");
                    push_str(&mut v, c.label());
                    push_str(&mut v, ".");
                },
                None => {
                    if param.source != SequenceParamSource::User {
                        push_str(&mut v, " Value source: ");
                        push_str(&mut v, param.source.label());
                        push_str(&mut v, ".");
                    }
                },
            },
        },
    }
    string_of(&v)
}

/// Flags shown after a parameter in listings.
pub open spec fn param_flags(p: SequenceParam) -> Seq<Seq<char>> {
    let a: Seq<Seq<char>> = if p.sensitive {
        seq!["sensitive"@]
    } else {
        Seq::empty()
    };
    let b = if p.source != SequenceParamSource::User {
        a.push(param_source_label(p.source))
    } else {
        a
    };
    match p.candidate {
        Some(c) => b.push(candidate_source_label(c)),
        None => b,
    }
}

/// `name`, or `name=default`, followed by `(flags)` when there are any.
pub open spec fn param_display_text(p: SequenceParam) -> Seq<char> {
    let base = match p.default_value {
        Some(d) => p.name@ + "="@ + d@,
        None => p.name@,
    };
    if param_flags(p).len() == 0 {
        base
    } else {
        base + "("@ + join_seqs(param_flags(p), ","@) + ")"@
    }
}

fn param_display(param: &SequenceParam) -> (r: Vec<char>)
    ensures
        r@ == param_display_text(*param),
{
    let mut v = chars_of(param.name.as_str());
    match &param.default_value {
        Some(d) => {
            push_str(&mut v, "=");
            push_str(&mut v, d.as_str());
        },
        None => {},
    }
    let mut flags: Vec<Vec<char>> = Vec::new();
    assert(seqs_view(flags@) =~= Seq::<Seq<char>>::empty());
    if param.sensitive {
        push_part(&mut flags, chars_of("sensitive"));
    }
    if param.source != SequenceParamSource::User {
        push_part(&mut flags, chars_of(param.source.label()));
    }
    match param.candidate {
        Some(c) => {
            push_part(&mut flags, chars_of(c.label()));
        },
        None => {},
    }
    assert(seqs_view(flags@) =~= param_flags(*param));
    if flags.len() > 0 {
        push_str(&mut v, "(");
        let joined = join_chars(&flags, ",");
        push_all(&mut v, &joined);
        push_str(&mut v, ")");
    }
    v
}

/// The displays of the required parameters, in order.
pub open spec fn required_displays(params: Seq<SequenceParam>) -> Seq<Seq<char>>
    decreases params.len(),
{
    if params.len() == 0 {
        Seq::empty()
    } else {
        let prev = required_displays(params.drop_last());
        if params.last().required {
            prev.push(param_display_text(params.last()))
        } else {
            prev
        }
    }
}

/// The required parameters of a sequence joined with commas, or `-`.
pub fn required_param_summary(sequence: &Sequence) -> (r: String)
    ensures
        r@ == (if required_displays(sequence.params@).len() == 0 {
            "-"@
        } else {
            join_seqs(required_displays(sequence.params@), ","@)
        }),
{
    let mut parts: Vec<Vec<char>> = Vec::new();
    let mut i: usize = 0;
    assert(sequence.params@.take(0) =~= Seq::<SequenceParam>::empty());
    assert(seqs_view(parts@) =~= Seq::<Seq<char>>::empty());
    while i < sequence.params.len()
        invariant
            i <= sequence.params.len(),
            seqs_view(parts@) == required_displays(sequence.params@.take(i as int)),
        decreases sequence.params.len() - i,
    {
        assert(sequence.params@.take(i + 1).drop_last() =~= sequence.params@.take(i as int));
        if sequence.params[i].required {
            push_part(&mut parts, param_display(&sequence.params[i]));
        }
        i += 1;
    }
    assert(sequence.params@.take(i as int) =~= sequence.params@);
    if parts.len() == 0 {
        "-".to_owned()
    } else {
        string_of(&join_chars(&parts, ","))
    }
}

// ---------------------------------------------------------------------
// Binding
// ---------------------------------------------------------------------
/// The first parameter named `name`.
pub open spec fn find_param(params: Seq<SequenceParam>, name: Seq<char>) -> Option<int>
    decreases params.len(),
{
    if params.len() == 0 {
        None
    } else {
        match find_param(params.drop_last(), name) {
            Some(i) => Some(i),
            None => if params.last().name@ == name {
                Some(params.len() - 1)
            } else {
                None
            },
        }
    }
}

pub proof fn lemma_find_param(params: Seq<SequenceParam>, name: Seq<char>)
    ensures
        find_param(params, name) matches Some(i) ==> 0 <= i < params.len() && params[i].name@
            == name && forall|k: int| 0 <= k < i ==> params[k].name@ != name,
        find_param(params, name) is None ==> forall|k: int|
            0 <= k < params.len() ==> params[k].name@ != name,
    decreases params.len(),
{
    if params.len() > 0 {
        let w = params.drop_last();
        lemma_find_param(w, name);
        assert forall|k: int| 0 <= k < w.len() implies w[k] == params[k] by {}
    }
}

/// Binding the given values in order; the error is the position of the
/// first value whose name the sequence does not define.
pub open spec fn bind_given(
    params: Seq<SequenceParam>,
    values: Seq<SequenceParamValue>,
) -> Result<Seq<BindingView>, int>
    decreases values.len(),
{
    if values.len() == 0 {
        Ok(Seq::empty())
    } else {
        match bind_given(params, values.drop_last()) {
            Err(j) => Err(j),
            Ok(b) => match find_param(params, values.last().name@) {
                None => Err(values.len() - 1),
                Some(i) => Ok(
                    upsert(b, (values.last().name@, values.last().value@, params[i].sensitive)),
                ),
            },
        }
    }
}

/// Adds the defaults of the parameters not given, checking that every
/// required one has a non-empty value; the error is the position of the
/// first required parameter without one.
pub open spec fn bind_defaults(b: Seq<BindingView>, params: Seq<SequenceParam>) -> Result<
    Seq<BindingView>,
    int,
>
    decreases params.len(),
{
    if params.len() == 0 {
        Ok(b)
    } else {
        match bind_defaults(b, params.drop_last()) {
            Err(k) => Err(k),
            Ok(c) => {
                let p = params.last();
                let d = if lookup(c, p.name@) is None && p.default_value is Some {
                    upsert(c, (p.name@, p.default_value->0@, p.sensitive))
                } else {
                    c
                };
                let empty = match lookup(d, p.name@) {
                    Some(found) => found.0.len() == 0,
                    None => true,
                };
                if p.required && empty {
                    Err(params.len() - 1)
                } else {
                    Ok(d)
                }
            },
        }
    }
}

/// The name of the length binding derived from `name`.
pub open spec fn len_name(name: Seq<char>) -> Seq<char> {
    name + "_len"@
}

/// Adds `<name>_len` (the value's length in bytes) for each of `from`.
pub open spec fn add_lengths(b: Seq<BindingView>, from: Seq<BindingView>) -> Seq<BindingView>
    decreases from.len(),
{
    if from.len() == 0 {
        b
    } else {
        let e = from.last();
        upsert(add_lengths(b, from.drop_last()), (len_name(e.0), decimal(utf8_len(e.1)), false))
    }
}

/// Everything that can go wrong binding parameters.
pub enum BindFailure {
    Undefined(int),
    Missing(int),
}

/// The bindings for a run, or why there are none.
pub open spec fn bind_spec(params: Seq<SequenceParam>, values: Seq<SequenceParamValue>) -> Result<
    Seq<BindingView>,
    BindFailure,
> {
    match bind_given(params, values) {
        Err(j) => Err(BindFailure::Undefined(j)),
        Ok(b) => match bind_defaults(b, params) {
            Err(k) => Err(BindFailure::Missing(k)),
            Ok(c) => Ok(add_lengths(c, c)),
        },
    }
}

/// The position of the last value given for `name`, if any.
pub open spec fn last_given(values: Seq<SequenceParamValue>, name: Seq<char>) -> Option<int>
    decreases values.len(),
{
    if values.len() == 0 {
        None
    } else if values.last().name@ == name {
        Some(values.len() - 1)
    } else {
        last_given(values.drop_last(), name)
    }
}

proof fn lemma_last_given(values: Seq<SequenceParamValue>, name: Seq<char>)
    ensures
        last_given(values, name) matches Some(j) ==> 0 <= j < values.len() && values[j].name@ == name,
    decreases values.len(),
{
    if values.len() > 0 {
        lemma_last_given(values.drop_last(), name);
    }
}

/// Every bound name is the name of a parameter of `all`.
pub open spec fn names_defined(v: Seq<BindingView>, all: Seq<SequenceParam>) -> bool {
    forall|k: int| 0 <= k < v.len() ==> find_param(all, (#[trigger] v[k]).0) is Some
}

proof fn lemma_upsert_names_defined(v: Seq<BindingView>, e: BindingView, all: Seq<SequenceParam>)
    requires
        sorted_names(v),
        names_defined(v, all),
        find_param(all, e.0) is Some,
    ensures
        sorted_names(upsert(v, e)),
        names_defined(upsert(v, e), all),
{
    lemma_upsert_sorted(v, e);
    let w = upsert(v, e);
    assert forall|k: int| 0 <= k < w.len() implies find_param(all, (#[trigger] w[k]).0) is Some by {
        if w[k] != e {
            let m = choose|m: int| 0 <= m < v.len() && v[m] == w[k];
            assert(find_param(all, v[m].0) is Some);
        }
    }
}

/// Binding the given values keeps the names sorted, binds only defined
/// names, and binds each name to the last value given for it.
proof fn lemma_bind_given_values(params: Seq<SequenceParam>, values: Seq<SequenceParamValue>, name: Seq<char>)
    ensures
        bind_given(params, values) matches Ok(b) ==> sorted_names(b) && names_defined(b, params) && (
        last_given(values, name) matches Some(j) ==> lookup(b, name) matches Some(x) && x.0
            == values[j].value@) && (last_given(values, name) is None ==> lookup(b, name) is None),
    decreases values.len(),
{
    if values.len() > 0 {
        let w = values.drop_last();
        lemma_bind_given_values(params, w, name);
        if let Ok(b0) = bind_given(params, w) {
            if let Some(i) = find_param(params, values.last().name@) {
                let e = (values.last().name@, values.last().value@, params[i].sensitive);
                lemma_upsert_names_defined(b0, e, params);
                law_lookup_after_upsert(b0, e, name);
                if values.last().name@ != name {
                    lemma_last_given(w, name);
                    if let Some(j) = last_given(values, name) {
                        assert(last_given(w, name) == Some(j));
                        assert(w[j] == values[j]);
                    }
                }
            }
        }
    } else {
        assert(names_defined(Seq::<BindingView>::empty(), params));
        assert(sorted_names(Seq::<BindingView>::empty()));
    }
}

/// Adding defaults keeps what was bound, keeps the names sorted, and binds
/// only names of `all`.
proof fn lemma_bind_defaults_keeps(b: Seq<BindingView>, params: Seq<SequenceParam>, all: Seq<SequenceParam>, name: Seq<char>)
    requires
        sorted_names(b),
        names_defined(b, all),
        forall|m: int| 0 <= m < params.len() ==> find_param(all, (#[trigger] params[m]).name@) is Some,
    ensures
        bind_defaults(b, params) matches Ok(c) ==> sorted_names(c) && names_defined(c, all) && (lookup(
            b,
            name,
        ) is Some ==> lookup(c, name) == lookup(b, name)),
    decreases params.len(),
{
    if params.len() > 0 {
        let w = params.drop_last();
        assert forall|m: int| 0 <= m < w.len() implies find_param(all, (#[trigger] w[m]).name@) is Some by {
            assert(w[m] == params[m]);
        }
        lemma_bind_defaults_keeps(b, w, all, name);
        if let Ok(c) = bind_defaults(b, w) {
            let p = params.last();
            assert(p == params[params.len() - 1]);
            if lookup(c, p.name@) is None && p.default_value is Some {
                let e = (p.name@, p.default_value->0@, p.sensitive);
                lemma_upsert_names_defined(c, e, all);
                law_lookup_after_upsert(c, e, name);
            }
        }
    }
}

/// Adding lengths keeps the names sorted and every binding whose name is
/// not the length name of one of `from`.
proof fn lemma_add_lengths_keeps(b: Seq<BindingView>, from: Seq<BindingView>, name: Seq<char>)
    requires
        sorted_names(b),
        forall|k: int| 0 <= k < from.len() ==> len_name((#[trigger] from[k]).0) != name,
    ensures
        sorted_names(add_lengths(b, from)),
        lookup(add_lengths(b, from), name) == lookup(b, name),
    decreases from.len(),
{
    if from.len() > 0 {
        let w = from.drop_last();
        assert forall|k: int| 0 <= k < w.len() implies len_name((#[trigger] w[k]).0) != name by {
            assert(w[k] == from[k]);
        }
        lemma_add_lengths_keeps(b, w, name);
        let e = from.last();
        assert(e == from[from.len() - 1]);
        let x = (len_name(e.0), decimal(utf8_len(e.1)), false);
        lemma_upsert_sorted(add_lengths(b, w), x);
        law_lookup_after_upsert(add_lengths(b, w), x, name);
    }
}

/// Adding defaults binds a name that was not bound to the default of the
/// first parameter of that name, when it has one.
proof fn lemma_bind_defaults_default(b: Seq<BindingView>, params: Seq<SequenceParam>, all: Seq<SequenceParam>, name: Seq<char>, i: int)
    requires
        sorted_names(b),
        names_defined(b, all),
        forall|m: int| 0 <= m < params.len() ==> find_param(all, (#[trigger] params[m]).name@) is Some,
        lookup(b, name) is None,
        0 <= i < params.len(),
        params[i].name@ == name,
        forall|m: int| 0 <= m < i ==> (#[trigger] params[m]).name@ != name,
        params[i].default_value is Some,
    ensures
        bind_defaults(b, params) matches Ok(c) ==> lookup(c, name) == Some(
            (params[i].default_value->0@, params[i].sensitive),
        ),
    decreases params.len(),
{
    let w = params.drop_last();
    assert forall|m: int| 0 <= m < w.len() implies find_param(all, (#[trigger] w[m]).name@) is Some by {
        assert(w[m] == params[m]);
    }
    let p = params.last();
    assert(p == params[params.len() - 1]);
    if i < params.len() - 1 {
        assert(w[i] == params[i]);
        assert forall|m: int| 0 <= m < i implies (#[trigger] w[m]).name@ != name by {
            assert(w[m] == params[m]);
        }
        lemma_bind_defaults_default(b, w, all, name, i);
        lemma_bind_defaults_keeps(b, w, all, name);
        if let Ok(c) = bind_defaults(b, w) {
            if lookup(c, p.name@) is None && p.default_value is Some {
                let e = (p.name@, p.default_value->0@, p.sensitive);
                lemma_upsert_names_defined(c, e, all);
                law_lookup_after_upsert(c, e, name);
                assert(p.name@ != name);
            }
        }
    } else {
        lemma_bind_defaults_keeps(b, w, all, name);
        if let Ok(c) = bind_defaults(b, w) {
            assert(lookup(c, name) is None) by {
                lemma_bind_defaults_unbound(b, w, all, name);
            }
            let e = (p.name@, p.default_value->0@, p.sensitive);
            lemma_upsert_names_defined(c, e, all);
            law_lookup_after_upsert(c, e, name);
        }
    }
}

/// Adding defaults for parameters none of which is named `name` leaves it
/// unbound if it was.
proof fn lemma_bind_defaults_unbound(b: Seq<BindingView>, params: Seq<SequenceParam>, all: Seq<SequenceParam>, name: Seq<char>)
    requires
        sorted_names(b),
        names_defined(b, all),
        forall|m: int| 0 <= m < params.len() ==> find_param(all, (#[trigger] params[m]).name@) is Some,
        forall|m: int| 0 <= m < params.len() ==> (#[trigger] params[m]).name@ != name,
        lookup(b, name) is None,
    ensures
        bind_defaults(b, params) matches Ok(c) ==> lookup(c, name) is None,
    decreases params.len(),
{
    if params.len() > 0 {
        let w = params.drop_last();
        assert forall|m: int| 0 <= m < w.len() implies find_param(all, (#[trigger] w[m]).name@) is Some by {
            assert(w[m] == params[m]);
        }
        assert forall|m: int| 0 <= m < w.len() implies (#[trigger] w[m]).name@ != name by {
            assert(w[m] == params[m]);
        }
        lemma_bind_defaults_unbound(b, w, all, name);
        lemma_bind_defaults_keeps(b, w, all, name);
        let p = params.last();
        assert(p == params[params.len() - 1]);
        if let Ok(c) = bind_defaults(b, w) {
            if lookup(c, p.name@) is None && p.default_value is Some {
                let e = (p.name@, p.default_value->0@, p.sensitive);
                lemma_upsert_names_defined(c, e, all);
                law_lookup_after_upsert(c, e, name);
            }
        }
    }
}

/// A parameter that was not given and has a default is bound to that
/// default (the first parameter of that name decides). (A name that is the
/// length name `<other>_len` of another parameter is bound to that
/// parameter's length instead.)
pub proof fn law_default_bound_when_not_given(params: Seq<SequenceParam>, values: Seq<SequenceParamValue>, i: int)
    requires
        0 <= i < params.len(),
        forall|m: int| 0 <= m < i ==> (#[trigger] params[m]).name@ != params[i].name@,
        forall|k: int| 0 <= k < params.len() ==> len_name((#[trigger] params[k]).name@) != params[i].name@,
        params[i].default_value is Some,
        last_given(values, params[i].name@) is None,
    ensures
        bind_spec(params, values) matches Ok(b) ==> lookup(b, params[i].name@) matches Some(x) && x.0
            == params[i].default_value->0@,
{
    let name = params[i].name@;
    lemma_bind_given_values(params, values, name);
    if let Ok(b1) = bind_given(params, values) {
        assert forall|m: int| 0 <= m < params.len() implies find_param(params, (#[trigger] params[m]).name@) is Some by {
            lemma_find_param(params, params[m].name@);
        }
        lemma_bind_defaults_default(b1, params, params, name, i);
        lemma_bind_defaults_keeps(b1, params, params, name);
        if let Ok(c) = bind_defaults(b1, params) {
            assert forall|k: int| 0 <= k < c.len() implies len_name((#[trigger] c[k]).0) != name by {
                let j = find_param(params, c[k].0)->0;
                lemma_find_param(params, c[k].0);
                assert(len_name(params[j].name@) != name);
            }
            lemma_add_lengths_keeps(c, c, name);
            assert(bind_spec(params, values) == Ok::<Seq<BindingView>, BindFailure>(add_lengths(c, c)));
        } else {
            assert(bind_spec(params, values) is Err);
        }
    } else {
        assert(bind_spec(params, values) is Err);
    }
}

/// A value given for a parameter is the value bound to it, the last one
/// when it was given more than once: a default never replaces it. (A name
/// that is the length name `<other>_len` of another parameter is bound to
/// that parameter's length instead.)
pub proof fn law_given_value_is_bound(params: Seq<SequenceParam>, values: Seq<SequenceParamValue>, name: Seq<char>)
    requires
        forall|k: int| 0 <= k < params.len() ==> len_name((#[trigger] params[k]).name@) != name,
    ensures
        bind_spec(params, values) matches Ok(b) ==> (last_given(values, name) matches Some(j) ==> (lookup(
            b,
            name,
        ) matches Some(x) && x.0 == values[j].value@)),
{
    lemma_bind_given_values(params, values, name);
    if let Ok(b1) = bind_given(params, values) {
        assert forall|m: int| 0 <= m < params.len() implies find_param(params, (#[trigger] params[m]).name@) is Some by {
            lemma_find_param(params, params[m].name@);
        }
        lemma_bind_defaults_keeps(b1, params, params, name);
        if let Ok(c) = bind_defaults(b1, params) {
            assert forall|k: int| 0 <= k < c.len() implies len_name((#[trigger] c[k]).0) != name by {
                let i = find_param(params, c[k].0)->0;
                lemma_find_param(params, c[k].0);
                assert(len_name(params[i].name@) != name);
            }
            lemma_add_lengths_keeps(c, c, name);
            assert(bind_spec(params, values) == Ok::<Seq<BindingView>, BindFailure>(add_lengths(c, c)));
            if let Some(j) = last_given(values, name) {
                assert(lookup(b1, name) is Some);
                assert(lookup(c, name) == lookup(b1, name));
                assert(lookup(add_lengths(c, c), name) == lookup(b1, name));
                assert((lookup(b1, name)->0).0 == values[j].value@);
            }
        } else {
            assert(bind_spec(params, values) is Err);
        }
    } else {
        assert(bind_spec(params, values) is Err);
    }
}

/// Whether `e` is the error that `f` describes for `sequence` and `values`.
pub open spec fn bind_error(
    sequence: Sequence,
    values: Seq<SequenceParamValue>,
    f: BindFailure,
    e: AtctlError,
) -> bool {
    match f {
        BindFailure::Undefined(j) => e matches AtctlError::InvalidSequenceParam { param, reason }
            && param@ == values[j].name@ && reason@ == undefined_param_reason(sequence.name@),
        BindFailure::Missing(k) => e matches AtctlError::MissingSequenceParam {
            sequence: s,
            param,
            hint,
        } && s@ == sequence.name@ && param@ == sequence.params@[k].name@ && hint@ == hint_suffix(
            sequence.params@[k],
        ),
    }
}

/// Whether `r` is what binding `values` to `sequence` gives.
pub open spec fn bind_outcome(
    sequence: Sequence,
    values: Seq<SequenceParamValue>,
    r: Result<Bindings, AtctlError>,
) -> bool {
    match bind_spec(sequence.params@, values) {
        Ok(b) => r matches Ok(bound) && bound@ == b,
        Err(f) => r matches Err(e) && bind_error(sequence, values, f, e),
    }
}

/// The position of the first parameter of `params` named `name`.
fn find_param_exec(params: &Vec<SequenceParam>, name: &Vec<char>) -> (r: Option<usize>)
    ensures
        r matches Some(k) ==> k < params.len() && find_param(params@, name@) == Some(k as int),
        r is None ==> find_param(params@, name@) is None,
{
    proof {
        lemma_find_param(params@, name@);
    }
    let mut i: usize = 0;
    while i < params.len()
        invariant
            i <= params.len(),
            forall|k: int| 0 <= k < i ==> params@[k].name@ != name@,
        decreases params.len() - i,
    {
        let n = chars_of(params[i].name.as_str());
        if crate::text::chars_eq(&n, name) {
            proof {
                lemma_find_param_is(params@, name@, i as int);
            }
            return Some(i);
        }
        i += 1;
    }
    None
}

pub proof fn lemma_find_param_is(params: Seq<SequenceParam>, name: Seq<char>, i: int)
    requires
        0 <= i < params.len(),
        params[i].name@ == name,
        forall|k: int| 0 <= k < i ==> params[k].name@ != name,
    ensures
        find_param(params, name) == Some(i),
    decreases params.len(),
{
    lemma_find_param(params, name);
    if i < params.len() - 1 {
        let w = params.drop_last();
        assert forall|k: int| 0 <= k < i implies w[k].name@ != name by {
            assert(w[k] == params[k]);
        }
        assert(w[i] == params[i]);
        lemma_find_param_is(w, name, i);
    } else {
        let w = params.drop_last();
        lemma_find_param(w, name);
        assert forall|k: int| 0 <= k < w.len() implies w[k].name@ != name by {
            assert(w[k] == params[k]);
        }
    }
}

/// Binds the given values, adds defaults, checks the required parameters
/// and adds a `<name>_len` binding for every value.
pub fn validate_and_bind_params(sequence: &Sequence, values: &[SequenceParamValue]) -> (r: Result<
    Bindings,
    AtctlError,
>)
    ensures
        bind_outcome(*sequence, values@, r),
{
    let mut bound = Bindings::new();
    assert(bound@ =~= Seq::<BindingView>::empty());
    let mut i: usize = 0;
    assert(values@.take(0) =~= Seq::<SequenceParamValue>::empty());
    while i < values.len()
        invariant
            i <= values.len(),
            bind_given(sequence.params@, values@.take(i as int)) == Ok::<Seq<BindingView>, int>(
                bound@,
            ),
        decreases values.len() - i,
    {
        assert(values@.take(i + 1).drop_last() =~= values@.take(i as int));
        assert(values@.take(i + 1).last() == values@[i as int]);
        let name = chars_of(values[i].name.as_str());
        match find_param_exec(&sequence.params, &name) {
            None => {
                proof {
                    assert(bind_given(sequence.params@, values@.take(i + 1)) == Err::<
                        Seq<BindingView>,
                        int,
                    >(i as int));
                    lemma_bind_given_err_prefix(sequence.params@, values@, i + 1);
                }
                let reason = undefined_param_reason_exec(sequence.name.as_str());
                return Err(
                    AtctlError::InvalidSequenceParam { param: values[i].name.clone(), reason },
                );
            },
            Some(k) => {
                let sensitive = sequence.params[k].sensitive;
                bound.insert(
                    values[i].name.clone(),
                    BoundParam { value: values[i].value.clone(), sensitive },
                );
            },
        }
        i += 1;
    }
    assert(values@.take(i as int) =~= values@);
    let ghost given = bound@;
    let mut k: usize = 0;
    assert(sequence.params@.take(0) =~= Seq::<SequenceParam>::empty());
    while k < sequence.params.len()
        invariant
            k <= sequence.params.len(),
            bind_given(sequence.params@, values@) == Ok::<Seq<BindingView>, int>(given),
            bind_defaults(given, sequence.params@.take(k as int)) == Ok::<Seq<BindingView>, int>(
                bound@,
            ),
        decreases sequence.params.len() - k,
    {
        let param = &sequence.params[k];
        assert(sequence.params@.take(k + 1).drop_last() =~= sequence.params@.take(k as int));
        assert(sequence.params@.take(k + 1).last() == sequence.params@[k as int]);
        let key = chars_of(param.name.as_str());
        let present = bound.get_chars(&key).is_some();
        if !present {
            match &param.default_value {
                Some(d) => {
                    bound.insert(
                        param.name.clone(),
                        BoundParam { value: d.clone(), sensitive: param.sensitive },
                    );
                },
                None => {},
            }
        }
        if param.required {
            let missing = match bound.get_chars(&key) {
                None => true,
                Some(b) => b.value.as_str().is_empty(),
            };
            if missing {
                proof {
                    lemma_bind_defaults_err_prefix(given, sequence.params@, k + 1);
                }
                let hint = missing_param_hint_suffix(param);
                return Err(
                    AtctlError::MissingSequenceParam {
                        sequence: sequence.name.clone(),
                        param: param.name.clone(),
                        hint,
                    },
                );
            }
        }
        k += 1;
    }
    assert(sequence.params@.take(k as int) =~= sequence.params@);
    // Length bindings for every value bound so far.
    let ghost snapshot = bound@;
    let n = bound.len();
    let mut derived: Vec<(String, String)> = Vec::new();
    let mut j: usize = 0;
    while j < n
        invariant
            j <= n,
            n == snapshot.len(),
            bound@ == snapshot,
            derived.len() == j,
            forall|m: int|
                0 <= m < j ==> (#[trigger] derived@[m]).0@ == len_name(snapshot[m].0)
                    && derived@[m].1@ == decimal(utf8_len(snapshot[m].1)),
        decreases n - j,
    {
        let e = bound.entry(j);
        let mut nm = chars_of(e.name.as_str());
        push_str(&mut nm, "_len");
        let value = chars_of(e.param.value.as_str());
        let bytes = utf8_len_exec(&value);
        let mut text: Vec<char> = Vec::new();
        push_decimal(&mut text, bytes);
        derived.push((string_of(&nm), string_of(&text)));
        j += 1;
    }
    let mut m: usize = 0;
    assert(snapshot.take(0) =~= Seq::<BindingView>::empty());
    while m < n
        invariant
            m <= n,
            n == snapshot.len(),
            derived.len() == n,
            forall|q: int|
                0 <= q < n ==> (#[trigger] derived@[q]).0@ == len_name(snapshot[q].0)
                    && derived@[q].1@ == decimal(utf8_len(snapshot[q].1)),
            bound@ == add_lengths(snapshot, snapshot.take(m as int)),
        decreases n - m,
    {
        assert(snapshot.take(m + 1).drop_last() =~= snapshot.take(m as int));
        assert(snapshot.take(m + 1).last() == snapshot[m as int]);
        let (name, value) = (derived[m].0.clone(), derived[m].1.clone());
        bound.insert(name, BoundParam { value, sensitive: false });
        m += 1;
    }
    assert(snapshot.take(m as int) =~= snapshot);
    Ok(bound)
}

pub proof fn lemma_bind_given_err_prefix(
    params: Seq<SequenceParam>,
    values: Seq<SequenceParamValue>,
    k: int,
)
    requires
        0 <= k <= values.len(),
        bind_given(params, values.take(k)) is Err,
    ensures
        bind_given(params, values) == bind_given(params, values.take(k)),
    decreases values.len() - k,
{
    if k < values.len() {
        assert(values.take(k + 1).drop_last() =~= values.take(k));
        lemma_bind_given_err_prefix(params, values, k + 1);
    } else {
        assert(values.take(k) =~= values);
    }
}

pub proof fn lemma_bind_defaults_err_prefix(b: Seq<BindingView>, params: Seq<SequenceParam>, k: int)
    requires
        0 <= k <= params.len(),
        bind_defaults(b, params.take(k)) is Err,
    ensures
        bind_defaults(b, params) == bind_defaults(b, params.take(k)),
    decreases params.len() - k,
{
    if k < params.len() {
        assert(params.take(k + 1).drop_last() =~= params.take(k));
        lemma_bind_defaults_err_prefix(b, params, k + 1);
    } else {
        assert(params.take(k) =~= params);
    }
}


// ---------------------------------------------------------------------
// Templates
// ---------------------------------------------------------------------
/// Renders `{{name}}` placeholders (the name trimmed) with bound values.
/// An error gives the offending name (or `step`, for an unterminated
/// placeholder) and the reason.
pub open spec fn render_spec(
    t: Seq<char>,
    b: Seq<BindingView>,
    sequence_name: Seq<char>,
    step: Seq<char>,
) -> Result<Seq<char>, (Seq<char>, Seq<char>)>
    decreases t.len(),
{
    match find_from(t, seq!['{', '{'], 0) {
        None => Ok(t),
        Some(s) => {
            let after = t.skip(s + 2);
            match find_from(after, seq!['}', '}'], 0) {
                None => Err((step, "unterminated template placeholder"@)),
                Some(e) => {
                    let name = trim(after.take(e));
                    match lookup(b, name) {
                        None => Err((name, undefined_param_reason(sequence_name))),
                        Some(v) => {
                            let rest = after.skip(e + 2);
                            if rest.len() < t.len() {
                                match render_spec(rest, b, sequence_name, step) {
                                    Ok(r) => Ok(t.take(s) + v.0 + r),
                                    Err(x) => Err(x),
                                }
                            } else {
                                Ok(t)
                            }
                        },
                    }
                },
            }
        },
    }
}

pub open spec fn prepend(o: Seq<char>, r: Result<Seq<char>, (Seq<char>, Seq<char>)>) -> Result<
    Seq<char>,
    (Seq<char>, Seq<char>),
> {
    match r {
        Ok(x) => Ok(o + x),
        Err(e) => Err(e),
    }
}

/// Whether `r` is what rendering `t` gives.
pub open spec fn render_outcome(
    t: Seq<char>,
    b: Seq<BindingView>,
    sequence_name: Seq<char>,
    step: Seq<char>,
    r: Result<String, AtctlError>,
) -> bool {
    match render_spec(t, b, sequence_name, step) {
        Ok(x) => r matches Ok(s) && s@ == x,
        Err(x) => r matches Err(AtctlError::InvalidSequenceParam { param, reason }) && param@
            == x.0 && reason@ == x.1,
    }
}

/// Renders a template with the bound values; undefined names and
/// unterminated placeholders are errors.
pub fn render_template(template: &str, bindings: &Bindings, sequence: &Sequence, step: &str) -> (r:
    Result<String, AtctlError>)
    ensures
        render_outcome(template@, bindings@, sequence.name@, step@, r),
{
    let t = chars_of(template);
    match render_chars(&t, bindings, sequence, step) {
        Ok(v) => Ok(string_of(&v)),
        Err(e) => Err(e),
    }
}

/// `render_template` on characters.
pub fn render_chars(t: &Vec<char>, bindings: &Bindings, sequence: &Sequence, step: &str) -> (r:
    Result<Vec<char>, AtctlError>)
    ensures
        match render_spec(t@, bindings@, sequence.name@, step@) {
            Ok(x) => r matches Ok(v) && v@ == x,
            Err(x) => r matches Err(AtctlError::InvalidSequenceParam { param, reason }) && param@
                == x.0 && reason@ == x.1,
        },
{
    let open = chars_of("{{");
    let close = chars_of("}}");
    proof {
        reveal_strlit("{{");
        reveal_strlit("}}");
        assert(open@ =~= seq!['{', '{']);
        assert(close@ =~= seq!['}', '}']);
    }
    let ghost full = render_spec(t@, bindings@, sequence.name@, step@);
    let mut out: Vec<char> = Vec::new();
    let mut rest = slice(t, 0, t.len());
    assert(rest@ =~= t@);
    assert(out@ + rest@ =~= rest@);
    loop
        invariant
            open@ == seq!['{', '{'],
            close@ == seq!['}', '}'],
            full == render_spec(t@, bindings@, sequence.name@, step@),
            full == prepend(out@, render_spec(rest@, bindings@, sequence.name@, step@)),
        decreases rest.len(),
    {
        proof {
            crate::text::lemma_find_from(rest@, open@, 0);
        }
        match find_from_exec(&rest, &open, 0) {
            None => {
                push_all(&mut out, &rest);
                return Ok(out);
            },
            Some(s) => {
                let after = slice(&rest, s + 2, rest.len());
                assert(after@ =~= rest@.skip(s + 2));
                proof {
                    crate::text::lemma_find_from(after@, close@, 0);
                }
                match find_from_exec(&after, &close, 0) {
                    None => {
                        return Err(
                            AtctlError::InvalidSequenceParam {
                                param: step.to_owned(),
                                reason: "unterminated template placeholder".to_owned(),
                            },
                        );
                    },
                    Some(e) => {
                        let raw_name = slice(&after, 0, e);
                        assert(raw_name@ =~= after@.take(e as int));
                        let name = trim_chars(&raw_name);
                        match bindings.get_chars(&name) {
                            None => {
                                let reason = undefined_param_reason_exec(sequence.name.as_str());
                                return Err(
                                    AtctlError::InvalidSequenceParam {
                                        param: string_of(&name),
                                        reason,
                                    },
                                );
                            },
                            Some(value) => {
                                let head = slice(&rest, 0, s);
                                assert(head@ =~= rest@.take(s as int));
                                let ghost old_out = out@;
                                push_all(&mut out, &head);
                                push_str(&mut out, value.value.as_str());
                                let next = slice(&after, e + 2, after.len());
                                assert(next@ =~= after@.skip(e + 2));
                                proof {
                                    let rs = render_spec(next@, bindings@, sequence.name@, step@);
                                    assert(prepend(out@, rs) == prepend(old_out, render_spec(
                                        rest@,
                                        bindings@,
                                        sequence.name@,
                                        step@,
                                    ))) by {
                                        match rs {
                                            Ok(x) => {
                                                assert(out@ + x =~= old_out + (rest@.take(s as int) + value.value@ + x));
                                            },
                                            Err(_) => {},
                                        }
                                    }
                                }
                                rest = next;
                            },
                        }
                    },
                }
            },
        }
    }
}

/// The values to review before running: the sequence's review items
/// rendered, or, without any, each bound parameter with its label.
pub open spec fn review_values(sequence: Sequence, b: Seq<BindingView>) -> Result<
    Seq<(Seq<char>, Seq<char>, bool)>,
    (Seq<char>, Seq<char>),
>
    decreases sequence.review_items@.len(),
{
    if sequence.review_items@.len() == 0 {
        Ok(param_reviews(sequence.params@, b))
    } else {
        item_reviews(sequence.review_items@, b, sequence.name@)
    }
}

pub open spec fn param_reviews(params: Seq<SequenceParam>, b: Seq<BindingView>) -> Seq<
    (Seq<char>, Seq<char>, bool),
>
    decreases params.len(),
{
    if params.len() == 0 {
        Seq::empty()
    } else {
        let prev = param_reviews(params.drop_last(), b);
        let p = params.last();
        match lookup(b, p.name@) {
            Some(v) => prev.push((p.label@, v.0, p.sensitive)),
            None => prev,
        }
    }
}

pub open spec fn item_reviews(
    items: Seq<crate::sequences::model::SequenceReviewItem>,
    b: Seq<BindingView>,
    sequence_name: Seq<char>,
) -> Result<Seq<(Seq<char>, Seq<char>, bool)>, (Seq<char>, Seq<char>)>
    decreases items.len(),
{
    if items.len() == 0 {
        Ok(Seq::empty())
    } else {
        match item_reviews(items.drop_last(), b, sequence_name) {
            Err(e) => Err(e),
            Ok(prev) => {
                let it = items.last();
                match render_spec(it.value@, b, sequence_name, "review"@) {
                    Err(e) => Err(e),
                    Ok(v) => Ok(prev.push((it.label@, v, it.sensitive))),
                }
            },
        }
    }
}

pub open spec fn review_view(v: SequenceReviewValue) -> (Seq<char>, Seq<char>, bool) {
    (v.label@, v.value@, v.sensitive)
}

/// Binds the parameters and lists what the user should review.
pub fn render_sequence_review(sequence: &Sequence, values: &[SequenceParamValue]) -> (r: Result<
    Vec<SequenceReviewValue>,
    AtctlError,
>)
    ensures
        match bind_spec(sequence.params@, values@) {
            Err(f) => r matches Err(e) && bind_error(*sequence, values@, f, e),
            Ok(b) => match review_values(*sequence, b) {
                Ok(items) => r matches Ok(v) && v@.map_values(|x: SequenceReviewValue| review_view(x))
                    == items,
                Err(x) => r matches Err(AtctlError::InvalidSequenceParam { param, reason })
                    && param@ == x.0 && reason@ == x.1,
            },
        },
{
    let bindings = match validate_and_bind_params(sequence, values) {
        Ok(b) => b,
        Err(e) => return Err(e),
    };
    let mut out: Vec<SequenceReviewValue> = Vec::new();
    if sequence.review_items.len() == 0 {
        let mut i: usize = 0;
        assert(sequence.params@.take(0) =~= Seq::<SequenceParam>::empty());
        assert(out@.map_values(|x: SequenceReviewValue| review_view(x)) =~= Seq::<(Seq<char>, Seq<char>, bool)>::empty());
        while i < sequence.params.len()
            invariant
                i <= sequence.params.len(),
                sequence.review_items@.len() == 0,
                bind_spec(sequence.params@, values@) == Ok::<Seq<BindingView>, BindFailure>(bindings@),
                out@.map_values(|x: SequenceReviewValue| review_view(x)) == param_reviews(
                    sequence.params@.take(i as int),
                    bindings@,
                ),
            decreases sequence.params.len() - i,
        {
            assert(sequence.params@.take(i + 1).drop_last() =~= sequence.params@.take(i as int));
            assert(sequence.params@.take(i + 1).last() == sequence.params@[i as int]);
            let p = &sequence.params[i];
            match bindings.get(p.name.as_str()) {
                Some(v) => {
                    let ghost before = out@;
                    out.push(
                        SequenceReviewValue {
                            label: p.label.clone(),
                            value: v.value.clone(),
                            sensitive: p.sensitive,
                        },
                    );
                    assert(out@.map_values(|x: SequenceReviewValue| review_view(x)) =~= before.map_values(|x: SequenceReviewValue| review_view(x)).push(review_view(out@.last())));
                },
                None => {},
            }
            i += 1;
        }
        assert(sequence.params@.take(i as int) =~= sequence.params@);
        return Ok(out);
    }
    let mut i: usize = 0;
    assert(sequence.review_items@.take(0) =~= Seq::<crate::sequences::model::SequenceReviewItem>::empty());
    assert(out@.map_values(|x: SequenceReviewValue| review_view(x)) =~= Seq::<(Seq<char>, Seq<char>, bool)>::empty());
    while i < sequence.review_items.len()
        invariant
            i <= sequence.review_items.len(),
            sequence.review_items@.len() > 0,
            bind_spec(sequence.params@, values@) == Ok::<Seq<BindingView>, BindFailure>(bindings@),
            item_reviews(sequence.review_items@.take(i as int), bindings@, sequence.name@) == Ok::<
                Seq<(Seq<char>, Seq<char>, bool)>,
                (Seq<char>, Seq<char>),
            >(out@.map_values(|x: SequenceReviewValue| review_view(x))),
        decreases sequence.review_items.len() - i,
    {
        assert(sequence.review_items@.take(i + 1).drop_last() =~= sequence.review_items@.take(
            i as int,
        ));
        assert(sequence.review_items@.take(i + 1).last() == sequence.review_items@[i as int]);
        let item = &sequence.review_items[i];
        match render_template(item.value.as_str(), &bindings, sequence, "review") {
            Ok(value) => {
                let ghost before = out@;
                out.push(
                    SequenceReviewValue {
                        label: item.label.clone(),
                        value,
                        sensitive: item.sensitive,
                    },
                );
                assert(out@.map_values(|x: SequenceReviewValue| review_view(x)) =~= before.map_values(|x: SequenceReviewValue| review_view(x)).push(review_view(out@.last())));
            },
            Err(e) => {
                proof {
                    let x = render_spec(item.value@, bindings@, sequence.name@, "review"@);
                    assert(x is Err);
                    assert(item_reviews(sequence.review_items@.take(i + 1), bindings@, sequence.name@) == Err::<Seq<(Seq<char>, Seq<char>, bool)>, (Seq<char>, Seq<char>)>(x->Err_0));
                    lemma_item_reviews_err_prefix(sequence.review_items@, bindings@, sequence.name@, i + 1);
                }
                return Err(e);
            },
        }
        i += 1;
    }
    assert(sequence.review_items@.take(i as int) =~= sequence.review_items@);
    Ok(out)
}

pub proof fn lemma_item_reviews_err_prefix(
    items: Seq<crate::sequences::model::SequenceReviewItem>,
    b: Seq<BindingView>,
    sequence_name: Seq<char>,
    k: int,
)
    requires
        0 <= k <= items.len(),
        item_reviews(items.take(k), b, sequence_name) is Err,
    ensures
        item_reviews(items, b, sequence_name) == item_reviews(items.take(k), b, sequence_name),
    decreases items.len() - k,
{
    if k < items.len() {
        assert(items.take(k + 1).drop_last() =~= items.take(k));
        lemma_item_reviews_err_prefix(items, b, sequence_name, k + 1);
    } else {
        assert(items.take(k) =~= items);
    }
}

} // verus!
