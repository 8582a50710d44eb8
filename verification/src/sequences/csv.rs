//! Comma-separated fields of modem result lines (`+CMGL: 3,"REC READ",...`).
use vstd::prelude::*;

use crate::text::{
    chars_of, has_prefix, is_digit, parse_usize, parse_usize_chars, push_all, push_str, slice,
    starts_with, trim, trim_chars,
};

verus! {

broadcast use vstd::string::group_string_axioms;

/// A field's trimmed value, and whether a double quote occurred in it.
#[derive(Debug, Clone, PartialEq, Eq)]
pub struct CsvField {
    pub value: Vec<char>,
    pub quoted: bool,
}

pub type FieldView = (Seq<char>, bool);

pub open spec fn field_view(f: CsvField) -> FieldView {
    (f.value@, f.quoted)
}

pub open spec fn fields_view(fs: Seq<CsvField>) -> Seq<FieldView> {
    fs.map_values(|f: CsvField| field_view(f))
}

/// Splits at commas outside double quotes; quotes are dropped and mark the
/// field as quoted; each value is trimmed.
pub open spec fn csv_from(
    s: Seq<char>,
    in_quotes: bool,
    quoted: bool,
    cur: Seq<char>,
    acc: Seq<FieldView>,
) -> Seq<FieldView>
    decreases s.len(),
{
    if s.len() == 0 {
        acc.push((trim(cur), quoted))
    } else if s[0] == '"' {
        csv_from(s.drop_first(), !in_quotes, true, cur, acc)
    } else if s[0] == ',' && !in_quotes {
        csv_from(s.drop_first(), in_quotes, false, Seq::empty(), acc.push((trim(cur), quoted)))
    } else {
        csv_from(s.drop_first(), in_quotes, quoted, cur.push(s[0]), acc)
    }
}

/// The fields of the trimmed input.
pub open spec fn csv_fields(s: Seq<char>) -> Seq<FieldView> {
    csv_from(trim(s), false, false, Seq::empty(), Seq::empty())
}

fn push_field(acc: &mut Vec<CsvField>, cur: &Vec<char>, quoted: bool)
    ensures
        fields_view(final(acc)@) == fields_view(old(acc)@).push((trim(cur@), quoted)),
{
    let ghost before = acc@;
    acc.push(CsvField { value: trim_chars(cur), quoted });
    assert(fields_view(acc@) =~= fields_view(before).push((trim(cur@), quoted)));
}

/// `csv_fields` on characters.
pub fn split_csv_fields(input: &Vec<char>) -> (r: Vec<CsvField>)
    ensures
        fields_view(r@) == csv_fields(input@),
{
    let s = trim_chars(input);
    let mut acc: Vec<CsvField> = Vec::new();
    let mut cur: Vec<char> = Vec::new();
    let mut in_quotes = false;
    let mut quoted = false;
    let mut i: usize = 0;
    assert(s@.skip(0) =~= s@);
    assert(fields_view(acc@) =~= Seq::<FieldView>::empty());
    assert(cur@ =~= Seq::<char>::empty());
    while i < s.len()
        invariant
            i <= s.len(),
            csv_from(s@.skip(i as int), in_quotes, quoted, cur@, fields_view(acc@)) == csv_fields(
                input@,
            ),
        decreases s.len() - i,
    {
        let c = s[i];
        assert(s@.skip(i as int)[0] == c);
        assert(s@.skip(i as int).drop_first() =~= s@.skip(i + 1));
        if c == '"' {
            in_quotes = !in_quotes;
            quoted = true;
        } else if c == ',' && !in_quotes {
            push_field(&mut acc, &cur, quoted);
            cur = Vec::new();
            assert(cur@ =~= Seq::<char>::empty());
            quoted = false;
        } else {
            cur.push(c);
        }
        i += 1;
    }
    assert(s@.skip(i as int) =~= Seq::<char>::empty());
    push_field(&mut acc, &cur, quoted);
    acc
}

/// `"value"` for quoted fields, the value otherwise, joined with commas.
pub open spec fn render_fields(fs: Seq<FieldView>) -> Seq<char>
    decreases fs.len(),
{
    if fs.len() == 0 {
        Seq::empty()
    } else {
        let f = fs.last();
        let text = if f.1 {
            seq!['"'] + f.0 + seq!['"']
        } else {
            f.0
        };
        if fs.len() == 1 {
            text
        } else {
            render_fields(fs.drop_last()) + seq![','] + text
        }
    }
}

pub fn render_csv_fields(fields: &Vec<CsvField>) -> (r: Vec<char>)
    ensures
        r@ == render_fields(fields_view(fields@)),
{
    let mut out: Vec<char> = Vec::new();
    let ghost all = fields_view(fields@);
    let mut i: usize = 0;
    assert(all.take(0) =~= Seq::<FieldView>::empty());
    while i < fields.len()
        invariant
            i <= fields.len(),
            all == fields_view(fields@),
            out@ == render_fields(all.take(i as int)),
        decreases fields.len() - i,
    {
        let ghost before = out@;
        if i > 0 {
            out.push(',');
        }
        let f = &fields[i];
        if f.quoted {
            out.push('"');
            push_all(&mut out, &f.value);
            out.push('"');
        } else {
            push_all(&mut out, &f.value);
        }
        proof {
            let t = all.take(i + 1);
            assert(t.drop_last() =~= all.take(i as int));
            assert(t.last() == field_view(fields@[i as int]));
            assert(out@ =~= render_fields(t));
        }
        i += 1;
    }
    assert(all.take(i as int) =~= all);
    out
}

/// The trimmed value of field `i` when it is not empty.
pub open spec fn csv_value(fs: Seq<FieldView>, i: int) -> Option<Seq<char>> {
    if 0 <= i < fs.len() && trim(fs[i].0).len() > 0 {
        Some(trim(fs[i].0))
    } else {
        None
    }
}

pub fn csv_value_exec(fields: &Vec<CsvField>, index: usize) -> (r: Option<Vec<char>>)
    ensures
        match csv_value(fields_view(fields@), index as int) {
            Some(v) => r matches Some(x) && x@ == v,
            None => r is None,
        },
{
    if index >= fields.len() {
        return None;
    }
    let v = trim_chars(&fields[index].value);
    assert(fields_view(fields@)[index as int] == field_view(fields@[index as int]));
    if v.len() == 0 {
        None
    } else {
        Some(v)
    }
}

/// The last non-empty trimmed value at or after position `start`.
pub open spec fn last_non_empty(fs: Seq<FieldView>, start: int) -> Option<Seq<char>>
    decreases fs.len(),
{
    if fs.len() <= start || fs.len() == 0 {
        None
    } else if trim(fs.last().0).len() > 0 {
        Some(trim(fs.last().0))
    } else {
        last_non_empty(fs.drop_last(), start)
    }
}

pub fn last_non_empty_csv_value(fields: &Vec<CsvField>, start: usize) -> (r: Option<Vec<char>>)
    ensures
        match last_non_empty(fields_view(fields@), start as int) {
            Some(v) => r matches Some(x) && x@ == v,
            None => r is None,
        },
{
    let ghost all = fields_view(fields@);
    let mut n = fields.len();
    assert(all.take(n as int) =~= all);
    while n > start
        invariant
            n <= fields.len(),
            all == fields_view(fields@),
            last_non_empty(all.take(n as int), start as int) == last_non_empty(all, start as int),
        decreases n,
    {
        let v = trim_chars(&fields[n - 1].value);
        let ghost t = all.take(n as int);
        assert(t.last() == field_view(fields@[n - 1]));
        if v.len() > 0 {
            return Some(v);
        }
        assert(t.drop_last() =~= all.take(n - 1));
        n -= 1;
    }
    None
}

/// Field `i` parsed as a `usize`.
pub open spec fn csv_usize(fs: Seq<FieldView>, i: int) -> Option<usize> {
    match csv_value(fs, i) {
        Some(v) => parse_usize(v),
        None => None,
    }
}

pub fn csv_usize_exec(fields: &Vec<CsvField>, index: usize) -> (r: Option<usize>)
    ensures
        r == csv_usize(fields_view(fields@), index as int),
{
    match csv_value_exec(fields, index) {
        Some(v) => parse_usize_chars(&v),
        None => None,
    }
}

/// The rest of `line` after `prefix`, when it starts with it.
pub open spec fn strip_prefix(line: Seq<char>, prefix: Seq<char>) -> Option<Seq<char>> {
    if has_prefix(line, prefix) {
        Some(line.skip(prefix.len() as int))
    } else {
        None
    }
}

pub fn strip_prefix_exec(line: &Vec<char>, prefix: &str) -> (r: Option<Vec<char>>)
    ensures
        match strip_prefix(line@, prefix@) {
            Some(v) => r matches Some(x) && x@ == v,
            None => r is None,
        },
{
    if starts_with(line, prefix) {
        let p = chars_of(prefix);
        let r = slice(line, p.len(), line.len());
        assert(r@ =~= line@.skip(prefix@.len() as int));
        Some(r)
    } else {
        None
    }
}

} // verus!
