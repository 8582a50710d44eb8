//! Parsing raw modem output into an [`AtResponse`].
use vstd::prelude::*;

use crate::at::response::{AtResponse, AtStatus, StatusView};
use crate::text::{
    chars_of, eq_str, has_prefix, seqs_view, starts_with, string_of, strings_of, strings_view,
    text_lines, text_lines_exec,
};

verus! {

broadcast use vstd::string::group_string_axioms;

/// The text that `String::from_utf8_lossy` makes of `bytes`.
pub uninterp spec fn utf8_lossy(bytes: Seq<u8>) -> Seq<char>;

/// `String::from_utf8_lossy`: the text of the bytes, where each invalid
/// sequence becomes U+FFFD. Valid UTF-8 is decoded exactly; how invalid
/// sequences are grouped into replacement characters is left unsaid.
#[verifier::external_body]
pub(crate) fn decode_utf8_lossy(raw: &[u8]) -> (s: String)
    ensures
        s@ == utf8_lossy(raw@),
        vstd::utf8::valid_utf8(raw@) ==> s@ == vstd::utf8::decode_utf8(raw@),
{
    String::from_utf8_lossy(raw).into_owned()
}

/// The status a single line reports, if it is a final result line.
pub open spec fn line_status(line: Seq<char>) -> Option<StatusView> {
    if line == "OK"@ {
        Some(StatusView::OK)
    } else if line == "ERROR"@ {
        Some(StatusView::Error)
    } else if has_prefix(line, "+CME ERROR:"@) {
        Some(StatusView::CmeError(line))
    } else if has_prefix(line, "+CMS ERROR:"@) {
        Some(StatusView::CmsError(line))
    } else if line == "NO CARRIER"@ {
        Some(StatusView::NoCarrier)
    } else {
        None
    }
}

/// The status of the last final result line, or `Incomplete`.
pub open spec fn detect_status_spec(lines: Seq<Seq<char>>) -> StatusView
    decreases lines.len(),
{
    if lines.len() == 0 {
        StatusView::Incomplete
    } else {
        match line_status(lines.last()) {
            Some(s) => s,
            None => detect_status_spec(lines.drop_last()),
        }
    }
}

/// The status of a response is given by its last final result line: when
/// no later line is a final result line, a line `OK` makes the status `OK`,
/// `ERROR` makes it `ERROR`, `NO CARRIER` makes it `NO CARRIER`, and a line
/// that starts with `+CME ERROR:` or `+CMS ERROR:` makes it that error,
/// carrying the line itself.
pub proof fn law_status_of_last_final_line(lines: Seq<Seq<char>>, k: int)
    requires
        0 <= k < lines.len(),
        forall|j: int| k < j < lines.len() ==> line_status(#[trigger] lines[j]) is None,
    ensures
        lines[k] == "OK"@ ==> detect_status_spec(lines) == StatusView::OK,
        lines[k] == "ERROR"@ ==> detect_status_spec(lines) == StatusView::Error,
        lines[k] == "NO CARRIER"@ ==> detect_status_spec(lines) == StatusView::NoCarrier,
        has_prefix(lines[k], "+CME ERROR:"@) ==> detect_status_spec(lines) == StatusView::CmeError(
            lines[k],
        ),
        has_prefix(lines[k], "+CMS ERROR:"@) ==> detect_status_spec(lines) == StatusView::CmsError(
            lines[k],
        ),
    decreases lines.len(),
{
    if k < lines.len() - 1 {
        let w = lines.drop_last();
        assert(lines.last() == lines[lines.len() - 1]);
        assert forall|j: int| k < j < w.len() implies line_status(#[trigger] w[j]) is None by {
            assert(w[j] == lines[j]);
        }
        assert(w[k] == lines[k]);
        law_status_of_last_final_line(w, k);
    } else {
        let l = lines[k];
        assert(lines.last() == l);
        reveal_strlit("OK");
        reveal_strlit("ERROR");
        reveal_strlit("NO CARRIER");
        reveal_strlit("+CME ERROR:");
        reveal_strlit("+CMS ERROR:");
        if has_prefix(l, "+CMS ERROR:"@) {
            assert(l[1] == "+CMS ERROR:"@[1]);
            assert(l.len() >= 11);
            assert(l != "OK"@);
            assert(l != "ERROR"@);
            assert(!has_prefix(l, "+CME ERROR:"@)) by {
                if has_prefix(l, "+CME ERROR:"@) {
                    assert(l.subrange(0, 11)[3] == "+CME ERROR:"@[3]);
                    assert(l.subrange(0, 11)[3] == "+CMS ERROR:"@[3]);
                }
            }
        }
        if has_prefix(l, "+CME ERROR:"@) {
            assert(l.subrange(0, 11)[0] == '+');
            assert(l.len() >= 11);
            assert(l[0] == '+');
            assert(l != "OK"@);
            assert(l != "ERROR"@);
        }
    }
}

/// With no final result line at all, the response is incomplete.
pub proof fn law_status_without_final_line(lines: Seq<Seq<char>>)
    requires
        forall|j: int| 0 <= j < lines.len() ==> line_status(#[trigger] lines[j]) is None,
    ensures
        detect_status_spec(lines) == StatusView::Incomplete,
    decreases lines.len(),
{
    if lines.len() > 0 {
        let w = lines.drop_last();
        assert(lines.last() == lines[lines.len() - 1]);
        assert forall|j: int| 0 <= j < w.len() implies line_status(#[trigger] w[j]) is None by {
            assert(w[j] == lines[j]);
        }
        law_status_without_final_line(w);
    }
}

/// The status of one line, if it is a final result line.
fn line_status_exec(line: &Vec<char>) -> (r: Option<AtStatus>)
    ensures
        match r {
            Some(s) => line_status(line@) == Some(s@),
            None => line_status(line@) is None,
        },
{
    if eq_str(line, "OK") {
        Some(AtStatus::OK)
    } else if eq_str(line, "ERROR") {
        Some(AtStatus::Error)
    } else if starts_with(line, "+CME ERROR:") {
        Some(AtStatus::CmeError(string_of(line)))
    } else if starts_with(line, "+CMS ERROR:") {
        Some(AtStatus::CmsError(string_of(line)))
    } else if eq_str(line, "NO CARRIER") {
        Some(AtStatus::NoCarrier)
    } else {
        None
    }
}

/// Scans the lines from the end for the last final result line.
pub fn detect_status(lines: &Vec<Vec<char>>) -> (r: AtStatus)
    ensures
        r@ == detect_status_spec(seqs_view(lines@)),
{
    let mut i = lines.len();
    assert(lines@.take(i as int) =~= lines@);
    while i > 0
        invariant
            i <= lines.len(),
            detect_status_spec(seqs_view(lines@)) == detect_status_spec(
                seqs_view(lines@.take(i as int)),
            ),
        decreases i,
    {
        let ghost prefix = seqs_view(lines@.take(i as int));
        assert(prefix.last() == lines@[i - 1]@);
        assert(prefix.drop_last() =~= seqs_view(lines@.take(i - 1)));
        match line_status_exec(&lines[i - 1]) {
            Some(status) => {
                return status;
            },
            None => {},
        }
        i -= 1;
    }
    assert(seqs_view(lines@.take(0)) =~= Seq::<Seq<char>>::empty());
    AtStatus::Incomplete
}

/// Decodes raw modem output: the text (invalid UTF-8 replaced), its
/// trimmed non-empty lines, and the status of the last final result line.
pub fn parse_response(raw: &[u8]) -> (r: AtResponse)
    ensures
        r.raw@ == raw@,
        r.text@ == utf8_lossy(raw@),
        vstd::utf8::valid_utf8(raw@) ==> r.text@ == vstd::utf8::decode_utf8(raw@),
        strings_view(r.lines@) == text_lines(utf8_lossy(raw@)),
        r.status@ == detect_status_spec(text_lines(utf8_lossy(raw@))),
{
    let text = decode_utf8_lossy(raw);
    let chars = chars_of(text.as_str());
    let lines = text_lines_exec(&chars);
    let status = detect_status(&lines);
    let lines_out = strings_of(&lines);
    AtResponse { raw: vstd::slice::slice_to_vec(raw), text, lines: lines_out, status }
}

} // verus!
