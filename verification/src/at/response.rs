//! Parsed modem responses.
use vstd::prelude::*;

use crate::text::chars_of;

verus! {

/// The final status a modem reported for a command.
#[allow(non_camel_case_types)]
#[derive(Debug, Clone, PartialEq, Eq)]
pub enum AtStatus {
    OK,
    Error,
    CmeError(String),
    CmsError(String),
    NoCarrier,
    Timeout,
    Incomplete,
}

/// The mathematical value of an [`AtStatus`].
#[allow(non_camel_case_types)]
pub enum StatusView {
    OK,
    Error,
    CmeError(Seq<char>),
    CmsError(Seq<char>),
    NoCarrier,
    Timeout,
    Incomplete,
}

impl View for AtStatus {
    type V = StatusView;

    open spec fn view(&self) -> StatusView {
        match self {
            AtStatus::OK => StatusView::OK,
            AtStatus::Error => StatusView::Error,
            AtStatus::CmeError(line) => StatusView::CmeError(line@),
            AtStatus::CmsError(line) => StatusView::CmsError(line@),
            AtStatus::NoCarrier => StatusView::NoCarrier,
            AtStatus::Timeout => StatusView::Timeout,
            AtStatus::Incomplete => StatusView::Incomplete,
        }
    }
}

pub open spec fn status_is_success(s: StatusView) -> bool {
    s is OK
}

pub open spec fn status_is_terminal(s: StatusView) -> bool {
    !(s is Timeout || s is Incomplete)
}

/// The text `Display` writes for a status.
pub open spec fn status_label(s: StatusView) -> Seq<char> {
    match s {
        StatusView::OK => "OK"@,
        StatusView::Error => "ERROR"@,
        StatusView::CmeError(line) => line,
        StatusView::CmsError(line) => line,
        StatusView::NoCarrier => "NO CARRIER"@,
        StatusView::Timeout => "timeout"@,
        StatusView::Incomplete => "incomplete"@,
    }
}

impl AtStatus {
    /// Only `OK` is success.
    pub fn is_success(&self) -> (b: bool)
        ensures
            b == status_is_success(self@),
    {
        match self {
            AtStatus::OK => true,
            _ => false,
        }
    }

    /// Every status but a timeout or an incomplete response ends a command.
    pub fn is_terminal(&self) -> (b: bool)
        ensures
            b == status_is_terminal(self@),
    {
        match self {
            AtStatus::Timeout | AtStatus::Incomplete => false,
            _ => true,
        }
    }

    /// The status as text: `OK`, `ERROR`, the error line, `NO CARRIER`,
    /// `timeout` or `incomplete`.
    pub fn label(&self) -> (r: Vec<char>)
        ensures
            r@ == status_label(self@),
    {
        match self {
            AtStatus::OK => chars_of("OK"),
            AtStatus::Error => chars_of("ERROR"),
            AtStatus::CmeError(line) => chars_of(line.as_str()),
            AtStatus::CmsError(line) => chars_of(line.as_str()),
            AtStatus::NoCarrier => chars_of("NO CARRIER"),
            AtStatus::Timeout => chars_of("timeout"),
            AtStatus::Incomplete => chars_of("incomplete"),
        }
    }

    /// A copy of the status.
    pub fn duplicate(&self) -> (r: AtStatus)
        ensures
            r@ == self@,
    {
        match self {
            AtStatus::OK => AtStatus::OK,
            AtStatus::Error => AtStatus::Error,
            AtStatus::CmeError(line) => AtStatus::CmeError(line.clone()),
            AtStatus::CmsError(line) => AtStatus::CmsError(line.clone()),
            AtStatus::NoCarrier => AtStatus::NoCarrier,
            AtStatus::Timeout => AtStatus::Timeout,
            AtStatus::Incomplete => AtStatus::Incomplete,
        }
    }
}

/// A modem response: the raw bytes, their text, the non-empty trimmed lines
/// and the detected status.
#[derive(Debug, Clone, PartialEq, Eq)]
pub struct AtResponse {
    pub raw: Vec<u8>,
    pub text: String,
    pub lines: Vec<String>,
    pub status: AtStatus,
}

} // verus!
