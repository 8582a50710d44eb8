//! Risk classification of AT commands and the confirmation policy.
use vstd::prelude::*;

use crate::at::command::{normalize_chars, normalized};
use crate::error::AtctlError;
use crate::text::{chars_of, contains_char, ends_with, eq_str, has_prefix, has_suffix, starts_with, string_of};

verus! {

broadcast use vstd::string::group_string_axioms;

/// How risky sending a command is, from a plain read to a command that can
/// take the modem offline.
#[derive(Debug, Copy, Clone, PartialEq, Eq, Structural)]
pub enum RiskLevel {
    Safe,
    Sensitive,
    Write,
    Persistent,
    Dangerous,
    Unknown,
}

/// The enforcement order: an unknown command is treated as stricter than a
/// write but looser than a persistent change.
pub open spec fn rank(r: RiskLevel) -> nat {
    match r {
        RiskLevel::Safe => 0,
        RiskLevel::Sensitive => 1,
        RiskLevel::Write => 2,
        RiskLevel::Unknown => 3,
        RiskLevel::Persistent => 4,
        RiskLevel::Dangerous => 5,
    }
}

pub open spec fn needs_confirmation(r: RiskLevel) -> bool {
    r is Write || r is Persistent || r is Dangerous || r is Unknown
}

/// The stricter of two levels; the first when both rank the same.
pub open spec fn stricter_of(a: RiskLevel, b: RiskLevel) -> RiskLevel {
    if rank(a) >= rank(b) {
        a
    } else {
        b
    }
}

/// The lowercase name that `Display` writes.
pub open spec fn risk_name(r: RiskLevel) -> Seq<char> {
    match r {
        RiskLevel::Safe => "safe"@,
        RiskLevel::Sensitive => "sensitive"@,
        RiskLevel::Write => "write"@,
        RiskLevel::Persistent => "persistent"@,
        RiskLevel::Dangerous => "dangerous"@,
        RiskLevel::Unknown => "unknown"@,
    }
}

impl RiskLevel {
    /// Writes, persistent and dangerous changes, and unclassified commands
    /// need confirmation; reads do not.
    pub fn requires_confirmation(self) -> (b: bool)
        ensures
            b == needs_confirmation(self),
    {
        match self {
            RiskLevel::Write | RiskLevel::Persistent | RiskLevel::Dangerous | RiskLevel::Unknown => true,
            _ => false,
        }
    }

    fn enforcement_rank(self) -> (r: u8)
        ensures
            r == rank(self),
    {
        match self {
            RiskLevel::Safe => 0,
            RiskLevel::Sensitive => 1,
            RiskLevel::Write => 2,
            RiskLevel::Unknown => 3,
            RiskLevel::Persistent => 4,
            RiskLevel::Dangerous => 5,
        }
    }

    /// The level that enforces more: `self` when both enforce the same.
    pub fn stricter(self, other: Self) -> (r: Self)
        ensures
            r == stricter_of(self, other),
    {
        if self.enforcement_rank() >= other.enforcement_rank() {
            self
        } else {
            other
        }
    }

    /// The lowercase name: `safe`, `sensitive`, `write`, `persistent`,
    /// `dangerous` or `unknown`.
    pub fn as_str(self) -> (s: &'static str)
        ensures
            s@ == risk_name(self),
    {
        match self {
            RiskLevel::Safe => "safe",
            RiskLevel::Sensitive => "sensitive",
            RiskLevel::Write => "write",
            RiskLevel::Persistent => "persistent",
            RiskLevel::Dangerous => "dangerous",
            RiskLevel::Unknown => "unknown",
        }
    }
}

/// `stricter` is the maximum in enforcement order: it returns one of its
/// arguments and never ranks below either.
pub proof fn law_stricter_is_max(a: RiskLevel, b: RiskLevel)
    ensures
        stricter_of(a, b) == a || stricter_of(a, b) == b,
        rank(stricter_of(a, b)) >= rank(a),
        rank(stricter_of(a, b)) >= rank(b),
{
}

/// `stricter` does not depend on the order of its arguments.
pub proof fn law_stricter_commutative(a: RiskLevel, b: RiskLevel)
    ensures
        stricter_of(a, b) == stricter_of(b, a),
{
}

/// Combining risks in any grouping gives the same level.
pub proof fn law_stricter_associative(a: RiskLevel, b: RiskLevel, c: RiskLevel)
    ensures
        stricter_of(stricter_of(a, b), c) == stricter_of(a, stricter_of(b, c)),
{
}

/// Combining a level with itself changes nothing, and `Safe` is neutral.
pub proof fn law_stricter_idempotent_and_safe_neutral(a: RiskLevel)
    ensures
        stricter_of(a, a) == a,
        stricter_of(a, RiskLevel::Safe) == a,
        stricter_of(RiskLevel::Safe, a) == a,
{
}

/// A level that needs confirmation still needs it after combining with any
/// other level.
pub proof fn law_stricter_keeps_confirmation(a: RiskLevel, b: RiskLevel)
    ensures
        needs_confirmation(a) ==> needs_confirmation(stricter_of(a, b)),
        needs_confirmation(b) ==> needs_confirmation(stricter_of(a, b)),
{
}

/// Parses a risk level name, ignoring surrounding whitespace and ASCII case.
pub fn parse_risk_level(value: &str) -> (r: Result<RiskLevel, String>)
    ensures
        match r {
            Ok(level) => crate::text::lower_seq(crate::text::trim(value@)) == risk_name(level),
            Err(_) => forall|l: RiskLevel|
                crate::text::lower_seq(crate::text::trim(value@)) != risk_name(l),
        },
{
    let v = chars_of(value);
    let t = crate::text::trim_chars(&v);
    let l = crate::text::lower_chars(&t);
    if eq_str(&l, "safe") {
        Ok(RiskLevel::Safe)
    } else if eq_str(&l, "sensitive") {
        Ok(RiskLevel::Sensitive)
    } else if eq_str(&l, "write") {
        Ok(RiskLevel::Write)
    } else if eq_str(&l, "persistent") {
        Ok(RiskLevel::Persistent)
    } else if eq_str(&l, "dangerous") {
        Ok(RiskLevel::Dangerous)
    } else if eq_str(&l, "unknown") {
        Ok(RiskLevel::Unknown)
    } else {
        let mut msg = chars_of("unknown risk level: ");
        crate::text::push_str(&mut msg, value);
        Err(string_of(&msg))
    }
}

/// A command's classification: its normalized text, risk and the reason.
#[derive(Debug, Clone, PartialEq, Eq)]
pub struct RiskClassification {
    pub normalized_command: String,
    pub risk: RiskLevel,
    pub reason: &'static str,
}

impl RiskClassification {
    pub fn requires_confirmation(&self) -> (b: bool)
        ensures
            b == needs_confirmation(self.risk),
    {
        self.risk.requires_confirmation()
    }
}

/// The outcome of the direct-send confirmation policy.
#[derive(Debug, Copy, Clone, PartialEq, Eq, Structural)]
pub enum DirectSendConfirmation {
    NotRequired,
    InteractiveRequired { risk: RiskLevel },
    AutomationBypassApproved,
}

// ---------------------------------------------------------------------
// Command families
// ---------------------------------------------------------------------
pub open spec fn is_safe_read(c: Seq<char>) -> bool {
    ||| c == "AT"@
    ||| c == "ATI"@
    ||| c == "AT+CGMI"@
    ||| c == "AT+CGMM"@
    ||| c == "AT+CGMR"@
    ||| c == "AT+CPIN?"@
    ||| c == "AT+CPAS"@
    ||| c == "AT+WS46?"@
    ||| c == "AT+WS46=?"@
    ||| c == "AT+COPS?"@
    ||| c == "AT+COPS=?"@
    ||| c == "AT+CREG?"@
    ||| c == "AT+CEREG?"@
    ||| c == "AT+CGREG?"@
    ||| c == "AT+CEER"@
    ||| c == "AT+CMEE?"@
    ||| c == "AT+CMEE=?"@
    ||| c == "AT+CSQ"@
    ||| c == "AT+CESQ"@
    ||| c == "AT+CESQ=?"@
    ||| c == "AT+CGDCONT?"@
    ||| c == "AT+CGAUTH=?"@
    ||| c == "AT+CFUN?"@
    ||| c == "AT+CGATT?"@
    ||| c == "AT+CGACT?"@
    ||| c == "AT+CGPADDR"@
    ||| c == "AT+CGPADDR=?"@
    ||| c == "AT+CGCONTRDP"@
    ||| c == "AT+CSMS?"@
    ||| c == "AT+CMGF?"@
    ||| c == "AT+CPMS?"@
    ||| c == "AT+QCSQ"@
    ||| c == "AT+QNWINFO"@
    ||| c == "AT+QENG=\"SERVINGCELL\""@
    ||| c == "AT+QENG=\"NEIGHBOURCELL\""@
    ||| c == "AT+QINISTAT"@
    ||| c == "AT+QSPN"@
    ||| c == "AT+QLTS"@
}

pub open spec fn is_sensitive_read(c: Seq<char>) -> bool {
    ||| c == "AT+CIMI"@
    ||| c == "AT+CGAUTH?"@
    ||| c == "AT+QCCID"@
    ||| c == "AT+CGSN"@
    ||| c == "AT+QCFG?"@
    ||| c == "AT+QCFG=\"NWSCANMODE\""@
    ||| c == "AT+QPINC?"@
    ||| c == "AT+QMBNCFG=\"LIST\""@
    ||| has_prefix(c, "AT+CGSN"@)
    ||| has_prefix(c, "AT+QIRD="@)
}

pub open spec fn is_dangerous(c: Seq<char>) -> bool {
    has_prefix(c, "AT+CFUN="@) || c == "AT+QPOWD"@
}

pub open spec fn is_persistent(c: Seq<char>) -> bool {
    has_prefix(c, "AT+QCFG="@)
}

pub open spec fn is_write(c: Seq<char>) -> bool {
    ||| has_prefix(c, "AT+CGDCONT="@)
    ||| has_prefix(c, "AT+CGAUTH="@)
    ||| has_prefix(c, "AT+WS46="@)
    ||| has_prefix(c, "AT+COPS="@)
    ||| has_prefix(c, "AT+CREG="@)
    ||| has_prefix(c, "AT+CGREG="@)
    ||| has_prefix(c, "AT+CEREG="@)
    ||| has_prefix(c, "AT+CGACT="@)
    ||| has_prefix(c, "AT+CMEE="@)
    ||| has_prefix(c, "AT+CMGF="@)
    ||| has_prefix(c, "AT+CMGL="@)
    ||| has_prefix(c, "AT+CMGR="@)
    ||| has_prefix(c, "AT+CMGS"@)
    ||| has_prefix(c, "AT+CMGW"@)
    ||| has_prefix(c, "AT+CMGC"@)
    ||| has_prefix(c, "AT+CNMA"@)
    ||| has_prefix(c, "AT+QIACT="@)
    ||| has_prefix(c, "AT+QIDEACT="@)
    ||| has_prefix(c, "AT+QIOPEN="@)
    ||| has_prefix(c, "AT+QICLOSE="@)
    ||| has_prefix(c, "AT+QISEND="@)
    ||| has_prefix(c, "AT+QISENDEX="@)
    ||| has_prefix(c, "AT+QPING="@)
    ||| c == "ATE0"@
}

/// A read (`...?`) or a command without arguments.
pub open spec fn is_read_or_test(c: Seq<char>) -> bool {
    has_prefix(c, "AT"@) && (has_suffix(c, "?"@) || !c.contains('='))
}

/// The risk of a normalized command: known families first, then any read or
/// test command is sensitive, and everything else is unknown.
pub open spec fn classify_spec(c: Seq<char>) -> (RiskLevel, Seq<char>) {
    if is_safe_read(c) {
        (RiskLevel::Safe, "known safe read command"@)
    } else if is_sensitive_read(c) {
        (RiskLevel::Sensitive, "known sensitive read command"@)
    } else if is_dangerous(c) {
        (RiskLevel::Dangerous, "known dangerous command family"@)
    } else if is_persistent(c) {
        (RiskLevel::Persistent, "known persistent command family"@)
    } else if is_write(c) {
        (RiskLevel::Write, "known write command family"@)
    } else if is_read_or_test(c) {
        (RiskLevel::Sensitive, "unknown read/test command treated as sensitive"@)
    } else {
        (RiskLevel::Unknown, "command cannot be confidently classified as read/test"@)
    }
}

/// A normalized command of the persistent configuration family
/// (`AT+QCFG=...`) is classified persistent, unless it is the listed read of
/// the network scan mode; one of the dangerous family (`AT+CFUN=...`,
/// `AT+QPOWD`) is classified dangerous. Neither is ever classified below
/// what an automation run must acknowledge for it.
/// The first characters of a command with a prefix are the prefix's.
proof fn lemma_prefix_chars(c: Seq<char>, p: Seq<char>)
    requires
        has_prefix(c, p),
    ensures
        c.len() >= p.len(),
        forall|i: int| 0 <= i < p.len() ==> c[i] == #[trigger] p[i],
{
    assert forall|i: int| 0 <= i < p.len() implies c[i] == #[trigger] p[i] by {
        assert(c.subrange(0, p.len() as int)[i] == c[i]);
    }
}

/// A command with prefix `p` does not have a prefix `q` that differs from
/// `p` where both are defined.
proof fn lemma_prefix_differs(c: Seq<char>, p: Seq<char>, q: Seq<char>)
    requires
        has_prefix(c, p),
        exists|i: int| 0 <= i < p.len() && i < q.len() && p[i] != q[i],
    ensures
        !has_prefix(c, q),
{
    lemma_prefix_chars(c, p);
    if has_prefix(c, q) {
        lemma_prefix_chars(c, q);
        let i = choose|i: int| 0 <= i < p.len() && i < q.len() && p[i] != q[i];
        assert(c[i] == p[i] && c[i] == q[i]);
    }
}

/// A normalized command of a known write family (PDP context definition and
/// activation, socket open, send and close, SMS format and submission) is
/// classified as a write.
pub proof fn law_write_families(c: Seq<char>)
    ensures
        has_prefix(c, "AT+CGDCONT="@) || has_prefix(c, "AT+CGACT="@) || has_prefix(c, "AT+QIACT="@) || has_prefix(c, "AT+QIDEACT="@) || has_prefix(c, "AT+QIOPEN="@) || has_prefix(c, "AT+QICLOSE="@) || has_prefix(c, "AT+QISEND="@) || has_prefix(c, "AT+CMGF="@) || has_prefix(c, "AT+CMGS"@) ==> classify_spec(c).0 == RiskLevel::Write,
{
    reveal_strlit("AT");
    reveal_strlit("ATI");
    reveal_strlit("AT+CGMI");
    reveal_strlit("AT+CGMM");
    reveal_strlit("AT+CGMR");
    reveal_strlit("AT+CPIN?");
    reveal_strlit("AT+CPAS");
    reveal_strlit("AT+WS46?");
    reveal_strlit("AT+WS46=?");
    reveal_strlit("AT+COPS?");
    reveal_strlit("AT+COPS=?");
    reveal_strlit("AT+CREG?");
    reveal_strlit("AT+CEREG?");
    reveal_strlit("AT+CGREG?");
    reveal_strlit("AT+CEER");
    reveal_strlit("AT+CMEE?");
    reveal_strlit("AT+CMEE=?");
    reveal_strlit("AT+CSQ");
    reveal_strlit("AT+CESQ");
    reveal_strlit("AT+CESQ=?");
    reveal_strlit("AT+CGDCONT?");
    reveal_strlit("AT+CGAUTH=?");
    reveal_strlit("AT+CFUN?");
    reveal_strlit("AT+CGATT?");
    reveal_strlit("AT+CGACT?");
    reveal_strlit("AT+CGPADDR");
    reveal_strlit("AT+CGPADDR=?");
    reveal_strlit("AT+CGCONTRDP");
    reveal_strlit("AT+CSMS?");
    reveal_strlit("AT+CMGF?");
    reveal_strlit("AT+CPMS?");
    reveal_strlit("AT+QCSQ");
    reveal_strlit("AT+QNWINFO");
    reveal_strlit("AT+QENG=\"SERVINGCELL\"");
    reveal_strlit("AT+QENG=\"NEIGHBOURCELL\"");
    reveal_strlit("AT+QINISTAT");
    reveal_strlit("AT+QSPN");
    reveal_strlit("AT+QLTS");
    reveal_strlit("AT+CIMI");
    reveal_strlit("AT+CGAUTH?");
    reveal_strlit("AT+QCCID");
    reveal_strlit("AT+CGSN");
    reveal_strlit("AT+QCFG?");
    reveal_strlit("AT+QCFG=\"NWSCANMODE\"");
    reveal_strlit("AT+QPINC?");
    reveal_strlit("AT+QMBNCFG=\"LIST\"");
    reveal_strlit("AT+QIRD=");
    reveal_strlit("AT+CFUN=");
    reveal_strlit("AT+QPOWD");
    reveal_strlit("AT+QCFG=");
    reveal_strlit("AT+CGDCONT=");
    reveal_strlit("AT+CGACT=");
    reveal_strlit("AT+QIACT=");
    reveal_strlit("AT+QIDEACT=");
    reveal_strlit("AT+QIOPEN=");
    reveal_strlit("AT+QICLOSE=");
    reveal_strlit("AT+QISEND=");
    reveal_strlit("AT+CMGF=");
    reveal_strlit("AT+CMGS");
    if has_prefix(c, "AT+CGDCONT="@) {
        lemma_prefix_chars(c, "AT+CGDCONT="@);
        assert(c[0] == "AT+CGDCONT="@[0] && c[1] == "AT+CGDCONT="@[1] && c[2] == "AT+CGDCONT="@[2] && c[3] == "AT+CGDCONT="@[3] && c[4] == "AT+CGDCONT="@[4] && c[5] == "AT+CGDCONT="@[5] && c[6] == "AT+CGDCONT="@[6] && c[7] == "AT+CGDCONT="@[7] && c[8] == "AT+CGDCONT="@[8] && c[9] == "AT+CGDCONT="@[9] && c[10] == "AT+CGDCONT="@[10]);
        assert(c[0] == 'A' && c[1] == 'T' && c[2] == '+' && c[3] == 'C' && c[4] == 'G' && c[5] == 'D' && c[6] == 'C' && c[7] == 'O' && c[8] == 'N' && c[9] == 'T' && c[10] == '=');
        assert(!is_safe_read(c));
        assert(!is_sensitive_read(c)) by {
            lemma_prefix_differs(c, "AT+CGDCONT="@, "AT+CGSN"@);
            lemma_prefix_differs(c, "AT+CGDCONT="@, "AT+QIRD="@);
        }
        assert(!is_dangerous(c)) by {
            lemma_prefix_differs(c, "AT+CGDCONT="@, "AT+CFUN="@);
        }
        assert(!is_persistent(c)) by {
            lemma_prefix_differs(c, "AT+CGDCONT="@, "AT+QCFG="@);
        }
    }
    if has_prefix(c, "AT+CGACT="@) {
        lemma_prefix_chars(c, "AT+CGACT="@);
        assert(c[0] == "AT+CGACT="@[0] && c[1] == "AT+CGACT="@[1] && c[2] == "AT+CGACT="@[2] && c[3] == "AT+CGACT="@[3] && c[4] == "AT+CGACT="@[4] && c[5] == "AT+CGACT="@[5] && c[6] == "AT+CGACT="@[6] && c[7] == "AT+CGACT="@[7] && c[8] == "AT+CGACT="@[8]);
        assert(c[0] == 'A' && c[1] == 'T' && c[2] == '+' && c[3] == 'C' && c[4] == 'G' && c[5] == 'A' && c[6] == 'C' && c[7] == 'T' && c[8] == '=');
        assert(!is_safe_read(c));
        assert(!is_sensitive_read(c)) by {
            lemma_prefix_differs(c, "AT+CGACT="@, "AT+CGSN"@);
            lemma_prefix_differs(c, "AT+CGACT="@, "AT+QIRD="@);
        }
        assert(!is_dangerous(c)) by {
            lemma_prefix_differs(c, "AT+CGACT="@, "AT+CFUN="@);
        }
        assert(!is_persistent(c)) by {
            lemma_prefix_differs(c, "AT+CGACT="@, "AT+QCFG="@);
        }
    }
    if has_prefix(c, "AT+QIACT="@) {
        lemma_prefix_chars(c, "AT+QIACT="@);
        assert(c[0] == "AT+QIACT="@[0] && c[1] == "AT+QIACT="@[1] && c[2] == "AT+QIACT="@[2] && c[3] == "AT+QIACT="@[3] && c[4] == "AT+QIACT="@[4] && c[5] == "AT+QIACT="@[5] && c[6] == "AT+QIACT="@[6] && c[7] == "AT+QIACT="@[7] && c[8] == "AT+QIACT="@[8]);
        assert(c[0] == 'A' && c[1] == 'T' && c[2] == '+' && c[3] == 'Q' && c[4] == 'I' && c[5] == 'A' && c[6] == 'C' && c[7] == 'T' && c[8] == '=');
        assert(!is_safe_read(c));
        assert(!is_sensitive_read(c)) by {
            lemma_prefix_differs(c, "AT+QIACT="@, "AT+CGSN"@);
            lemma_prefix_differs(c, "AT+QIACT="@, "AT+QIRD="@);
        }
        assert(!is_dangerous(c)) by {
            lemma_prefix_differs(c, "AT+QIACT="@, "AT+CFUN="@);
        }
        assert(!is_persistent(c)) by {
            lemma_prefix_differs(c, "AT+QIACT="@, "AT+QCFG="@);
        }
    }
    if has_prefix(c, "AT+QIDEACT="@) {
        lemma_prefix_chars(c, "AT+QIDEACT="@);
        assert(c[0] == "AT+QIDEACT="@[0] && c[1] == "AT+QIDEACT="@[1] && c[2] == "AT+QIDEACT="@[2] && c[3] == "AT+QIDEACT="@[3] && c[4] == "AT+QIDEACT="@[4] && c[5] == "AT+QIDEACT="@[5] && c[6] == "AT+QIDEACT="@[6] && c[7] == "AT+QIDEACT="@[7] && c[8] == "AT+QIDEACT="@[8] && c[9] == "AT+QIDEACT="@[9] && c[10] == "AT+QIDEACT="@[10]);
        assert(c[0] == 'A' && c[1] == 'T' && c[2] == '+' && c[3] == 'Q' && c[4] == 'I' && c[5] == 'D' && c[6] == 'E' && c[7] == 'A' && c[8] == 'C' && c[9] == 'T' && c[10] == '=');
        assert(!is_safe_read(c));
        assert(!is_sensitive_read(c)) by {
            lemma_prefix_differs(c, "AT+QIDEACT="@, "AT+CGSN"@);
            lemma_prefix_differs(c, "AT+QIDEACT="@, "AT+QIRD="@);
        }
        assert(!is_dangerous(c)) by {
            lemma_prefix_differs(c, "AT+QIDEACT="@, "AT+CFUN="@);
        }
        assert(!is_persistent(c)) by {
            lemma_prefix_differs(c, "AT+QIDEACT="@, "AT+QCFG="@);
        }
    }
    if has_prefix(c, "AT+QIOPEN="@) {
        lemma_prefix_chars(c, "AT+QIOPEN="@);
        assert(c[0] == "AT+QIOPEN="@[0] && c[1] == "AT+QIOPEN="@[1] && c[2] == "AT+QIOPEN="@[2] && c[3] == "AT+QIOPEN="@[3] && c[4] == "AT+QIOPEN="@[4] && c[5] == "AT+QIOPEN="@[5] && c[6] == "AT+QIOPEN="@[6] && c[7] == "AT+QIOPEN="@[7] && c[8] == "AT+QIOPEN="@[8] && c[9] == "AT+QIOPEN="@[9]);
        assert(c[0] == 'A' && c[1] == 'T' && c[2] == '+' && c[3] == 'Q' && c[4] == 'I' && c[5] == 'O' && c[6] == 'P' && c[7] == 'E' && c[8] == 'N' && c[9] == '=');
        assert(!is_safe_read(c));
        assert(!is_sensitive_read(c)) by {
            lemma_prefix_differs(c, "AT+QIOPEN="@, "AT+CGSN"@);
            lemma_prefix_differs(c, "AT+QIOPEN="@, "AT+QIRD="@);
        }
        assert(!is_dangerous(c)) by {
            lemma_prefix_differs(c, "AT+QIOPEN="@, "AT+CFUN="@);
        }
        assert(!is_persistent(c)) by {
            lemma_prefix_differs(c, "AT+QIOPEN="@, "AT+QCFG="@);
        }
    }
    if has_prefix(c, "AT+QICLOSE="@) {
        lemma_prefix_chars(c, "AT+QICLOSE="@);
        assert(c[0] == "AT+QICLOSE="@[0] && c[1] == "AT+QICLOSE="@[1] && c[2] == "AT+QICLOSE="@[2] && c[3] == "AT+QICLOSE="@[3] && c[4] == "AT+QICLOSE="@[4] && c[5] == "AT+QICLOSE="@[5] && c[6] == "AT+QICLOSE="@[6] && c[7] == "AT+QICLOSE="@[7] && c[8] == "AT+QICLOSE="@[8] && c[9] == "AT+QICLOSE="@[9] && c[10] == "AT+QICLOSE="@[10]);
        assert(c[0] == 'A' && c[1] == 'T' && c[2] == '+' && c[3] == 'Q' && c[4] == 'I' && c[5] == 'C' && c[6] == 'L' && c[7] == 'O' && c[8] == 'S' && c[9] == 'E' && c[10] == '=');
        assert(!is_safe_read(c));
        assert(!is_sensitive_read(c)) by {
            lemma_prefix_differs(c, "AT+QICLOSE="@, "AT+CGSN"@);
            lemma_prefix_differs(c, "AT+QICLOSE="@, "AT+QIRD="@);
        }
        assert(!is_dangerous(c)) by {
            lemma_prefix_differs(c, "AT+QICLOSE="@, "AT+CFUN="@);
        }
        assert(!is_persistent(c)) by {
            lemma_prefix_differs(c, "AT+QICLOSE="@, "AT+QCFG="@);
        }
    }
    if has_prefix(c, "AT+QISEND="@) {
        lemma_prefix_chars(c, "AT+QISEND="@);
        assert(c[0] == "AT+QISEND="@[0] && c[1] == "AT+QISEND="@[1] && c[2] == "AT+QISEND="@[2] && c[3] == "AT+QISEND="@[3] && c[4] == "AT+QISEND="@[4] && c[5] == "AT+QISEND="@[5] && c[6] == "AT+QISEND="@[6] && c[7] == "AT+QISEND="@[7] && c[8] == "AT+QISEND="@[8] && c[9] == "AT+QISEND="@[9]);
        assert(c[0] == 'A' && c[1] == 'T' && c[2] == '+' && c[3] == 'Q' && c[4] == 'I' && c[5] == 'S' && c[6] == 'E' && c[7] == 'N' && c[8] == 'D' && c[9] == '=');
        assert(!is_safe_read(c));
        assert(!is_sensitive_read(c)) by {
            lemma_prefix_differs(c, "AT+QISEND="@, "AT+CGSN"@);
            lemma_prefix_differs(c, "AT+QISEND="@, "AT+QIRD="@);
        }
        assert(!is_dangerous(c)) by {
            lemma_prefix_differs(c, "AT+QISEND="@, "AT+CFUN="@);
        }
        assert(!is_persistent(c)) by {
            lemma_prefix_differs(c, "AT+QISEND="@, "AT+QCFG="@);
        }
    }
    if has_prefix(c, "AT+CMGF="@) {
        lemma_prefix_chars(c, "AT+CMGF="@);
        assert(c[0] == "AT+CMGF="@[0] && c[1] == "AT+CMGF="@[1] && c[2] == "AT+CMGF="@[2] && c[3] == "AT+CMGF="@[3] && c[4] == "AT+CMGF="@[4] && c[5] == "AT+CMGF="@[5] && c[6] == "AT+CMGF="@[6] && c[7] == "AT+CMGF="@[7]);
        assert(c[0] == 'A' && c[1] == 'T' && c[2] == '+' && c[3] == 'C' && c[4] == 'M' && c[5] == 'G' && c[6] == 'F' && c[7] == '=');
        assert(!is_safe_read(c));
        assert(!is_sensitive_read(c)) by {
            lemma_prefix_differs(c, "AT+CMGF="@, "AT+CGSN"@);
            lemma_prefix_differs(c, "AT+CMGF="@, "AT+QIRD="@);
        }
        assert(!is_dangerous(c)) by {
            lemma_prefix_differs(c, "AT+CMGF="@, "AT+CFUN="@);
        }
        assert(!is_persistent(c)) by {
            lemma_prefix_differs(c, "AT+CMGF="@, "AT+QCFG="@);
        }
    }
    if has_prefix(c, "AT+CMGS"@) {
        lemma_prefix_chars(c, "AT+CMGS"@);
        assert(c[0] == "AT+CMGS"@[0] && c[1] == "AT+CMGS"@[1] && c[2] == "AT+CMGS"@[2] && c[3] == "AT+CMGS"@[3] && c[4] == "AT+CMGS"@[4] && c[5] == "AT+CMGS"@[5] && c[6] == "AT+CMGS"@[6]);
        assert(c[0] == 'A' && c[1] == 'T' && c[2] == '+' && c[3] == 'C' && c[4] == 'M' && c[5] == 'G' && c[6] == 'S');
        assert(!is_safe_read(c));
        assert(!is_sensitive_read(c)) by {
            lemma_prefix_differs(c, "AT+CMGS"@, "AT+CGSN"@);
            lemma_prefix_differs(c, "AT+CMGS"@, "AT+QIRD="@);
        }
        assert(!is_dangerous(c)) by {
            lemma_prefix_differs(c, "AT+CMGS"@, "AT+CFUN="@);
        }
        assert(!is_persistent(c)) by {
            lemma_prefix_differs(c, "AT+CMGS"@, "AT+QCFG="@);
        }
    }
}

pub proof fn law_persistent_and_dangerous_families(c: Seq<char>)
    ensures
        has_prefix(c, "AT+QCFG="@) && c != "AT+QCFG=\"NWSCANMODE\""@ ==> classify_spec(c).0
            == RiskLevel::Persistent,
        has_prefix(c, "AT+CFUN="@) || c == "AT+QPOWD"@ ==> classify_spec(c).0 == RiskLevel::Dangerous,
{
    reveal_strlit("AT");
    reveal_strlit("ATI");
    reveal_strlit("AT+CGMI");
    reveal_strlit("AT+CGMM");
    reveal_strlit("AT+CGMR");
    reveal_strlit("AT+CPIN?");
    reveal_strlit("AT+CPAS");
    reveal_strlit("AT+WS46?");
    reveal_strlit("AT+WS46=?");
    reveal_strlit("AT+COPS?");
    reveal_strlit("AT+COPS=?");
    reveal_strlit("AT+CREG?");
    reveal_strlit("AT+CEREG?");
    reveal_strlit("AT+CGREG?");
    reveal_strlit("AT+CEER");
    reveal_strlit("AT+CMEE?");
    reveal_strlit("AT+CMEE=?");
    reveal_strlit("AT+CSQ");
    reveal_strlit("AT+CESQ");
    reveal_strlit("AT+CESQ=?");
    reveal_strlit("AT+CGDCONT?");
    reveal_strlit("AT+CGAUTH=?");
    reveal_strlit("AT+CFUN?");
    reveal_strlit("AT+CGATT?");
    reveal_strlit("AT+CGACT?");
    reveal_strlit("AT+CGPADDR");
    reveal_strlit("AT+CGPADDR=?");
    reveal_strlit("AT+CGCONTRDP");
    reveal_strlit("AT+CSMS?");
    reveal_strlit("AT+CMGF?");
    reveal_strlit("AT+CPMS?");
    reveal_strlit("AT+QCSQ");
    reveal_strlit("AT+QNWINFO");
    reveal_strlit("AT+QENG=\"SERVINGCELL\"");
    reveal_strlit("AT+QENG=\"NEIGHBOURCELL\"");
    reveal_strlit("AT+QINISTAT");
    reveal_strlit("AT+QSPN");
    reveal_strlit("AT+QLTS");
    reveal_strlit("AT+CIMI");
    reveal_strlit("AT+CGAUTH?");
    reveal_strlit("AT+QCCID");
    reveal_strlit("AT+CGSN");
    reveal_strlit("AT+QCFG?");
    reveal_strlit("AT+QCFG=\"NWSCANMODE\"");
    reveal_strlit("AT+QPINC?");
    reveal_strlit("AT+QMBNCFG=\"LIST\"");
    reveal_strlit("AT+QIRD=");
    reveal_strlit("AT+CFUN=");
    reveal_strlit("AT+QPOWD");
    reveal_strlit("AT+QCFG=");
    if has_prefix(c, "AT+QCFG="@) {
        let p = "AT+QCFG="@;
        assert(c.subrange(0, 8) == p);
        assert(c[0] == p[0] && c[1] == p[1] && c[2] == p[2] && c[3] == p[3] && c[4] == p[4] && c[5]
            == p[5] && c[6] == p[6] && c[7] == p[7]) by {
            assert(c[0] == c.subrange(0, 8)[0]);
            assert(c[1] == c.subrange(0, 8)[1]);
            assert(c[2] == c.subrange(0, 8)[2]);
            assert(c[3] == c.subrange(0, 8)[3]);
            assert(c[4] == c.subrange(0, 8)[4]);
            assert(c[5] == c.subrange(0, 8)[5]);
            assert(c[6] == c.subrange(0, 8)[6]);
            assert(c[7] == c.subrange(0, 8)[7]);
        }
        assert(!is_safe_read(c));
        assert(!has_prefix(c, "AT+CGSN"@)) by {
            if has_prefix(c, "AT+CGSN"@) {
                assert(c.subrange(0, 7)[3] == "AT+CGSN"@[3]);
            }
        }
        assert(!has_prefix(c, "AT+QIRD="@)) by {
            if has_prefix(c, "AT+QIRD="@) {
                assert(c.subrange(0, 8)[4] == "AT+QIRD="@[4]);
            }
        }
        assert(!has_prefix(c, "AT+CFUN="@)) by {
            if has_prefix(c, "AT+CFUN="@) {
                assert(c.subrange(0, 8)[3] == "AT+CFUN="@[3]);
            }
        }
    }
    if has_prefix(c, "AT+CFUN="@) {
        let p = "AT+CFUN="@;
        assert(c.subrange(0, 8) == p);
        assert(c[0] == p[0] && c[1] == p[1] && c[2] == p[2] && c[3] == p[3] && c[4] == p[4] && c[5]
            == p[5] && c[6] == p[6] && c[7] == p[7]) by {
            assert(c[0] == c.subrange(0, 8)[0]);
            assert(c[1] == c.subrange(0, 8)[1]);
            assert(c[2] == c.subrange(0, 8)[2]);
            assert(c[3] == c.subrange(0, 8)[3]);
            assert(c[4] == c.subrange(0, 8)[4]);
            assert(c[5] == c.subrange(0, 8)[5]);
            assert(c[6] == c.subrange(0, 8)[6]);
            assert(c[7] == c.subrange(0, 8)[7]);
        }
        assert(!is_safe_read(c));
        assert(!has_prefix(c, "AT+CGSN"@)) by {
            if has_prefix(c, "AT+CGSN"@) {
                assert(c.subrange(0, 7)[4] == "AT+CGSN"@[4]);
            }
        }
        assert(!has_prefix(c, "AT+QIRD="@)) by {
            if has_prefix(c, "AT+QIRD="@) {
                assert(c.subrange(0, 8)[3] == "AT+QIRD="@[3]);
            }
        }
        assert(!is_sensitive_read(c));
    }
    if c == "AT+QPOWD"@ {
        assert(c.len() == 8 && c[0] == 'A' && c[1] == 'T' && c[2] == '+' && c[3] == 'Q' && c[4] == 'P'
            && c[5] == 'O' && c[6] == 'W' && c[7] == 'D');
        assert(!is_safe_read(c));
        assert(!has_prefix(c, "AT+CGSN"@)) by {
            if has_prefix(c, "AT+CGSN"@) {
                assert(c.subrange(0, 7)[3] == "AT+CGSN"@[3]);
            }
        }
        assert(!has_prefix(c, "AT+QIRD="@)) by {
            if has_prefix(c, "AT+QIRD="@) {
                assert(c.subrange(0, 8)[4] == "AT+QIRD="@[4]);
            }
        }
        assert(!is_sensitive_read(c));
    }
}

/// The risk a raw command is classified with.
pub open spec fn command_risk(command: Seq<char>) -> RiskLevel {
    classify_spec(normalized(command)).0
}

fn is_known_safe_read(c: &Vec<char>) -> (b: bool)
    ensures
        b == is_safe_read(c@),
{
    eq_str(c, "AT") || eq_str(c, "ATI") || eq_str(c, "AT+CGMI") || eq_str(c, "AT+CGMM")
        || eq_str(c, "AT+CGMR") || eq_str(c, "AT+CPIN?") || eq_str(c, "AT+CPAS") || eq_str(
        c,
        "AT+WS46?",
    ) || eq_str(c, "AT+WS46=?") || eq_str(c, "AT+COPS?") || eq_str(c, "AT+COPS=?") || eq_str(
        c,
        "AT+CREG?",
    ) || eq_str(c, "AT+CEREG?") || eq_str(c, "AT+CGREG?") || eq_str(c, "AT+CEER") || eq_str(
        c,
        "AT+CMEE?",
    ) || eq_str(c, "AT+CMEE=?") || eq_str(c, "AT+CSQ") || eq_str(c, "AT+CESQ") || eq_str(
        c,
        "AT+CESQ=?",
    ) || eq_str(c, "AT+CGDCONT?") || eq_str(c, "AT+CGAUTH=?") || eq_str(c, "AT+CFUN?") || eq_str(
        c,
        "AT+CGATT?",
    ) || eq_str(c, "AT+CGACT?") || eq_str(c, "AT+CGPADDR") || eq_str(c, "AT+CGPADDR=?")
        || eq_str(c, "AT+CGCONTRDP") || eq_str(c, "AT+CSMS?") || eq_str(c, "AT+CMGF?") || eq_str(
        c,
        "AT+CPMS?",
    ) || eq_str(c, "AT+QCSQ") || eq_str(c, "AT+QNWINFO") || eq_str(c, "AT+QENG=\"SERVINGCELL\"")
        || eq_str(c, "AT+QENG=\"NEIGHBOURCELL\"") || eq_str(c, "AT+QINISTAT") || eq_str(
        c,
        "AT+QSPN",
    ) || eq_str(c, "AT+QLTS")
}

fn is_known_sensitive_read(c: &Vec<char>) -> (b: bool)
    ensures
        b == is_sensitive_read(c@),
{
    eq_str(c, "AT+CIMI") || eq_str(c, "AT+CGAUTH?") || eq_str(c, "AT+QCCID") || eq_str(
        c,
        "AT+CGSN",
    ) || eq_str(c, "AT+QCFG?") || eq_str(c, "AT+QCFG=\"NWSCANMODE\"") || eq_str(c, "AT+QPINC?")
        || eq_str(c, "AT+QMBNCFG=\"LIST\"") || starts_with(c, "AT+CGSN") || starts_with(
        c,
        "AT+QIRD=",
    )
}

fn is_known_dangerous(c: &Vec<char>) -> (b: bool)
    ensures
        b == is_dangerous(c@),
{
    starts_with(c, "AT+CFUN=") || eq_str(c, "AT+QPOWD")
}

fn is_known_persistent(c: &Vec<char>) -> (b: bool)
    ensures
        b == is_persistent(c@),
{
    starts_with(c, "AT+QCFG=")
}

fn is_known_write(c: &Vec<char>) -> (b: bool)
    ensures
        b == is_write(c@),
{
    starts_with(c, "AT+CGDCONT=") || starts_with(c, "AT+CGAUTH=") || starts_with(c, "AT+WS46=")
        || starts_with(c, "AT+COPS=") || starts_with(c, "AT+CREG=") || starts_with(c, "AT+CGREG=")
        || starts_with(c, "AT+CEREG=") || starts_with(c, "AT+CGACT=") || starts_with(c, "AT+CMEE=")
        || starts_with(c, "AT+CMGF=") || starts_with(c, "AT+CMGL=") || starts_with(c, "AT+CMGR=")
        || starts_with(c, "AT+CMGS") || starts_with(c, "AT+CMGW") || starts_with(c, "AT+CMGC")
        || starts_with(c, "AT+CNMA") || starts_with(c, "AT+QIACT=") || starts_with(
        c,
        "AT+QIDEACT=",
    ) || starts_with(c, "AT+QIOPEN=") || starts_with(c, "AT+QICLOSE=") || starts_with(
        c,
        "AT+QISEND=",
    ) || starts_with(c, "AT+QISENDEX=") || starts_with(c, "AT+QPING=") || eq_str(c, "ATE0")
}

fn is_read_or_test_exec(c: &Vec<char>) -> (b: bool)
    ensures
        b == is_read_or_test(c@),
{
    starts_with(c, "AT") && (ends_with(c, "?") || !contains_char(c, '='))
}

/// Classifies a normalized command.
pub fn classify_normalized(c: &Vec<char>) -> (r: (RiskLevel, &'static str))
    ensures
        r.0 == classify_spec(c@).0,
        r.1@ == classify_spec(c@).1,
{
    if is_known_safe_read(c) {
        (RiskLevel::Safe, "known safe read command")
    } else if is_known_sensitive_read(c) {
        (RiskLevel::Sensitive, "known sensitive read command")
    } else if is_known_dangerous(c) {
        (RiskLevel::Dangerous, "known dangerous command family")
    } else if is_known_persistent(c) {
        (RiskLevel::Persistent, "known persistent command family")
    } else if is_known_write(c) {
        (RiskLevel::Write, "known write command family")
    } else if is_read_or_test_exec(c) {
        (RiskLevel::Sensitive, "unknown read/test command treated as sensitive")
    } else {
        (RiskLevel::Unknown, "command cannot be confidently classified as read/test")
    }
}

/// Classifies a command line by its normalized text.
pub fn classify_direct_command(command: &str) -> (r: RiskClassification)
    ensures
        r.normalized_command@ == normalized(command@),
        r.risk == classify_spec(normalized(command@)).0,
        r.reason@ == classify_spec(normalized(command@)).1,
{
    let v = chars_of(command);
    let n = normalize_chars(&v);
    let (risk, reason) = classify_normalized(&n);
    RiskClassification { normalized_command: string_of(&n), risk, reason }
}

/// The direct-send policy: an acknowledgement must match the classified
/// risk; reads need nothing; risky commands need interactive confirmation
/// unless `--yes` comes with an acknowledgement.
pub open spec fn confirmation_spec(risk: RiskLevel, yes: bool, acknowledged: Option<RiskLevel>) -> Result<DirectSendConfirmation, AtctlError> {
    if acknowledged is Some && acknowledged->0 != risk {
        Err(AtctlError::RiskAckMismatch { classified: risk, acknowledged: acknowledged->0 })
    } else if !needs_confirmation(risk) {
        Ok(DirectSendConfirmation::NotRequired)
    } else if !yes {
        Ok(DirectSendConfirmation::InteractiveRequired { risk })
    } else if acknowledged is None {
        Err(AtctlError::MissingRiskAck { risk })
    } else {
        Ok(DirectSendConfirmation::AutomationBypassApproved)
    }
}

/// Applies the direct-send policy to a classification.
pub fn direct_send_confirmation(
    classification: &RiskClassification,
    yes: bool,
    acknowledged: Option<RiskLevel>,
) -> (r: Result<DirectSendConfirmation, AtctlError>)
    ensures
        r == confirmation_spec(classification.risk, yes, acknowledged),
{
    if let Some(ack) = acknowledged {
        if ack != classification.risk {
            return Err(AtctlError::RiskAckMismatch { classified: classification.risk, acknowledged: ack });
        }
    }
    if !classification.requires_confirmation() {
        return Ok(DirectSendConfirmation::NotRequired);
    }
    if !yes {
        return Ok(DirectSendConfirmation::InteractiveRequired { risk: classification.risk });
    }
    if acknowledged.is_none() {
        return Err(AtctlError::MissingRiskAck { risk: classification.risk });
    }
    Ok(DirectSendConfirmation::AutomationBypassApproved)
}

/// The direct-send policy for a run with nobody to ask: an interactive
/// confirmation still to obtain is a refusal at the classified risk.
pub fn validate_direct_send_ack(
    classification: &RiskClassification,
    yes: bool,
    acknowledged: Option<RiskLevel>,
) -> (r: Result<(), AtctlError>)
    ensures
        match confirmation_spec(classification.risk, yes, acknowledged) {
            Err(e) => r == Err::<(), AtctlError>(e),
            Ok(DirectSendConfirmation::InteractiveRequired { risk }) => r == Err::<(), AtctlError>(
                AtctlError::ConfirmationRequired { risk },
            ),
            Ok(_) => r is Ok,
        },
{
    if let DirectSendConfirmation::InteractiveRequired { risk } = direct_send_confirmation(
        classification,
        yes,
        acknowledged,
    )? {
        return Err(AtctlError::ConfirmationRequired { risk });
    }
    Ok(())
}

/// A command that goes ahead (without an error) has either no risk that
/// needs confirmation, an interactive confirmation still to obtain, or both
/// `--yes` and an acknowledgement equal to the classified risk.
pub proof fn law_confirmation_never_bypasses_silently(
    risk: RiskLevel,
    yes: bool,
    acknowledged: Option<RiskLevel>,
)
    ensures
        confirmation_spec(risk, yes, acknowledged) == Ok::<DirectSendConfirmation, AtctlError>(
            DirectSendConfirmation::AutomationBypassApproved,
        ) ==> needs_confirmation(risk) && yes && acknowledged == Some(risk),
        confirmation_spec(risk, yes, acknowledged) == Ok::<DirectSendConfirmation, AtctlError>(
            DirectSendConfirmation::NotRequired,
        ) ==> !needs_confirmation(risk),
        (acknowledged is Some && acknowledged->0 != risk) ==> confirmation_spec(
            risk,
            yes,
            acknowledged,
        ) is Err,
{
}

pub open spec fn is_prompt_required(c: Seq<char>) -> bool {
    ||| c == "AT+CMGS"@
    ||| c == "AT+CMGW"@
    ||| c == "AT+CMGC"@
    ||| c == "AT+CNMA"@
    ||| has_prefix(c, "AT+CMGS="@)
    ||| has_prefix(c, "AT+CMGW="@)
    ||| has_prefix(c, "AT+CMGC="@)
    ||| has_prefix(c, "AT+CNMA="@)
}

/// Whether the command waits for a `>` prompt and a payload line (SMS
/// submit, write, command and acknowledgement).
pub fn is_prompt_required_command(command: &str) -> (b: bool)
    ensures
        b == is_prompt_required(normalized(command@)),
{
    let v = chars_of(command);
    let n = normalize_chars(&v);
    eq_str(&n, "AT+CMGS") || eq_str(&n, "AT+CMGW") || eq_str(&n, "AT+CMGC") || eq_str(&n, "AT+CNMA")
        || starts_with(&n, "AT+CMGS=") || starts_with(&n, "AT+CMGW=") || starts_with(&n, "AT+CMGC=")
        || starts_with(&n, "AT+CNMA=")
}

} // verus!
