//! The closed severity scale of a log record, and its textual decoding.
//!
//! The wire form of a severity is a string, matched case-insensitively
//! against a fixed table of names. `Alert` is a member of the scale, but no
//! name maps to it, so it can never be produced by decoding input.

use vstd::prelude::*;
use vstd::string::StringSliceAdditionalSpecFns;

verus! {

/// Severity of a log record, from least to most severe.
#[derive(Debug, Clone, Copy, PartialEq, Eq, Structural)]
pub enum LogSeverity {
    Default,
    Debug,
    Info,
    Notice,
    Warning,
    Error,
    Critical,
    Alert,
    Emergency,
}

/// Lower-cases one ASCII byte; every other byte is left as it is.
pub open spec fn lower_byte(b: u8) -> u8 {
    if 65 <= b && b <= 90 {
        (b + 32) as u8
    } else {
        b
    }
}

/// The byte sequence with each ASCII letter lower-cased.
pub open spec fn lower_bytes(s: Seq<u8>) -> Seq<u8> {
    s.map_values(|b: u8| lower_byte(b))
}

/// ASCII-case-insensitive equality of two byte sequences.
pub open spec fn eq_ignore_ascii_case(a: Seq<u8>, b: Seq<u8>) -> bool {
    lower_bytes(a) == lower_bytes(b)
}

/// The severity that a textual name (as UTF-8 bytes) decodes to, if any.
///
/// The table is closed: eight names are recognised, case-insensitively;
/// everything else - `"alert"` included - decodes to nothing.
pub open spec fn text_severity(s: Seq<u8>) -> Option<LogSeverity> {
    if eq_ignore_ascii_case(s, "default".spec_bytes()) {
        Some(LogSeverity::Default)
    } else if eq_ignore_ascii_case(s, "debug".spec_bytes()) {
        Some(LogSeverity::Debug)
    } else if eq_ignore_ascii_case(s, "info".spec_bytes()) {
        Some(LogSeverity::Info)
    } else if eq_ignore_ascii_case(s, "notice".spec_bytes()) {
        Some(LogSeverity::Notice)
    } else if eq_ignore_ascii_case(s, "warning".spec_bytes()) {
        Some(LogSeverity::Warning)
    } else if eq_ignore_ascii_case(s, "error".spec_bytes()) {
        Some(LogSeverity::Error)
    } else if eq_ignore_ascii_case(s, "critical".spec_bytes()) {
        Some(LogSeverity::Critical)
    } else if eq_ignore_ascii_case(s, "emergency".spec_bytes()) {
        Some(LogSeverity::Emergency)
    } else {
        None
    }
}

/// Lower-cases one ASCII byte, executably.
fn lower_byte_exec(b: u8) -> (r: u8)
    ensures
        r == lower_byte(b),
{
    if 65 <= b && b <= 90 {
        b + 32
    } else {
        b
    }
}

/// ASCII-case-insensitive comparison of two byte slices.
fn eq_ignore_case_exec(a: &[u8], b: &[u8]) -> (r: bool)
    ensures
        r == eq_ignore_ascii_case(a@, b@),
{
    if a.len() != b.len() {
        proof {
            assert(lower_bytes(a@).len() == a@.len());
            assert(lower_bytes(b@).len() == b@.len());
        }
        return false;
    }
    let mut i: usize = 0;
    while i < a.len()
        invariant
            a@.len() == b@.len(),
            i <= a@.len(),
            forall|j: int| 0 <= j < i ==> lower_byte(a@[j]) == lower_byte(b@[j]),
        decreases a@.len() - i,
    {
        if lower_byte_exec(a[i]) != lower_byte_exec(b[i]) {
            proof {
                assert(lower_bytes(a@)[i as int] != lower_bytes(b@)[i as int]);
            }
            return false;
        }
        i += 1;
    }
    proof {
        assert(lower_bytes(a@) =~= lower_bytes(b@));
    }
    true
}

impl LogSeverity {
    /// Decodes a textual severity name, case-insensitively.
    ///
    /// Returns the severity exactly when the text is one of the eight
    /// recognised names of `text_severity`; any other text, `"alert"`
    /// included, yields nothing.
    pub fn from_text(text: &str) -> (r: Option<LogSeverity>)
        ensures
            r == text_severity(text.spec_bytes()),
    {
        let t = text.as_bytes();
        if eq_ignore_case_exec(t, "default".as_bytes()) {
            Some(LogSeverity::Default)
        } else if eq_ignore_case_exec(t, "debug".as_bytes()) {
            Some(LogSeverity::Debug)
        } else if eq_ignore_case_exec(t, "info".as_bytes()) {
            Some(LogSeverity::Info)
        } else if eq_ignore_case_exec(t, "notice".as_bytes()) {
            Some(LogSeverity::Notice)
        } else if eq_ignore_case_exec(t, "warning".as_bytes()) {
            Some(LogSeverity::Warning)
        } else if eq_ignore_case_exec(t, "error".as_bytes()) {
            Some(LogSeverity::Error)
        } else if eq_ignore_case_exec(t, "critical".as_bytes()) {
            Some(LogSeverity::Critical)
        } else if eq_ignore_case_exec(t, "emergency".as_bytes()) {
            Some(LogSeverity::Emergency)
        } else {
            None
        }
    }
}

/// Law: severity decoding is ASCII-case-insensitive. Two names that agree
/// up to ASCII letter case decode to the same severity, on every input.
pub proof fn lemma_severity_case_insensitive(s: Seq<u8>, t: Seq<u8>)
    requires
        eq_ignore_ascii_case(s, t),
    ensures
        text_severity(s) == text_severity(t),
{
}

/// Law: no textual name decodes to `Alert`; the variant is unreachable
/// from input.
pub proof fn lemma_alert_unreachable(s: Seq<u8>)
    ensures
        text_severity(s) != Some(LogSeverity::Alert),
{
}

} // verus!
