//! The sorted-equality check.
//!
//! Takes the structural-debug renderings of two operands, parses each,
//! normalizes each tree, renders both back as stable text, and compares
//! the two texts.  A rendering the external parser cannot interpret is a
//! hard failure: no partially sorted output is ever produced from it.
use vstd::prelude::*;

use crate::normalize::{normal_of, normalize};
use crate::parse::{parse_of, parse_value};
use crate::render::{render, render_of};
use crate::value::ValueModel;

verus! {

/// Relies on pretty_assertions::StrComparison: its rendering is a line
/// diff of the two strings.  Nothing is promised of the bytes: whether
/// the diff lines carry colour escapes depends on a process-global
/// switch that any code may flip, so the report is not a function of
/// the two strings alone.
#[verifier::external_body]
fn diff_report(a: &str, b: &str) -> (r: String) {
    format!("{}", pretty_assertions::StrComparison::new(a, b))
}

/// The stable text of a rendering that parses: its tree normalized, then
/// rendered back.
pub open spec fn stable_text_of(s: Seq<char>) -> Seq<char>
    recommends
        parse_of(s) is Ok,
{
    render_of(normal_of(parse_of(s)->Ok_0), Seq::empty())
}

/// The failure text reported for a rendering the parser cannot interpret.
pub open spec fn parse_failure_message(e: Seq<char>) -> Seq<char> {
    "Failed to parse Debug output for sorting (please use `assert_eq!` instead and/or file an issue for your use-case)!\nError: "@
        + e
}

/// The caller's optional context message, as a sequence view.
pub open spec fn user_view(user: Option<&str>) -> Option<Seq<char>> {
    match user {
        Some(u) => Some(u@),
        None => None,
    }
}

/// The failure text reported when the two stable texts differ: a fixed
/// header, the optional caller message after a separator, a blank line,
/// the given diff body, and a trailing newline.  The body is whatever
/// the external diff printer produced; its bytes are not pinned.
pub open spec fn mismatch_message(user: Option<Seq<char>>, diff: Seq<char>) -> Seq<char> {
    "assertion failed: `(left == right)`"@ + (match user {
        Some(u) => ": "@ + u,
        None => Seq::empty(),
    }) + "\n\n"@ + diff + "\n"@
}

/// Why a sorted-equality check failed.
pub enum SortedEqError {
    /// One operand's rendering could not be parsed; no sorted output was
    /// produced for it.
    Unparseable { message: String },
    /// Both renderings parsed, and their stable texts differ.
    NotEqual { message: String },
}

impl SortedEqError {
    /// The failure text, as an assertion would report it.
    pub fn message(&self) -> (r: &String)
        ensures
            r == match self {
                SortedEqError::Unparseable { message } => message,
                SortedEqError::NotEqual { message } => message,
            },
    {
        match self {
            SortedEqError::Unparseable { message } => message,
            SortedEqError::NotEqual { message } => message,
        }
    }
}

/// The stable text of one structural-debug rendering: parse, normalize,
/// render; or the parser's diagnostic if it cannot be parsed.
pub fn sorted_text(s: &str) -> (r: Result<String, String>)
    ensures
        match r {
            Ok(t) => parse_of(s@) is Ok && t@ == stable_text_of(s@),
            Err(e) => parse_of(s@) matches Err(d) && e@ == d,
        },
{
    match parse_value(s) {
        Ok(v) => {
            let n = normalize(v);
            Ok(render(&n))
        },
        Err(e) => Err(e),
    }
}

/// Compose the failure text for an unparseable rendering.
fn compose_parse_failure(e: &str) -> (r: String)
    ensures
        r@ == parse_failure_message(e@),
{
    let mut m = String::from_str(
        "Failed to parse Debug output for sorting (please use `assert_eq!` instead and/or file an issue for your use-case)!\nError: ",
    );
    m.append(e);
    proof {
        assert(m@ =~= parse_failure_message(e@));
    }
    m
}

/// Check two structural-debug renderings for sorted equality.
///
/// Parses both, normalizes both trees, renders both back as stable text
/// and compares the texts; succeeds exactly when both parse and the two
/// stable texts are equal.  A rendering that does not parse aborts the
/// check with the parser's diagnostic; unequal stable texts produce the
/// assertion-failure text around the external diff report.
pub fn check_sorted_eq(left: &str, right: &str, user_message: Option<&str>) -> (r: Result<
    (),
    SortedEqError,
>)
    ensures
        match r {
            Ok(()) => parse_of(left@) is Ok && parse_of(right@) is Ok && stable_text_of(left@)
                == stable_text_of(right@),
            Err(SortedEqError::Unparseable { message }) => (parse_of(left@) matches Err(d)
                && message@ == parse_failure_message(d)) || (parse_of(left@) is Ok && (parse_of(
                right@,
            ) matches Err(d) && message@ == parse_failure_message(d))),
            Err(SortedEqError::NotEqual { message }) => parse_of(left@) is Ok && parse_of(right@)
                is Ok && stable_text_of(left@) != stable_text_of(right@) && (exists|diff: Seq<
                char,
            >|
                message@ == #[trigger] mismatch_message(user_view(user_message), diff)),
        },
{
    let lt = match sorted_text(left) {
        Ok(t) => t,
        Err(e) => {
            return Err(SortedEqError::Unparseable { message: compose_parse_failure(e.as_str()) });
        },
    };
    let rt = match sorted_text(right) {
        Ok(t) => t,
        Err(e) => {
            return Err(SortedEqError::Unparseable { message: compose_parse_failure(e.as_str()) });
        },
    };
    if lt == rt {
        Ok(())
    } else {
        let d = diff_report(lt.as_str(), rt.as_str());
        let mut m = String::from_str("assertion failed: `(left == right)`");
        match user_message {
            Some(u) => {
                m.append(": ");
                m.append(u);
            },
            None => {},
        }
        m.append("\n\n");
        m.append(d.as_str());
        m.append("\n");
        proof {
            assert(m@ =~= mismatch_message(user_view(user_message), d@));
        }
        Err(SortedEqError::NotEqual { message: m })
    }
}

} // verus!
