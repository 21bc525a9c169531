//! Classification of test-runner stdout into a verdict.
//!
//! The classifier searches for two terminal markers, in priority order: a
//! failure marker wins over a success marker, and text with neither is an
//! unknown outcome, not an error.

use vstd::prelude::*;
use crate::text::{
    contains_sub, find_sub, find_sub_from, remove_before_of, str_chars, trim_of, trim_str,
};

verus! {

/// The literal `Test failures`.
pub open spec fn failures_marker_seq() -> Seq<char> {
    seq!['T', 'e', 's', 't', ' ', 'f', 'a', 'i', 'l', 'u', 'r', 'e', 's']
}

/// The literal `Test result: OK`.
pub open spec fn ok_marker_seq() -> Seq<char> {
    seq!['T', 'e', 's', 't', ' ', 'r', 'e', 's', 'u', 'l', 't', ':', ' ', 'O', 'K']
}

/// The literal `PASSED`.
pub open spec fn passed_text_seq() -> Seq<char> {
    seq!['P', 'A', 'S', 'S', 'E', 'D']
}

/// The literal `FAILED:` followed by two newlines.
pub open spec fn failed_prefix_seq() -> Seq<char> {
    seq!['F', 'A', 'I', 'L', 'E', 'D', ':', '\n', '\n']
}

/// The mathematical value of a verdict.
#[verifier::ext_equal]
pub ghost enum SpecVerdict {
    Passed,
    Failed(Seq<char>),
    Unknown,
}

/// The three-way outcome of a test run. A failure carries the verbatim
/// suffix of stdout from the failure marker on, trimmed.
#[derive(Clone, Debug)]
pub enum TestVerdict {
    Passed,
    Failed(String),
    Unknown,
}

impl View for TestVerdict {
    type V = SpecVerdict;

    open spec fn view(&self) -> SpecVerdict {
        match self {
            TestVerdict::Passed => SpecVerdict::Passed,
            TestVerdict::Failed(d) => SpecVerdict::Failed(d@),
            TestVerdict::Unknown => SpecVerdict::Unknown,
        }
    }
}

/// What the classifier returns for `stdout`: `Failed` with the trimmed
/// suffix from the first failure marker when one occurs; else `Passed` when
/// the success marker occurs; else `Unknown`.
pub open spec fn verdict_of(stdout: Seq<char>) -> SpecVerdict {
    if contains_sub(stdout, failures_marker_seq()) {
        SpecVerdict::Failed(trim_of(remove_before_of(stdout, failures_marker_seq())))
    } else if contains_sub(stdout, ok_marker_seq()) {
        SpecVerdict::Passed
    } else {
        SpecVerdict::Unknown
    }
}

/// `s` with everything before the first occurrence of `pattern` removed; `s`
/// itself when `pattern` does not occur.
pub fn remove_before(s: &str, pattern: &str) -> (r: String)
    ensures
        r@ == remove_before_of(s@, pattern@),
{
    let pat = str_chars(pattern);
    let n: usize = s.unicode_len();
    match find_sub(s, &pat, 0) {
        Option::Some(i) => {
            let suffix = s.substring_char(i, n);
            proof {
                assert(suffix@ == s@.subrange(find_sub_from(s@, pattern@, 0), s@.len() as int));
            }
            suffix.to_owned()
        },
        Option::None => s.to_owned(),
    }
}

/// The suffix of test-runner stdout from the failure marker on.
pub fn parse_test_output(s: &str) -> (r: String)
    ensures
        r@ == remove_before_of(s@, failures_marker_seq()),
{
    proof {
        reveal_strlit("Test failures");
        assert("Test failures"@ =~= failures_marker_seq());
    }
    remove_before(s, "Test failures")
}

fn failures_pat() -> (v: Vec<char>)
    ensures
        v@ == failures_marker_seq(),
{
    proof {
        reveal_strlit("Test failures");
        assert("Test failures"@ =~= failures_marker_seq());
    }
    str_chars("Test failures")
}

fn ok_pat() -> (v: Vec<char>)
    ensures
        v@ == ok_marker_seq(),
{
    proof {
        reveal_strlit("Test result: OK");
        assert("Test result: OK"@ =~= ok_marker_seq());
    }
    str_chars("Test result: OK")
}

/// Classify the test-runner's full stdout.
pub fn classify_test_output(stdout: &str) -> (v: TestVerdict)
    ensures
        v@ == verdict_of(stdout@),
{
    let fpat = failures_pat();
    let n: usize = stdout.unicode_len();
    match find_sub(stdout, &fpat, 0) {
        Option::Some(i) => {
            let suffix = stdout.substring_char(i, n);
            let detail = trim_str(suffix);
            TestVerdict::Failed(detail)
        },
        Option::None => {
            let opat = ok_pat();
            match find_sub(stdout, &opat, 0) {
                Option::Some(_) => TestVerdict::Passed,
                Option::None => TestVerdict::Unknown,
            }
        },
    }
}

impl TestVerdict {
    /// The verdict as the caller-facing text: `PASSED`, `FAILED:` and the
    /// detail after a blank line, or nothing for an unknown outcome.
    pub fn render(&self) -> (r: Option<String>)
        ensures
            match self@ {
                SpecVerdict::Passed => r matches Option::Some(t) && t@ == passed_text_seq(),
                SpecVerdict::Failed(d) => r matches Option::Some(t) && t@ == failed_prefix_seq()
                    + d,
                SpecVerdict::Unknown => r is None,
            },
    {
        match self {
            TestVerdict::Passed => {
                let mut s = String::new();
                s.append("PASSED");
                proof {
                    reveal_strlit("PASSED");
                    assert("PASSED"@ =~= passed_text_seq());
                    assert(s@ =~= passed_text_seq());
                }
                Some(s)
            },
            TestVerdict::Failed(d) => {
                let mut s = String::new();
                s.append("FAILED:\n\n");
                s.append(d.as_str());
                proof {
                    reveal_strlit("FAILED:\n\n");
                    assert("FAILED:\n\n"@ =~= failed_prefix_seq());
                    assert(s@ =~= failed_prefix_seq() + d@);
                }
                Some(s)
            },
            TestVerdict::Unknown => None,
        }
    }
}

} // verus!
