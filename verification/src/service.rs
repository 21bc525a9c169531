//! The service-level pieces of the validate and format flows: configuration,
//! the formatter command split, and the two-phase build-then-test
//! aggregation.
//!
//! Running the external processes is the caller's business; these functions
//! take the captured output and decide everything else. A project whose build
//! output holds any error is never tested: its result carries no verdict.

use vstd::prelude::*;
use crate::records::{DiagnosticSet, Severity, SpecRecord, sev_map, sev_map_all};
use crate::scanner::{MalformedDiagnosticBlock, ScanOutcome, extract_build_output, scan_of};
use crate::text::{find_char_from, find_from, lemma_find_from, lemma_find_from_subrange};
use crate::verdict::{TestVerdict, classify_test_output, verdict_of};

verus! {

/// The fields of `cmd` split on single spaces, empty fields kept: the first
/// is the executable, the rest are its leading arguments.
pub open spec fn split_spaces(s: Seq<char>) -> Seq<Seq<char>>
    decreases s.len(),
{
    let i = find_from(s, ' ', 0);
    if i < 0 || i >= s.len() {
        seq![s]
    } else {
        seq![s.subrange(0, i)] + split_spaces(s.subrange(i + 1, s.len() as int))
    }
}

/// Split a formatter command string into its whitespace-delimited tokens.
pub fn split_command(cmd: &str) -> (parts: Vec<String>)
    ensures
        parts@.map_values(|x: String| x@) == split_spaces(cmd@),
        parts@.len() >= 1,
{
    let n: usize = cmd.unicode_len();
    let mut parts: Vec<String> = Vec::new();
    let mut pos: usize = 0;
    proof {
        assert(parts@.map_values(|x: String| x@) =~= Seq::<Seq<char>>::empty());
        assert(cmd@.subrange(0, n as int) =~= cmd@);
    }
    loop
        invariant_except_break
            0 <= pos <= n,
            n == cmd@.len(),
            parts@.map_values(|x: String| x@) + split_spaces(
                cmd@.subrange(pos as int, n as int),
            ) =~~= split_spaces(cmd@),
        ensures
            parts@.map_values(|x: String| x@) =~~= split_spaces(cmd@),
            parts@.len() >= 1,
        decreases n + 1 - pos,
    {
        let ghost sub = cmd@.subrange(pos as int, n as int);
        let i: usize = find_char_from(cmd, ' ', pos);
        proof {
            lemma_find_from(cmd@, ' ', pos as int);
            lemma_find_from_subrange(cmd@, pos as int, ' ', 0);
        }
        let piece_end: usize = if i < n {
            i
        } else {
            n
        };
        let piece = cmd.substring_char(pos, piece_end);
        let ghost prev = parts@.map_values(|x: String| x@);
        parts.push(piece.to_owned());
        proof {
            assert(parts@.map_values(|x: String| x@) =~= prev.push(piece@));
            if i < n {
                assert(sub.subrange(0, i - pos) =~= cmd@.subrange(pos as int, i as int));
                assert(sub.subrange(i - pos + 1, sub.len() as int) =~= cmd@.subrange(
                    i + 1,
                    n as int,
                ));
                assert(split_spaces(sub) == seq![cmd@.subrange(pos as int, i as int)]
                    + split_spaces(cmd@.subrange(i + 1, n as int)));
                assert(prev.push(piece@) + split_spaces(cmd@.subrange(i + 1, n as int)) =~~= prev
                    + split_spaces(sub));
            } else {
                assert(find_from(sub, ' ', 0) == sub.len());
                assert(split_spaces(sub) == seq![sub]);
                assert(piece@ == sub);
                assert(prev.push(piece@) =~~= prev + split_spaces(sub));
            }
        }
        if i < n {
            pos = i + 1;
        } else {
            break ;
        }
    }
    parts
}

/// The service's configuration: where the project lives and how to invoke
/// the formatter.
pub struct SuiService {
    pub project_folder: String,
    pub movefmt_cmd: String,
}

impl SuiService {
    pub fn new(project_folder: &str, movefmt_cmd: &str) -> (s: Self)
        ensures
            s.project_folder@ == project_folder@,
            s.movefmt_cmd@ == movefmt_cmd@,
    {
        SuiService { project_folder: project_folder.to_owned(), movefmt_cmd: movefmt_cmd.to_owned() }
    }

    /// The `sources` subdirectory the formatter is pointed at.
    pub fn sources_path(&self) -> (r: String)
        ensures
            r@ == self.project_folder@ + seq!['/', 's', 'o', 'u', 'r', 'c', 'e', 's'],
    {
        let mut s = self.project_folder.clone();
        s.append("/sources");
        proof {
            reveal_strlit("/sources");
            assert("/sources"@ =~= seq!['/', 's', 'o', 'u', 'r', 'c', 'e', 's']);
        }
        s
    }

    /// The `tests` subdirectory the formatter is pointed at.
    pub fn tests_path(&self) -> (r: String)
        ensures
            r@ == self.project_folder@ + seq!['/', 't', 'e', 's', 't', 's'],
    {
        let mut s = self.project_folder.clone();
        s.append("/tests");
        proof {
            reveal_strlit("/tests");
            assert("/tests"@ =~= seq!['/', 't', 'e', 's', 't', 's']);
        }
        s
    }

    /// The formatter invocation: the command string split into tokens.
    pub fn formatter_tokens(&self) -> (parts: Vec<String>)
        ensures
            parts@.map_values(|x: String| x@) == split_spaces(self.movefmt_cmd@),
            parts@.len() >= 1,
    {
        split_command(self.movefmt_cmd.as_str())
    }
}

/// The final payload of a validate run: warnings, build errors, and the test
/// verdict (none when the build failed and the tests never ran).
#[derive(Debug)]
pub struct ValidationResult {
    pub warnings: DiagnosticSet,
    pub errors: DiagnosticSet,
    pub verdict: Option<TestVerdict>,
}

/// What the build phase decided: a failed build carries the finished result
/// and the tests are never run; a clean build hands its warnings on to the
/// test phase.
#[derive(Debug)]
pub enum BuildPhase {
    Failed(ValidationResult),
    Clean(DiagnosticSet),
}

/// Digest the build subprocess's stderr. When any error block is present the
/// run is over: the result carries the build's warnings and errors and no
/// verdict. Otherwise the warnings are handed on for the test phase.
pub fn process_build_output(build_stderr: &str) -> (r: Result<
    BuildPhase,
    MalformedDiagnosticBlock,
>)
    ensures
        match r {
            Result::Ok(bp) => {
                &&& scan_of(build_stderr@) is Done
                &&& match bp {
                    BuildPhase::Failed(vr) => {
                        &&& vr.warnings.wf()
                        &&& vr.errors.wf()
                        &&& vr.warnings.as_map() == sev_map(
                            scan_of(build_stderr@)->Done_recs,
                            Severity::Warning,
                        )
                        &&& vr.errors.as_map() == sev_map(
                            scan_of(build_stderr@)->Done_recs,
                            Severity::Error,
                        )
                        &&& vr.errors.as_map() != Map::<
                            (Seq<char>, u32, u32, Seq<char>),
                            SpecRecord,
                        >::empty()
                        &&& vr.verdict is None
                    },
                    BuildPhase::Clean(w) => {
                        &&& w.wf()
                        &&& w.as_map() == sev_map(
                            scan_of(build_stderr@)->Done_recs,
                            Severity::Warning,
                        )
                        &&& sev_map(scan_of(build_stderr@)->Done_recs, Severity::Error) == Map::<
                            (Seq<char>, u32, u32, Seq<char>),
                            SpecRecord,
                        >::empty()
                    },
                }
            },
            Result::Err(e) => {
                &&& scan_of(build_stderr@) is Malformed
                &&& e.header@ == scan_of(build_stderr@)->Malformed_header
                &&& e.body@ == scan_of(build_stderr@)->Malformed_body
            },
        },
{
    let sets = match extract_build_output(build_stderr) {
        Result::Ok(s) => s,
        Result::Err(e) => {
            return Err(e);
        },
    };
    let (warnings, errors) = sets;
    if errors.len() > 0 {
        proof {
            let rs = errors.records();
            assert(errors.as_map() == sev_map_all(rs));
            assert(errors.as_map().contains_key(rs.last().key()));
        }
        Ok(
            BuildPhase::Failed(
                ValidationResult { warnings: warnings, errors: errors, verdict: None },
            ),
        )
    } else {
        proof {
            assert(errors.records() =~= Seq::<SpecRecord>::empty());
            assert(errors.as_map() =~= Map::<(Seq<char>, u32, u32, Seq<char>), SpecRecord>::empty());
        }
        Ok(BuildPhase::Clean(warnings))
    }
}

/// Digest the test subprocess's output, given the warnings of the clean
/// build that preceded it: the test stderr's diagnostics, merged with the
/// build's warnings (the build's record wins a shared identity), and the
/// verdict read from the test stdout.
pub fn process_test_output(
    build_warnings: DiagnosticSet,
    test_stdout: &str,
    test_stderr: &str,
) -> (r: Result<ValidationResult, MalformedDiagnosticBlock>)
    requires
        build_warnings.wf(),
    ensures
        match r {
            Result::Ok(vr) => {
                &&& scan_of(test_stderr@) is Done
                &&& vr.warnings.wf()
                &&& vr.errors.wf()
                &&& vr.warnings.as_map() == sev_map(
                    scan_of(test_stderr@)->Done_recs,
                    Severity::Warning,
                ).union_prefer_right(build_warnings.as_map())
                &&& vr.errors.as_map() == sev_map(
                    scan_of(test_stderr@)->Done_recs,
                    Severity::Error,
                )
                &&& vr.verdict matches Option::Some(v) && v@ == verdict_of(test_stdout@)
            },
            Result::Err(e) => {
                &&& scan_of(test_stderr@) is Malformed
                &&& e.header@ == scan_of(test_stderr@)->Malformed_header
                &&& e.body@ == scan_of(test_stderr@)->Malformed_body
            },
        },
{
    let sets = match extract_build_output(test_stderr) {
        Result::Ok(s) => s,
        Result::Err(e) => {
            return Err(e);
        },
    };
    let (mut test_warnings, test_errors) = sets;
    let verdict = classify_test_output(test_stdout);
    test_warnings.extend_with(&build_warnings);
    Ok(
        ValidationResult {
            warnings: test_warnings,
            errors: test_errors,
            verdict: Some(verdict),
        },
    )
}

} // verus!
