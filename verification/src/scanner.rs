//! The diagnostic block scanner: a line-oriented state machine that walks
//! sanitized compiler output and yields structured warning and error records.
//!
//! A block opens at a line starting `warning[` or `error[`. A warning block
//! ends at a line whose trimmed text starts with `=`; an error block ends at
//! an empty line. A block terminated without a location line inside it is a
//! malformed-block error. A block still open at end of input is emitted when
//! a location was found and silently discarded otherwise: end of stream is
//! treated as an implicit terminator so that a truncated capture does not
//! lose a complete diagnostic, while an incomplete one is not guessed at.

use vstd::prelude::*;
use crate::location::{location_of, parse_location};
use crate::records::{DiagnosticRecord, DiagnosticSet, LineNotice, Severity, SpecRecord, sev_map};
use crate::sanitize::{sanitize, sanitized_of};
use crate::text::{
    find_char_from, find_from, has_prefix, lemma_find_from, lemma_find_from_subrange, matches_at,
    trim_of,
    trim_str,
};

verus! {

pub open spec fn warning_prefix_seq() -> Seq<char> {
    seq!['w', 'a', 'r', 'n', 'i', 'n', 'g', '[']
}

pub open spec fn error_prefix_seq() -> Seq<char> {
    seq!['e', 'r', 'r', 'o', 'r', '[']
}

/// A line as `str::lines` yields it: a trailing carriage return before the
/// newline is dropped.
pub open spec fn strip_cr_end(l: Seq<char>) -> Seq<char> {
    if l.len() > 0 && l.last() == '\r' {
        l.drop_last()
    } else {
        l
    }
}

/// The lines of `s`, as `str::lines` yields them.
pub open spec fn lines_of(s: Seq<char>) -> Seq<Seq<char>>
    decreases s.len(),
{
    if s.len() == 0 {
        Seq::empty()
    } else {
        let i = find_from(s, '\n', 0);
        if i < 0 || i >= s.len() {
            seq![s]
        } else {
            seq![strip_cr_end(s.subrange(0, i))] + lines_of(s.subrange(i + 1, s.len() as int))
        }
    }
}

/// Split `s` into its lines.
#[verifier::loop_isolation(false)]
pub fn split_lines(s: &str) -> (r: Vec<String>)
    ensures
        r@.map_values(|x: String| x@) == lines_of(s@),
{
    let n: usize = s.unicode_len();
    let mut r: Vec<String> = Vec::new();
    let mut pos: usize = 0;
    proof {
        assert(r@.map_values(|x: String| x@) =~= Seq::<Seq<char>>::empty());
        assert(s@.subrange(0, n as int) =~= s@);
        assert(r@.map_values(|x: String| x@) + lines_of(s@.subrange(0, n as int)) =~~= lines_of(
            s@,
        ));
    }
    while pos < n
        invariant
            0 <= pos <= n,
            r@.map_values(|x: String| x@) + lines_of(s@.subrange(pos as int, n as int))
                =~~= lines_of(s@),
        decreases n - pos,
    {
        let ghost sub = s@.subrange(pos as int, n as int);
        let i: usize = find_char_from(s, '\n', pos);
        proof {
            lemma_find_from(s@, '\n', pos as int);
            lemma_find_from_subrange(s@, pos as int, '\n', 0);
        }
        let mut line_end: usize = if i < n {
            i
        } else {
            n
        };
        if i < n && line_end > pos && s.get_char(line_end - 1) == '\r' {
            line_end = line_end - 1;
        }
        let piece = s.substring_char(pos, line_end);
        let line = piece.to_owned();
        let ghost prev = r@.map_values(|x: String| x@);
        r.push(line);
        proof {
            assert(r@.map_values(|x: String| x@) =~= prev.push(line@));
            if i < n {
                assert(sub.subrange(0, i - pos) =~= s@.subrange(pos as int, i as int));
                assert(sub.subrange(i - pos + 1, sub.len() as int) =~= s@.subrange(
                    i + 1,
                    n as int,
                ));
                assert(lines_of(sub) == seq![strip_cr_end(s@.subrange(pos as int, i as int))]
                    + lines_of(s@.subrange(i + 1, n as int)));
                let raw = s@.subrange(pos as int, i as int);
                if i > pos && s@[i - 1] == '\r' {
                    assert(raw.last() == s@[i - 1]);
                    assert(strip_cr_end(raw) =~= s@.subrange(pos as int, i - 1));
                    assert(line@ == strip_cr_end(raw));
                } else {
                    if raw.len() > 0 {
                        assert(raw.last() == s@[i - 1]);
                    }
                    assert(strip_cr_end(raw) =~= raw);
                    assert(line@ == strip_cr_end(raw));
                }
                assert(prev.push(line@) + lines_of(s@.subrange(i + 1, n as int)) =~~= prev + (
                seq![strip_cr_end(raw)] + lines_of(s@.subrange(i + 1, n as int))));
            } else {
                assert(i == n);
                assert(find_from(sub, '\n', 0) == sub.len());
                assert(lines_of(sub) == seq![sub]);
                assert(line@ == sub);
                assert(s@.subrange(n as int, n as int) =~= Seq::<char>::empty());
                assert(lines_of(s@.subrange(n as int, n as int)) =~= Seq::<Seq<char>>::empty());
                assert(prev.push(line@) + lines_of(s@.subrange(n as int, n as int)) =~~= prev
                    + lines_of(sub));
            }
        }
        pos = if i < n {
            i + 1
        } else {
            n
        };
    }
    proof {
        assert(s@.subrange(n as int, n as int) =~= Seq::<char>::empty());
        assert(lines_of(s@.subrange(pos as int, n as int)) =~= Seq::<Seq<char>>::empty());
        assert(r@.map_values(|x: String| x@) =~~= lines_of(s@));
    }
    r
}

/// What the scanner is doing at one point of the walk.
#[verifier::ext_equal]
pub ghost enum ScanState {
    Scanning,
    InBlock {
        header: Seq<char>,
        code: Seq<char>,
        is_error: bool,
        body: Seq<char>,
        loc: Option<(Seq<char>, u32, u32)>,
    },
}

/// What a whole walk yields: the emitted records in order, or the first
/// malformed block.
#[verifier::ext_equal]
pub ghost enum ScanOutcome {
    Done { recs: Seq<SpecRecord> },
    Malformed { header: Seq<char>, body: Seq<char> },
}

/// The diagnostic code on a header line: the text between the opening prefix
/// (of length `plen`) and the first `]`, or the rest of the line if there is
/// no `]`.
pub open spec fn block_code(line: Seq<char>, plen: int) -> Seq<char> {
    line.subrange(plen, find_from(line, ']', plen))
}

/// The record a finished block yields: its body is the accumulated block
/// text, trimmed.
pub open spec fn mk_record(
    code: Seq<char>,
    is_error: bool,
    body: Seq<char>,
    loc: (Seq<char>, u32, u32),
) -> SpecRecord {
    SpecRecord {
        file: loc.0,
        line_number: loc.1,
        column_number: loc.2,
        code: code,
        severity: if is_error {
            Severity::Error
        } else {
            Severity::Warning
        },
        body: trim_of(body),
    }
}

/// The scanner itself, walking `lines` from position `i` in state `st`.
pub open spec fn scan_lines(lines: Seq<Seq<char>>, i: int, st: ScanState) -> ScanOutcome
    decreases lines.len() - i,
{
    if i < 0 || i >= lines.len() {
        match st {
            ScanState::Scanning => ScanOutcome::Done { recs: Seq::empty() },
            ScanState::InBlock { header, code, is_error, body, loc } => match loc {
                Option::None => ScanOutcome::Done { recs: Seq::empty() },
                Option::Some(l) => ScanOutcome::Done {
                    recs: seq![mk_record(code, is_error, body, l)],
                },
            },
        }
    } else {
        let line = lines[i];
        match st {
            ScanState::Scanning => {
                if has_prefix(line, warning_prefix_seq()) {
                    scan_lines(
                        lines,
                        i + 1,
                        ScanState::InBlock {
                            header: line,
                            code: block_code(line, 8),
                            is_error: false,
                            body: line + seq!['\n'],
                            loc: Option::None,
                        },
                    )
                } else if has_prefix(line, error_prefix_seq()) {
                    scan_lines(
                        lines,
                        i + 1,
                        ScanState::InBlock {
                            header: line,
                            code: block_code(line, 6),
                            is_error: true,
                            body: line + seq!['\n'],
                            loc: Option::None,
                        },
                    )
                } else {
                    scan_lines(lines, i + 1, ScanState::Scanning)
                }
            },
            ScanState::InBlock { header, code, is_error, body, loc } => {
                let terminated = if is_error {
                    line.len() == 0
                } else {
                    has_prefix(trim_of(line), seq!['='])
                };
                if terminated {
                    match loc {
                        Option::None => ScanOutcome::Malformed { header, body },
                        Option::Some(l) => {
                            let rest = scan_lines(lines, i + 1, ScanState::Scanning);
                            match rest {
                                ScanOutcome::Done { recs } => ScanOutcome::Done {
                                    recs: seq![mk_record(code, is_error, body, l)] + recs,
                                },
                                ScanOutcome::Malformed { .. } => rest,
                            }
                        },
                    }
                } else {
                    let loc2 = if loc is Some {
                        loc
                    } else {
                        location_of(line)
                    };
                    scan_lines(
                        lines,
                        i + 1,
                        ScanState::InBlock {
                            header,
                            code,
                            is_error,
                            body: body + line + seq!['\n'],
                            loc: loc2,
                        },
                    )
                }
            },
        }
    }
}

/// Records already emitted, followed by whatever the rest of the walk yields.
pub open spec fn combine(done: Seq<SpecRecord>, rest: ScanOutcome) -> ScanOutcome {
    match rest {
        ScanOutcome::Done { recs } => ScanOutcome::Done { recs: done + recs },
        ScanOutcome::Malformed { .. } => rest,
    }
}

/// The mathematical value of an executable location triple.
pub open spec fn loc_view(loc: Option<(String, u32, u32)>) -> Option<(Seq<char>, u32, u32)> {
    match loc {
        Option::Some(t) => Option::Some((t.0@, t.1, t.2)),
        Option::None => Option::None,
    }
}

/// The whole extraction, as a value: sanitize, split into lines, scan.
pub open spec fn scan_of(input: Seq<char>) -> ScanOutcome {
    scan_lines(lines_of(sanitized_of(input)), 0, ScanState::Scanning)
}

/// A block was terminated without ever yielding a source location: the
/// diagnostic renderer's contract was violated. Carries the block's header
/// line and the partial body accumulated up to the terminator.
#[derive(Clone, Debug)]
pub struct MalformedDiagnosticBlock {
    pub header: String,
    pub body: String,
}

fn warning_pat() -> (v: Vec<char>)
    ensures
        v@ == warning_prefix_seq(),
{
    let mut v: Vec<char> = Vec::new();
    v.push('w');
    v.push('a');
    v.push('r');
    v.push('n');
    v.push('i');
    v.push('n');
    v.push('g');
    v.push('[');
    proof {
        assert(v@ =~= warning_prefix_seq());
    }
    v
}

fn error_pat() -> (v: Vec<char>)
    ensures
        v@ == error_prefix_seq(),
{
    let mut v: Vec<char> = Vec::new();
    v.push('e');
    v.push('r');
    v.push('r');
    v.push('o');
    v.push('r');
    v.push('[');
    proof {
        assert(v@ =~= error_prefix_seq());
    }
    v
}

fn eq_pat() -> (v: Vec<char>)
    ensures
        v@ == seq!['='],
{
    let mut v: Vec<char> = Vec::new();
    v.push('=');
    proof {
        assert(v@ =~= seq!['=']);
    }
    v
}

/// Walk `input` (raw build or test stderr) and collect its diagnostics,
/// keyed and deduplicated by identity: the warnings and the errors, or the
/// first malformed block.
#[verifier::loop_isolation(false)]
pub fn extract_build_output(input: &str) -> (r: Result<
    (DiagnosticSet, DiagnosticSet),
    MalformedDiagnosticBlock,
>)
    ensures
        match r {
            Result::Ok(sets) => {
                &&& scan_of(input@) is Done
                &&& sets.0.wf()
                &&& sets.1.wf()
                &&& sets.0.as_map() == sev_map(scan_of(input@)->Done_recs, Severity::Warning)
                &&& sets.1.as_map() == sev_map(scan_of(input@)->Done_recs, Severity::Error)
            },
            Result::Err(e) => {
                &&& scan_of(input@) is Malformed
                &&& e.header@ == scan_of(input@)->Malformed_header
                &&& e.body@ == scan_of(input@)->Malformed_body
            },
        },
{
    let cleaned = sanitize(input);
    let lines = split_lines(cleaned.as_str());
    let ghost lv = lines@.map_values(|x: String| x@);
    let n: usize = lines.len();
    let wpat = warning_pat();
    let epat = error_pat();
    let eqpat = eq_pat();

    let mut warnings = DiagnosticSet::new();
    let mut errors = DiagnosticSet::new();
    let ghost mut emitted: Seq<SpecRecord> = Seq::empty();

    let mut in_block: bool = false;
    let mut is_error: bool = false;
    let mut header: String = String::new();
    let mut code: String = String::new();
    let mut body: String = String::new();
    let mut loc: Option<(String, u32, u32)> = None;

    let mut idx: usize = 0;
    proof {
        assert(combine(emitted, scan_lines(lv, 0, ScanState::Scanning)) == scan_of(input@));
    }
    while idx < n
        invariant
            0 <= idx <= n,
            n == lv.len(),
            lv == lines@.map_values(|x: String| x@),
            warnings.wf(),
            errors.wf(),
            warnings.as_map() == sev_map(emitted, Severity::Warning),
            errors.as_map() == sev_map(emitted, Severity::Error),
            combine(
                emitted,
                scan_lines(
                    lv,
                    idx as int,
                    if in_block {
                        ScanState::InBlock {
                            header: header@,
                            code: code@,
                            is_error: is_error,
                            body: body@,
                            loc: loc_view(loc),
                        }
                    } else {
                        ScanState::Scanning
                    },
                ),
            ) == scan_of(input@),
        decreases n - idx,
    {
        let ghost st = if in_block {
            ScanState::InBlock {
                header: header@,
                code: code@,
                is_error: is_error,
                body: body@,
                loc: loc_view(loc),
            }
        } else {
            ScanState::Scanning
        };
        proof {
            assert(lv[idx as int] == lines@[idx as int]@);
        }
        if !in_block {
            let is_warning_hdr = matches_at(lines[idx].as_str(), &wpat, 0);
            let is_error_hdr = if is_warning_hdr {
                false
            } else {
                matches_at(lines[idx].as_str(), &epat, 0)
            };
            if is_warning_hdr || is_error_hdr {
                let plen: usize = if is_warning_hdr {
                    8
                } else {
                    6
                };
                let j: usize = find_char_from(lines[idx].as_str(), ']', plen);
                proof {
                    lemma_find_from(lv[idx as int], ']', plen as int);
                }
                code = lines[idx].as_str().substring_char(plen, j).to_owned();
                header = lines[idx].clone();
                body = lines[idx].clone();
                body.append("\n");
                loc = None;
                is_error = is_error_hdr;
                in_block = true;
                proof {
                    reveal_strlit("\n");
                    assert("\n"@ =~= seq!['\n']);
                    assert(body@ =~= lv[idx as int] + seq!['\n']);
                    assert(code@ == block_code(lv[idx as int], plen as int));
                    let st2 = ScanState::InBlock {
                        header: header@,
                        code: code@,
                        is_error: is_error,
                        body: body@,
                        loc: Option::None,
                    };
                    assert(scan_lines(lv, idx as int, st) == scan_lines(lv, idx + 1, st2));
                }
            } else {
                proof {
                    assert(scan_lines(lv, idx as int, st) == scan_lines(
                        lv,
                        idx + 1,
                        ScanState::Scanning,
                    ));
                }
            }
            idx = idx + 1;
        } else {
            let terminated: bool = if is_error {
                lines[idx].as_str().unicode_len() == 0
            } else {
                let t = trim_str(lines[idx].as_str());
                matches_at(t.as_str(), &eqpat, 0)
            };
            if terminated {
                match loc {
                    Option::None => {
                        proof {
                            assert(scan_lines(lv, idx as int, st) == (ScanOutcome::Malformed {
                                header: header@,
                                body: body@,
                            }));
                        }
                        return Err(MalformedDiagnosticBlock { header, body });
                    },
                    Option::Some(l) => {
                        let trimmed_body = trim_str(body.as_str());
                        let rec = DiagnosticRecord {
                            notice: LineNotice {
                                file: l.0,
                                line_number: l.1,
                                column_number: l.2,
                                code: code.clone(),
                            },
                            severity: if is_error {
                                Severity::Error
                            } else {
                                Severity::Warning
                            },
                            body: trimmed_body,
                        };
                        let ghost mk = mk_record(code@, is_error, body@, (rec.notice.file@, rec.notice.line_number, rec.notice.column_number));
                        proof {
                            assert(rec@ =~= mk);
                        }
                        if is_error {
                            errors.insert(rec);
                        } else {
                            warnings.insert(rec);
                        }
                        proof {
                            assert(sev_map(emitted.push(mk), Severity::Warning) == if mk.severity
                                == Severity::Warning {
                                sev_map(emitted, Severity::Warning).insert(mk.key(), mk)
                            } else {
                                sev_map(emitted, Severity::Warning)
                            }) by {
                                assert(emitted.push(mk).drop_last() =~= emitted);
                                assert(emitted.push(mk).last() == mk);
                            }
                            assert(sev_map(emitted.push(mk), Severity::Error) == if mk.severity
                                == Severity::Error {
                                sev_map(emitted, Severity::Error).insert(mk.key(), mk)
                            } else {
                                sev_map(emitted, Severity::Error)
                            }) by {
                                assert(emitted.push(mk).drop_last() =~= emitted);
                                assert(emitted.push(mk).last() == mk);
                            }
                            let rest = scan_lines(lv, idx + 1, ScanState::Scanning);
                            assert(scan_lines(lv, idx as int, st) == combine(seq![mk], rest));
                            if rest is Done {
                                assert(emitted + (seq![mk] + rest->Done_recs) =~= emitted.push(mk)
                                    + rest->Done_recs);
                            }
                            assert(combine(emitted, scan_lines(lv, idx as int, st)) == combine(
                                emitted.push(mk),
                                rest,
                            ));
                            emitted = emitted.push(mk);
                        }
                        loc = None;
                        in_block = false;
                        idx = idx + 1;
                    },
                }
            } else {
                if loc.is_none() {
                    loc = parse_location(lines[idx].as_str());
                    proof {
                        let gl = loc_view(loc);
                        assert(gl == location_of(lv[idx as int]));
                    }
                }
                let ghost body_before = body@;
                body.append(lines[idx].as_str());
                body.append("\n");
                proof {
                    reveal_strlit("\n");
                    assert("\n"@ =~= seq!['\n']);
                    assert(body@ =~= body_before + lv[idx as int] + seq!['\n']);
                    let st2 = ScanState::InBlock {
                        header: header@,
                        code: code@,
                        is_error: is_error,
                        body: body@,
                        loc: loc_view(loc),
                    };
                    assert(scan_lines(lv, idx as int, st) == scan_lines(lv, idx + 1, st2));
                }
                idx = idx + 1;
            }
        }
    }
    let ghost st = if in_block {
        ScanState::InBlock {
            header: header@,
            code: code@,
            is_error: is_error,
            body: body@,
            loc: loc_view(loc),
        }
    } else {
        ScanState::Scanning
    };
    if in_block {
        match loc {
            Option::Some(l) => {
                let trimmed_body = trim_str(body.as_str());
                let rec = DiagnosticRecord {
                    notice: LineNotice {
                        file: l.0,
                        line_number: l.1,
                        column_number: l.2,
                        code: code.clone(),
                    },
                    severity: if is_error {
                        Severity::Error
                    } else {
                        Severity::Warning
                    },
                    body: trimmed_body,
                };
                let ghost mk = mk_record(code@, is_error, body@, (rec.notice.file@, rec.notice.line_number, rec.notice.column_number));
                proof {
                    assert(rec@ =~= mk);
                }
                if is_error {
                    errors.insert(rec);
                } else {
                    warnings.insert(rec);
                }
                proof {
                    assert(sev_map(emitted.push(mk), Severity::Warning) == if mk.severity
                        == Severity::Warning {
                        sev_map(emitted, Severity::Warning).insert(mk.key(), mk)
                    } else {
                        sev_map(emitted, Severity::Warning)
                    }) by {
                        assert(emitted.push(mk).drop_last() =~= emitted);
                        assert(emitted.push(mk).last() == mk);
                    }
                    assert(sev_map(emitted.push(mk), Severity::Error) == if mk.severity
                        == Severity::Error {
                        sev_map(emitted, Severity::Error).insert(mk.key(), mk)
                    } else {
                        sev_map(emitted, Severity::Error)
                    }) by {
                        assert(emitted.push(mk).drop_last() =~= emitted);
                        assert(emitted.push(mk).last() == mk);
                    }
                    assert(scan_lines(lv, idx as int, st) == (ScanOutcome::Done {
                        recs: seq![mk],
                    }));
                    assert(emitted + seq![mk] =~= emitted.push(mk));
                    emitted = emitted.push(mk);
                    assert(scan_of(input@) == (ScanOutcome::Done { recs: emitted }));
                }
            },
            Option::None => {
                proof {
                    assert(scan_lines(lv, idx as int, st) == (ScanOutcome::Done {
                        recs: Seq::empty(),
                    }));
                    assert(emitted + Seq::<SpecRecord>::empty() =~= emitted);
                    assert(scan_of(input@) == (ScanOutcome::Done { recs: emitted }));
                }
            },
        }
    } else {
        proof {
            assert(scan_lines(lv, idx as int, st) == (ScanOutcome::Done { recs: Seq::empty() }));
            assert(emitted + Seq::<SpecRecord>::empty() =~= emitted);
            assert(scan_of(input@) == (ScanOutcome::Done { recs: emitted }));
        }
    }
    Ok((warnings, errors))
}

} // verus!
