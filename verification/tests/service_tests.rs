use sui_dev_mcp::records::Severity;
use sui_dev_mcp::service::{
    process_build_output, process_test_output, split_command, BuildPhase, SuiService,
};
use sui_dev_mcp::verdict::{classify_test_output, parse_test_output, remove_before, TestVerdict};

#[test]
fn classifier_reports_passed() {
    let v = classify_test_output("Test result: OK. Total tests: 3; passed: 3");
    assert!(matches!(v, TestVerdict::Passed));
}

#[test]
fn classifier_reports_failed_with_detail() {
    let v = classify_test_output("Test failures: 1\n\ntest_foo failed");
    match v {
        TestVerdict::Failed(detail) => {
            assert_eq!(detail, "Test failures: 1\n\ntest_foo failed");
        }
        other => panic!("expected a failure verdict, got {:?}", other),
    }
}

#[test]
fn classifier_failure_wins_over_success() {
    let v = classify_test_output("Test result: OK\nbut later: Test failures: 2\nboom");
    match v {
        TestVerdict::Failed(detail) => {
            assert_eq!(detail, "Test failures: 2\nboom");
        }
        other => panic!("expected a failure verdict, got {:?}", other),
    }
}

#[test]
fn classifier_reports_unknown_without_markers() {
    let v = classify_test_output("nothing conclusive here");
    assert!(matches!(v, TestVerdict::Unknown));
}

#[test]
fn verdict_render_shapes() {
    assert_eq!(TestVerdict::Passed.render().unwrap(), "PASSED");
    assert_eq!(
        TestVerdict::Failed("detail".to_string()).render().unwrap(),
        "FAILED:\n\ndetail"
    );
    assert!(TestVerdict::Unknown.render().is_none());
}

#[test]
fn remove_before_keeps_suffix_from_first_match() {
    assert_eq!(remove_before("abcdef", "cd"), "cdef");
    assert_eq!(remove_before("abcdcd", "cd"), "cdcd");
    assert_eq!(remove_before("abcdef", "zz"), "abcdef");
}

#[test]
fn parse_test_output_starts_at_failure_marker() {
    let s = "preamble\nTest failures: 1\n\ntest_foo failed";
    assert_eq!(parse_test_output(s), "Test failures: 1\n\ntest_foo failed");
    assert_eq!(parse_test_output("no marker"), "no marker");
}

#[test]
fn build_phase_short_circuits_on_errors() {
    let stderr = "error[E01]: bad\n  \u{250c}\u{2500} s/a.move:1:2\n\n";
    match process_build_output(stderr).unwrap() {
        BuildPhase::Failed(vr) => {
            assert!(vr.verdict.is_none());
            assert_eq!(vr.errors.len(), 1);
            assert_eq!(vr.errors.items[0].notice.code, "E01");
            assert_eq!(vr.warnings.len(), 0);
        }
        BuildPhase::Clean(_) => panic!("a build with errors must not reach the test phase"),
    }
}

#[test]
fn build_phase_hands_warnings_on_when_clean() {
    let stderr = "warning[W01]: odd\n  \u{250c}\u{2500} s/a.move:1:2\n  =\n";
    match process_build_output(stderr).unwrap() {
        BuildPhase::Clean(w) => {
            assert_eq!(w.len(), 1);
            assert_eq!(w.items[0].notice.code, "W01");
        }
        BuildPhase::Failed(_) => panic!("a clean build must reach the test phase"),
    }
}

#[test]
fn build_phase_surfaces_malformed_blocks() {
    let stderr = "error[E02]: no location\ndetail\n\n";
    let err = process_build_output(stderr).unwrap_err();
    assert_eq!(err.header, "error[E02]: no location");
}

#[test]
fn test_phase_merges_build_warnings_which_win_on_identity() {
    let build_stderr = "warning[W01]: from build\n  \u{250c}\u{2500} s/a.move:1:2\n  =\n";
    let build_warnings = match process_build_output(build_stderr).unwrap() {
        BuildPhase::Clean(w) => w,
        BuildPhase::Failed(_) => panic!("clean build expected"),
    };
    let test_stderr = "warning[W01]: from test\n  \u{250c}\u{2500} s/a.move:1:2\n  =\nwarning[W02]: other\n  \u{250c}\u{2500} s/b.move:3:4\n  =\n";
    let vr = process_test_output(build_warnings, "Test result: OK", test_stderr).unwrap();
    assert_eq!(vr.warnings.len(), 2);
    let w01 = vr
        .warnings
        .items
        .iter()
        .find(|r| r.notice.code == "W01")
        .unwrap();
    assert!(w01.body.starts_with("warning[W01]: from build"));
    assert_eq!(vr.errors.len(), 0);
    assert!(matches!(vr.verdict, Some(TestVerdict::Passed)));
}

#[test]
fn test_phase_reports_test_errors_and_failed_verdict() {
    let build_stderr = "";
    let build_warnings = match process_build_output(build_stderr).unwrap() {
        BuildPhase::Clean(w) => w,
        BuildPhase::Failed(_) => panic!("clean build expected"),
    };
    let test_stderr = "error[E07]: tests broke\n  \u{250c}\u{2500} t/a.move:9:9\n\n";
    let vr =
        process_test_output(build_warnings, "Test failures: 1\n\nboom", test_stderr).unwrap();
    assert_eq!(vr.errors.len(), 1);
    assert_eq!(vr.errors.items[0].severity, Severity::Error);
    match vr.verdict {
        Some(TestVerdict::Failed(detail)) => assert_eq!(detail, "Test failures: 1\n\nboom"),
        other => panic!("expected a failure verdict, got {:?}", other),
    }
}

#[test]
fn split_command_tokenizes_on_single_spaces() {
    let parts = split_command("movefmt --emit files");
    assert_eq!(parts, vec!["movefmt", "--emit", "files"]);
    assert_eq!(split_command("solo"), vec!["solo"]);
    assert_eq!(split_command("a  b"), vec!["a", "", "b"]);
}

#[test]
fn service_paths_point_at_subdirectories() {
    let svc = SuiService::new("/work/proj", "movefmt --q");
    assert_eq!(svc.sources_path(), "/work/proj/sources");
    assert_eq!(svc.tests_path(), "/work/proj/tests");
    let tokens = svc.formatter_tokens();
    assert_eq!(tokens, vec!["movefmt", "--q"]);
}
