use red_js_interpreter::runner::{
    case_failure, check_result, child_outcome, child_report, child_result, empty_tally,
    exit_status, frontmatter, harness_source, is_raw, is_test_file, mode_name, mode_source,
    parse_arguments, parse_child_result, parse_u64, record_outcome, skip_reason, strict_variants,
    summary_line, test_outcome, CaseOutcome, ChildExit, CliOptions, CliRequest, Metadata,
    NegativeMetadata, RunEnd, TestOutcome, STACK_OVERFLOW_EXIT_CODE,
};

fn strings(v: &[&str]) -> Vec<String> {
    v.iter().map(|s| s.to_string()).collect()
}

fn negative(phase: &str, error_type: &str) -> Option<NegativeMetadata> {
    Some(NegativeMetadata {
        phase: phase.to_string(),
        error_type: error_type.to_string(),
    })
}

#[test]
fn parses_test262_frontmatter() {
    let text = frontmatter(
        "/*---\nflags: [onlyStrict]\nincludes: [propertyHelper.js]\nfeatures: [Array]\nnegative:\n  phase: runtime\n  type: TypeError\n---*/\n",
    )
    .expect("frontmatter should parse")
    .expect("frontmatter should be there");
    assert_eq!(
        text,
        "\nflags: [onlyStrict]\nincludes: [propertyHelper.js]\nfeatures: [Array]\nnegative:\n  phase: runtime\n  type: TypeError\n"
    );
}

#[test]
fn accepts_tests_without_frontmatter() {
    assert_eq!(frontmatter("1 + 1;"), Ok(None));
    let metadata = Metadata::default();
    assert!(metadata.flags.is_empty());
    assert!(metadata.negative.is_none());
}

#[test]
fn unterminated_frontmatter_is_an_error() {
    assert_eq!(
        frontmatter("/*--- flags: [raw]"),
        Err("unterminated Test262 frontmatter".to_string())
    );
}

#[test]
fn skips_unsupported_features_modules_and_async() {
    let m = Metadata {
        features: strings(&["Array", "Temporal", "Proxy"]),
        ..Metadata::default()
    };
    assert_eq!(
        skip_reason(&m, &strings(&["Proxy", "Temporal"])),
        Some("unsupported feature Temporal".to_string())
    );
    assert_eq!(skip_reason(&m, &strings(&["BigInt"])), None);
    let m = Metadata {
        flags: strings(&["module"]),
        ..Metadata::default()
    };
    assert_eq!(
        skip_reason(&m, &Vec::new()),
        Some("modules are not supported by this runner".to_string())
    );
    let m = Metadata {
        flags: strings(&["async"]),
        ..Metadata::default()
    };
    assert_eq!(
        skip_reason(&m, &Vec::new()),
        Some("async tests are not supported by this runner".to_string())
    );
    let m = Metadata {
        negative: negative("resolution", "SyntaxError"),
        ..Metadata::default()
    };
    assert_eq!(
        skip_reason(&m, &Vec::new()),
        Some("negative resolution tests are not supported by this runner".to_string())
    );
    let m = Metadata {
        negative: negative("parse", "SyntaxError"),
        ..Metadata::default()
    };
    assert_eq!(skip_reason(&m, &Vec::new()), None);
}

#[test]
fn chooses_the_modes() {
    let with = |flags: &[&str]| Metadata {
        flags: strings(flags),
        ..Metadata::default()
    };
    assert_eq!(strict_variants(&with(&[])), vec![false, true]);
    assert_eq!(strict_variants(&with(&["onlyStrict"])), vec![true]);
    assert_eq!(strict_variants(&with(&["noStrict"])), vec![false]);
    assert_eq!(strict_variants(&with(&["raw", "onlyStrict"])), vec![false]);
    assert!(is_raw(&with(&["raw"])));
    assert!(!is_raw(&with(&["noStrict"])));
}

#[test]
fn strict_mode_puts_the_directive_first() {
    assert_eq!(mode_source(true, "x;"), "\"use strict\";\nx;");
    assert_eq!(mode_source(false, "x;"), "x;");
    assert_eq!(mode_name(true), "strict");
    assert_eq!(mode_name(false), "default");
}

#[test]
fn harness_comes_before_the_test() {
    assert_eq!(
        harness_source("A", "S", &strings(&["I1", "I2"]), "T"),
        "A\nS\nI1\nI2\nT"
    );
    assert_eq!(harness_source("A", "S", &Vec::new(), "T"), "A\nS\nT");
}

#[test]
fn judges_completed_runs() {
    assert_eq!(check_result(&RunEnd::Finished, &None), None);
    assert_eq!(
        check_result(&RunEnd::Thrown(Some("TypeError".to_string())), &None),
        Some("uncaught TypeError".to_string())
    );
    assert_eq!(
        check_result(&RunEnd::Thrown(None), &None),
        Some("uncaught unknown error".to_string())
    );
    assert_eq!(
        check_result(
            &RunEnd::Thrown(Some("TypeError".to_string())),
            &negative("runtime", "TypeError")
        ),
        None
    );
    assert_eq!(
        check_result(
            &RunEnd::Thrown(Some("RangeError".to_string())),
            &negative("runtime", "TypeError")
        ),
        Some("expected TypeError, got RangeError".to_string())
    );
    assert_eq!(
        check_result(&RunEnd::Finished, &negative("runtime", "TypeError")),
        Some("expected TypeError but completed normally".to_string())
    );
}

#[test]
fn judges_each_run_with_its_mode() {
    assert_eq!(
        case_failure(&CaseOutcome::ParsePanic, &None, false),
        Some("default mode: parser panic".to_string())
    );
    assert_eq!(
        case_failure(&CaseOutcome::ParsePanic, &negative("parse", "SyntaxError"), true),
        None
    );
    assert_eq!(
        case_failure(&CaseOutcome::ParsePanic, &negative("early", "ReferenceError"), true),
        Some("strict mode: expected ReferenceError, got SyntaxError".to_string())
    );
    assert_eq!(
        case_failure(
            &CaseOutcome::Completed(RunEnd::Finished),
            &negative("parse", "SyntaxError"),
            false
        ),
        Some("default mode: expected SyntaxError during parse phase, but completed normally".to_string())
    );
    assert_eq!(
        case_failure(&CaseOutcome::CompilePanic, &negative("early", "SyntaxError"), false),
        None
    );
    assert_eq!(
        case_failure(&CaseOutcome::CompilePanic, &None, true),
        Some("strict mode: interpreter panic".to_string())
    );
    assert_eq!(
        case_failure(&CaseOutcome::Panic, &negative("parse", "SyntaxError"), true),
        Some("strict mode: interpreter panic".to_string())
    );
    assert_eq!(case_failure(&CaseOutcome::Completed(RunEnd::Finished), &None, true), None);
}

#[test]
fn joins_the_failures_of_a_test() {
    assert_eq!(test_outcome(&Vec::new()), TestOutcome::Pass);
    assert_eq!(
        test_outcome(&strings(&["a", "b", "c"])),
        TestOutcome::Fail("a; b; c".to_string())
    );
}

#[test]
fn reads_the_child_result() {
    assert_eq!(child_result("noise\n__TEST262_RESULT__ PASS\n"), Ok(TestOutcome::Pass));
    assert_eq!(
        child_result("__TEST262_RESULT__ FAIL default mode: parser panic\r\n"),
        Ok(TestOutcome::Fail("default mode: parser panic".to_string()))
    );
    assert_eq!(
        child_result("__TEST262_RESULT__ PASS\n__TEST262_RESULT__ SKIP why not"),
        Ok(TestOutcome::Skip("why not".to_string()))
    );
    assert_eq!(
        child_result("__TEST262_RESULT__ ERROR cannot read"),
        Err("cannot read".to_string())
    );
    assert_eq!(
        child_result("__TEST262_RESULT__ MAYBE"),
        Err("unknown child result MAYBE".to_string())
    );
    assert_eq!(
        child_result("nothing here"),
        Err("test process returned no result".to_string())
    );
}

#[test]
fn reads_the_child_result_from_bytes() {
    assert_eq!(
        parse_child_result(b"log\n__TEST262_RESULT__ FAIL bad\n"),
        Ok(TestOutcome::Fail("bad".to_string()))
    );
    let mut bytes = b"__TEST262_RESULT__ FAIL x".to_vec();
    bytes.push(0xff);
    assert_eq!(
        parse_child_result(&bytes),
        Ok(TestOutcome::Fail("x\u{fffd}".to_string()))
    );
}

#[test]
fn recognises_test_files() {
    assert!(is_test_file(Some("js"), Some("a.js")));
    assert!(!is_test_file(Some("js"), Some("a_FIXTURE.js")));
    assert!(!is_test_file(Some("json"), Some("a.json")));
    assert!(!is_test_file(None, Some("README")));
    assert!(is_test_file(Some("js"), None));
}

#[test]
fn reads_decimal_numbers() {
    assert_eq!(parse_u64("2000"), Some(2000));
    assert_eq!(parse_u64("+7"), Some(7));
    assert_eq!(parse_u64("18446744073709551615"), Some(u64::MAX));
    assert_eq!(parse_u64("18446744073709551616"), None);
    assert_eq!(parse_u64(""), None);
    assert_eq!(parse_u64("+"), None);
    assert_eq!(parse_u64("-1"), None);
    assert_eq!(parse_u64("12a"), None);
}

#[test]
fn reads_the_command_line() {
    let args = strings(&[
        "--test262-dir",
        "/t",
        "--skip-feature",
        "Proxy",
        "--skip-feature",
        "Proxy",
        "--fail-fast",
        "--timeout-ms",
        "500",
        "test/a.js",
        "--child",
    ]);
    assert_eq!(
        parse_arguments(&args, "/cwd".to_string()),
        Ok(CliRequest::Run(CliOptions {
            test262_dir: "/t".to_string(),
            paths: strings(&["test/a.js"]),
            skip_features: strings(&["Proxy"]),
            fail_fast: true,
            timeout_ms: 500,
            child: true,
        }))
    );
    assert_eq!(
        parse_arguments(&strings(&["x.js"]), "/cwd".to_string()),
        Ok(CliRequest::Run(CliOptions {
            test262_dir: "/cwd".to_string(),
            paths: strings(&["x.js"]),
            skip_features: Vec::new(),
            fail_fast: false,
            timeout_ms: 2000,
            child: false,
        }))
    );
}

#[test]
fn command_line_errors() {
    assert_eq!(
        parse_arguments(&strings(&["a.js", "-h"]), String::new()),
        Ok(CliRequest::Help)
    );
    assert_eq!(
        parse_arguments(&Vec::new(), String::new()),
        Err("at least one test file or directory is required".to_string())
    );
    assert_eq!(
        parse_arguments(&strings(&["--test262-dir"]), String::new()),
        Err("--test262-dir requires a directory".to_string())
    );
    assert_eq!(
        parse_arguments(&strings(&["--skip-feature"]), String::new()),
        Err("--skip-feature requires a feature name".to_string())
    );
    assert_eq!(
        parse_arguments(&strings(&["--timeout-ms", "0"]), String::new()),
        Err("--timeout-ms requires a positive integer".to_string())
    );
    assert_eq!(
        parse_arguments(&strings(&["--bogus"]), String::new()),
        Err("unknown option --bogus".to_string())
    );
}

#[test]
fn child_reports_its_outcome() {
    assert_eq!(child_report(&Ok(TestOutcome::Pass)), "__TEST262_RESULT__ PASS");
    assert_eq!(
        child_report(&Ok(TestOutcome::Fail("strict mode: parser panic".to_string()))),
        "__TEST262_RESULT__ FAIL strict mode: parser panic"
    );
    assert_eq!(
        child_report(&Ok(TestOutcome::Skip("async".to_string()))),
        "__TEST262_RESULT__ SKIP async"
    );
    assert_eq!(
        child_report(&Err("no such file".to_string())),
        "__TEST262_RESULT__ ERROR no such file"
    );
}

#[test]
fn a_report_reads_back_as_what_it_reports() {
    for outcome in [
        Ok(TestOutcome::Pass),
        Ok(TestOutcome::Fail("default mode: expected TypeError, got RangeError".to_string())),
        Ok(TestOutcome::Skip("unsupported feature Proxy".to_string())),
        Ok(TestOutcome::Fail(String::new())),
        Err("could not load harness include x.js: gone".to_string()),
    ] {
        let text = format!("some log\n{}\n", child_report(&outcome));
        assert_eq!(child_result(&text), outcome);
        let bytes = format!("{}\n", child_report(&outcome)).into_bytes();
        assert_eq!(parse_child_result(&bytes), outcome);
    }
}

#[test]
fn judges_how_the_child_ended() {
    assert_eq!(
        child_outcome(&ChildExit::TimedOut, b"", 2000),
        Ok(TestOutcome::Fail("timed out after 2000 ms".to_string()))
    );
    assert_eq!(
        child_outcome(
            &ChildExit::Exited { code: Some(STACK_OVERFLOW_EXIT_CODE), success: false },
            b"",
            2000
        ),
        Ok(TestOutcome::Fail("interpreter stack overflow".to_string()))
    );
    assert_eq!(
        child_outcome(&ChildExit::Exited { code: Some(101), success: false }, b"", 2000),
        Ok(TestOutcome::Fail("test process exited with 101".to_string()))
    );
    assert_eq!(
        child_outcome(&ChildExit::Exited { code: Some(-3), success: false }, b"", 2000),
        Ok(TestOutcome::Fail("test process exited with -3".to_string()))
    );
    assert_eq!(
        child_outcome(&ChildExit::Exited { code: None, success: false }, b"", 2000),
        Ok(TestOutcome::Fail("test process exited with an unknown status".to_string()))
    );
    assert_eq!(
        child_outcome(
            &ChildExit::Exited { code: Some(0), success: true },
            b"__TEST262_RESULT__ SKIP why\n",
            2000
        ),
        Ok(TestOutcome::Skip("why".to_string()))
    );
    assert_eq!(
        child_outcome(&ChildExit::Exited { code: Some(0), success: true }, b"", 2000),
        Err("test process returned no result".to_string())
    );
}

#[test]
fn counts_outcomes_and_stops_on_failure_when_asked() {
    let mut tally = empty_tally();
    let (line, stop) = record_outcome(&mut tally, "a.js", &Ok(TestOutcome::Pass), true);
    assert_eq!((line.as_str(), stop), ("PASS a.js", false));
    let (line, stop) =
        record_outcome(&mut tally, "b.js", &Ok(TestOutcome::Skip("module".to_string())), true);
    assert_eq!((line.as_str(), stop), ("SKIP b.js: module", false));
    let (line, stop) =
        record_outcome(&mut tally, "c.js", &Ok(TestOutcome::Fail("bad".to_string())), false);
    assert_eq!((line.as_str(), stop), ("FAIL c.js: bad", false));
    let (line, stop) = record_outcome(&mut tally, "d.js", &Err("gone".to_string()), true);
    assert_eq!((line.as_str(), stop), ("FAIL d.js: gone", true));
    assert_eq!((tally.passed, tally.failed, tally.skipped), (1, 2, 1));
    assert_eq!(summary_line(&tally), "summary: 1 passed, 2 failed, 1 skipped");
    assert_eq!(exit_status(&tally), 1);
}

#[test]
fn a_run_without_failures_exits_with_zero() {
    let mut tally = empty_tally();
    record_outcome(&mut tally, "a.js", &Ok(TestOutcome::Pass), false);
    assert_eq!(summary_line(&tally), "summary: 1 passed, 0 failed, 0 skipped");
    assert_eq!(exit_status(&tally), 0);
}

#[test]
fn a_report_reads_back_with_unmarked_lines_after_it() {
    let outcome = Ok(TestOutcome::Fail("strict mode: interpreter panic".to_string()));
    let text = format!("{}\ntrailing log\nmore\n", child_report(&outcome));
    assert_eq!(child_result(&text), outcome);
    let text = format!("a\n{}\nlast line without break", child_report(&Ok(TestOutcome::Pass)));
    assert_eq!(child_result(&text), Ok(TestOutcome::Pass));
}
