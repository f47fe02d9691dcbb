use morris::config::{log_directive, Config, Models};
use morris::mutation::{Mutation, MutationOutcome, MutationResult};
use morris::decoding::decode;
use morris::report::{classify, finished_report, test_report, TestExit, TestReport};
use morris::run::{mutation_path, MutationRun};
use morris::summary::{format_results_summary, tally, Tally};
use morris::workflow::mutation_timeout;
use std::time::Duration;

fn mutation(line_number: usize) -> Mutation {
    Mutation {
        file_path: "src/lib.rs".to_string(),
        line_number,
        original_line: "    if x > 0 {".to_string(),
        mutated_line: "    if x >= 0 {".to_string(),
        description: "Change > to >=".to_string(),
    }
}

fn result(line_number: usize, outcome: MutationOutcome) -> MutationResult {
    MutationResult {
        mutation: mutation(line_number),
        outcome,
    }
}

#[test]
fn test_config_defaults() {
    let config = Config::default();
    assert!(!config.auto_mode);
    assert!(!config.quick_mode);
    assert!(!config.verbose);
    assert!(config.tests_everything());
}

#[test]
fn quick_mode_alone_chooses_the_model() {
    let models = Models {
        thorough: "thorough".to_string(),
        quick: "quick".to_string(),
    };
    for other in [false, true] {
        let mut config = Config {
            auto_mode: other,
            verbose: other,
            ..Config::default()
        };
        assert_eq!(config.model_id(&models), "thorough");
        config.quick_mode = true;
        assert_eq!(config.model_id(&models), "quick");
    }
}

#[test]
fn given_paths_are_tested_alone() {
    let config = Config {
        paths: vec![b"src/lib.rs".to_vec()],
        ..Config::default()
    };
    assert!(!config.tests_everything());
}

#[test]
fn log_level_follows_verbosity_and_environment() {
    assert_eq!(log_directive(true, None), Some("morris=debug"));
    assert_eq!(log_directive(true, Some("warn")), Some("morris=debug"));
    assert_eq!(log_directive(false, Some("debug")), None);
    assert_eq!(log_directive(false, Some("hyper=info")), Some("morris=warn"));
    assert_eq!(log_directive(false, Some("")), Some("morris=warn"));
    assert_eq!(log_directive(false, None), Some("morris=warn"));
}

#[test]
fn test_mutation_outcome_display() {
    assert_eq!(MutationOutcome::Survived.to_string(), "SURVIVED");
    assert_eq!(MutationOutcome::Killed.to_string(), "KILLED");
    assert_eq!(MutationOutcome::Timeout.to_string(), "TIMEOUT");
    assert_eq!(
        MutationOutcome::BuildError("oops".into()).to_string(),
        "BUILD ERROR: oops"
    );
    assert_eq!(
        MutationOutcome::LineMismatch("bad".into()).to_string(),
        "LINE MISMATCH: bad"
    );
}

#[test]
fn outcomes_have_badges() {
    assert_eq!(MutationOutcome::Survived.badge(), "❌ SURVIVED");
    assert_eq!(MutationOutcome::Killed.badge(), "✅ KILLED");
    assert_eq!(MutationOutcome::Timeout.badge(), "⏱️  TIMEOUT");
    assert_eq!(
        MutationOutcome::BuildError(String::new()).badge(),
        "🔧 BUILD ERROR"
    );
    assert_eq!(
        MutationOutcome::LineMismatch(String::new()).badge(),
        "⚠️  LINE MISMATCH"
    );
}

fn timeout_of(baseline: Duration) -> Duration {
    let nanos = mutation_timeout(baseline.as_nanos());
    Duration::new((nanos / 1_000_000_000) as u64, (nanos % 1_000_000_000) as u32)
}

#[test]
fn test_timeout_multiplier() {
    let baseline = Duration::from_secs(10);
    let timeout = timeout_of(baseline);
    assert_eq!(timeout, Duration::from_secs(30));
    assert_eq!(timeout, baseline.mul_f64(3.0).max(Duration::from_secs(30)));

    let baseline2 = Duration::from_secs(20);
    let timeout2 = timeout_of(baseline2);
    assert_eq!(timeout2, Duration::from_secs(60));
    assert_eq!(timeout2, baseline2.mul_f64(3.0).max(Duration::from_secs(30)));
    // With multiplier 2.0 this would be 40, not 60
    assert_ne!(timeout2, Duration::from_secs(40));
}

#[test]
fn timeout_of_fractions_of_a_second() {
    for nanos in [0, 1_200_000_000, 10_000_000_001, 12_345_678_901, 299_999_999_999] {
        let baseline = Duration::from_nanos(nanos);
        assert_eq!(
            timeout_of(baseline),
            baseline.mul_f64(3.0).max(Duration::from_secs(30))
        );
    }
}

#[test]
fn test_run_cargo_test_timeout() {
    let report = test_report(&TestExit::TimedOut);
    assert!(!report.success);
    assert!(!report.output.is_empty());
    assert_eq!(report.output, "TIMEOUT");
    assert_eq!(classify(&report), MutationOutcome::Timeout);
}

#[test]
fn output_of_both_streams_is_joined() {
    let report = test_report(&TestExit::Finished {
        success: true,
        stdout: "ok → ".as_bytes().to_vec(),
        stderr: b"bad \xff byte".to_vec(),
    });
    assert!(report.success);
    assert_eq!(report.output, "ok → bad \u{fffd} byte");
}

#[test]
fn bytes_are_read_as_text() {
    assert_eq!(decode("é→🧬".as_bytes()), "é→🧬");
    assert_eq!(decode(b""), "");
    for bytes in [&b"a\xffb"[..], b"\xe2\x82", b"\xf0\x9f/\x80"] {
        assert_eq!(decode(bytes), String::from_utf8_lossy(bytes));
        assert_ne!(decode(bytes).as_bytes(), bytes);
    }
    let report = finished_report(false, "out", "err");
    assert!(!report.success);
    assert_eq!(report.output, "outerr");
}

#[test]
fn command_that_cannot_be_run() {
    let report = test_report(&TestExit::NotRun("no such file".to_string()));
    assert!(!report.success);
    assert_eq!(report.output, "Failed to run cargo test: no such file");
    assert_eq!(classify(&report), MutationOutcome::Killed);
}

#[test]
fn reports_are_classified() {
    let of = |success: bool, output: &str| {
        classify(&TestReport {
            success,
            output: output.to_string(),
        })
    };
    assert_eq!(of(true, "ok"), MutationOutcome::Survived);
    assert_eq!(of(true, "error[E0308]"), MutationOutcome::Survived);
    assert_eq!(of(true, "TIMEOUT"), MutationOutcome::Timeout);
    assert_eq!(of(false, "test failed"), MutationOutcome::Killed);
    assert_eq!(of(false, "a TIMEOUT"), MutationOutcome::Killed);
    let broken = MutationOutcome::BuildError("compilation failed".to_string());
    assert_eq!(of(false, "x error[E0308]: y"), broken);
    assert_eq!(of(false, "error: could not compile `a`"), broken);
}

#[test]
fn results_are_listed() {
    let results = vec![
        result(42, MutationOutcome::Survived),
        result(7, MutationOutcome::BuildError("compilation failed".into())),
    ];
    assert_eq!(
        format_results_summary(&results),
        "- src/lib.rs:42 [SURVIVED] Change > to >= | if x > 0 { → if x >= 0 {\n\
         - src/lib.rs:7 [BUILD ERROR: compilation failed] Change > to >= | if x > 0 { → if x >= 0 {\n"
    );
    assert_eq!(format_results_summary(&results).lines().count(), 2);
    assert_eq!(format_results_summary(&[]), "");
}

#[test]
fn results_are_counted() {
    let results = vec![
        result(1, MutationOutcome::Survived),
        result(2, MutationOutcome::Killed),
        result(3, MutationOutcome::Killed),
        result(4, MutationOutcome::Timeout),
        result(5, MutationOutcome::BuildError("e".into())),
        result(6, MutationOutcome::LineMismatch("m".into())),
    ];
    let counts = tally(&results);
    assert_eq!(
        counts,
        Tally {
            killed: 2,
            survived: 1,
            testable: 4
        }
    );
    assert_eq!(
        counts.to_string(),
        "\n📊 Results: 2 killed, 1 survived out of 4 testable mutations"
    );
}

#[test]
fn run_goes_through_the_plan_in_order() {
    let mut run = MutationRun::new(vec![mutation(42), mutation(67)]);
    assert_eq!(
        run.progress_line().unwrap(),
        "   [1/2] src/lib.rs:42 - Change > to >=... "
    );
    assert_eq!(run.current(), Some(&mutation(42)));
    run.record(MutationOutcome::Survived);
    assert_eq!(
        run.progress_line().unwrap(),
        "   [2/2] src/lib.rs:67 - Change > to >=... "
    );
    run.record(MutationOutcome::Killed);
    assert_eq!(run.current(), None);
    assert_eq!(run.progress_line(), None);
    assert_eq!(
        run.results,
        vec![
            result(42, MutationOutcome::Survived),
            result(67, MutationOutcome::Killed)
        ]
    );
}

#[test]
fn mutation_paths_are_joined_like_paths() {
    for dir in ["/a/b", "/", "/a/", "rel"] {
        for file in ["src/lib.rs", "/abs/x.rs", "", "./y.rs"] {
            assert_eq!(
                mutation_path(Some(dir), file),
                std::path::Path::new(dir).join(file).to_str().unwrap()
            );
        }
    }
    assert_eq!(mutation_path(None, "src/lib.rs"), "src/lib.rs");
}
