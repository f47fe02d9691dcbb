use morris::auto_apply::{ApplyAction, ApplyEvent, AutoApply};
use morris::config::{Config, Models};
use morris::mutation::{Mutation, MutationOutcome, MutationPlan, MutationResult};
use morris::paths::{PathPart, SourcePath};
use morris::report::TestReport;
use morris::trial::{backup_path, Trial, TrialAction, TrialEvent};
use morris::workflow::{Workflow, WorkflowAction, WorkflowEvent};
use std::collections::HashMap;

type Disk = HashMap<String, String>;

fn report(success: bool, output: &str) -> TestReport {
    TestReport {
        success,
        output: output.to_string(),
    }
}

/// Runs a trial on `disk`. Writes to `broken` fail and leave rubbish. Answers
/// with the outcome and with what the file held while the tests ran.
fn try_out(
    disk: &mut Disk,
    broken: &str,
    line_number: usize,
    original_line: &str,
    mutated_line: &str,
    tests: TestReport,
) -> (MutationOutcome, Option<String>) {
    let mut tested = None;
    let mut tests = Some(tests);
    let (mut trial, mut action) = Trial::start("a.rs", line_number, original_line, mutated_line);
    loop {
        let event = match action {
            TrialAction::ReadFile { path } => TrialEvent::FileRead {
                contents: disk.get(&path).cloned(),
            },
            TrialAction::WriteFile { path, contents } => {
                let ok = path != broken;
                let written = if ok { contents } else { "rubbish".to_string() };
                disk.insert(path, written);
                TrialEvent::FileWritten { ok }
            }
            TrialAction::CopyFile { from, to } => {
                let contents = disk[&from].clone();
                disk.insert(to, contents);
                TrialEvent::FileCopied
            }
            TrialAction::RemoveFile { path } => {
                disk.remove(&path);
                TrialEvent::FileRemoved
            }
            TrialAction::RunTests => {
                tested = disk.get("a.rs").cloned();
                TrialEvent::TestsRun {
                    report: tests.take().unwrap(),
                }
            }
            TrialAction::Finish { outcome } => return (outcome, tested),
        };
        assert!(trial.awaits(&event));
        (trial, action) = trial.step(event);
    }
}

fn disk_with(contents: &str) -> Disk {
    HashMap::from([("a.rs".to_string(), contents.to_string())])
}

#[test]
fn test_line_mutation_restore() {
    let source = "fn test() {\n    let x = 1;\n}\n";
    for (tests, expected) in [
        (report(true, "ok"), MutationOutcome::Survived),
        (report(false, "failed"), MutationOutcome::Killed),
        (report(false, "TIMEOUT"), MutationOutcome::Timeout),
        (
            report(false, "could not compile"),
            MutationOutcome::BuildError("compilation failed".to_string()),
        ),
    ] {
        let mut disk = disk_with(source);
        let (outcome, tested) = try_out(
            &mut disk,
            "",
            2,
            "    let x = 1;",
            "    let x = 2;",
            tests,
        );
        assert_eq!(outcome, expected);
        assert_eq!(tested.unwrap(), "fn test() {\n    let x = 2;\n}");
        assert!(disk["a.rs"].contains("let x = 1;"), "file should be restored");
        assert_eq!(disk, disk_with(source));
    }
}

#[test]
fn trials_one_after_the_other_restore_the_file() {
    let mut disk = disk_with("a\r\nb\r\n");
    disk.insert("other.rs".to_string(), "c".to_string());
    let before = disk.clone();
    for (number, line, broken) in [(1, "a", ""), (2, "b", "a.rs"), (1, "gone", ""), (2, "a", "")] {
        try_out(&mut disk, broken, number, line, "new", report(false, ""));
        assert_eq!(disk, before);
    }
}

#[test]
fn test_line_mutation_mismatch() {
    let mut disk = disk_with("fn test() {\n    let x = 1;\n}\n");
    let (outcome, tested) = try_out(
        &mut disk,
        "",
        2,
        "    let x = 999;",
        "    let x = 2;",
        report(true, ""),
    );
    assert!(matches!(outcome, MutationOutcome::LineMismatch(_)));
    assert_eq!(
        outcome.to_string(),
        "LINE MISMATCH: line 2: expected 'let x = 999;', found 'let x = 1;'"
    );
    assert_eq!(tested, None);
    assert_eq!(disk, disk_with("fn test() {\n    let x = 1;\n}\n"));
}

#[test]
fn test_line_mutation_mismatch_last_line() {
    let mut disk = disk_with("fn a() {}\nfn b() {}\nfn c() {}\n");
    let (outcome, _) = try_out(
        &mut disk,
        "",
        3,
        "fn WRONG() {}",
        "fn d() {}",
        report(true, ""),
    );
    match &outcome {
        MutationOutcome::LineMismatch(msg) => {
            assert!(
                !msg.contains("out of range"),
                "last line should not be out-of-range"
            );
            assert!(msg.contains("fn c()"), "should show the actual last line");
        }
        other => panic!("expected LineMismatch, got {}", other.to_string()),
    }
}

#[test]
fn line_beyond_the_file_is_a_mismatch() {
    let mut disk = disk_with("a\n");
    let (outcome, _) = try_out(&mut disk, "", 2, "a", "b", report(true, ""));
    assert_eq!(
        outcome,
        MutationOutcome::LineMismatch("line 2: expected 'a', found '<out of range>'".to_string())
    );
}

#[test]
fn failing_reads_and_writes_end_the_trial() {
    let error = |e: &str| MutationOutcome::BuildError(e.to_string());
    let mut empty = Disk::new();
    let (outcome, _) = try_out(&mut empty, "", 1, "a", "b", report(true, ""));
    assert_eq!(outcome, error("Cannot read file"));
    assert!(empty.is_empty());

    assert_eq!(backup_path("a.rs"), "a.rs.morris-backup");
    let mut disk = disk_with("a\n");
    let (outcome, _) = try_out(&mut disk, "a.rs.morris-backup", 1, "a", "b", report(true, ""));
    assert_eq!(outcome, error("Cannot create backup"));
    assert_eq!(disk["a.rs"], "a\n");

    let mut disk = disk_with("a\n");
    let (outcome, tested) = try_out(&mut disk, "a.rs", 1, "a", "b", report(true, ""));
    assert_eq!(outcome, error("Cannot write mutation"));
    assert_eq!(tested, None);
    assert_eq!(disk, disk_with("a\n"));
}

#[test]
fn trial_awaits_what_it_asked_for() {
    let (trial, _) = Trial::start("a.rs", 1, "a", "b");
    assert!(trial.awaits(&TrialEvent::FileRead { contents: None }));
    assert!(!trial.awaits(&TrialEvent::FileWritten { ok: true }));
    assert!(!trial.awaits(&TrialEvent::FileCopied));
    let (trial, _) = trial.step(TrialEvent::FileRead { contents: None });
    assert!(!trial.awaits(&TrialEvent::FileRead { contents: None }));
}

fn path(names: &[&str]) -> SourcePath {
    SourcePath {
        parts: names
            .iter()
            .map(|n| PathPart::Named(n.as_bytes().to_vec()))
            .collect(),
    }
}

/// Applies `analysis` to the files of `tree`, and lists what was shown.
fn apply(
    tree: &mut Vec<(&str, String)>,
    analysis: &str,
    broken: &str,
    tests: TestReport,
) -> (Vec<String>, bool) {
    let mut shown = Vec::new();
    let mut tests = Some(tests);
    let (mut machine, mut action) = AutoApply::start(path(&["p"]), analysis);
    loop {
        let event = match action {
            ApplyAction::ListFiles => ApplyEvent::FilesListed {
                files: tree.iter().map(|(n, _)| path(&["p", n])).collect(),
            },
            ApplyAction::ReadFile { path } => {
                let name = path.display();
                let found = tree.iter().find(|(n, _)| format!("p/{n}") == name);
                ApplyEvent::FileRead {
                    contents: found.map(|(_, c)| c.clone()).filter(|c| c != "unreadable"),
                }
            }
            ApplyAction::WriteFile {
                path,
                contents,
                notice,
            } => {
                shown.push(notice);
                let name = path.display();
                let ok = name != broken;
                if ok {
                    for (n, c) in tree.iter_mut() {
                        if format!("p/{n}") == name {
                            *c = contents.clone();
                        }
                    }
                }
                ApplyEvent::FileWritten { ok }
            }
            ApplyAction::RunTests { notice } => {
                shown.push(notice);
                ApplyEvent::TestsRun {
                    report: tests.take().unwrap(),
                }
            }
            ApplyAction::Stop { notice } => {
                shown.push(notice);
                return (shown, true);
            }
            ApplyAction::Abort => return (shown, false),
        };
        assert!(machine.awaits(&event));
        action = machine.step(event);
    }
}

const MODULE: &str = "#[cfg(test)]\nmod tests {\n}\n";
const REPLY: &str = "```rust\nfn t() {}\n```";

#[test]
fn tests_are_written_into_every_test_module() {
    let mut tree = vec![
        ("a.rs", MODULE.to_string()),
        ("b.rs", "fn f() {\n}\n".to_string()),
        ("c.rs", MODULE.to_string()),
    ];
    let (shown, done) = apply(&mut tree, REPLY, "", report(true, ""));
    assert!(done);
    assert_eq!(
        shown,
        [
            "   Writing a.rs...",
            "   Writing c.rs...",
            "   Verifying tests...",
            "   ✅ All tests pass with improvements!"
        ]
    );
    let patched = "#[cfg(test)]\nmod tests {\nfn t() {}\n}\n";
    assert_eq!(tree[0].1, patched);
    assert_eq!(tree[1].1, "fn f() {\n}\n");
    assert_eq!(tree[2].1, patched);
}

#[test]
fn tests_are_written_into_a_module_that_a_function_follows() {
    let mut tree = vec![(
        "lib.rs",
        "#[cfg(test)]\nmod tests {\n}\nfn f() {\n}\n".to_string(),
    )];
    let (_, done) = apply(
        &mut tree,
        "```rust\n#[test]\nfn t() {}\n```",
        "",
        report(true, ""),
    );
    assert!(done);
    assert_eq!(
        tree[0].1,
        "#[cfg(test)]\nmod tests {\n#[test]\nfn t() {}\n}\nfn f() {\n}\n"
    );
}

#[test]
fn failing_tests_are_reported_after_writing() {
    let mut tree = vec![("a.rs", MODULE.to_string())];
    let (shown, _) = apply(&mut tree, REPLY, "", report(false, "boom"));
    assert_eq!(
        shown[2],
        "   ❌ Tests failed after auto-apply. Check output:\nboom"
    );
}

#[test]
fn nothing_is_written_without_code_or_module() {
    let mut tree = vec![("a.rs", MODULE.to_string())];
    let (shown, _) = apply(&mut tree, "no code", "", report(true, ""));
    assert_eq!(shown, ["   ⚠️  No code block found in AI response"]);
    assert_eq!(tree[0].1, MODULE);

    let mut tree = vec![("a.rs", "fn f() {\n}\n".to_string())];
    let (shown, _) = apply(&mut tree, REPLY, "", report(true, ""));
    assert_eq!(shown, ["   ⚠️  Could not find test module to patch"]);

    let mut none = Vec::new();
    let (shown, _) = apply(&mut none, REPLY, "", report(true, ""));
    assert_eq!(shown, ["   ⚠️  Could not find test module to patch"]);
}

#[test]
fn errors_abort_the_writing() {
    let mut tree = vec![("a.rs", "unreadable".to_string())];
    assert!(!apply(&mut tree, REPLY, "", report(true, "")).1);
    let mut tree = vec![
        ("a.rs", MODULE.to_string()),
        ("b.rs", MODULE.to_string()),
        ("c.rs", MODULE.to_string()),
    ];
    assert!(!apply(&mut tree, REPLY, "p/b.rs", report(true, "")).1);
    assert_eq!(tree[0].1, "#[cfg(test)]\nmod tests {\nfn t() {}\n}\n");
    assert_eq!(tree[1].1, MODULE);
    assert_eq!(tree[2].1, MODULE);
}

fn models() -> Models {
    Models {
        thorough: "thorough".to_string(),
        quick: "quick".to_string(),
    }
}

fn mutation() -> Mutation {
    Mutation {
        file_path: "src/lib.rs".to_string(),
        line_number: 1,
        original_line: "a".to_string(),
        mutated_line: "b".to_string(),
        description: "c".to_string(),
    }
}

/// Runs up to the test of the mutations.
fn run_to_testing(config: Config) -> Workflow {
    let (run, step) = Workflow::start(config, models(), path(&["p"]));
    assert_eq!(step.notice, "📁 Discovering source files...");
    assert_eq!(step.action, WorkflowAction::Discover);
    let (run, step) = run.step(WorkflowEvent::FilesFound {
        files: vec![path(&["p", "src", "lib.rs"]), path(&["x.rs"])],
    });
    assert_eq!(
        step.notice,
        "   src/lib.rs\n   x.rs\n\n📖 Reading source files..."
    );
    assert_eq!(step.action, WorkflowAction::ReadSources);
    let (run, step) = run.step(WorkflowEvent::SourcesRead {
        sources: "SOURCES".to_string(),
    });
    assert_eq!(step.notice, "⏱️  Running baseline tests...");
    assert_eq!(
        step.action,
        WorkflowAction::RunBaseline {
            timeout: 300_000_000_000
        }
    );
    let (run, step) = run.step(WorkflowEvent::BaselineRun {
        report: report(true, ""),
        elapsed: 20_000_000_000,
    });
    assert_eq!(step.notice, "\n🧬 Asking AI for mutation plan...");
    match step.action {
        WorkflowAction::AskForPlan {
            model,
            role,
            prompt,
        } => {
            assert_eq!(model, run.config.model_id(&run.models));
            assert!(role.starts_with("You are a mutation testing expert"));
            assert!(prompt.ends_with("SOURCES"));
        }
        other => panic!("{other:?}"),
    }
    let (run, step) = run.step(WorkflowEvent::PlanReceived {
        reply: "```json\n{}\n```".to_string(),
    });
    assert_eq!(step.notice, "");
    assert_eq!(
        step.action,
        WorkflowAction::ParsePlan {
            json: "{}".to_string()
        }
    );
    let (run, step) = run.step(WorkflowEvent::PlanParsed {
        plan: Ok(MutationPlan {
            mutations: vec![mutation()],
        }),
    });
    assert_eq!(
        step.notice,
        "   Got 1 mutations\n\n🧪 Testing mutations...\n"
    );
    assert_eq!(
        step.action,
        WorkflowAction::TestMutations {
            mutations: vec![mutation()],
            timeout: 60_000_000_000
        }
    );
    run
}

#[test]
fn run_with_survivors_asks_for_an_analysis() {
    for auto_mode in [false, true] {
        let run = run_to_testing(Config {
            auto_mode,
            quick_mode: auto_mode,
            ..Config::default()
        });
        let (run, step) = run.step(WorkflowEvent::MutationsTested {
            results: vec![MutationResult {
                mutation: mutation(),
                outcome: MutationOutcome::Survived,
            }],
        });
        assert_eq!(
            step.notice,
            "\n📊 Results: 0 killed, 1 survived out of 1 testable mutations\n\n💡 Analyzing surviving mutations...\n"
        );
        match step.action {
            WorkflowAction::AskForAnalysis { model, prompt, .. } => {
                assert_eq!(model, if auto_mode { "quick" } else { "thorough" });
                assert!(prompt.contains("- src/lib.rs:1 [SURVIVED] c | a → b\n"));
                assert!(prompt.contains("SOURCES"));
            }
            other => panic!("{other:?}"),
        }
        let (run, step) = run.step(WorkflowEvent::AnalysisReceived {
            reply: "analysis".to_string(),
        });
        assert_eq!(
            step.action,
            WorkflowAction::Conclude {
                analysis: "analysis".to_string(),
                apply: auto_mode
            }
        );
        assert!(!run.awaits(&WorkflowEvent::AnalysisReceived {
            reply: String::new()
        }));
    }
}

#[test]
fn run_without_survivors_calls_the_model_twice_too() {
    let run = run_to_testing(Config::default());
    let (run, step) = run.step(WorkflowEvent::MutationsTested {
        results: vec![MutationResult {
            mutation: mutation(),
            outcome: MutationOutcome::Killed,
        }],
    });
    assert_eq!(
        step.notice,
        "\n📊 Results: 1 killed, 0 survived out of 1 testable mutations\n\n🎉 All mutations were killed! Your tests look solid."
    );
    match step.action {
        WorkflowAction::AskForAnalysis { model, prompt, .. } => {
            assert_eq!(model, "thorough");
            assert!(prompt.contains("- src/lib.rs:1 [KILLED] c | a → b\n"));
        }
        other => panic!("{other:?}"),
    }
    let (_, step) = run.step(WorkflowEvent::AnalysisReceived {
        reply: "fine".to_string(),
    });
    assert_eq!(
        step.action,
        WorkflowAction::Conclude {
            analysis: "fine".to_string(),
            apply: false
        }
    );
}

#[test]
fn mutations_tested_together_fare_as_each_alone() {
    let source = "one\ntwo\nthree\n";
    let verdict = |line: &str| {
        if line == "2" {
            report(true, "")
        } else {
            report(false, "failed")
        }
    };
    let jobs = [(1, "one", "1"), (2, "two", "2"), (3, "gone", "3")];
    let mut shared = disk_with(source);
    for (number, original, mutated) in jobs {
        let together = try_out(&mut shared, "", number, original, mutated, verdict(mutated));
        let mut own = disk_with(source);
        let alone = try_out(&mut own, "", number, original, mutated, verdict(mutated));
        assert_eq!(together, alone);
        assert_eq!(shared, own);
    }
}

#[test]
fn run_without_files_stops() {
    let (run, _) = Workflow::start(Config::default(), models(), path(&["p"]));
    let (_, step) = run.step(WorkflowEvent::FilesFound { files: vec![] });
    assert_eq!(step.notice, "❌ No Rust source files found");
    assert_eq!(step.action, WorkflowAction::Stop);
}

#[test]
fn run_with_failing_baseline_stops() {
    let (run, _) = Workflow::start(Config::default(), models(), path(&["p"]));
    let (run, _) = run.step(WorkflowEvent::FilesFound {
        files: vec![path(&["x.rs"])],
    });
    let (run, _) = run.step(WorkflowEvent::SourcesRead {
        sources: String::new(),
    });
    let too_long = WorkflowEvent::BaselineRun {
        report: report(true, ""),
        elapsed: u128::MAX,
    };
    assert!(!run.awaits(&too_long));
    let (_, step) = run.step(WorkflowEvent::BaselineRun {
        report: report(false, "boom"),
        elapsed: 1,
    });
    assert_eq!(
        step.notice,
        "❌ Baseline tests failed! Fix your tests first.\nboom"
    );
    assert_eq!(step.action, WorkflowAction::Stop);
}

#[test]
fn unreadable_plan_fails_the_run() {
    let (run, _) = Workflow::start(Config::default(), models(), path(&["p"]));
    let (run, _) = run.step(WorkflowEvent::FilesFound {
        files: vec![path(&["x.rs"])],
    });
    let (run, _) = run.step(WorkflowEvent::SourcesRead {
        sources: String::new(),
    });
    let (run, _) = run.step(WorkflowEvent::BaselineRun {
        report: report(true, ""),
        elapsed: 1,
    });
    let (run, _) = run.step(WorkflowEvent::PlanReceived {
        reply: "nonsense".to_string(),
    });
    let (_, step) = run.step(WorkflowEvent::PlanParsed {
        plan: Err("expected value".to_string()),
    });
    assert_eq!(
        step.action,
        WorkflowAction::Fail {
            reason: "Failed to parse mutation plan: expected value\nRaw response:\nnonsense"
                .to_string()
        }
    );
}
