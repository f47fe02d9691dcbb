//! What the model is asked.

use vstd::prelude::*;

verus! {

/// The part of the request for a mutation plan that comes before the sources.
pub const PLAN_REQUEST: &'static str =
    "Analyze this Rust project and propose 5-8 strategic single-line mutations that are \
     likely to survive the existing test suite (i.e., reveal test coverage gaps).\n\n\
     Focus on:\n\
     - Boundary conditions (>, <, >=, <=)\n\
     - Arithmetic operators (+, -, *, /)\n\
     - Logic operators (&&, ||, !, ==, !=)\n\
     - Off-by-one errors\n\
     - Return value changes\n\n\
     Respond with ONLY a JSON object (no markdown fences) in this exact format:\n\
     {\"mutations\": [\n\
     {\"file_path\": \"src/lib.rs\", \"line_number\": 42, \
     \"original_line\": \"    if x > 0 {\", \
     \"mutated_line\": \"    if x >= 0 {\", \
     \"description\": \"Change > to >= to test boundary\"}\n\
     ]}\n\n\
     IMPORTANT:\n\
     - Use paths relative to the project root\n\
     - Line numbers are shown as \"  N| code\" — use the number before the pipe\n\
     - Copy original_line EXACTLY as it appears AFTER the \"| \" prefix (including indentation)\n\
     - Each mutation must be a single line change that still compiles\n\
     - The mutated_line must have the same indentation as original_line\n\n\
     Source files (with line numbers):\n";

/// What the tests asked for in automatic mode have to look like.
pub const TESTS_REQUEST: &'static str =
    "\n\nWrite new #[test] functions that catch each SURVIVED mutation.\n\
     Output ONLY the new test functions, nothing else. No explanations, no module wrapper, no use statements.\n\
     Wrap them in a single fenced code block:\n\
     ```rust\n\
     #[test]\n\
     fn test_name() { ... }\n\
     ```";

/// What an explanation of the results has to say.
pub const EXPLANATION_REQUEST: &'static str =
    "\n\nFor each SURVIVED mutation, explain:\n\
     1. Why the current tests don't catch it\n\
     2. A specific test that would catch it (show the code)\n\n\
     Be concise and actionable.";

/// The request for a mutation plan.
pub open spec fn mutation_prompt(file_contents: Seq<char>) -> Seq<char> {
    PLAN_REQUEST@ + file_contents
}

/// Asks for mutations of the sources in `file_contents`.
pub fn build_mutation_prompt(file_contents: &str) -> (r: String)
    ensures
        r@ == mutation_prompt(file_contents@),
{
    PLAN_REQUEST.to_owned().concat(file_contents)
}

/// The request for an analysis of the results: for tests in automatic mode,
/// for an explanation otherwise.
pub open spec fn analysis_prompt(
    auto_mode: bool,
    results_summary: Seq<char>,
    file_contents: Seq<char>,
) -> Seq<char> {
    if auto_mode {
        "Results:\n"@ + results_summary + "\n\nSource code:\n"@ + file_contents + TESTS_REQUEST@
    } else {
        "These mutations were tested against the project's test suite.\n\nResults:\n"@
            + results_summary + "\n\nSource code:\n"@ + file_contents + EXPLANATION_REQUEST@
    }
}

/// Asks for an analysis of the results in `results_summary`.
pub fn build_analysis_prompt(auto_mode: bool, results_summary: &str, file_contents: &str) -> (r:
    String)
    ensures
        r@ == analysis_prompt(auto_mode, results_summary@, file_contents@),
{
    let mut r = if auto_mode {
        "Results:\n".to_owned()
    } else {
        "These mutations were tested against the project's test suite.\n\nResults:\n".to_owned()
    };
    r.append(results_summary);
    r.append("\n\nSource code:\n");
    r.append(file_contents);
    r.append(
        if auto_mode {
            TESTS_REQUEST
        } else {
            EXPLANATION_REQUEST
        },
    );
    r
}

/// The role that the model is given for a mutation plan.
pub const PLAN_ROLE: &'static str =
    "You are a mutation testing expert for Rust. Respond only with valid JSON.";

/// The role that the model is given for the analysis.
pub open spec fn analysis_role_text(auto_mode: bool) -> Seq<char> {
    if auto_mode {
        "Output only the updated file in the exact delimited format requested. No markdown. No explanations. No code fences."@
    } else {
        "You are a Rust testing expert. Help improve test coverage based on mutation testing results."@
    }
}

/// The role that the model is given for the analysis.
pub fn analysis_role(auto_mode: bool) -> (r: &'static str)
    ensures
        r@ == analysis_role_text(auto_mode),
{
    if auto_mode {
        "Output only the updated file in the exact delimited format requested. No markdown. No explanations. No code fences."
    } else {
        "You are a Rust testing expert. Help improve test coverage based on mutation testing results."
    }
}

/// The request for a plan is the same for all sources but for the sources, which
/// stand at its end, whole.
pub proof fn plan_is_asked_for_the_sources(sources: Seq<char>)
    ensures
        mutation_prompt(sources) == mutation_prompt(Seq::empty()) + sources,
        mutation_prompt(Seq::empty()) == PLAN_REQUEST@,
{
    assert(PLAN_REQUEST@ + Seq::<char>::empty() =~= PLAN_REQUEST@);
}

/// An analysis is asked for the results and the sources, both whole: what stands
/// before, between and behind them depends on the mode alone, and in automatic
/// mode it asks for tests, otherwise for an explanation.
pub proof fn analysis_is_asked_for_results_and_sources(results: Seq<char>, sources: Seq<char>)
    ensures
        analysis_prompt(true, results, sources) == "Results:\n"@ + results + "\n\nSource code:\n"@
            + sources
            + "\n\nWrite new #[test] functions that catch each SURVIVED mutation.\nOutput ONLY the new test functions, nothing else. No explanations, no module wrapper, no use statements.\nWrap them in a single fenced code block:\n```rust\n#[test]\nfn test_name() { ... }\n```"@,
        analysis_prompt(false, results, sources)
            == "These mutations were tested against the project's test suite.\n\nResults:\n"@
            + results + "\n\nSource code:\n"@ + sources
            + "\n\nFor each SURVIVED mutation, explain:\n1. Why the current tests don't catch it\n2. A specific test that would catch it (show the code)\n\nBe concise and actionable."@,
{
}

/// What the model is told of the plan: to answer with JSON that has the five
/// fields of a mutation, and with lines as they stand in the sources.
pub proof fn plan_request_reads_so()
    ensures
        PLAN_REQUEST@
            == "Analyze this Rust project and propose 5-8 strategic single-line mutations that are likely to survive the existing test suite (i.e., reveal test coverage gaps).\n\nFocus on:\n- Boundary conditions (>, <, >=, <=)\n- Arithmetic operators (+, -, *, /)\n- Logic operators (&&, ||, !, ==, !=)\n- Off-by-one errors\n- Return value changes\n\nRespond with ONLY a JSON object (no markdown fences) in this exact format:\n{\"mutations\": [\n{\"file_path\": \"src/lib.rs\", \"line_number\": 42, \"original_line\": \"    if x > 0 {\", \"mutated_line\": \"    if x >= 0 {\", \"description\": \"Change > to >= to test boundary\"}\n]}\n\nIMPORTANT:\n- Use paths relative to the project root\n- Line numbers are shown as \"  N| code\" — use the number before the pipe\n- Copy original_line EXACTLY as it appears AFTER the \"| \" prefix (including indentation)\n- Each mutation must be a single line change that still compiles\n- The mutated_line must have the same indentation as original_line\n\nSource files (with line numbers):\n"@,
        PLAN_ROLE@ == "You are a mutation testing expert for Rust. Respond only with valid JSON."@,
        analysis_role_text(true)
            == "Output only the updated file in the exact delimited format requested. No markdown. No explanations. No code fences."@,
        analysis_role_text(false)
            == "You are a Rust testing expert. Help improve test coverage based on mutation testing results."@,
{
}

} // verus!
