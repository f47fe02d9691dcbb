use morris::fences::{extract_code_block, strip_code_fences};
use morris::patch::insert_tests;
use morris::prompts::{analysis_role, build_analysis_prompt, build_mutation_prompt, PLAN_ROLE};
use morris::reply::{reply_text, ModelReply, ReplyBlock};

#[test]
fn fences_are_stripped() {
    assert_eq!(strip_code_fences("```json\n{\"a\": 1}\n```"), "{\"a\": 1}");
    assert_eq!(strip_code_fences("  ```\n[]\n```\n"), "[]");
    assert_eq!(strip_code_fences("  {} \n"), "{}");
    assert_eq!(strip_code_fences("```json\n{}"), "{}");
    assert_eq!(strip_code_fences("```{}```"), "{}");
    assert_eq!(strip_code_fences("```"), "");
    assert_eq!(strip_code_fences("``````"), "");
    assert_eq!(strip_code_fences("```\n```"), "");
    assert_eq!(strip_code_fences("```a\n``"), "``");
    assert_eq!(strip_code_fences("a ```b```"), "a ```b```");
    assert_eq!(strip_code_fences(""), "");
}

#[test]
fn fences_come_off_again() {
    for body in ["{}", " a\nb ", "", "```", "x```"] {
        for language in ["", "json", "rust ignore"] {
            let fenced = format!("```{language}\n{body}```");
            assert_eq!(strip_code_fences(&fenced), body.trim());
        }
    }
}

#[test]
fn code_is_extracted_from_all_blocks() {
    let text = "Intro\n```rust\n#[test]\nfn a() {}\n```\nand\n```\nfn b() {}\n\nfn c() {}\n```\nend";
    assert_eq!(
        extract_code_block(text),
        "#[test]\nfn a() {}\nfn b() {}\n\nfn c() {}"
    );
}

#[test]
fn every_language_opens_a_block() {
    assert_eq!(extract_code_block("```toml\na = 1\n```"), "a = 1");
    assert_eq!(
        extract_code_block("```json\n{}\n```\ntext\n```rust\nfn a() {}\n```\nend"),
        "{}\nfn a() {}"
    );
}

#[test]
fn fences_may_be_indented() {
    assert_eq!(
        extract_code_block("  ```rust,ignore\n  x\n  ```json\ny"),
        "  x"
    );
}

#[test]
fn empty_lines_before_the_code_are_dropped() {
    assert_eq!(extract_code_block("```\n\n\nx\n\ny\n\n```"), "x\n\ny\n");
}

#[test]
fn text_without_blocks_holds_no_code() {
    assert_eq!(extract_code_block("no code\n`x`\na ```json\n{}"), "");
    assert_eq!(extract_code_block(""), "");
    assert_eq!(extract_code_block("```rust\nunclosed"), "unclosed");
}

/// A module with the given body, and the same with `new` written into it.
fn module(body: &str) -> (String, String) {
    let source = format!("#[cfg(test)]\nmod tests {{\n{body}\n}}\nfn f() {{\n}}\n");
    let patched = format!("#[cfg(test)]\nmod tests {{\n{body}\nnew\n}}\nfn f() {{\n}}\n");
    (source, patched)
}

#[test]
fn braces_in_literals_and_comments_do_not_count() {
    for body in [
        "",
        "    fn a() { if b { c() } }",
        "    f(\"}\"); g(\"{\\\"}\");",
        "    f('}'); f('\\''); f('{'); f(b'}'); f('\\u{7d}');",
        "    fn a<'a>(x: &'a str) -> &'a str { x }",
        "    f(r\"}\"); f(r#\"\"}\"#); f(br##\"}\"#\"##);",
        "    // }\n    /// }",
        "    /* } /* } */ } */",
        "    let r = 1 / 2; r#type();",
        "    f(\"#[cfg(test)] mod x { \");",
        "    #[cfg(test)]\n    fn helper() {\n}",
        "    #[cfg(test)]\n    mod inner {\n    }",
    ] {
        let (source, patched) = module(body);
        assert_eq!(insert_tests(&source, "new").unwrap(), patched, "{body}");
    }
}

#[test]
fn modules_are_told_from_other_test_code() {
    assert_eq!(
        insert_tests("#[cfg(test)]\n#[allow(x)]\npub(crate) mod t {\n}\n#[cfg(test)]\nuse a::{b};\n", "new").unwrap(),
        "#[cfg(test)]\n#[allow(x)]\npub(crate) mod t {\nnew\n}\n#[cfg(test)]\nuse a::{b};\n"
    );
    for source in [
        "#[cfg(test)]\nmod tests;\nfn f() {\n}\n",
        "#[cfg(test)]\nuse a::{b};\nfn f() {\n}\n",
        "#[cfg(test)]\nfn f() {\n}\n",
        "#[cfg(test)]\nimpl model {\n}\n",
        "// #[cfg(test)]\nmod tests {\n}\n",
        "const A: &str = \"#[cfg(test)]\";\nmod a {\n}\n",
        "#[cfg(test)]\nmod tests {\n",
    ] {
        assert_eq!(insert_tests(source, "new"), None, "{source}");
    }
}

#[test]
fn tests_go_into_the_last_test_module() {
    assert_eq!(
        insert_tests("#[cfg(test)]\nmod a {\n}\n#[cfg(test)]\nmod b {\n}\n", "new").unwrap(),
        "#[cfg(test)]\nmod a {\n}\n#[cfg(test)]\nmod b {\nnew\n}\n"
    );
}

#[test]
fn tests_get_lines_of_their_own() {
    assert_eq!(
        insert_tests("#[cfg(test)] mod tests {}", "// new").unwrap(),
        "#[cfg(test)] mod tests {\n// new\n}"
    );
    assert_eq!(
        insert_tests("mod a {\n  #[cfg(test)]\n  mod tests {\n  }\n}\n", "new").unwrap(),
        "mod a {\n  #[cfg(test)]\n  mod tests {\n  \nnew\n}\n}\n"
    );
}

#[test]
fn tests_go_before_the_last_brace() {
    let source = "fn f() {\n}\n\n#[cfg(test)]\nmod tests {\n    fn a() {}\n}\n";
    assert_eq!(
        insert_tests(source, "fn new() {}").unwrap(),
        "fn f() {\n}\n\n#[cfg(test)]\nmod tests {\n    fn a() {}\nfn new() {}\n}\n"
    );
}

#[test]
fn later_tests_go_behind_earlier_ones() {
    let source = "#[cfg(test)]\nmod tests {\n}";
    let once = insert_tests(source, "fn a() {\n}").unwrap();
    let twice = insert_tests(&once, "fn b() {} // }").unwrap();
    let thrice = insert_tests(&twice, "third").unwrap();
    assert_eq!(
        thrice,
        "#[cfg(test)]\nmod tests {\nfn a() {\n}\nfn b() {} // }\nthird\n}"
    );
}

#[test]
fn sources_without_a_test_module_are_left_alone() {
    assert_eq!(insert_tests("fn f() {\n}\n", "x"), None);
    assert_eq!(insert_tests("mod tests {\n}\n", "x"), None);
    assert_eq!(insert_tests("", "x"), None);
}

#[test]
fn text_of_a_reply() {
    let text = |s: &str| ReplyBlock::Text(s.to_string());
    assert_eq!(
        reply_text(&ModelReply::Message(vec![
            ReplyBlock::Other,
            text("a"),
            text("b")
        ])),
        Ok("a".to_string())
    );
    assert_eq!(
        reply_text(&ModelReply::Message(vec![ReplyBlock::Other])),
        Err("No text in response".to_string())
    );
    assert_eq!(
        reply_text(&ModelReply::Message(vec![])),
        Err("No text in response".to_string())
    );
    assert_eq!(
        reply_text(&ModelReply::NoOutput),
        Err("No output in response".to_string())
    );
    assert_eq!(
        reply_text(&ModelReply::NoMessage),
        Err("Output is not a message".to_string())
    );
}

#[test]
fn mutation_prompt_ends_with_the_sources() {
    let prompt = build_mutation_prompt("=== a.rs ===\n");
    assert!(prompt.starts_with(
        "Analyze this Rust project and propose 5-8 strategic single-line mutations that are \
         likely to survive the existing test suite (i.e., reveal test coverage gaps).\n\nFocus on:\n"
    ));
    assert!(prompt.contains(
        "{\"mutations\": [\n{\"file_path\": \"src/lib.rs\", \"line_number\": 42, \
         \"original_line\": \"    if x > 0 {\", \"mutated_line\": \"    if x >= 0 {\", \
         \"description\": \"Change > to >= to test boundary\"}\n]}\n\nIMPORTANT:\n"
    ));
    assert!(prompt.contains("shown as \"  N| code\" — use the number before the pipe\n"));
    assert!(prompt.ends_with("\n\nSource files (with line numbers):\n=== a.rs ===\n"));
    assert!(PLAN_ROLE.contains("valid JSON"));
}

#[test]
fn analysis_prompt_follows_the_mode() {
    assert_eq!(
        build_analysis_prompt(true, "SUMMARY", "SOURCES"),
        "Results:\nSUMMARY\n\nSource code:\nSOURCES\n\n\
         Write new #[test] functions that catch each SURVIVED mutation.\n\
         Output ONLY the new test functions, nothing else. No explanations, no module wrapper, no use statements.\n\
         Wrap them in a single fenced code block:\n\
         ```rust\n#[test]\nfn test_name() { ... }\n```"
    );
    assert_eq!(
        build_analysis_prompt(false, "SUMMARY", "SOURCES"),
        "These mutations were tested against the project's test suite.\n\n\
         Results:\nSUMMARY\n\nSource code:\nSOURCES\n\n\
         For each SURVIVED mutation, explain:\n\
         1. Why the current tests don't catch it\n\
         2. A specific test that would catch it (show the code)\n\n\
         Be concise and actionable."
    );
    assert!(analysis_role(true).starts_with("Output only the updated file"));
    assert!(analysis_role(false).starts_with("You are a Rust testing expert."));
}
