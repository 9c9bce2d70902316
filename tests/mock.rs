use sw_assistant::mock::generate_mock_content;
use sw_assistant::text::replace_all;

#[test]
fn mock_express_with_auth() {
    let c = generate_mock_content("Create a REST API with JWT Auth", "auth.js");
    assert!(c.starts_with("// Mock generated code for: auth.js\n// Instruction: Create a REST API with JWT Auth\n\n"));
    assert!(c.contains("const express = require('express');"));
    assert!(c.contains("router.post('/auth/login'"));
    assert!(c.contains("jwt.sign({ userId: 1 }, 'secret');"));
    assert!(c.ends_with("\nmodule.exports = { mockExample };\n"));
}

#[test]
fn mock_tests_refactor_and_other_kinds() {
    let t = generate_mock_content("Generate unit tests using Jest", "userService.test.js");
    assert!(t.contains("describe('UserService Tests'"));
    assert!(t.contains("deleteUser"));
    let r = generate_mock_content("Convert to modern ES6+ syntax", "legacy.js");
    assert!(r.contains(".filter(user => user.active === true)"));
    let d = generate_mock_content("write docs", "my_api-guide.md");
    assert!(d.contains("# my api guide\n\n## Installation"));
    let p = generate_mock_content("x", "tool.py");
    assert!(p.contains("def mock_function():"));
    let o = generate_mock_content("x", "lib.rs");
    assert!(o.contains("// Mock content\nfunction mockExample()"));
    let j = generate_mock_content("something", "a.js");
    assert!(j.contains("const mockExample = () => {"));
}

#[test]
fn replace_every_occurrence() {
    assert_eq!(replace_all("a-b-c", "-", " "), "a b c");
    assert_eq!(replace_all("aaa", "aa", "b"), "ba");
    assert_eq!(replace_all("none", "x", "y"), "none");
    assert_eq!(replace_all("{{name}} and {{name}}", "{{name}}", "Ann"), "Ann and Ann");
    assert_eq!(replace_all("ab", "", "x"), "xaxbx");
    assert_eq!(replace_all("", "", "x"), "x");
}
