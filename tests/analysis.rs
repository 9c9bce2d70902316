use sw_assistant::analysis::{
    calculate_cyclomatic_complexity, count_lines_of_code, detect_file_type, detect_language, generate_dependency_graph, scan_todos, ComplexityMetrics, FileAnalysis,
    FileType, Import, ImportType,
};

#[test]
fn summary_lists_counts() {
    let a = FileAnalysis {
        file_path: "src/lib.rs".into(),
        file_type: FileType::Source,
        language: "rust".into(),
        lines_of_code: 120,
        dependencies: vec![],
        exports: vec![],
        functions: vec![],
        classes: vec![],
        imports: vec![],
        todos: vec![],
        complexity: ComplexityMetrics { cyclomatic_complexity: 7, cognitive_complexity: 0, nesting_depth: 0, function_count: 0, class_count: 0 },
    };
    assert_eq!(
        a.summary(),
        "File: src/lib.rs\nLanguage: rust\nType: Source\nLines: 120\nFunctions: 0\nClasses: 0\nImports: 0\nTODOs: 0\nComplexity: 7 cyclomatic, 0 cognitive"
    );
}

#[test]
fn code_lines_skip_comments_and_blanks() {
    assert_eq!(count_lines_of_code("fn a() {}\n\n// c\n  # h\nlet x = 1;\n"), 2);
}

#[test]
fn notes_are_found_with_line_numbers() {
    let text = "fn a() {}\n  // todo: tidy  \nnote this\n// FIXME: crash @bob\nplain";
    let found = scan_todos(text);
    assert_eq!(
        found,
        vec![(2, "// todo: tidy".to_string()), (3, "note this".to_string()), (4, "// FIXME: crash @bob".to_string())]
    );
}

#[test]
fn language_guess() {
    assert_eq!(detect_language("py", ""), "python");
    assert_eq!(detect_language("", "const x = 1"), "javascript");
    assert_eq!(detect_language("txt", "pub fn x"), "rust");
    assert_eq!(detect_language("txt", "hello"), "unknown");
}

#[test]
fn file_types() {
    assert_eq!(detect_file_type("src/user_test.rs", ""), FileType::Test);
    assert_eq!(detect_file_type("a/test/x.rs", ""), FileType::Test);
    assert_eq!(detect_file_type("README.MD", ""), FileType::Documentation);
    assert_eq!(detect_file_type("app/settings.py", ""), FileType::Config);
    assert_eq!(detect_file_type("Makefile", ""), FileType::Build);
    assert_eq!(detect_file_type("src/x.js", "function f() {}"), FileType::Source);
    assert_eq!(detect_file_type("src/x.js", ""), FileType::Unknown);
}

fn analysis_of(path: &str, modules: &[&str]) -> FileAnalysis {
    FileAnalysis {
        file_path: path.into(),
        file_type: FileType::Source,
        language: "js".into(),
        lines_of_code: 0,
        dependencies: vec![],
        exports: vec![],
        functions: vec![],
        classes: vec![],
        imports: modules
            .iter()
            .map(|m| Import { module: m.to_string(), items: vec![], alias: None, line: 1, import_type: ImportType::Named })
            .collect(),
        todos: vec![],
        complexity: ComplexityMetrics { cyclomatic_complexity: 1, cognitive_complexity: 0, nesting_depth: 0, function_count: 0, class_count: 0 },
    }
}

#[test]
fn dependency_graph_by_file_name() {
    let g = generate_dependency_graph(&[
        analysis_of("a/index.js", &["react"]),
        analysis_of("b/util.js", &["lodash", "fs"]),
        analysis_of("c/index.js", &["vue"]),
    ]);
    assert_eq!(
        g,
        vec![("index.js".to_string(), vec!["vue".to_string()]), ("util.js".to_string(), vec!["lodash".to_string(), "fs".to_string()])]
    );
    assert_eq!(generate_dependency_graph(&[analysis_of("", &[])]), vec![("unknown".to_string(), vec![])]);
}

#[test]
fn complexity_counts_keywords() {
    assert_eq!(calculate_cyclomatic_complexity("if (a && b) { x } else { y }"), 4);
    assert_eq!(calculate_cyclomatic_complexity("verify"), 2);
    assert_eq!(calculate_cyclomatic_complexity(""), 1);
    assert_eq!(calculate_cyclomatic_complexity("a ? b : c || d"), 3);
}

#[test]
fn notes_trim_unicode_whitespace() {
    assert_eq!(scan_todos("\u{3000}// TODO: x\u{a0}"), vec![(1, "// TODO: x".to_string())]);
}

#[test]
fn graph_keys_follow_path_rules() {
    let g = generate_dependency_graph(&[analysis_of("a/b/", &["m"]), analysis_of("x/..", &[])]);
    assert_eq!(g, vec![("b".to_string(), vec!["m".to_string()]), ("unknown".to_string(), vec![])]);
}
