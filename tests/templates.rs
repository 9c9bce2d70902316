use sw_assistant::templates::{find_template, get_builtin_templates, Template, TemplateContext};

#[test]
fn builders_collect_parts() {
    let t = Template::new("t", "a template", "rust")
        .add_file("a.txt", "hello {{name}}")
        .add_executable_file("run.sh", "#!/bin/sh")
        .add_variable("name", "who", Some("world"), true)
        .add_dependency("serde")
        .add_script("build", "cargo build")
        .add_script("test", "cargo test")
        .add_script("build", "cargo build --release");
    assert_eq!(t.files.len(), 2);
    assert!(!t.files[0].executable);
    assert!(t.files[1].executable);
    assert_eq!(t.variables[0].default_value.as_deref(), Some("world"));
    assert_eq!(t.dependencies, vec!["serde"]);
    assert_eq!(
        t.scripts,
        vec![("build".to_string(), "cargo build --release".to_string()), ("test".to_string(), "cargo test".to_string())]
    );
}

#[test]
fn builtin_templates_are_listed() {
    let ts = get_builtin_templates();
    let names: Vec<&str> = ts.iter().map(|t| t.name.as_str()).collect();
    assert_eq!(names, vec!["rust-cli", "node-express", "python-fastapi", "react-component", "typescript-library"]);
    assert!(ts[0].files.iter().any(|f| f.path == "Cargo.toml"));
    assert!(ts[0].dependencies.contains(&"clap".to_string()));
}

fn context() -> TemplateContext {
    TemplateContext {
        variables: vec![("app_name".to_string(), "demo".to_string()), ("description".to_string(), "A {{app_name}} tool".to_string())],
        project_name: "proj".to_string(),
        author: "Ann".to_string(),
        timestamp: "T".to_string(),
    }
}

#[test]
fn placeholders_are_filled() {
    let t = Template::new("t", "d", "rust");
    let out = t.render_template_at("{{project_name}} by {{author}} ({{year}}, {{date}}, {{timestamp}}): {{description}} / {{app_name}} / {{unknown}}", &context(), "2026", "2026-10-18");
    assert_eq!(out, "proj by Ann (2026, 2026-10-18, T): A {{app_name}} tool / demo / {{unknown}}");
}

#[test]
fn rendering_with_the_clock_fills_the_year() {
    let t = Template::new("t", "d", "rust");
    let out = t.render_template("{{year}}|{{date}}", &context());
    let (year, date) = out.split_once('|').unwrap();
    assert_eq!(year.len(), 4);
    assert!(date.starts_with(year));
    assert_eq!(date.len(), 10);
}

#[test]
fn templates_found_by_name() {
    assert_eq!(find_template("python-fastapi").unwrap().name, "python-fastapi");
    assert!(find_template("cobol-batch").is_none());
}
