use sw_assistant::security::{calculate_risk_score, generate_recommendations, IssueType, SecurityIssue, SecurityOptions, Severity};

fn issue(t: IssueType, s: Severity) -> SecurityIssue {
    SecurityIssue {
        issue_type: t,
        severity: s,
        line_number: 1,
        line_content: String::new(),
        description: String::new(),
        recommendation: String::new(),
        cwe_id: None,
        owasp_category: None,
    }
}

#[test]
fn risk_score_sums_weights() {
    let issues = vec![
        issue(IssueType::SqlInjection, Severity::Critical),
        issue(IssueType::PathTraversal, Severity::High),
        issue(IssueType::WeakCryptography, Severity::Medium),
        issue(IssueType::InsufficientLogging, Severity::Low),
        issue(IssueType::ConfigurationIssue, Severity::Info),
    ];
    assert_eq!(calculate_risk_score(&issues), 186);
    assert_eq!(calculate_risk_score(&[]), 0);
}

#[test]
fn recommendations_follow_findings() {
    let issues = vec![issue(IssueType::PathTraversal, Severity::High), issue(IssueType::HardcodedCredentials, Severity::Critical)];
    let r = generate_recommendations(&issues, "src/app.py");
    assert_eq!(r.len(), 2);
    assert!(r[0].starts_with("Implement secure credential management"));
    assert!(r[1].starts_with("Validate file paths"));
    let none = generate_recommendations(&[issue(IssueType::InsecureStorage, Severity::Low)], "x");
    assert_eq!(none, vec!["Continue following secure coding practices and regular security reviews"]);
}

#[test]
fn default_security_options() {
    let o = SecurityOptions::default();
    assert!(!o.include_info);
    assert!(o.check_credentials && o.check_configuration);
    assert_eq!(o.file_types.len(), 19);
    assert_eq!(o.exclude_patterns[0], "test");
}
