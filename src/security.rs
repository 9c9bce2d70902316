use vstd::prelude::*;
use crate::text::strings_view;

verus! {

/// Kinds of security findings.
#[derive(Debug, Clone, Copy, PartialEq, Eq, Structural, Hash)]
pub enum IssueType {
    HardcodedCredentials,
    SqlInjection,
    CrossSiteScripting,
    InsecureRandomness,
    WeakCryptography,
    PathTraversal,
    CommandInjection,
    SensitiveDataExposure,
    InsecureDeserialization,
    VulnerableDependency,
    WeakAuthentication,
    InsecureStorage,
    InsufficientLogging,
    ExcessivePermissions,
    UnsafeCodePattern,
    ConfigurationIssue,
}

/// How serious a finding is, from least to most.
#[derive(Debug, Clone, Copy, PartialEq, Eq, Structural, PartialOrd, Ord)]
pub enum Severity {
    Info,
    Low,
    Medium,
    High,
    Critical,
}

/// One security finding in a file.
#[derive(Debug)]
pub struct SecurityIssue {
    pub issue_type: IssueType,
    pub severity: Severity,
    pub line_number: usize,
    pub line_content: String,
    pub description: String,
    pub recommendation: String,
    pub cwe_id: Option<String>,
    pub owasp_category: Option<String>,
}

/// Which checks a security scan runs, and on which files.
#[derive(Debug)]
pub struct SecurityOptions {
    pub include_info: bool,
    pub check_credentials: bool,
    pub check_injection: bool,
    pub check_crypto: bool,
    pub check_paths: bool,
    pub check_dependencies: bool,
    pub check_configuration: bool,
    pub file_types: Vec<String>,
    pub exclude_patterns: Vec<String>,
}

/// File extensions scanned by default.
pub open spec fn default_scan_types() -> Seq<Seq<char>> {
    seq![
        "rs"@, "js"@, "ts"@, "py"@, "java"@, "php"@, "go"@, "cpp"@, "c"@, "cs"@, "rb"@, "sql"@,
        "json"@, "yaml"@, "yml"@, "toml"@, "ini"@, "conf"@, "env"@,
    ]
}

/// Path parts skipped by default.
pub open spec fn default_scan_exclusions() -> Seq<Seq<char>> {
    seq![
        "test"@, "spec"@, "mock"@, "node_modules"@, "target"@, ".git"@, "vendor"@, "dist"@,
        "build"@,
    ]
}

fn owned_strings(v: &Vec<&str>) -> (r: Vec<String>)
    ensures
        r@.len() == v@.len(),
        forall|i: int| 0 <= i < v@.len() ==> #[trigger] r@[i]@ == v@[i]@,
{
    let mut out: Vec<String> = Vec::new();
    let mut i: usize = 0;
    while i < v.len()
        invariant
            i <= v@.len(),
            out@.len() == i,
            forall|j: int| 0 <= j < i ==> #[trigger] out@[j]@ == v@[j]@,
        decreases v@.len() - i,
    {
        out.push(v[i].to_owned());
        i = i + 1;
    }
    out
}

impl Default for SecurityOptions {
    /// Every check but informational findings, on common source and
    /// configuration files, skipping tests, vendored and built files.
    fn default() -> (r: SecurityOptions)
        ensures
            !r.include_info,
            r.check_credentials && r.check_injection && r.check_crypto && r.check_paths
                && r.check_dependencies && r.check_configuration,
            strings_view(r.file_types@) == default_scan_types(),
            strings_view(r.exclude_patterns@) == default_scan_exclusions(),
    {
        let types: Vec<&str> = vec![
            "rs", "js", "ts", "py", "java", "php", "go", "cpp", "c", "cs", "rb", "sql", "json",
            "yaml", "yml", "toml", "ini", "conf", "env",
        ];
        let excl: Vec<&str> = vec![
            "test", "spec", "mock", "node_modules", "target", ".git", "vendor", "dist", "build",
        ];
        let file_types = owned_strings(&types);
        let exclude_patterns = owned_strings(&excl);
        proof {
            assert(strings_view(file_types@) =~= default_scan_types());
            assert(strings_view(exclude_patterns@) =~= default_scan_exclusions());
        }
        SecurityOptions {
            include_info: false,
            check_credentials: true,
            check_injection: true,
            check_crypto: true,
            check_paths: true,
            check_dependencies: true,
            check_configuration: true,
            file_types,
            exclude_patterns,
        }
    }
}

/// Weight of a finding in the risk score.
pub open spec fn severity_weight(s: Severity) -> nat {
    match s {
        Severity::Critical => 100,
        Severity::High => 50,
        Severity::Medium => 25,
        Severity::Low => 10,
        Severity::Info => 1,
    }
}

/// Sum of the weights of the findings.
pub open spec fn total_weight(issues: Seq<SecurityIssue>) -> nat
    decreases issues.len(),
{
    if issues.len() == 0 {
        0
    } else {
        total_weight(issues.drop_last()) + severity_weight(issues.last().severity)
    }
}

/// The risk score of a file: the summed weights of its findings, capped at
/// `u32::MAX`.
pub fn calculate_risk_score(issues: &[SecurityIssue]) -> (r: u32)
    ensures
        r as nat == if total_weight(issues@) > u32::MAX as nat {
            u32::MAX as nat
        } else {
            total_weight(issues@)
        },
{
    let mut total: u32 = 0;
    let mut capped = false;
    let mut i: usize = 0;
    while i < issues.len()
        invariant
            i <= issues@.len(),
            !capped ==> total as nat == total_weight(issues@.take(i as int)),
            capped ==> total == u32::MAX && total_weight(issues@.take(i as int)) > u32::MAX as nat,
        decreases issues@.len() - i,
    {
        let w: u32 = match issues[i].severity {
            Severity::Critical => 100,
            Severity::High => 50,
            Severity::Medium => 25,
            Severity::Low => 10,
            Severity::Info => 1,
        };
        proof {
            assert(issues@.take(i + 1).drop_last() =~= issues@.take(i as int));
        }
        if capped || w > u32::MAX - total {
            total = u32::MAX;
            capped = true;
        } else {
            total = total + w;
        }
        i = i + 1;
    }
    proof {
        assert(issues@.take(issues@.len() as int) =~= issues@);
    }
    total
}

/// Some finding is of this kind.
pub open spec fn has_issue(issues: Seq<SecurityIssue>, t: IssueType) -> bool {
    exists|i: int| 0 <= i < issues.len() && issues[i].issue_type == t
}

/// The advice for a kind of finding, when there is one.
pub open spec fn advice_for(t: IssueType) -> Seq<char> {
    match t {
        IssueType::HardcodedCredentials => "Implement secure credential management using environment variables or dedicated secret stores"@,
        IssueType::SqlInjection => "Use parameterized queries and ORM frameworks to prevent SQL injection"@,
        IssueType::WeakCryptography => "Upgrade to strong cryptographic algorithms (AES-256, SHA-256+, secure random generators)"@,
        IssueType::CrossSiteScripting => "Implement input validation and output encoding to prevent XSS attacks"@,
        IssueType::PathTraversal => "Validate file paths and use allowlists to prevent directory traversal attacks"@,
        IssueType::VulnerableDependency => "Regularly update dependencies and use vulnerability scanning tools"@,
        _ => Seq::empty(),
    }
}

/// The kinds of findings that have advice, in the order it is given.
pub open spec fn advised_kinds() -> Seq<IssueType> {
    seq![
        IssueType::HardcodedCredentials,
        IssueType::SqlInjection,
        IssueType::WeakCryptography,
        IssueType::CrossSiteScripting,
        IssueType::PathTraversal,
        IssueType::VulnerableDependency,
    ]
}

/// The advice for the first `k` advised kinds present among the findings.
pub open spec fn advice_upto(issues: Seq<SecurityIssue>, k: int) -> Seq<Seq<char>>
    decreases k,
{
    if k <= 0 {
        Seq::empty()
    } else if has_issue(issues, advised_kinds()[k - 1]) {
        advice_upto(issues, k - 1).push(advice_for(advised_kinds()[k - 1]))
    } else {
        advice_upto(issues, k - 1)
    }
}

/// The advice for a file's findings: one line for each advised kind
/// present, or a general reminder when none is.
pub open spec fn recommendations_for(issues: Seq<SecurityIssue>) -> Seq<Seq<char>> {
    let a = advice_upto(issues, 6);
    if a.len() == 0 {
        seq!["Continue following secure coding practices and regular security reviews"@]
    } else {
        a
    }
}

fn any_of_type(issues: &[SecurityIssue], t: IssueType) -> (r: bool)
    ensures
        r == has_issue(issues@, t),
{
    let mut i: usize = 0;
    while i < issues.len()
        invariant
            i <= issues@.len(),
            forall|j: int| 0 <= j < i ==> issues@[j].issue_type != t,
        decreases issues@.len() - i,
    {
        if issues[i].issue_type == t {
            return true;
        }
        i = i + 1;
    }
    false
}

/// Advice for the findings of a file; the advice does not depend on the
/// file's path.
pub fn generate_recommendations(issues: &[SecurityIssue], _file_path: &str) -> (r: Vec<String>)
    ensures
        strings_view(r@) == recommendations_for(issues@),
{
    let kinds: [IssueType; 6] = [
        IssueType::HardcodedCredentials,
        IssueType::SqlInjection,
        IssueType::WeakCryptography,
        IssueType::CrossSiteScripting,
        IssueType::PathTraversal,
        IssueType::VulnerableDependency,
    ];
    let texts: [&str; 6] = [
        "Implement secure credential management using environment variables or dedicated secret stores",
        "Use parameterized queries and ORM frameworks to prevent SQL injection",
        "Upgrade to strong cryptographic algorithms (AES-256, SHA-256+, secure random generators)",
        "Implement input validation and output encoding to prevent XSS attacks",
        "Validate file paths and use allowlists to prevent directory traversal attacks",
        "Regularly update dependencies and use vulnerability scanning tools",
    ];
    assert(kinds@ =~= advised_kinds());
    let mut out: Vec<String> = Vec::new();
    let mut k: usize = 0;
    while k < 6
        invariant
            k <= 6,
            kinds@ == advised_kinds(),
            forall|j: int| 0 <= j < 6 ==> #[trigger] texts@[j]@ == advice_for(advised_kinds()[j]),
            strings_view(out@) == advice_upto(issues@, k as int),
        decreases 6 - k,
    {
        if any_of_type(issues, kinds[k]) {
            let ghost before = strings_view(out@);
            out.push(texts[k].to_owned());
            proof {
                assert(texts@[k as int]@ == advice_for(advised_kinds()[k as int]));
                assert(strings_view(out@) =~= before.push(advice_for(advised_kinds()[k as int])));
            }
        }
        k = k + 1;
    }
    if out.len() == 0 {
        out.push("Continue following secure coding practices and regular security reviews".to_owned());
        proof {
            assert(strings_view(out@) =~= seq!["Continue following secure coding practices and regular security reviews"@]);
        }
    }
    out
}

} // verus!
