use vstd::prelude::*;
use crate::analysis::match_count;
use crate::files::extension_of;
use crate::text::{chars_of, contains_str, has_infix, lower_of, lowercase, strings_view};

verus! {

/// How a search match was found.
#[derive(Debug, Clone, Copy, PartialEq, Eq, Structural)]
pub enum MatchType {
    Exact,
    Regex,
    Fuzzy,
    Semantic,
    FunctionName,
    ClassName,
    Variable,
    Comment,
    Import,
}

/// One match in a file, with surrounding lines.
#[derive(Debug)]
pub struct SearchMatch {
    pub line_number: usize,
    pub column: usize,
    pub line_content: String,
    pub match_text: String,
    pub context_before: Vec<String>,
    pub context_after: Vec<String>,
    pub match_type: MatchType,
}

/// The matches of one file.
#[derive(Debug)]
pub struct SearchResult {
    pub file_path: String,
    pub matches: Vec<SearchMatch>,
    pub total_matches: usize,
    pub file_size: u64,
    pub last_modified: String,
    pub file_type: String,
}

fn copy_range(lines: &[String], a: usize, b: usize) -> (r: Vec<String>)
    requires
        a <= b <= lines@.len(),
    ensures
        strings_view(r@) == strings_view(lines@).subrange(a as int, b as int),
{
    let mut out: Vec<String> = Vec::new();
    let mut i = a;
    while i < b
        invariant
            a <= i <= b <= lines@.len(),
            out@.len() == i - a,
            forall|j: int| 0 <= j < out@.len() ==> #[trigger] out@[j]@ == lines@[a + j]@,
        decreases b - i,
    {
        out.push(lines[i].clone());
        i = i + 1;
    }
    proof {
        assert(strings_view(out@) =~= strings_view(lines@).subrange(a as int, b as int));
    }
    out
}

/// Up to `context_lines` lines before line `line_idx`.
pub fn extract_context_before(all_lines: &[String], line_idx: usize, context_lines: usize) -> (r: Vec<String>)
    requires
        line_idx <= all_lines@.len(),
    ensures
        strings_view(r@) == strings_view(all_lines@).subrange(
            if line_idx >= context_lines { line_idx - context_lines } else { 0 },
            line_idx as int,
        ),
{
    let start = if line_idx >= context_lines { line_idx - context_lines } else { 0 };
    copy_range(all_lines, start, line_idx)
}

/// Up to `context_lines` lines after line `line_idx`.
pub fn extract_context_after(all_lines: &[String], line_idx: usize, context_lines: usize) -> (r: Vec<String>)
    requires
        line_idx < all_lines@.len(),
    ensures
        strings_view(r@) == strings_view(all_lines@).subrange(
            line_idx + 1,
            if line_idx + 1 + context_lines < all_lines@.len() { line_idx + 1 + context_lines } else { all_lines@.len() as int },
        ),
{
    let n = all_lines.len();
    let end = if context_lines < n - line_idx - 1 { line_idx + 1 + context_lines } else { n };
    copy_range(all_lines, line_idx + 1, end)
}

/// A match with the lines around it.
pub fn create_search_match(
    line: &str,
    line_number: usize,
    column: usize,
    match_text: &str,
    match_type: MatchType,
    all_lines: &[String],
    line_idx: usize,
    context_lines: usize,
) -> (r: SearchMatch)
    requires
        line_idx < all_lines@.len(),
    ensures
        r.line_number == line_number && r.column == column && r.match_type == match_type,
        r.line_content@ == line@ && r.match_text@ == match_text@,
        strings_view(r.context_before@) == strings_view(all_lines@).subrange(
            if line_idx >= context_lines { line_idx - context_lines } else { 0 },
            line_idx as int,
        ),
        strings_view(r.context_after@) == strings_view(all_lines@).subrange(
            line_idx + 1,
            if line_idx + 1 + context_lines < all_lines@.len() { line_idx + 1 + context_lines } else { all_lines@.len() as int },
        ),
{
    let context_before = extract_context_before(all_lines, line_idx, context_lines);
    let context_after = extract_context_after(all_lines, line_idx, context_lines);
    SearchMatch {
        line_number,
        column,
        line_content: line.to_owned(),
        match_text: match_text.to_owned(),
        context_before,
        context_after,
        match_type,
    }
}

/// `p` occurs in `t` as a subsequence: its characters appear in order,
/// each matched to the first unused equal character.
pub open spec fn is_subsequence(p: Seq<char>, t: Seq<char>) -> bool
    decreases t.len(),
{
    if p.len() == 0 {
        true
    } else if t.len() == 0 {
        false
    } else if t[0] == p[0] {
        is_subsequence(p.drop_first(), t.drop_first())
    } else {
        is_subsequence(p, t.drop_first())
    }
}

/// The text as compared: as written, or lower-cased.
pub open spec fn folded(s: Seq<char>, case_sensitive: bool) -> Seq<char> {
    if case_sensitive {
        s
    } else {
        lower_of(s)
    }
}

fn fold(s: &str, case_sensitive: bool) -> (r: String)
    ensures
        r@ == folded(s@, case_sensitive),
{
    if case_sensitive {
        s.to_owned()
    } else {
        lowercase(s)
    }
}

/// Whether the characters of `pattern` appear in `text` in order.
pub fn fuzzy_match(pattern: &str, text: &str, case_sensitive: bool) -> (r: bool)
    ensures
        r == is_subsequence(folded(pattern@, case_sensitive), folded(text@, case_sensitive)),
{
    let p = chars_of(fold(pattern, case_sensitive).as_str());
    let t = chars_of(fold(text, case_sensitive).as_str());
    let mut i: usize = 0;
    let mut j: usize = 0;
    proof {
        assert(p@.skip(0) =~= p@);
        assert(t@.skip(0) =~= t@);
    }
    while i < p.len() && j < t.len()
        invariant
            i <= p@.len(),
            j <= t@.len(),
            is_subsequence(p@.skip(i as int), t@.skip(j as int)) == is_subsequence(p@, t@),
        decreases t@.len() - j,
    {
        proof {
            assert(p@.skip(i as int).drop_first() =~= p@.skip(i + 1));
            assert(t@.skip(j as int).drop_first() =~= t@.skip(j + 1));
        }
        if t[j] == p[i] {
            i = i + 1;
        }
        j = j + 1;
    }
    proof {
        if i == p@.len() {
            assert(p@.skip(i as int).len() == 0);
        } else {
            assert(t@.skip(j as int).len() == 0);
        }
    }
    i == p.len()
}

/// Whether a line matches a search pattern: as a fuzzy subsequence, or
/// as a substring, with or without regard to case.
pub fn pattern_matches(text: &str, pattern: &str, case_sensitive: bool, fuzzy: bool) -> (r: bool)
    ensures
        fuzzy ==> r == is_subsequence(folded(pattern@, case_sensitive), folded(text@, case_sensitive)),
        !fuzzy ==> r == has_infix(folded(text@, case_sensitive), folded(pattern@, case_sensitive)),
{
    if fuzzy {
        fuzzy_match(pattern, text, case_sensitive)
    } else {
        let t = fold(text, case_sensitive);
        let p = fold(pattern, case_sensitive);
        contains_str(t.as_str(), p.as_str())
    }
}

/// The lower-cased extension of a path, or "unknown" when it has none.
pub open spec fn file_kind(path: Seq<char>) -> Seq<char> {
    if extension_of(path).len() == 0 {
        "unknown"@
    } else {
        lower_of(extension_of(path))
    }
}

/// Names the type of a file by its extension.
pub fn detect_file_type_from_extension(file_path: &str) -> (r: String)
    ensures
        r@ == file_kind(file_path@),
{
    let ext = crate::files::path_extension(file_path);
    if ext.as_str().unicode_len() == 0 {
        "unknown".to_owned()
    } else {
        lowercase(ext.as_str())
    }
}

/// The number of matches `str::matches` finds: non-overlapping
/// occurrences left to right, and for an empty pattern one at every
/// character boundary.
pub open spec fn occurrences(s: Seq<char>, p: Seq<char>) -> nat {
    if p.len() == 0 {
        s.len() + 1
    } else {
        match_count(s, p, 0)
    }
}

/// A count as a `usize` holds it, saturated at the largest value.
pub open spec fn capped(n: nat) -> nat {
    if n > usize::MAX {
        usize::MAX as nat
    } else {
        n
    }
}

fn count_occurrences(s: &str, p: &[char]) -> (r: usize)
    ensures
        r as nat == capped(occurrences(s@, p@)),
{
    let c = chars_of(s);
    if p.len() == 0 {
        if c.len() == usize::MAX { usize::MAX } else { c.len() + 1 }
    } else {
        crate::analysis::count_matches(c.as_slice(), p)
    }
}

/// How many occurrences of `pattern` a replacement removed: the count in
/// the original less the count in the new text, not below zero.
pub fn count_replacements(original: &str, new: &str, pattern: &str) -> (r: usize)
    ensures
        r as int == if capped(occurrences(original@, pattern@)) >= capped(occurrences(new@, pattern@)) {
            capped(occurrences(original@, pattern@)) - capped(occurrences(new@, pattern@))
        } else {
            0
        },
{
    let p = chars_of(pattern);
    let a = count_occurrences(original, p.as_slice());
    let b = count_occurrences(new, p.as_slice());
    if a >= b {
        a - b
    } else {
        0
    }
}

/// What `char::is_alphanumeric` says of a character.
pub uninterp spec fn alphanumeric(c: char) -> bool;

/// Relies on `char::is_alphanumeric`: whether the character is a letter or
/// a digit in Unicode's sense; a function of the character alone.
#[verifier::external_body]
fn is_alnum(c: char) -> (r: bool)
    ensures
        r == alphanumeric(c),
{
    c.is_alphanumeric()
}

/// The character at index `k`, or a space past the end.
pub open spec fn char_or_space(s: Seq<char>, k: int) -> char {
    if 0 <= k < s.len() {
        s[k]
    } else {
        ' '
    }
}

/// A match at character `pos` of `line` stands as a whole word: no letter
/// or digit right before it, nor at the index `pos` plus the pattern's
/// length in bytes (when that index lies within the line's byte length).
pub open spec fn whole_word(line: Seq<char>, line_bytes: int, pos: int, pattern_bytes: int) -> bool {
    let before_ok = pos == 0 || !alphanumeric(char_or_space(line, pos - 1));
    let after = pos + pattern_bytes;
    let after_ok = after >= line_bytes || !alphanumeric(char_or_space(line, after));
    before_ok && after_ok
}

/// Whether the match of `pattern` at `pos` in `line` is a whole word.
pub fn is_whole_word_match(line: &str, pos: usize, pattern: &str) -> (r: bool)
    ensures
        r == whole_word(line@, line.len() as int, pos as int, pattern.len() as int),
{
    let cs = chars_of(line);
    let before_ok = if pos == 0 {
        true
    } else {
        let c = if pos - 1 < cs.len() { cs[pos - 1] } else { ' ' };
        !is_alnum(c)
    };
    let plen = pattern.len();
    let llen = line.len();
    let after_ok = if plen > usize::MAX - pos || pos + plen >= llen {
        true
    } else {
        let after = pos + plen;
        let c = if after < cs.len() { cs[after] } else { ' ' };
        !is_alnum(c)
    };
    before_ok && after_ok
}

/// What a search looks for and where. Times are milliseconds since the
/// Unix epoch.
#[derive(Debug)]
pub struct SearchOptions {
    pub pattern: String,
    pub case_sensitive: bool,
    pub whole_word: bool,
    pub regex: bool,
    pub fuzzy: bool,
    pub semantic: bool,
    pub include_comments: bool,
    pub include_strings: bool,
    pub context_lines: usize,
    pub max_matches_per_file: Option<usize>,
    pub file_types: Vec<String>,
    pub exclude_patterns: Vec<String>,
    pub min_file_size: Option<u64>,
    pub max_file_size: Option<u64>,
    pub modified_after: Option<i64>,
    pub modified_before: Option<i64>,
}

/// File extensions searched by default.
pub open spec fn default_search_types() -> Seq<Seq<char>> {
    seq!["rs"@, "js"@, "ts"@, "py"@, "java"@, "cpp"@, "c"@, "h"@, "md"@, "txt"@]
}

/// Path parts skipped by default.
pub open spec fn default_search_exclusions() -> Seq<Seq<char>> {
    seq![".git"@, "node_modules"@, "target"@, ".vscode"@]
}

fn owned(v: &Vec<&str>) -> (r: Vec<String>)
    ensures
        strings_view(r@) == v@.map_values(|s: &str| s@),
{
    let mut out: Vec<String> = Vec::new();
    let mut i: usize = 0;
    while i < v.len()
        invariant
            i <= v@.len(),
            out@.len() == i,
            forall|j: int| 0 <= j < i ==> #[trigger] out@[j]@ == v@[j]@,
        decreases v@.len() - i,
    {
        out.push(v[i].to_owned());
        i = i + 1;
    }
    proof {
        assert(strings_view(out@) =~= v@.map_values(|s: &str| s@));
    }
    out
}

impl Default for SearchOptions {
    /// A case-insensitive plain search with two lines of context, at most
    /// a hundred matches a file, over common source and text files up to
    /// ten megabytes, skipping version control, dependencies and builds.
    fn default() -> (r: SearchOptions)
        ensures
            r.pattern@.len() == 0,
            !r.case_sensitive && !r.whole_word && !r.regex && !r.fuzzy && !r.semantic,
            r.include_comments && r.include_strings,
            r.context_lines == 2,
            r.max_matches_per_file == Some(100usize),
            strings_view(r.file_types@) == default_search_types(),
            strings_view(r.exclude_patterns@) == default_search_exclusions(),
            r.min_file_size is None,
            r.max_file_size == Some(10485760u64),
            r.modified_after is None && r.modified_before is None,
    {
        let types: Vec<&str> = vec!["rs", "js", "ts", "py", "java", "cpp", "c", "h", "md", "txt"];
        let excl: Vec<&str> = vec![".git", "node_modules", "target", ".vscode"];
        let file_types = owned(&types);
        let exclude_patterns = owned(&excl);
        proof {
            assert(types@.map_values(|s: &str| s@) =~= default_search_types());
            assert(excl@.map_values(|s: &str| s@) =~= default_search_exclusions());
        }
        SearchOptions {
            pattern: String::new(),
            case_sensitive: false,
            whole_word: false,
            regex: false,
            fuzzy: false,
            semantic: false,
            include_comments: true,
            include_strings: true,
            context_lines: 2,
            max_matches_per_file: Some(100),
            file_types,
            exclude_patterns,
            min_file_size: None,
            max_file_size: Some(10 * 1024 * 1024),
            modified_after: None,
            modified_before: None,
        }
    }
}

} // verus!
