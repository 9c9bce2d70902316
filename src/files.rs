use vstd::prelude::*;
use crate::diff::{parse_unsigned, parse_usize};
use crate::text::{find_chars, find_from, lines_of, strings_view, text_lines, chars_of, contains_str, has_infix, has_prefix, same_text, slice_chars, starts_with_chars, string_from_chars};

verus! {

/// Index of the last occurrence of `c` in `s`.
pub open spec fn last_index(s: Seq<char>, c: char) -> Option<int>
    decreases s.len(),
{
    if s.len() == 0 {
        None
    } else if s.last() == c {
        Some(s.len() - 1)
    } else {
        last_index(s.drop_last(), c)
    }
}

/// The file name `Path::file_name` gives for a path, or empty when it
/// gives none (a path ending in `..`, a root, an empty path).
pub uninterp spec fn file_name_of(path: Seq<char>) -> Seq<char>;

/// Relies on `std::path::Path::file_name`: the last component of the path
/// unless it is `..` (trailing separators and `.` components ignored);
/// empty when there is none. A function of the text alone.
#[verifier::external_body]
fn path_file_name(path: &str) -> (r: String)
    ensures
        r@ == file_name_of(path@),
{
    std::path::Path::new(path).file_name().and_then(|n| n.to_str()).unwrap_or("").to_owned()
}

/// The extension of a path: what follows the last dot of its file name,
/// where that dot is not the name's first character; empty if none.
pub open spec fn extension_of(path: Seq<char>) -> Seq<char> {
    let f = file_name_of(path);
    match last_index(f, '.') {
        Some(i) => if i > 0 {
            f.skip(i + 1)
        } else {
            Seq::empty()
        },
        None => Seq::empty(),
    }
}

proof fn lemma_last_index_bounds(s: Seq<char>, c: char)
    ensures
        last_index(s, c) matches Some(i) ==> 0 <= i < s.len() && s[i] == c,
        last_index(s, c) is None ==> forall|j: int| 0 <= j < s.len() ==> s[j] != c,
    decreases s.len(),
{
    if s.len() > 0 && s.last() != c {
        lemma_last_index_bounds(s.drop_last(), c);
        if last_index(s, c) is None {
            assert forall|j: int| 0 <= j < s.len() implies s[j] != c by {
                if j < s.len() - 1 {
                    assert(s.drop_last()[j] == s[j]);
                }
            }
        }
    }
}

/// Finds the last occurrence of `c`.
fn rfind_char(s: &[char], c: char) -> (r: Option<usize>)
    ensures
        r matches Some(i) ==> last_index(s@, c) == Some(i as int),
        r is None ==> last_index(s@, c) is None,
{
    let mut i = s.len();
    assert(s@.take(i as int) =~= s@);
    while i > 0
        invariant
            i <= s@.len(),
            last_index(s@, c) == last_index(s@.take(i as int), c),
        decreases i,
    {
        proof {
            assert(s@.take(i as int).drop_last() =~= s@.take(i - 1));
        }
        if s[i - 1] == c {
            return Some(i - 1);
        }
        i = i - 1;
    }
    None
}

/// The file name of a path, empty when it has none.
pub fn filename_only(path: &str) -> (r: String)
    ensures
        r@ == file_name_of(path@),
{
    path_file_name(path)
}

/// The extension of a path, empty when it has none.
pub fn path_extension(path: &str) -> (r: String)
    ensures
        r@ == extension_of(path@),
{
    let name = filename_only(path);
    let cs = chars_of(name.as_str());
    let n = cs.len();
    match rfind_char(cs.as_slice(), '.') {
        Some(i) => {
            proof {
                lemma_last_index_bounds(cs@, '.');
            }
            if i > 0 {
                let tail = slice_chars(cs.as_slice(), i + 1, n);
                assert(tail@ =~= cs@.skip(i + 1));
                string_from_chars(tail.as_slice())
            } else {
                String::new()
            }
        },
        None => String::new(),
    }
}

/// The language name shown for a file, by its extension.
pub open spec fn language_for_extension(ext: Seq<char>) -> Seq<char> {
    if ext == "rs"@ {
        "Rust"@
    } else if ext == "py"@ {
        "Python"@
    } else if ext == "ts"@ || ext == "tsx"@ {
        "TypeScript"@
    } else if ext == "js"@ || ext == "jsx"@ {
        "JavaScript"@
    } else if ext == "md"@ {
        "Markdown"@
    } else if ext == "toml"@ {
        "TOML"@
    } else if ext == "json"@ {
        "JSON"@
    } else if ext.len() > 0 {
        ext
    } else {
        "text"@
    }
}

/// Names the language of a file from its path.
pub fn detect_language_from_path(path: &str) -> (r: String)
    ensures
        r@ == language_for_extension(extension_of(path@)),
{
    let ext = path_extension(path);
    let e = ext.as_str();
    if same_text(e, "rs") {
        "Rust".to_owned()
    } else if same_text(e, "py") {
        "Python".to_owned()
    } else if same_text(e, "ts") || same_text(e, "tsx") {
        "TypeScript".to_owned()
    } else if same_text(e, "js") || same_text(e, "jsx") {
        "JavaScript".to_owned()
    } else if same_text(e, "md") {
        "Markdown".to_owned()
    } else if same_text(e, "toml") {
        "TOML".to_owned()
    } else if same_text(e, "json") {
        "JSON".to_owned()
    } else if e.unicode_len() > 0 {
        e.to_owned()
    } else {
        "text".to_owned()
    }
}

/// Selection of files by extension and by substring of the path.
/// Exclusions win; an empty inclusion list admits everything.
#[derive(Debug)]
pub struct FilePattern {
    pub include_extensions: Vec<String>,
    pub exclude_extensions: Vec<String>,
    pub include_patterns: Vec<String>,
    pub exclude_patterns: Vec<String>,
}

/// Some entry of `v` equals `s`.
pub open spec fn any_equal(v: Seq<String>, s: Seq<char>) -> bool {
    exists|i: int| 0 <= i < v.len() && (#[trigger] v[i])@ == s
}

/// Some entry of `v` occurs in `s`.
pub open spec fn any_within(v: Seq<String>, s: Seq<char>) -> bool {
    exists|i: int| 0 <= i < v.len() && has_infix(s, (#[trigger] v[i])@)
}

/// Whether a pattern admits a path.
pub open spec fn pattern_admits(p: FilePattern, path: Seq<char>) -> bool {
    let ext = extension_of(path);
    &&& !any_equal(p.exclude_extensions@, ext)
    &&& !any_within(p.exclude_patterns@, path)
    &&& (p.include_extensions@.len() == 0 || any_equal(p.include_extensions@, ext))
    &&& (p.include_patterns@.len() == 0 || any_within(p.include_patterns@, path))
}

fn some_equal(v: &Vec<String>, s: &str) -> (r: bool)
    ensures
        r == any_equal(v@, s@),
{
    let mut i: usize = 0;
    while i < v.len()
        invariant
            i <= v@.len(),
            forall|j: int| 0 <= j < i ==> (#[trigger] v@[j])@ != s@,
        decreases v@.len() - i,
    {
        if same_text(v[i].as_str(), s) {
            return true;
        }
        i = i + 1;
    }
    false
}

fn some_within(v: &Vec<String>, s: &str) -> (r: bool)
    ensures
        r == any_within(v@, s@),
{
    let mut i: usize = 0;
    while i < v.len()
        invariant
            i <= v@.len(),
            forall|j: int| 0 <= j < i ==> !has_infix(s@, (#[trigger] v@[j])@),
        decreases v@.len() - i,
    {
        if contains_str(s, v[i].as_str()) {
            return true;
        }
        i = i + 1;
    }
    false
}

impl FilePattern {
    /// A pattern that admits every path.
    pub fn new() -> (r: FilePattern)
        ensures
            r.include_extensions@.len() == 0,
            r.exclude_extensions@.len() == 0,
            r.include_patterns@.len() == 0,
            r.exclude_patterns@.len() == 0,
    {
        FilePattern {
            include_extensions: Vec::new(),
            exclude_extensions: Vec::new(),
            include_patterns: Vec::new(),
            exclude_patterns: Vec::new(),
        }
    }

    /// Also admits files with this extension.
    pub fn include_extension(self, ext: &str) -> (r: FilePattern)
        ensures
            r.include_extensions@ == self.include_extensions@.push(r.include_extensions@.last()),
            r.include_extensions@.last()@ == ext@,
            r.exclude_extensions@ == self.exclude_extensions@,
            r.include_patterns@ == self.include_patterns@,
            r.exclude_patterns@ == self.exclude_patterns@,
    {
        let mut p = self;
        p.include_extensions.push(ext.to_owned());
        p
    }

    /// Refuses files with this extension.
    pub fn exclude_extension(self, ext: &str) -> (r: FilePattern)
        ensures
            r.exclude_extensions@ == self.exclude_extensions@.push(r.exclude_extensions@.last()),
            r.exclude_extensions@.last()@ == ext@,
            r.include_extensions@ == self.include_extensions@,
            r.include_patterns@ == self.include_patterns@,
            r.exclude_patterns@ == self.exclude_patterns@,
    {
        let mut p = self;
        p.exclude_extensions.push(ext.to_owned());
        p
    }

    /// Also admits paths that contain this text.
    pub fn include_pattern(self, pattern: &str) -> (r: FilePattern)
        ensures
            r.include_patterns@ == self.include_patterns@.push(r.include_patterns@.last()),
            r.include_patterns@.last()@ == pattern@,
            r.include_extensions@ == self.include_extensions@,
            r.exclude_extensions@ == self.exclude_extensions@,
            r.exclude_patterns@ == self.exclude_patterns@,
    {
        let mut p = self;
        p.include_patterns.push(pattern.to_owned());
        p
    }

    /// Refuses paths that contain this text.
    pub fn exclude_pattern(self, pattern: &str) -> (r: FilePattern)
        ensures
            r.exclude_patterns@ == self.exclude_patterns@.push(r.exclude_patterns@.last()),
            r.exclude_patterns@.last()@ == pattern@,
            r.include_extensions@ == self.include_extensions@,
            r.exclude_extensions@ == self.exclude_extensions@,
            r.include_patterns@ == self.include_patterns@,
    {
        let mut p = self;
        p.exclude_patterns.push(pattern.to_owned());
        p
    }

    /// Whether the pattern admits a path.
    pub fn matches(&self, path: &str) -> (r: bool)
        ensures
            r == pattern_admits(*self, path@),
    {
        let ext = path_extension(path);
        if some_equal(&self.exclude_extensions, ext.as_str()) {
            return false;
        }
        if some_within(&self.exclude_patterns, path) {
            return false;
        }
        if self.include_extensions.len() > 0 && !some_equal(&self.include_extensions, ext.as_str()) {
            return false;
        }
        if self.include_patterns.len() > 0 && !some_within(&self.include_patterns, path) {
            return false;
        }
        true
    }
}

/// Names that are always ignored when listing files.
pub open spec fn ignored_names() -> Seq<Seq<char>> {
    seq![
        "node_modules"@, ".git"@, "target"@, "dist"@, "build"@, ".DS_Store"@,
        "*.log"@, "*.tmp"@, ".env"@, ".env.local"@, "coverage"@, "__pycache__"@,
        ".pytest_cache"@, ".mypy_cache"@, "*.pyc"@, "*.pyo"@, ".vscode"@,
        ".idea"@, "*.swp"@, "*.swo"@, ".cache"@,
    ]
}

/// Whether one ignore entry applies to a path. An entry with a wildcard
/// matches as written at the start of the file name or anywhere in the path;
/// another one matches the whole file name or a whole directory component.
pub open spec fn ignore_entry_applies(pattern: Seq<char>, path: Seq<char>) -> bool {
    if pattern.contains('*') {
        has_prefix(file_name_of(path), pattern) || has_infix(path, pattern)
    } else {
        file_name_of(path) == pattern || has_infix(path, seq!['/'] + pattern + seq!['/'])
    }
}

/// Whether a path is skipped when listing files.
pub fn is_ignored_by_git(path: &str) -> (r: bool)
    ensures
        r == exists|i: int| 0 <= i < ignored_names().len() && ignore_entry_applies(#[trigger] ignored_names()[i], path@),
{
    let names: Vec<&str> = vec![
        "node_modules", ".git", "target", "dist", "build", ".DS_Store",
        "*.log", "*.tmp", ".env", ".env.local", "coverage", "__pycache__",
        ".pytest_cache", ".mypy_cache", "*.pyc", "*.pyo", ".vscode",
        ".idea", "*.swp", "*.swo", ".cache",
    ];
    assert(names@.len() == ignored_names().len());
    let fname = filename_only(path);
    let fcs = chars_of(fname.as_str());
    let mut i: usize = 0;
    while i < names.len()
        invariant
            names@.len() == ignored_names().len(),
            forall|j: int| 0 <= j < names@.len() ==> #[trigger] names@[j]@ == ignored_names()[j],
            fname@ == file_name_of(path@),
            fcs@ == fname@,
            i <= names@.len(),
            forall|j: int| 0 <= j < i ==> !ignore_entry_applies(#[trigger] ignored_names()[j], path@),
        decreases names@.len() - i,
    {
        let pat = names[i];
        assert(pat@ == ignored_names()[i as int]);
        let pcs = chars_of(pat);
        let star: [char; 1] = ['*'];
        let wild = crate::text::find_chars(pcs.as_slice(), star.as_slice(), 0).is_some();
        proof {
            assert(star@ =~= seq!['*']);
            lemma_has_char(pcs@, '*');
        }
        assert(wild == ignored_names()[i as int].contains('*'));
        let hit = if wild {
            starts_with_chars(fcs.as_slice(), pcs.as_slice()) || contains_str(path, pat)
        } else {
            let mut framed = "/".to_owned();
            framed.append(pat);
            framed.append("/");
            proof {
                reveal_strlit("/");
                assert(framed@ =~= seq!['/'] + pat@ + seq!['/']);
            }
            same_text(fname.as_str(), pat) || contains_str(path, framed.as_str())
        };
        assert(hit == ignore_entry_applies(ignored_names()[i as int], path@));
        if hit {
            return true;
        }
        i = i + 1;
    }
    false
}

proof fn lemma_has_char(s: Seq<char>, c: char)
    ensures
        crate::text::has_infix(s, seq![c]) <==> s.contains(c),
{
    if s.contains(c) {
        let k = choose|k: int| 0 <= k < s.len() && s[k] == c;
        assert(s.subrange(k, k + 1) =~= seq![c]);
        crate::text::lemma_find_from_reaches(s, seq![c], 0, k);
    }
    crate::text::lemma_find_from_bounds(s, seq![c], 0);
    if let Some(k) = crate::text::find_from(s, seq![c], 0) {
        assert(s.subrange(k, k + 1)[0] == c);
    }
}

} // verus!

verus! {

/// What a `START:END` line range reads as: exactly one colon, a number on
/// each side; or the message for what is wrong with it.
pub open spec fn line_range_of(s: Seq<char>) -> Result<(nat, nat), Seq<char>> {
    match find_from(s, seq![':'], 0) {
        Some(i) => if find_from(s, seq![':'], i + 1) is Some {
            Err("invalid --range, expected START:END"@)
        } else {
            match parse_unsigned(s.take(i)) {
                None => Err("invalid START"@),
                Some(a) => match parse_unsigned(s.skip(i + 1)) {
                    None => Err("invalid END"@),
                    Some(b) => if a == 0 || b < a {
                        Err("invalid range values"@)
                    } else {
                        Ok((a, b))
                    },
                },
            }
        },
        None => Err("invalid --range, expected START:END"@),
    }
}

/// Reads a `START:END` range of 1-based, inclusive line numbers.
pub fn parse_line_range(range: &str) -> (r: Result<(usize, usize), String>)
    ensures
        match line_range_of(range@) {
            Ok(p) => r == Ok::<(usize, usize), String>((p.0 as usize, p.1 as usize)),
            Err(m) => r matches Err(e) && e@ == m,
        },
{
    let c = chars_of(range);
    let n = c.len();
    let colon: [char; 1] = [':'];
    assert(colon@ =~= seq![':']);
    match find_chars(c.as_slice(), colon.as_slice(), 0) {
        None => Err("invalid --range, expected START:END".to_owned()),
        Some(i) => {
            proof {
                crate::text::lemma_find_from_bounds(c@, seq![':'], 0);
            }
            if find_chars(c.as_slice(), colon.as_slice(), i + 1).is_some() {
                return Err("invalid --range, expected START:END".to_owned());
            }
            let a = slice_chars(c.as_slice(), 0, i);
            let b = slice_chars(c.as_slice(), i + 1, n);
            assert(a@ =~= c@.take(i as int));
            assert(b@ =~= c@.skip(i + 1));
            match parse_usize(a.as_slice()) {
                None => Err("invalid START".to_owned()),
                Some(x) => match parse_usize(b.as_slice()) {
                    None => Err("invalid END".to_owned()),
                    Some(y) => if x == 0 || y < x {
                        Err("invalid range values".to_owned())
                    } else {
                        Ok((x, y))
                    },
                },
            }
        },
    }
}

/// Lines `start` to `end` (1-based, inclusive) of `ls`, each followed by a
/// line break.
pub open spec fn segment_of(ls: Seq<Seq<char>>, start: int, end: int) -> Seq<char>
    decreases ls.len(),
{
    if ls.len() == 0 {
        Seq::empty()
    } else {
        let n = ls.len() as int;
        segment_of(ls.drop_last(), start, end) + if start <= n && n <= end {
            ls.last() + seq!['\n']
        } else {
            Seq::empty()
        }
    }
}

/// The lines of a text from `start` to `end` (1-based, inclusive), each
/// followed by a line break.
pub fn read_segment(text: &str, start: usize, end: usize) -> (r: String)
    ensures
        r@ == segment_of(lines_of(text@), start as int, end as int),
{
    let ls = text_lines(text);
    let mut out = String::new();
    let mut i: usize = 0;
    while i < ls.len()
        invariant
            i <= ls@.len(),
            strings_view(ls@) == lines_of(text@),
            out@ == segment_of(strings_view(ls@).take(i as int), start as int, end as int),
        decreases ls@.len() - i,
    {
        proof {
            let t = strings_view(ls@).take(i + 1);
            assert(t.drop_last() =~= strings_view(ls@).take(i as int));
            assert(t.last() == ls@[i as int]@);
        }
        if start <= i + 1 && i + 1 <= end {
            let ghost before = out@;
            out.append(ls[i].as_str());
            out.append("\n");
            proof {
                reveal_strlit("\n");
                assert(out@ =~= before + (ls@[i as int]@ + seq!['\n']));
            }
        } else {
            proof {
                assert(out@ =~= out@ + Seq::<char>::empty());
            }
        }
        i = i + 1;
    }
    proof {
        assert(strings_view(ls@).take(ls@.len() as int) =~= strings_view(ls@));
    }
    out
}

} // verus!
