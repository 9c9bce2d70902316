use vstd::prelude::*;
use crate::text::{
    chars_of, contains_str, decimal, decimal_of, has_infix, has_prefix, lines_of, same_text,
    starts_with_chars, string_from_chars, strings_view, text_lines, trim, trim_chars, upper_of,
    uppercase, lower_of, lowercase, find_chars, find_from, lemma_find_from_bounds,
};
use crate::files::{file_name_of, filename_only};
use crate::models::texts;

verus! {

/// What role a file plays in a project.
#[derive(Debug, Clone, Copy, PartialEq, Eq, Structural)]
pub enum FileType {
    Source,
    Test,
    Config,
    Documentation,
    Build,
    Unknown,
}

/// How a dependency is brought in.
#[derive(Debug, Clone, Copy, PartialEq, Eq, Structural)]
pub enum DependencySource {
    Import,
    Require,
    Package,
    Include,
}

/// A dependency a file names.
#[derive(Debug)]
pub struct Dependency {
    pub name: String,
    pub version: Option<String>,
    pub source: DependencySource,
}

/// Kinds of exported items.
#[derive(Debug, Clone, Copy, PartialEq, Eq, Structural)]
pub enum ExportType {
    Function,
    Class,
    Variable,
    Default,
    Named,
}

/// An item a file exports.
#[derive(Debug)]
pub struct Export {
    pub name: String,
    pub export_type: ExportType,
    pub line: usize,
}

/// Visibility of a declaration.
#[derive(Debug, Clone, Copy, PartialEq, Eq, Structural)]
pub enum Visibility {
    Public,
    Private,
    Protected,
    Internal,
}

/// A function found in a file.
#[derive(Debug)]
pub struct Function {
    pub name: String,
    pub parameters: Vec<String>,
    pub return_type: Option<String>,
    pub line_start: usize,
    pub line_end: usize,
    pub is_async: bool,
    pub visibility: Visibility,
}

/// A field of a class.
#[derive(Debug)]
pub struct Property {
    pub name: String,
    pub property_type: Option<String>,
    pub line: usize,
    pub visibility: Visibility,
}

/// A class found in a file.
#[derive(Debug)]
pub struct Class {
    pub name: String,
    pub extends: Option<String>,
    pub implements: Vec<String>,
    pub line_start: usize,
    pub line_end: usize,
    pub methods: Vec<Function>,
    pub properties: Vec<Property>,
    pub visibility: Visibility,
}

/// Forms of import statements.
#[derive(Debug, Clone, Copy, PartialEq, Eq, Structural)]
pub enum ImportType {
    Default,
    Named,
    Star,
    Side,
}

/// An import statement found in a file.
#[derive(Debug)]
pub struct Import {
    pub module: String,
    pub items: Vec<String>,
    pub alias: Option<String>,
    pub line: usize,
    pub import_type: ImportType,
}

/// Kinds of work notes.
#[derive(Debug, Clone, Copy, PartialEq, Eq, Structural)]
pub enum TodoType {
    Todo,
    Fixme,
    Hack,
    Note,
    Bug,
}

/// A work note found in a file.
#[derive(Debug)]
pub struct Todo {
    pub content: String,
    pub line: usize,
    pub todo_type: TodoType,
    pub assigned: Option<String>,
}

/// Size and branching measures of a file.
#[derive(Debug, Clone, Copy, PartialEq, Eq, Structural)]
pub struct ComplexityMetrics {
    pub cyclomatic_complexity: usize,
    pub cognitive_complexity: usize,
    pub nesting_depth: usize,
    pub function_count: usize,
    pub class_count: usize,
}

/// What was learned about one file.
#[derive(Debug)]
pub struct FileAnalysis {
    pub file_path: String,
    pub file_type: FileType,
    pub language: String,
    pub lines_of_code: usize,
    pub dependencies: Vec<Dependency>,
    pub exports: Vec<Export>,
    pub functions: Vec<Function>,
    pub classes: Vec<Class>,
    pub imports: Vec<Import>,
    pub todos: Vec<Todo>,
    pub complexity: ComplexityMetrics,
}

/// The name of a file type as shown to the user.
pub open spec fn file_type_name(t: FileType) -> Seq<char> {
    match t {
        FileType::Source => "Source"@,
        FileType::Test => "Test"@,
        FileType::Config => "Config"@,
        FileType::Documentation => "Documentation"@,
        FileType::Build => "Build"@,
        FileType::Unknown => "Unknown"@,
    }
}

fn file_type_label(t: FileType) -> (r: &'static str)
    ensures
        r@ == file_type_name(t),
{
    match t {
        FileType::Source => "Source",
        FileType::Test => "Test",
        FileType::Config => "Config",
        FileType::Documentation => "Documentation",
        FileType::Build => "Build",
        FileType::Unknown => "Unknown",
    }
}

/// The multi-line summary of an analysis.
pub open spec fn summary_of(a: FileAnalysis) -> Seq<char> {
    "File: "@ + a.file_path@ + "\nLanguage: "@ + a.language@ + "\nType: "@ + file_type_name(
        a.file_type,
    ) + "\nLines: "@ + decimal_of(a.lines_of_code as nat) + "\nFunctions: "@ + decimal_of(
        a.functions@.len(),
    ) + "\nClasses: "@ + decimal_of(a.classes@.len()) + "\nImports: "@ + decimal_of(
        a.imports@.len(),
    ) + "\nTODOs: "@ + decimal_of(a.todos@.len()) + "\nComplexity: "@ + decimal_of(
        a.complexity.cyclomatic_complexity as nat,
    ) + " cyclomatic, "@ + decimal_of(a.complexity.cognitive_complexity as nat) + " cognitive"@
}

impl FileAnalysis {
    /// A readable multi-line summary.
    pub fn summary(&self) -> (r: String)
        ensures
            r@ == summary_of(*self),
    {
        let mut s = "File: ".to_owned();
        s.append(self.file_path.as_str());
        s.append("\nLanguage: ");
        s.append(self.language.as_str());
        s.append("\nType: ");
        s.append(file_type_label(self.file_type));
        s.append("\nLines: ");
        let n = decimal(self.lines_of_code as u64);
        s.append(n.as_str());
        s.append("\nFunctions: ");
        let n = decimal(self.functions.len() as u64);
        s.append(n.as_str());
        s.append("\nClasses: ");
        let n = decimal(self.classes.len() as u64);
        s.append(n.as_str());
        s.append("\nImports: ");
        let n = decimal(self.imports.len() as u64);
        s.append(n.as_str());
        s.append("\nTODOs: ");
        let n = decimal(self.todos.len() as u64);
        s.append(n.as_str());
        s.append("\nComplexity: ");
        let n = decimal(self.complexity.cyclomatic_complexity as u64);
        s.append(n.as_str());
        s.append(" cyclomatic, ");
        let n = decimal(self.complexity.cognitive_complexity as u64);
        s.append(n.as_str());
        s.append(" cognitive");
        proof {
            assert(s@ =~= summary_of(*self));
        }
        s
    }
}

/// A line counts as code when its trimmed text is not empty and does not
/// open with a comment marker.
pub open spec fn is_code_line(l: Seq<char>) -> bool {
    let t = trim(l);
    t.len() > 0 && !has_prefix(t, "//"@) && !has_prefix(t, "#"@)
}

/// Counts the lines of a text that hold code.
pub fn count_lines_of_code(content: &str) -> (r: usize)
    ensures
        r == lines_of(content@).filter(|l: Seq<char>| is_code_line(l)).len(),
{
    let ls = text_lines(content);
    let slashes = chars_of("//");
    let hash = chars_of("#");
    let mut n: usize = 0;
    let mut i: usize = 0;
    while i < ls.len()
        invariant
            i <= ls@.len(),
            slashes@ == "//"@,
            hash@ == "#"@,
            n == strings_view(ls@).take(i as int).filter(|l: Seq<char>| is_code_line(l)).len(),
            n <= i,
        decreases ls@.len() - i,
    {
        let cs = chars_of(ls[i].as_str());
        let t = trim_chars(cs.as_slice());
        let code = t.len() > 0 && !starts_with_chars(t.as_slice(), slashes.as_slice())
            && !starts_with_chars(t.as_slice(), hash.as_slice());
        proof {
            let tk = strings_view(ls@).take(i + 1);
            assert(tk.drop_last() =~= strings_view(ls@).take(i as int));
            assert(tk.last() == cs@);
            reveal(Seq::filter);
        }
        if code {
            n = n + 1;
        }
        i = i + 1;
    }
    proof {
        assert(strings_view(ls@).take(ls@.len() as int) =~= strings_view(ls@));
    }
    n
}

/// A line is a work note when its upper-cased text mentions TODO, FIXME or
/// "NOTE:", or starts with NOTE.
pub open spec fn is_note_line(l: Seq<char>) -> bool {
    let u = upper_of(l);
    has_infix(u, "TODO"@) || has_infix(u, "FIXME"@) || has_infix(u, "NOTE:"@) || has_prefix(
        u,
        "NOTE"@,
    )
}

/// The work notes among `ls`: 1-based line number and
/// trimmed text.
pub open spec fn notes(ls: Seq<Seq<char>>) -> Seq<(int, Seq<char>)>
    decreases ls.len(),
{
    if ls.len() == 0 {
        Seq::empty()
    } else if is_note_line(ls.last()) {
        notes(ls.drop_last()).push((ls.len() as int, trim(ls.last())))
    } else {
        notes(ls.drop_last())
    }
}

/// Finds the work notes of a text, with their 1-based line numbers.
pub fn scan_todos(text: &str) -> (r: Vec<(usize, String)>)
    ensures
        r@.map_values(|p: (usize, String)| (p.0 as int, p.1@)) == notes(lines_of(text@)),
{
    let ls = text_lines(text);
    let note = chars_of("NOTE");
    let mut out: Vec<(usize, String)> = Vec::new();
    let mut i: usize = 0;
    while i < ls.len()
        invariant
            i <= ls@.len(),
            note@ == "NOTE"@,
            out@.map_values(|p: (usize, String)| (p.0 as int, p.1@)) == notes(
                strings_view(ls@).take(i as int),
            ),
        decreases ls@.len() - i,
    {
        let u = uppercase(ls[i].as_str());
        let uc = chars_of(u.as_str());
        let hit = contains_str(u.as_str(), "TODO") || contains_str(u.as_str(), "FIXME")
            || contains_str(u.as_str(), "NOTE:") || starts_with_chars(uc.as_slice(), note.as_slice());
        proof {
            let tk = strings_view(ls@).take(i + 1);
            assert(tk.drop_last() =~= strings_view(ls@).take(i as int));
            assert(tk.last() == ls@[i as int]@);
        }
        if hit {
            let cs = chars_of(ls[i].as_str());
            let t = trim_chars(cs.as_slice());
            let ts = string_from_chars(t.as_slice());
            let ghost before = out@.map_values(|p: (usize, String)| (p.0 as int, p.1@));
            out.push((i + 1, ts));
            proof {
                assert(out@.map_values(|p: (usize, String)| (p.0 as int, p.1@)) =~= before.push(
                    ((i + 1) as int, trim(ls@[i as int]@)),
                ));
            }
        }
        i = i + 1;
    }
    proof {
        assert(strings_view(ls@).take(ls@.len() as int) =~= strings_view(ls@));
    }
    out
}

/// The language of a file by its extension alone; empty when the
/// extension is not a known one.
pub open spec fn language_by_extension(ext: Seq<char>) -> Seq<char> {
    if ext == "js"@ || ext == "jsx"@ || ext == "mjs"@ {
        "javascript"@
    } else if ext == "ts"@ || ext == "tsx"@ {
        "typescript"@
    } else if ext == "py"@ || ext == "pyw"@ {
        "python"@
    } else if ext == "rs"@ {
        "rust"@
    } else if ext == "java"@ {
        "java"@
    } else if ext == "cpp"@ || ext == "cc"@ || ext == "cxx"@ {
        "cpp"@
    } else if ext == "c"@ {
        "c"@
    } else if ext == "h"@ || ext == "hpp"@ {
        "c_header"@
    } else if ext == "go"@ {
        "go"@
    } else if ext == "php"@ {
        "php"@
    } else if ext == "rb"@ {
        "ruby"@
    } else if ext == "swift"@ {
        "swift"@
    } else if ext == "kt"@ {
        "kotlin"@
    } else if ext == "scala"@ {
        "scala"@
    } else if ext == "hs"@ {
        "haskell"@
    } else if ext == "ml"@ {
        "ocaml"@
    } else if ext == "sh"@ || ext == "bash"@ {
        "shell"@
    } else {
        Seq::empty()
    }
}

/// The language of a file: by its extension, else guessed from keywords
/// in its text.
pub open spec fn language_of(ext: Seq<char>, content: Seq<char>) -> Seq<char> {
    if language_by_extension(ext).len() > 0 {
        language_by_extension(ext)
    } else if has_infix(content, "#!/usr/bin/env python"@) || has_infix(content, "import "@) {
        "python"@
    } else if has_infix(content, "function "@) || has_infix(content, "const "@) || has_infix(
        content,
        "let "@,
    ) {
        "javascript"@
    } else if has_infix(content, "fn "@) || has_infix(content, "use "@) || has_infix(
        content,
        "pub "@,
    ) {
        "rust"@
    } else {
        "unknown"@
    }
}

fn language_from_extension(e: &str) -> (r: String)
    ensures
        r@ == language_by_extension(e@),
{
    if same_text(e, "js") || same_text(e, "jsx") || same_text(e, "mjs") {
        "javascript".to_owned()
    } else if same_text(e, "ts") || same_text(e, "tsx") {
        "typescript".to_owned()
    } else if same_text(e, "py") || same_text(e, "pyw") {
        "python".to_owned()
    } else if same_text(e, "rs") {
        "rust".to_owned()
    } else if same_text(e, "java") {
        "java".to_owned()
    } else if same_text(e, "cpp") || same_text(e, "cc") || same_text(e, "cxx") {
        "cpp".to_owned()
    } else if same_text(e, "c") {
        "c".to_owned()
    } else if same_text(e, "h") || same_text(e, "hpp") {
        "c_header".to_owned()
    } else if same_text(e, "go") {
        "go".to_owned()
    } else if same_text(e, "php") {
        "php".to_owned()
    } else if same_text(e, "rb") {
        "ruby".to_owned()
    } else if same_text(e, "swift") {
        "swift".to_owned()
    } else if same_text(e, "kt") {
        "kotlin".to_owned()
    } else if same_text(e, "scala") {
        "scala".to_owned()
    } else if same_text(e, "hs") {
        "haskell".to_owned()
    } else if same_text(e, "ml") {
        "ocaml".to_owned()
    } else if same_text(e, "sh") || same_text(e, "bash") {
        "shell".to_owned()
    } else {
        String::new()
    }
}

/// Names the language of a file from its extension, or from its text when
/// the extension says nothing.
pub fn detect_language(extension: &str, content: &str) -> (r: String)
    ensures
        r@ == language_of(extension@, content@),
{
    let known = language_from_extension(extension);
    if known.as_str().unicode_len() > 0 {
        known
    } else if contains_str(content, "#!/usr/bin/env python") || contains_str(content, "import ") {
        "python".to_owned()
    } else if contains_str(content, "function ") || contains_str(content, "const ") || contains_str(
        content,
        "let ",
    ) {
        "javascript".to_owned()
    } else if contains_str(content, "fn ") || contains_str(content, "use ") || contains_str(
        content,
        "pub ",
    ) {
        "rust".to_owned()
    } else {
        "unknown".to_owned()
    }
}


/// `s` ends with `p`.
pub open spec fn has_suffix(s: Seq<char>, p: Seq<char>) -> bool {
    p.len() <= s.len() && s.skip(s.len() - p.len()) == p
}

fn ends_with_str(s: &str, p: &str) -> (r: bool)
    ensures
        r == has_suffix(s@, p@),
{
    let sc = chars_of(s);
    let pc = chars_of(p);
    if pc.len() > sc.len() {
        return false;
    }
    let r = crate::text::occurs_at_exec(sc.as_slice(), pc.as_slice(), sc.len() - pc.len());
    proof {
        assert(sc@.skip(sc@.len() - pc@.len()) =~= sc@.subrange(sc@.len() - pc@.len(), sc@.len() as int));
    }
    r
}

/// The role of a file, from its lower-cased name, its path and its text.
pub open spec fn file_type_of(path: Seq<char>, content: Seq<char>) -> FileType {
    let f = lower_of(file_name_of(path));
    if has_infix(f, "test"@) || has_infix(f, "spec"@) || has_infix(path, "/test/"@) {
        FileType::Test
    } else if has_suffix(f, ".md"@) || has_suffix(f, ".txt"@) || has_suffix(f, ".doc"@) {
        FileType::Documentation
    } else if has_infix(f, "config"@) || has_infix(f, "setting"@) || has_suffix(f, ".json"@)
        || has_suffix(f, ".yaml"@) || has_suffix(f, ".toml"@) {
        FileType::Config
    } else if has_infix(f, "build"@) || has_infix(f, "make"@) || has_infix(f, "cmake"@) || has_infix(
        f,
        "package"@,
    ) || has_infix(f, "cargo"@) {
        FileType::Build
    } else if content.len() > 0 && (has_infix(content, "function"@) || has_infix(content, "class"@)
        || has_infix(content, "def "@)) {
        FileType::Source
    } else {
        FileType::Unknown
    }
}

/// Classifies a file by its name, path and text.
pub fn detect_file_type(path: &str, content: &str) -> (r: FileType)
    ensures
        r == file_type_of(path@, content@),
{
    let name = filename_only(path);
    let lf = lowercase(name.as_str());
    let f = lf.as_str();
    if contains_str(f, "test") || contains_str(f, "spec") || contains_str(path, "/test/") {
        FileType::Test
    } else if ends_with_str(f, ".md") || ends_with_str(f, ".txt") || ends_with_str(f, ".doc") {
        FileType::Documentation
    } else if contains_str(f, "config") || contains_str(f, "setting") || ends_with_str(f, ".json")
        || ends_with_str(f, ".yaml") || ends_with_str(f, ".toml") {
        FileType::Config
    } else if contains_str(f, "build") || contains_str(f, "make") || contains_str(f, "cmake")
        || contains_str(f, "package") || contains_str(f, "cargo") {
        FileType::Build
    } else if content.unicode_len() > 0 && (contains_str(content, "function") || contains_str(
        content,
        "class",
    ) || contains_str(content, "def ")) {
        FileType::Source
    } else {
        FileType::Unknown
    }
}

/// `e` is the entry of the last of the first `upto` analyses with its key.
pub open spec fn latest_entry(analyses: Seq<FileAnalysis>, upto: int, e: (String, Vec<String>)) -> bool {
    exists|x: int|
        0 <= x < upto && graph_key(analyses[x].file_path@) == e.0@ && texts(e.1@) == imported_modules(
            analyses[x].imports@,
        ) && forall|m: int| x < m < upto ==> graph_key(analyses[m].file_path@) != e.0@
}

/// The graph has an entry for `key`.
pub open spec fn has_entry(g: Seq<(String, Vec<String>)>, key: Seq<char>) -> bool {
    exists|i: int| 0 <= i < g.len() && g[i].0@ == key
}

/// The key of a file in the dependency graph: its file name, or
/// "unknown" when its path has none.
pub open spec fn graph_key(path: Seq<char>) -> Seq<char> {
    if file_name_of(path).len() == 0 {
        "unknown"@
    } else {
        file_name_of(path)
    }
}

/// The modules named by a file's imports, in order.
pub open spec fn imported_modules(imps: Seq<Import>) -> Seq<Seq<char>> {
    imps.map_values(|i: Import| i.module@)
}

fn graph_name(path: &str) -> (r: String)
    ensures
        r@ == graph_key(path@),
{
    let n = filename_only(path);
    if n.as_str().unicode_len() == 0 {
        "unknown".to_owned()
    } else {
        n
    }
}

fn modules_of(imps: &Vec<Import>) -> (r: Vec<String>)
    ensures
        texts(r@) == imported_modules(imps@),
{
    let mut out: Vec<String> = Vec::new();
    let mut i: usize = 0;
    while i < imps.len()
        invariant
            i <= imps@.len(),
            out@.len() == i,
            forall|j: int| 0 <= j < i ==> #[trigger] out@[j]@ == imps@[j].module@,
        decreases imps@.len() - i,
    {
        out.push(imps[i].module.clone());
        i = i + 1;
    }
    proof {
        assert(texts(out@) =~= imported_modules(imps@));
    }
    out
}

/// What the graph built from the first `k` analyses holds: distinct keys,
/// one entry for each analysed file's key, each from the last analysis
/// with that key.
pub open spec fn graph_inv(analyses: Seq<FileAnalysis>, k: int, g: Seq<(String, Vec<String>)>) -> bool {
    &&& g.len() <= k
    &&& forall|i: int, j: int| 0 <= i < j < g.len() ==> g[i].0@ != g[j].0@
    &&& forall|x: int| 0 <= x < k ==> has_entry(g, graph_key(#[trigger] analyses[x].file_path@))
    &&& forall|i: int| 0 <= i < g.len() ==> latest_entry(analyses, k, #[trigger] g[i])
}

proof fn lemma_graph_replace(
    analyses: Seq<FileAnalysis>,
    k: int,
    g0: Seq<(String, Vec<String>)>,
    i: int,
    e: (String, Vec<String>),
)
    requires
        0 <= k < analyses.len(),
        graph_inv(analyses, k, g0),
        0 <= i < g0.len(),
        g0[i].0@ == e.0@,
        e.0@ == graph_key(analyses[k].file_path@),
        texts(e.1@) == imported_modules(analyses[k].imports@),
    ensures
        graph_inv(analyses, k + 1, g0.update(i, e)),
{
    let g = g0.update(i, e);
    assert forall|a: int, b: int| 0 <= a < b < g.len() implies g[a].0@ != g[b].0@ by {
        if a != i && b != i {
            assert(g[a] == g0[a] && g[b] == g0[b]);
        } else if a == i {
            assert(g[b] == g0[b]);
        } else {
            assert(g[a] == g0[a]);
        }
    }
    assert forall|x: int| 0 <= x < k + 1 implies has_entry(g, graph_key(#[trigger] analyses[x].file_path@)) by {
        if x < k {
            assert(has_entry(g0, graph_key(analyses[x].file_path@)));
            let j = choose|j: int| 0 <= j < g0.len() && g0[j].0@ == graph_key(analyses[x].file_path@);
            if j == i {
                assert(g[j].0@ == graph_key(analyses[x].file_path@));
            } else {
                assert(g[j] == g0[j]);
            }
        } else {
            assert(g[i].0@ == graph_key(analyses[x].file_path@));
        }
    }
    assert forall|j: int| 0 <= j < g.len() implies latest_entry(analyses, k + 1, #[trigger] g[j]) by {
        if j == i {
            assert(graph_key(analyses[k].file_path@) == g[j].0@);
        } else {
            assert(g[j] == g0[j]);
            assert(g0[j].0@ != e.0@);
            assert(latest_entry(analyses, k, g0[j]));
            let x = choose|x: int| 0 <= x < k && graph_key(analyses[x].file_path@) == g0[j].0@
                && texts(g0[j].1@) == imported_modules(analyses[x].imports@)
                && forall|m: int| x < m < k ==> graph_key(analyses[m].file_path@) != g0[j].0@;
            assert(graph_key(analyses[x].file_path@) == g[j].0@);
        }
    }
}

proof fn lemma_graph_push(
    analyses: Seq<FileAnalysis>,
    k: int,
    g0: Seq<(String, Vec<String>)>,
    e: (String, Vec<String>),
)
    requires
        0 <= k < analyses.len(),
        graph_inv(analyses, k, g0),
        forall|j: int| 0 <= j < g0.len() ==> g0[j].0@ != e.0@,
        e.0@ == graph_key(analyses[k].file_path@),
        texts(e.1@) == imported_modules(analyses[k].imports@),
    ensures
        graph_inv(analyses, k + 1, g0.push(e)),
{
    let g = g0.push(e);
    assert forall|a: int, b: int| 0 <= a < b < g.len() implies g[a].0@ != g[b].0@ by {
        assert(g[a] == g0[a]);
    }
    assert forall|x: int| 0 <= x < k + 1 implies has_entry(g, graph_key(#[trigger] analyses[x].file_path@)) by {
        if x < k {
            assert(has_entry(g0, graph_key(analyses[x].file_path@)));
            let j = choose|j: int| 0 <= j < g0.len() && g0[j].0@ == graph_key(analyses[x].file_path@);
            assert(g[j] == g0[j]);
        } else {
            assert(g[g0.len() as int].0@ == graph_key(analyses[x].file_path@));
        }
    }
    assert forall|j: int| 0 <= j < g.len() implies latest_entry(analyses, k + 1, #[trigger] g[j]) by {
        if j == g0.len() {
            assert(graph_key(analyses[k].file_path@) == g[j].0@);
        } else {
            assert(g[j] == g0[j]);
            assert(latest_entry(analyses, k, g0[j]));
            let x = choose|x: int| 0 <= x < k && graph_key(analyses[x].file_path@) == g0[j].0@
                && texts(g0[j].1@) == imported_modules(analyses[x].imports@)
                && forall|m: int| x < m < k ==> graph_key(analyses[m].file_path@) != g0[j].0@;
            assert(graph_key(analyses[x].file_path@) == g[j].0@);
        }
    }
}

/// The dependency graph of analysed files: for each file name (or
/// "unknown" when a path has none), the modules it imports; a later
/// analysis of a file with the same name replaces an earlier one.
pub fn generate_dependency_graph(analyses: &[FileAnalysis]) -> (r: Vec<(String, Vec<String>)>)
    ensures
        graph_inv(analyses@, analyses@.len() as int, r@),
{
    let mut graph: Vec<(String, Vec<String>)> = Vec::new();
    let mut k: usize = 0;
    while k < analyses.len()
        invariant
            k <= analyses@.len(),
            graph_inv(analyses@, k as int, graph@),
        decreases analyses@.len() - k,
    {
        let key = graph_name(analyses[k].file_path.as_str());
        let deps = modules_of(&analyses[k].imports);
        let ghost g0 = graph@;
        let mut i: usize = 0;
        while i < graph.len() && !same_text(graph[i].0.as_str(), key.as_str())
            invariant
                graph@ == g0,
                i <= graph@.len(),
                forall|j: int| 0 <= j < i ==> graph@[j].0@ != key@,
            decreases graph@.len() - i,
        {
            i = i + 1;
        }
        let ghost e = (key, deps);
        if i < graph.len() {
            proof {
                lemma_graph_replace(analyses@, k as int, g0, i as int, e);
            }
            graph.set(i, (key, deps));
        } else {
            proof {
                lemma_graph_push(analyses@, k as int, g0, e);
            }
            graph.push((key, deps));
        }
        k = k + 1;
    }
    graph
}


/// The number of non-overlapping occurrences of a non-empty `p` in `s`
/// from index `from` on, found left to right.
pub open spec fn match_count(s: Seq<char>, p: Seq<char>, from: int) -> nat
    decreases s.len() + 1 - from,
{
    if p.len() == 0 || from < 0 || from > s.len() {
        0
    } else {
        match find_from(s, p, from) {
            Some(i) => if from <= i && i + p.len() <= s.len() {
                1 + match_count(s, p, i + p.len())
            } else {
                0
            },
            None => 0,
        }
    }
}

/// Words whose occurrences count as decision points.
pub open spec fn decision_keywords() -> Seq<Seq<char>> {
    seq!["if"@, "else"@, "while"@, "for"@, "switch"@, "case"@, "catch"@, "&&"@, "||"@, "?"@]
}

/// The sum of the occurrence counts of the first `k` keywords.
pub open spec fn keyword_total(s: Seq<char>, k: int) -> nat
    decreases k,
{
    if k <= 0 {
        0
    } else {
        keyword_total(s, k - 1) + match_count(s, decision_keywords()[k - 1], 0)
    }
}

pub fn count_matches(s: &[char], p: &[char]) -> (r: usize)
    requires
        p@.len() > 0,
    ensures
        r == match_count(s@, p@, 0),
{
    let mut n: usize = 0;
    let mut from: usize = 0;
    let slen = s.len();
    let mut done = false;
    while !done
        invariant
            slen == s@.len(),
            p@.len() > 0,
            from <= slen,
            n <= from,
            n + match_count(s@, p@, from as int) == match_count(s@, p@, 0),
            done ==> match_count(s@, p@, from as int) == 0,
        decreases slen + 1 - from + if done { 0int } else { 1int },
    {
        match find_chars(s, p, from) {
            Some(i) => {
                proof {
                    lemma_find_from_bounds(s@, p@, from as int);
                }
                n = n + 1;
                from = i + p.len();
            },
            None => {
                done = true;
            },
        }
    }
    n
}

/// Cyclomatic complexity estimated from keyword counts: one plus the
/// number of decision keywords in the text, capped at `usize::MAX`.
pub fn calculate_cyclomatic_complexity(content: &str) -> (r: usize)
    ensures
        r as int == if 1 + keyword_total(content@, 10) > usize::MAX {
            usize::MAX as int
        } else {
            1 + keyword_total(content@, 10) as int
        },
{
    let c = chars_of(content);
    let words: Vec<&str> = vec!["if", "else", "while", "for", "switch", "case", "catch", "&&", "||", "?"];
    assert(words@.len() == 10);
    let mut total: usize = 1;
    let mut k: usize = 0;
    let mut capped = false;
    while k < words.len()
        invariant
            c@ == content@,
            words@.len() == 10,
            forall|j: int| 0 <= j < 10 ==> #[trigger] words@[j]@ == decision_keywords()[j],
            k <= 10,
            !capped ==> total == 1 + keyword_total(content@, k as int),
            capped ==> total == usize::MAX && 1 + keyword_total(content@, k as int) > usize::MAX,
        decreases 10 - k,
    {
        let w = chars_of(words[k]);
        proof {
            assert(w@ == decision_keywords()[k as int]);
            reveal_strlit("if");
            reveal_strlit("else");
            reveal_strlit("while");
            reveal_strlit("for");
            reveal_strlit("switch");
            reveal_strlit("case");
            reveal_strlit("catch");
            reveal_strlit("&&");
            reveal_strlit("||");
            reveal_strlit("?");
        }
        let m = count_matches(c.as_slice(), w.as_slice());
        if capped || m > usize::MAX - total {
            total = usize::MAX;
            capped = true;
        } else {
            total = total + m;
        }
        k = k + 1;
    }
    total
}

} // verus!
