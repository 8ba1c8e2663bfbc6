//! The import statements of source files.

use crate::path;
use crate::path::FilePath;
use crate::text::{lemmas, model, ops};
use vstd::prelude::*;
use vstd::slice::slice_subrange;
use vstd::string::*;

verus! {

/// A programming language.
#[derive(Debug, Clone, Copy, PartialEq, Eq, Hash, Structural)]
pub enum Language {
    Rust,
    TypeScript,
    JavaScript,
    Python,
    Go,
    Java,
    C,
    Cpp,
    Unknown,
}

/// The language of a file, by the extension of its name.
pub open spec fn language_of(file_path: Seq<char>) -> Language {
    match path::extension(file_path) {
        Some(e) => if e == "rs"@ {
            Language::Rust
        } else if e == "ts"@ || e == "tsx"@ {
            Language::TypeScript
        } else if e == "js"@ || e == "jsx"@ {
            Language::JavaScript
        } else if e == "py"@ {
            Language::Python
        } else if e == "go"@ {
            Language::Go
        } else if e == "java"@ {
            Language::Java
        } else if e == "c"@ || e == "h"@ {
            Language::C
        } else if e == "cpp"@ || e == "cc"@ || e == "hpp"@ {
            Language::Cpp
        } else {
            Language::Unknown
        },
        None => Language::Unknown,
    }
}

/// The language of a file, by the extension of its name.
pub fn detect_language(path: &FilePath) -> (r: Language)
    ensures
        r == language_of(path@),
{
    match path.extension() {
        Some(ext) => {
            let e = ops::chars_of(ext.as_str());
            let s = e.as_slice();
            if ops::is_text(s, "rs") {
                Language::Rust
            } else if ops::is_text(s, "ts") || ops::is_text(s, "tsx") {
                Language::TypeScript
            } else if ops::is_text(s, "js") || ops::is_text(s, "jsx") {
                Language::JavaScript
            } else if ops::is_text(s, "py") {
                Language::Python
            } else if ops::is_text(s, "go") {
                Language::Go
            } else if ops::is_text(s, "java") {
                Language::Java
            } else if ops::is_text(s, "c") || ops::is_text(s, "h") {
                Language::C
            } else if ops::is_text(s, "cpp") || ops::is_text(s, "cc") || ops::is_text(s, "hpp") {
                Language::Cpp
            } else {
                Language::Unknown
            }
        },
        None => Language::Unknown,
    }
}

/// One import.
#[derive(Debug)]
pub struct ImportInfo {
    /// The module that is imported from.
    pub module: String,
    /// The symbols that are imported; `None` stands for all.
    pub symbols: Option<Vec<String>>,
    /// Whether the module is given relative to the importing one.
    pub is_relative: bool,
}

/// What an import holds.
#[verifier::ext_equal]
pub struct ImportModel {
    pub module: Seq<char>,
    pub symbols: Option<Seq<Seq<char>>>,
    pub is_relative: bool,
}

impl View for ImportInfo {
    type V = ImportModel;

    open spec fn view(&self) -> ImportModel {
        ImportModel {
            module: self.module@,
            symbols: match self.symbols {
                Some(v) => Some(model::texts(v@)),
                None => None,
            },
            is_relative: self.is_relative,
        }
    }
}

impl Clone for ImportInfo {
    fn clone(&self) -> (r: Self)
        ensures
            r@ == self@,
    {
        ImportInfo {
            module: self.module.clone(),
            symbols: match &self.symbols {
                Some(v) => Some(ops::clone_texts(v.as_slice())),
                None => None,
            },
            is_relative: self.is_relative,
        }
    }
}

/// The imports that a list holds.
pub open spec fn import_models(v: Seq<ImportInfo>) -> Seq<ImportModel> {
    v.map_values(|i: ImportInfo| i@)
}

/// The symbols of a comma-separated list; `None` where there are none, or where a
/// lone `*` stands for all.
pub open spec fn symbol_list(s: Seq<char>) -> Option<Seq<Seq<char>>> {
    let symbols = model::split(s, ","@).map_values(|p: Seq<char>| model::trim(p)).filter(
        |p: Seq<char>| p.len() > 0,
    );
    if symbols.len() == 0 || symbols == seq!["*"@] {
        None
    } else {
        Some(symbols)
    }
}

/// Whether a path of Rust starts at a place relative to the importing module.
pub open spec fn is_rust_anchor(p: Seq<char>) -> bool {
    p == "crate"@ || p == "super"@ || p == "self"@
}

/// What a `use` statement names, without the keyword and the semicolon.
pub open spec fn rust_use(line: Seq<char>) -> Seq<char> {
    model::trim(model::trim_end_any(model::trim_start_text(line, "use "@), ";"@))
}

/// The import that a line of Rust makes. Symbols in braces stand behind the path of
/// their module.
pub open spec fn rust_import(line: Seq<char>) -> Option<ImportModel> {
    let t = model::trim(line);
    let stmt = rust_use(t);
    if !model::starts_with(t, "use "@) || !model::contains(stmt, "::"@) {
        None
    } else {
        let parts = model::split(stmt, "::"@);
        let is_relative = is_rust_anchor(parts[0]);
        match model::find(stmt, "::{"@) {
            Some(i) if stmt.last() == '}' => Some(
                ImportModel {
                    module: stmt.take(i),
                    symbols: symbol_list(stmt.subrange(i + 3, stmt.len() - 1)),
                    is_relative: is_relative,
                },
            ),
            _ => Some(
                ImportModel {
                    module: model::join(parts.drop_last(), "::"@),
                    symbols: if parts.last() == "*"@ {
                        None
                    } else {
                        Some(seq![parts.last()])
                    },
                    is_relative: is_relative,
                },
            ),
        }
    }
}

/// The import that a line of TypeScript or JavaScript makes.
pub open spec fn js_import(line: Seq<char>) -> Option<ImportModel> {
    let t = model::trim(line);
    match model::find(t, " from "@) {
        Some(i) => if model::starts_with(t, "import "@) {
            let module = model::trim_end_any(
                model::trim_start_any(model::trim(t.skip(i + 6)), "'\""@),
                "'\";"@,
            );
            Some(
                ImportModel {
                    module: module,
                    symbols: None,
                    is_relative: model::starts_with(module, "."@),
                },
            )
        } else {
            None
        },
        None => None,
    }
}

/// A line of Python that names a module between `from` and `import`, with a
/// first character that is one byte long.
pub open spec fn py_line_ok(line: Seq<char>) -> bool {
    let t = model::trim(line);
    model::starts_with(t, "from "@) ==> (model::find(t, " import "@) matches Some(i) ==> i >= 5
        && model::width(t[5]) == 1)
}

/// The import that a line of Python makes.
pub open spec fn py_import(line: Seq<char>) -> Option<ImportModel> {
    let t = model::trim(line);
    if model::starts_with(t, "from "@) {
        match model::find(t, " import "@) {
            Some(i) => Some(
                ImportModel {
                    module: model::trim(t.subrange(5, i)),
                    symbols: symbol_list(t.skip(i + 8)),
                    is_relative: t[5] == '.',
                },
            ),
            None => None,
        }
    } else if model::starts_with(t, "import "@) {
        Some(
            ImportModel {
                module: model::trim_end_any(model::trim(t.skip(7)), ";"@),
                symbols: None,
                is_relative: false,
            },
        )
    } else {
        None
    }
}

/// The module that a line of Go imports, given the line without the keyword.
pub open spec fn go_module(line: Seq<char>) -> Seq<char> {
    model::trim(model::trim_end_any(model::trim_start_any(line, "\"`"@), "\"`"@))
}

/// One line of Go: the imports so far, and whether the lines stand in an import
/// block.
pub open spec fn go_step(st: (Seq<ImportModel>, bool), line: Seq<char>) -> (Seq<ImportModel>, bool) {
    let t = model::trim(line);
    let (imports, in_block) = st;
    if t == "import ("@ {
        (imports, true)
    } else if t == ")"@ {
        (imports, false)
    } else if in_block || model::starts_with(t, "import "@) {
        let module = go_module(
            if in_block {
                t
            } else {
                model::trim_start_text(t, "import "@)
            },
        );
        if module.len() > 0 {
            (
                imports.push(
                    ImportModel { module: module, symbols: None, is_relative: false },
                ),
                in_block,
            )
        } else {
            st
        }
    } else {
        st
    }
}

/// After the first `n` lines of Go.
pub open spec fn go_scan(lines: Seq<Seq<char>>, n: nat) -> (Seq<ImportModel>, bool)
    decreases n,
{
    if n == 0 {
        (Seq::empty(), false)
    } else {
        go_step(go_scan(lines, (n - 1) as nat), lines[n - 1])
    }
}

/// The import that a line makes, in a language in which each line stands for
/// itself.
pub open spec fn line_import(line: Seq<char>, language: Language) -> Option<ImportModel> {
    match language {
        Language::Rust => rust_import(line),
        Language::TypeScript | Language::JavaScript => js_import(line),
        Language::Python => py_import(line),
        _ => None,
    }
}

/// The imports that the first `n` lines make, in a language in which each line
/// stands for itself.
pub open spec fn line_imports(
    lines: Seq<Seq<char>>,
    language: Language,
    n: nat,
) -> Seq<ImportModel>
    decreases n,
{
    if n == 0 {
        Seq::empty()
    } else {
        let before = line_imports(lines, language, (n - 1) as nat);
        match line_import(lines[n - 1], language) {
            Some(i) => before.push(i),
            None => before,
        }
    }
}

/// The imports of a source text.
pub open spec fn imports_of(source: Seq<char>, language: Language) -> Seq<ImportModel> {
    let lines = model::lines(source);
    if language == Language::Go {
        go_scan(lines, lines.len()).0
    } else {
        line_imports(lines, language, lines.len())
    }
}

/// The source can be read for imports: in Python, every line is of the form
/// that can be read.
pub open spec fn readable(source: Seq<char>, language: Language) -> bool {
    language == Language::Python ==> forall|i: int|
        0 <= i < model::lines(source).len() ==> py_line_ok(#[trigger] model::lines(source)[i])
}

/// The symbols of a comma-separated list; `None` where there are none, or where a
/// lone `*` stands for all.
fn symbols_of(s: &[char]) -> (r: Option<Vec<String>>)
    ensures
        match r {
            Some(v) => symbol_list(s@) == Some(model::texts(v@)),
            None => symbol_list(s@) is None,
        },
{
    proof {
        reveal_strlit(",");
    }
    let pieces = ops::split(s, ",");
    let ghost texts = model::split(s@, ","@);
    let ghost trimmed = texts.map_values(|p: Seq<char>| model::trim(p));
    let ghost keep = |p: Seq<char>| p.len() > 0;
    let mut out: Vec<String> = Vec::new();
    let mut i: usize = 0;
    reveal(Seq::filter);
    assert(model::texts(out@) =~= Seq::empty());
    while i < pieces.len()
        invariant
            i <= pieces@.len(),
            texts == model::slices(pieces@),
            trimmed == texts.map_values(|p: Seq<char>| model::trim(p)),
            keep == (|p: Seq<char>| p.len() > 0),
            model::texts(out@) == trimmed.take(i as int).filter(keep),
        decreases pieces@.len() - i,
    {
        reveal(Seq::filter);
        let ghost before = out@;
        assert(trimmed.take(i + 1).drop_last() =~= trimmed.take(i as int));
        let one = ops::trim(pieces[i]);
        assert(one@ == trimmed[i as int]);
        if one.len() > 0 {
            let text = ops::string_of(one);
            out.push(text);
            assert(model::texts(out@) =~= model::texts(before).push(text@));
        }
        i = i + 1;
    }
    assert(trimmed.take(trimmed.len() as int) =~= trimmed);
    assert(model::texts(out@).len() == out@.len());
    if out.len() == 0 {
        None
    } else if out.len() == 1 && ops::same_text(out[0].as_str(), "*") {
        assert(model::texts(out@) =~= seq!["*"@]);
        None
    } else {
        assert(model::texts(out@)[0] == out@[0]@);
        Some(out)
    }
}

/// Whether a path of Rust starts at a place relative to the importing module.
fn is_anchor(p: &[char]) -> (r: bool)
    ensures
        r == is_rust_anchor(p@),
{
    ops::is_text(p, "crate") || ops::is_text(p, "super") || ops::is_text(p, "self")
}

/// The import that an optional value holds.
pub open spec fn opt_import(o: Option<ImportInfo>) -> Option<ImportModel> {
    match o {
        Some(i) => Some(i@),
        None => None,
    }
}

/// Reads import statements.
pub struct ImportParser;

impl ImportParser {
    /// The imports of a source text.
    pub fn parse(source: &str, language: Language) -> (r: Vec<ImportInfo>)
        requires
            readable(source@, language),
        ensures
            import_models(r@) == imports_of(source@, language),
    {
        let chars = ops::chars_of(source);
        let lines = ops::lines(chars.as_slice());
        match language {
            Language::Go => Self::parse_go(&lines),
            _ => Self::parse_lines(&lines, language),
        }
    }

    /// The imports of a text whose lines stand for themselves.
    fn parse_lines(lines: &Vec<&[char]>, language: Language) -> (r: Vec<ImportInfo>)
        requires
            language == Language::Python ==> forall|i: int|
                0 <= i < lines@.len() ==> py_line_ok((#[trigger] model::slices(lines@)[i])),
        ensures
            import_models(r@) == line_imports(model::slices(lines@), language, lines@.len()),
    {
        let ghost texts = model::slices(lines@);
        let mut imports: Vec<ImportInfo> = Vec::new();
        assert(import_models(imports@) =~= Seq::empty());
        let mut i: usize = 0;
        while i < lines.len()
            invariant
                i <= lines@.len(),
                texts == model::slices(lines@),
                language == Language::Python ==> forall|i: int|
                    0 <= i < lines@.len() ==> py_line_ok((#[trigger] texts[i])),
                import_models(imports@) == line_imports(texts, language, i as nat),
            decreases lines@.len() - i,
        {
            let ghost before = import_models(imports@);
            let line = lines[i];
            assert(texts[i as int] == line@);
            let found = match language {
                Language::Rust => Self::parse_rust(line),
                Language::TypeScript | Language::JavaScript => Self::parse_typescript(line),
                Language::Python => Self::parse_python(line),
                _ => None,
            };
            if let Some(import) = found {
                let ghost shown = import@;
                imports.push(import);
                assert(import_models(imports@) =~= before.push(shown));
            }
            i = i + 1;
        }
        imports
    }

    /// The import that a line of Rust makes.
    fn parse_rust(line: &[char]) -> (r: Option<ImportInfo>)
        ensures
            opt_import(r) == rust_import(line@),
    {
        proof {
            reveal_strlit("::");
            reveal_strlit("::{");
        }
        let t = ops::trim(line);
        if !ops::starts_with(t, "use ") {
            return None;
        }
        let stmt = ops::trim(ops::trim_end_any(ops::trim_start_text(t, "use "), ";"));
        if !ops::contains(stmt, "::") {
            return None;
        }
        let parts = ops::split(stmt, "::");
        let ghost texts = model::slices(parts@);
        assert(texts[0] == parts@[0]@);
        let is_relative = is_anchor(parts[0]);
        let n: usize = stmt.len();
        if let Some(i) = ops::find(stmt, "::{") {
            proof {
                lemmas::lemma_find_sound(stmt@, "::{"@, 0);
                assert(stmt@.subrange(i as int, i + 3)[2] == '{');
            }
            if stmt[n - 1] == '}' {
                return Some(
                    ImportInfo {
                        module: ops::string_of(ops::take(stmt, i)),
                        symbols: symbols_of(slice_subrange(stmt, i + 3, n - 1)),
                        is_relative: is_relative,
                    },
                );
            }
        }
        let last = parts[parts.len() - 1];
        let head = slice_subrange(parts.as_slice(), 0, parts.len() - 1);
        assert(model::slices(head@) =~= texts.drop_last());
        assert(texts.last() == last@);
        let symbols = if ops::is_text(last, "*") {
            None
        } else {
            let mut one: Vec<String> = Vec::new();
            one.push(ops::string_of(last));
            assert(model::texts(one@) =~= seq![texts.last()]);
            Some(one)
        };
        Some(ImportInfo { module: ops::join(head, "::"), symbols, is_relative: is_relative })
    }

    /// The import that a line of TypeScript or JavaScript makes.
    fn parse_typescript(line: &[char]) -> (r: Option<ImportInfo>)
        ensures
            opt_import(r) == js_import(line@),
    {
        proof {
            reveal_strlit(" from ");
        }
        let t = ops::trim(line);
        if !ops::starts_with(t, "import ") {
            return None;
        }
        match ops::find(t, " from ") {
            Some(i) => {
                assert(t@.len() == t.len());
                let after = ops::trim(ops::skip(t, i + 6));
                let module = ops::trim_end_any(ops::trim_start_any(after, "'\""), "'\";");
                Some(
                    ImportInfo {
                        module: ops::string_of(module),
                        symbols: None,
                        is_relative: ops::starts_with(module, "."),
                    },
                )
            },
            None => None,
        }
    }

    /// The import that a line of Python makes.
    fn parse_python(line: &[char]) -> (r: Option<ImportInfo>)
        requires
            py_line_ok(line@),
        ensures
            opt_import(r) == py_import(line@),
    {
        proof {
            reveal_strlit(" import ");
            reveal_strlit("import ");
        }
        let t = ops::trim(line);
        if ops::starts_with(t, "from ") {
            match ops::find(t, " import ") {
                Some(i) => {
                    assert(t@.len() == t.len());
                    let module = ops::trim(slice_subrange(t, 5, i));
                    Some(
                        ImportInfo {
                            module: ops::string_of(module),
                            symbols: symbols_of(ops::skip(t, i + 8)),
                            is_relative: t[5] == '.',
                        },
                    )
                },
                None => None,
            }
        } else if ops::starts_with(t, "import ") {
            let module = ops::trim_end_any(ops::trim(ops::skip(t, 7)), ";");
            Some(
                ImportInfo {
                    module: ops::string_of(module),
                    symbols: None,
                    is_relative: false,
                },
            )
        } else {
            None
        }
    }

    /// The imports of a Go source text.
    fn parse_go(lines: &Vec<&[char]>) -> (r: Vec<ImportInfo>)
        ensures
            import_models(r@) == go_scan(model::slices(lines@), lines@.len()).0,
    {
        let ghost texts = model::slices(lines@);
        let mut imports: Vec<ImportInfo> = Vec::new();
        let mut in_block = false;
        assert(import_models(imports@) =~= Seq::empty());
        let mut i: usize = 0;
        while i < lines.len()
            invariant
                i <= lines@.len(),
                texts == model::slices(lines@),
                (import_models(imports@), in_block) == go_scan(texts, i as nat),
            decreases lines@.len() - i,
        {
            let ghost before = import_models(imports@);
            assert(texts[i as int] == lines@[i as int]@);
            let t = ops::trim(lines[i]);
            if ops::is_text(t, "import (") {
                in_block = true;
            } else if ops::is_text(t, ")") {
                in_block = false;
            } else if in_block || ops::starts_with(t, "import ") {
                let named = if in_block {
                    t
                } else {
                    ops::trim_start_text(t, "import ")
                };
                let module = ops::trim(
                    ops::trim_end_any(ops::trim_start_any(named, "\"`"), "\"`"),
                );
                if module.len() > 0 {
                    let import = ImportInfo {
                        module: ops::string_of(module),
                        symbols: None,
                        is_relative: false,
                    };
                    let ghost shown = import@;
                    imports.push(import);
                    assert(import_models(imports@) =~= before.push(shown));
                }
            }
            i = i + 1;
        }
        imports
    }
}

/// A text with no white space in it, and something else.
pub open spec fn is_word(s: Seq<char>) -> bool {
    s.len() > 0 && forall|i: int| 0 <= i < s.len() ==> !model::is_white(#[trigger] s[i])
}

/// In a language in which each line stands for itself, the imports of a text are those
/// of its first line and then those of the rest.
pub proof fn law_imports_line_by_line(a: Seq<char>, b: Seq<char>, language: Language)
    requires
        language != Language::Go,
        !a.contains('\n'),
        a.len() > 0,
        a.last() != '\r',
    ensures
        imports_of(a + seq!['\n'] + b, language) == imports_of(a, language) + imports_of(
            b,
            language,
        ),
{
    lemmas::lemma_lines_first(a, b);
    lemmas::lemma_lines_single(a);
    let rest = model::lines(b);
    lemma_line_imports_cons(a, rest, language, rest.len());
    reveal_with_fuel(line_imports, 2);
}

proof fn lemma_line_imports_cons(a: Seq<char>, v: Seq<Seq<char>>, language: Language, n: nat)
    requires
        n <= v.len(),
    ensures
        line_imports(seq![a] + v, language, n + 1) == line_imports(seq![a], language, 1)
            + line_imports(v, language, n),
    decreases n,
{
    reveal_with_fuel(line_imports, 2);
    let w = seq![a] + v;
    if n == 0 {
        assert(line_imports(w, language, 1) =~= line_imports(seq![a], language, 1)
            + line_imports(v, language, 0));
    } else {
        lemma_line_imports_cons(a, v, language, (n - 1) as nat);
        assert(w[n as int] == v[n - 1]);
        assert(line_imports(w, language, n + 1) =~= line_imports(seq![a], language, 1)
            + line_imports(v, language, n));
    }
}

/// The imports of a text of one line are the line's.
proof fn lemma_single_line(line: Seq<char>, language: Language)
    requires
        line.len() > 0,
        !line.contains('\n'),
        language != Language::Go,
    ensures
        imports_of(line, language) == match line_import(line, language) {
            Some(i) => seq![i],
            None => Seq::empty(),
        },
{
    lemmas::lemma_lines_single(line);
    reveal_with_fuel(line_imports, 2);
    if let Some(i) = line_import(line, language) {
        assert(line_imports(seq![line], language, 1) =~= seq![i]);
    } else {
        assert(line_imports(seq![line], language, 1) =~= Seq::empty());
    }
}

/// A line of TypeScript or JavaScript that imports a clause from a quoted module makes
/// exactly one import: of that module, relative exactly where the module begins with a
/// dot. The word that stands before the module must not stand in the clause, nor across
/// its ends.
pub proof fn law_js_module_is_read(c: Seq<char>, m: Seq<char>, language: Language)
    requires
        language == Language::TypeScript || language == Language::JavaScript,
        !c.contains('\n'),
        !model::contains(" "@ + c + " from"@, " from "@),
        is_word(m),
        !m.contains('\'') && !m.contains('"') && !m.contains(';'),
    ensures
        ({
            let v = imports_of("import "@ + c + " from '"@ + m + "';"@, language);
            &&& v.len() == 1
            &&& v[0].module == m
            &&& v[0].is_relative == (m[0] == '.')
            &&& v[0].symbols is None
        }),
{
    reveal_strlit("import ");
    reveal_strlit(" from '");
    reveal_strlit(" from ");
    reveal_strlit(" from");
    reveal_strlit("';");
    reveal_strlit("'\"");
    reveal_strlit("'\";");
    reveal_strlit(" ");
    reveal_strlit(".");
    let line = "import "@ + c + " from '"@ + m + "';"@;
    let n = line.len() as int;
    let at = 7 + c.len() as int;
    let p = " from "@;
    assert(line[0] == 'i' && line[n - 1] == ';');
    lemmas::lemma_trim_nothing(line);
    assert(line.take(7) =~= "import "@);
    // The first place of the word is behind the clause.
    let near = " "@ + c + " from"@;
    assert forall|k: int| 0 <= k < at implies !model::occurs_at(line, p, k) by {
        if model::occurs_at(line, p, k) {
            assert(line.subrange(k, k + 6)[0] == line[k]);
            assert(line[k] == ' ');
            if k < 6 {
                assert(line[k] == "import "@[k]);
            }
            assert(near.subrange(k - 6, k) =~= line.subrange(k, k + 6));
            lemmas::lemma_found(near, p, 0, k - 6);
        }
    }
    assert(line.subrange(at, at + 6) =~= p);
    lemmas::lemma_find_first(line, p, at, 0);
    let after = line.skip(at + 6);
    assert(after =~= seq!['\''] + (m + "';"@));
    assert(after.last() == ';' && after[0] == '\'');
    lemmas::lemma_trim_nothing(after);
    let opening = "'\""@;
    assert(opening[0] == '\'' && opening[1] == '"');
    assert(!opening.contains(m[0])) by {
        assert(m.contains(m[0]));
    }
    assert((m + "';"@)[0] == m[0]);
    lemmas::lemma_trim_start_any_all(seq!['\''], m + "';"@, opening);
    let closing = "'\";"@;
    assert(closing[0] == '\'' && closing[1] == '"' && closing[2] == ';');
    assert(!closing.contains(m.last())) by {
        assert(m.contains(m.last()));
    }
    lemmas::lemma_trim_end_any_all(m, "';"@, closing);
    assert(!line.contains('\n')) by {
        if line.contains('\n') {
            let k = choose|k: int| 0 <= k < line.len() && line[k] == '\n';
            if 7 <= k < at {
                assert(c[k - 7] == '\n');
            } else if at + 7 <= k < at + 7 + m.len() {
                assert(m[k - at - 7] == '\n');
                assert(model::is_white(m[k - at - 7]));
            }
        }
    }
    lemma_single_line(line, language);
    assert(model::starts_with(m, "."@) == (m[0] == '.')) by {
        assert("."@ =~= seq!['.']);
        if m[0] == '.' {
            assert(m.take(1) =~= seq!['.']);
        } else {
            assert(m.take(1)[0] == m[0]);
        }
    }
}

/// A line without an import statement makes no import.
pub proof fn law_other_lines_import_nothing(line: Seq<char>)
    requires
        line.len() > 0,
        !line.contains('\n'),
        lemmas::is_trimmed(line),
    ensures
        !model::starts_with(line, "use "@) ==> imports_of(line, Language::Rust).len() == 0,
        !model::starts_with(line, "import "@) ==> imports_of(line, Language::TypeScript).len() == 0
            && imports_of(line, Language::JavaScript).len() == 0,
        !model::starts_with(line, "import "@) && !model::starts_with(line, "from "@)
            ==> imports_of(line, Language::Python).len() == 0,
{
    lemmas::lemma_trim_nothing(line);
    lemma_single_line(line, Language::Rust);
    lemma_single_line(line, Language::TypeScript);
    lemma_single_line(line, Language::JavaScript);
    lemma_single_line(line, Language::Python);
}

/// A symbol as it stands in a list.
pub open spec fn is_symbol(s: Seq<char>) -> bool {
    is_word(s) && !s.contains(',')
}

/// Symbols that are separated by commas and blanks are read one by one, in their order;
/// `*` alone stands for all.
pub proof fn law_symbols_are_read(v: Seq<Seq<char>>)
    requires
        v.len() > 0,
        forall|i: int| 0 <= i < v.len() ==> is_symbol(#[trigger] v[i]),
    ensures
        symbol_list(model::join(v, ", "@)) == if v == seq!["*"@] {
            None
        } else {
            Some(v)
        },
{
    reveal_strlit(", ");
    let s = model::join(v, ", "@);
    lemma_symbol_pieces(v, Seq::empty());
    assert(Seq::<char>::empty() + s =~= s);
    let keep = |p: Seq<char>| p.len() > 0;
    lemma_filter_all(v, keep);
}

proof fn lemma_filter_all(v: Seq<Seq<char>>, keep: spec_fn(Seq<char>) -> bool)
    requires
        forall|i: int| 0 <= i < v.len() ==> keep(#[trigger] v[i]),
    ensures
        v.filter(keep) == v,
    decreases v.len(),
{
    reveal(Seq::filter);
    if v.len() > 0 {
        let w = v.drop_last();
        assert forall|i: int| 0 <= i < w.len() implies keep(#[trigger] w[i]) by {
            assert(w[i] == v[i]);
        }
        lemma_filter_all(w, keep);
        assert(w.push(v.last()) =~= v);
    } else {
        assert(v.filter(keep) =~= v);
    }
}

proof fn lemma_symbol_pieces(v: Seq<Seq<char>>, lead: Seq<char>)
    requires
        v.len() > 0,
        lead.len() == 0 || lead == seq![' '],
        forall|i: int| 0 <= i < v.len() ==> is_symbol(#[trigger] v[i]),
    ensures
        model::split(lead + model::join(v, ", "@), ","@).map_values(|p: Seq<char>| model::trim(p))
            == v,
    decreases v.len(),
{
    reveal_strlit(", ");
    reveal_strlit(",");
    assert(","@ =~= seq![',']);
    assert(", "@ =~= seq![',', ' ']);
    let first = lead + v[0];
    assert(is_symbol(v[0]));
    assert(v[0].contains(v[0][0]));
    assert(!first.contains(',')) by {
        if first.contains(',') {
            let k = choose|k: int| 0 <= k < first.len() && first[k] == ',';
            if k >= lead.len() {
                assert(v[0][k - lead.len()] == ',');
            }
        }
    }
    assert(model::trim(first) == v[0]) by {
        lemmas::lemma_trim_nothing(v[0]);
        if lead.len() > 0 {
            assert(first.skip(1) =~= v[0]);
            reveal_with_fuel(model::trim_start, 2);
        } else {
            assert(first =~= v[0]);
        }
    }
    let f = |p: Seq<char>| model::trim(p);
    if v.len() == 1 {
        lemmas::lemma_split_single(first, ',');
        assert(seq![first].map_values(f) =~= v);
    } else {
        let rest = v.skip(1);
        assert(seq![v[0]] + rest =~= v);
        assert forall|i: int| 0 <= i < rest.len() implies is_symbol(#[trigger] rest[i]) by {
            assert(rest[i] == v[i + 1]);
        }
        lemmas::lemma_join_cons(v[0], rest, ", "@);
        let tail = seq![' '] + model::join(rest, ", "@);
        assert(lead + model::join(v, ", "@) =~= first + seq![','] + tail);
        lemmas::lemma_split_first(first, ',', tail);
        lemma_symbol_pieces(rest, seq![' ']);
        let pieces = model::split(tail, ","@);
        assert((seq![first] + pieces).map_values(f) =~= seq![v[0]] + pieces.map_values(f));
    }
}

/// The first place of a mark of a path, given a text without it before it.
proof fn lemma_path_end(m: Seq<char>, p: Seq<char>, tail: Seq<char>)
    requires
        m.len() == 0 || m.last() != ':',
        2 <= p.len() <= 3,
        p[0] == ':',
        p[1] == ':',
        model::find(m, p) is None,
    ensures
        model::find(m + p + tail, p) == Some(m.len() as int),
{
    let s = m + p + tail;
    let a = m.len() as int;
    assert forall|k: int| 0 <= k < a implies !model::occurs_at(s, p, k) by {
        if model::occurs_at(s, p, k) {
            let found = s.subrange(k, k + p.len());
            assert(found[0] == s[k] && found[1] == s[k + 1]);
            if k + p.len() <= a {
                assert(m.subrange(k, k + p.len()) =~= found);
                lemmas::lemma_found(m, p, 0, k);
            } else if k == a - 1 {
                assert(s[k] == m.last());
            } else {
                assert(s[k + 1] == m.last());
            }
        }
    }
    assert(s.subrange(a, a + p.len()) =~= p);
    lemmas::lemma_find_first(s, p, a, 0);
}

/// The pieces of a path: its first piece does not depend on what follows the path, and
/// one more piece at its end is its last.
proof fn lemma_path_pieces(m: Seq<char>, tail: Seq<char>)
    requires
        m.len() > 0,
        m.last() != ':',
    ensures
        model::split(m + "::"@ + tail, "::"@).len() > 0,
        model::split(m, "::"@).len() > 0,
        model::split(m + "::"@ + tail, "::"@)[0] == model::split(m, "::"@)[0],
        !tail.contains(':') ==> model::split(m + "::"@ + tail, "::"@) == model::split(
            m,
            "::"@,
        ).push(tail),
    decreases m.len(),
{
    reveal_strlit("::");
    let p = "::"@;
    let s = m + p + tail;
    lemmas::lemma_find_sound(m, p, 0);
    match model::find(m, p) {
        Some(i) => {
            assert forall|k: int| 0 <= k < i implies !model::occurs_at(s, p, k) by {
                if model::occurs_at(s, p, k) {
                    assert(m.subrange(k, k + 2) =~= s.subrange(k, k + 2));
                    lemmas::lemma_find_is_first(m, p, 0, k);
                }
            }
            assert(s.subrange(i, i + 2) =~= m.subrange(i, i + 2));
            lemmas::lemma_find_first(s, p, i, 0);
            let rest = m.skip(i + 2);
            assert(m.subrange(i, i + 2)[1] == m[i + 1]);
            assert(p[1] == ':');
            assert(rest.last() == m.last());
            lemma_path_pieces(rest, tail);
            assert(s.skip(i + 2) =~= rest + p + tail);
            assert(s.take(i) =~= m.take(i));
            if !tail.contains(':') {
                assert(model::split(s.skip(i + 2), p) == model::split(rest, p).push(tail));
                assert(seq![m.take(i)] + model::split(rest, p).push(tail) =~= (seq![m.take(i)]
                    + model::split(rest, p)).push(tail));
            }
        },
        None => {
            lemma_path_end(m, p, tail);
            assert(s.take(m.len() as int) =~= m);
            assert(s.skip(m.len() as int + 2) =~= tail);
            if !tail.contains(':') {
                assert forall|k: int| 0 <= k implies !model::occurs_at(tail, p, k) by {
                    if model::occurs_at(tail, p, k) {
                        assert(tail.subrange(k, k + 2)[0] == tail[k]);
                    }
                }
                lemmas::lemma_find_nowhere(tail, p, 0);
                assert(model::split(tail, p) == seq![tail]);
                assert(seq![m] + seq![tail] =~= seq![m].push(tail));
            }
        },
    }
}

/// A path that starts at the importing module: it is an anchor, or begins with one.
pub open spec fn is_anchored(m: Seq<char>) -> bool {
    ||| m == "crate"@ || model::starts_with(m, "crate::"@)
    ||| m == "super"@ || model::starts_with(m, "super::"@)
    ||| m == "self"@ || model::starts_with(m, "self::"@)
}

/// The first piece of a path is a word exactly where the path is the word or begins
/// with it and two colons.
proof fn lemma_first_piece(m: Seq<char>, word: Seq<char>, mark: Seq<char>)
    requires
        !word.contains(':'),
        mark == word + "::"@,
    ensures
        model::split(m, "::"@)[0] == word <==> m == word || model::starts_with(m, mark),
{
    reveal_strlit("::");
    let p = "::"@;
    lemmas::lemma_find_sound(m, p, 0);
    if model::starts_with(m, mark) {
        let n = word.len() as int;
        assert forall|k: int| 0 <= k < n implies !model::occurs_at(m, p, k) by {
            if model::occurs_at(m, p, k) {
                assert(m.subrange(k, k + 2)[0] == m.take(n + 2)[k]);
                assert(mark[k] == word[k]);
            }
        }
        assert(m.subrange(n, n + 2) =~= m.take(n + 2).skip(n));
        assert(mark.skip(n) =~= p);
        lemmas::lemma_find_first(m, p, n, 0);
        assert(m.take(n) =~= m.take(n + 2).take(n));
        assert(mark.take(n) =~= word);
    } else if m == word {
        assert forall|k: int| 0 <= k implies !model::occurs_at(m, p, k) by {
            if model::occurs_at(m, p, k) {
                assert(m.subrange(k, k + 2)[0] == m[k]);
            }
        }
        lemmas::lemma_find_nowhere(m, p, 0);
    } else {
        match model::find(m, p) {
            Some(i) => {
                if m.take(i) == word {
                    assert(m.take(i + 2) =~= word + p) by {
                        assert(m.take(i + 2) =~= m.take(i) + m.subrange(i, i + 2));
                    }
                }
            },
            None => {},
        }
    }
}

proof fn lemma_anchored(m: Seq<char>)
    ensures
        is_rust_anchor(model::split(m, "::"@)[0]) == is_anchored(m),
{
    reveal_strlit("::");
    reveal_strlit("crate");
    reveal_strlit("super");
    reveal_strlit("self");
    reveal_strlit("crate::");
    reveal_strlit("super::");
    reveal_strlit("self::");
    assert("crate::"@ =~= "crate"@ + "::"@);
    assert("super::"@ =~= "super"@ + "::"@);
    assert("self::"@ =~= "self"@ + "::"@);
    lemma_first_piece(m, "crate"@, "crate::"@);
    lemma_first_piece(m, "super"@, "super::"@);
    lemma_first_piece(m, "self"@, "self::"@);
}

/// What a `use` statement names.
proof fn lemma_use_line(m: Seq<char>, tail: Seq<char>)
    requires
        is_word(m),
        tail.len() > 2,
        tail[0] == ':',
        tail[1] == ':',
        !model::is_white(tail.last()),
        tail.last() != ';',
        !tail.contains('\n'),
    ensures
        ({
            let line = "use "@ + (m + tail) + ";"@;
            &&& model::trim(line) == line
            &&& model::starts_with(line, "use "@)
            &&& rust_use(line) == m + tail
            &&& line.len() > 0
            &&& !line.contains('\n')
        }),
{
    reveal_strlit("use ");
    reveal_strlit(";");
    let stmt = m + tail;
    let line = "use "@ + stmt + ";"@;
    assert(line[0] == 'u' && line.last() == ';');
    lemmas::lemma_trim_nothing(line);
    assert(line.take(4) =~= "use "@);
    let rest = line.skip(4);
    assert(rest =~= stmt + ";"@);
    assert(!model::starts_with(rest, "use "@)) by {
        if model::starts_with(rest, "use "@) {
            assert(rest.take(4)[3] == rest[3] && rest.take(4)[1] == rest[1]);
            assert("use "@[3] == ' ' && "use "@[1] == 's');
            if m.len() == 1 {
                assert(rest[1] == tail[0]);
            } else if m.len() > 3 {
                assert(rest[3] == m[3]);
            } else {
                assert(rest[3] == tail[3 - m.len()]);
            }
        }
    }
    reveal_with_fuel(model::trim_start_text, 2);
    assert(!";"@.contains(stmt.last()));
    lemmas::lemma_trim_end_any_all(stmt, ";"@, ";"@);
    assert(stmt[0] == m[0] && stmt.last() == tail.last());
    lemmas::lemma_trim_nothing(stmt);
    assert(!line.contains('\n')) by {
        if line.contains('\n') {
            let k = choose|k: int| 0 <= k < line.len() && line[k] == '\n';
            if 4 <= k < 4 + m.len() {
                assert(m[k - 4] == '\n');
                assert(model::is_white(m[k - 4]));
            } else if 4 + m.len() <= k < 4 + stmt.len() {
                assert(tail[k - 4 - m.len()] == '\n');
            }
        }
    }
}

/// A line of Rust that uses one symbol of a path makes exactly one import: of the path
/// without the symbol, and of that symbol, or of all where `*` stands for it. It is
/// relative exactly where the path is anchored.
pub proof fn law_rust_path_is_read(m: Seq<char>, s: Seq<char>)
    requires
        is_word(m),
        m.last() != ':',
        is_word(s),
        !s.contains(':') && !s.contains(';') && !s.contains('}'),
    ensures
        ({
            let v = imports_of("use "@ + (m + ("::"@ + s)) + ";"@, Language::Rust);
            &&& v.len() == 1
            &&& v[0].module == m
            &&& v[0].symbols == if s == "*"@ {
                None
            } else {
                Some(seq![s])
            }
            &&& v[0].is_relative == is_anchored(m)
        }),
{
    reveal_strlit("::");
    reveal_strlit("::{");
    let tail = "::"@ + s;
    assert(tail[0] == ':' && tail[1] == ':' && tail.last() == s.last());
    assert(s.contains(s.last()));
    assert(!tail.contains('\n')) by {
        if tail.contains('\n') {
            let k = choose|k: int| 0 <= k < tail.len() && tail[k] == '\n';
            if k >= 2 {
                assert(s[k - 2] == '\n');
                assert(model::is_white(s[k - 2]));
            }
        }
    }
    lemma_use_line(m, tail);
    let line = "use "@ + (m + tail) + ";"@;
    let stmt = m + tail;
    assert(stmt =~= m + "::"@ + s);
    assert(stmt.subrange(m.len() as int, m.len() as int + 2) =~= "::"@);
    lemmas::lemma_found(stmt, "::"@, 0, m.len() as int);
    lemma_path_pieces(m, s);
    lemma_anchored(m);
    lemmas::lemma_join_split(m, "::"@);
    assert(model::split(m, "::"@).push(s).drop_last() =~= model::split(m, "::"@));
    assert(stmt.last() == s.last());
    lemma_single_line(line, Language::Rust);
}

/// A line of Rust that uses symbols in braces makes exactly one import: of the path
/// before the braces, and of the symbols in their order.
pub proof fn law_rust_braces_are_read(m: Seq<char>, v: Seq<Seq<char>>)
    requires
        is_word(m),
        m.last() != ':',
        !m.contains('{'),
        v.len() > 0,
        forall|i: int| 0 <= i < v.len() ==> is_symbol(#[trigger] v[i]),
    ensures
        ({
            let r = imports_of(
                "use "@ + (m + ("::{"@ + model::join(v, ", "@) + "}"@)) + ";"@,
                Language::Rust,
            );
            &&& r.len() == 1
            &&& r[0].module == m
            &&& r[0].symbols == if v == seq!["*"@] {
                None
            } else {
                Some(v)
            }
            &&& r[0].is_relative == is_anchored(m)
        }),
{
    reveal_strlit("::");
    reveal_strlit("::{");
    reveal_strlit("}");
    let list = model::join(v, ", "@);
    let tail = "::{"@ + list + "}"@;
    assert(tail[0] == ':' && tail[1] == ':' && tail.last() == '}');
    lemma_symbols_one_line(v);
    assert(!tail.contains('\n')) by {
        if tail.contains('\n') {
            let k = choose|k: int| 0 <= k < tail.len() && tail[k] == '\n';
            if 3 <= k < 3 + list.len() {
                assert(list[k - 3] == '\n');
            }
        }
    }
    lemma_use_line(m, tail);
    let line = "use "@ + (m + tail) + ";"@;
    let stmt = m + tail;
    let a = m.len() as int;
    let open = seq!['{'] + list + "}"@;
    assert(stmt =~= m + "::"@ + open);
    assert(stmt.subrange(a, a + 2) =~= "::"@);
    lemmas::lemma_found(stmt, "::"@, 0, a);
    lemma_path_pieces(m, open);
    lemma_anchored(m);
    assert forall|k: int| 0 <= k implies !model::occurs_at(m, "::{"@, k) by {
        if model::occurs_at(m, "::{"@, k) {
            assert(m.subrange(k, k + 3)[2] == m[k + 2]);
        }
    }
    lemmas::lemma_find_nowhere(m, "::{"@, 0);
    lemma_path_end(m, "::{"@, list + "}"@);
    assert(stmt =~= m + "::{"@ + (list + "}"@));
    assert(stmt.take(a) =~= m);
    assert(stmt.subrange(a + 3, stmt.len() - 1) =~= list);
    law_symbols_are_read(v);
    lemma_single_line(line, Language::Rust);
}

/// Symbols that are separated by commas and blanks stand on one line, and begin and end
/// with something else than white space.
proof fn lemma_symbols_one_line(v: Seq<Seq<char>>)
    requires
        v.len() > 0,
        forall|i: int| 0 <= i < v.len() ==> is_symbol(#[trigger] v[i]),
    ensures
        !model::join(v, ", "@).contains('\n'),
        lemmas::is_trimmed(model::join(v, ", "@)),
    decreases v.len(),
{
    reveal_strlit(", ");
    let s = model::join(v, ", "@);
    let last = v.last();
    assert(is_symbol(last));
    if v.len() == 1 {
        assert(s == last);
        if s.contains('\n') {
            let k = choose|k: int| 0 <= k < s.len() && s[k] == '\n';
            assert(model::is_white(last[k]));
        }
    } else {
        let w = v.drop_last();
        assert forall|i: int| 0 <= i < w.len() implies is_symbol(#[trigger] w[i]) by {
            assert(w[i] == v[i]);
        }
        lemma_symbols_one_line(w);
        let before = model::join(w, ", "@);
        if s.contains('\n') {
            let k = choose|k: int| 0 <= k < s.len() && s[k] == '\n';
            if k < before.len() {
                assert(before[k] == '\n');
            } else if k >= before.len() + 2 {
                assert(last[k - before.len() - 2] == '\n');
                assert(model::is_white(last[k - before.len() - 2]));
            }
        }
        assert(s[0] == before[0]);
    }
}

/// A line of Python that imports symbols from a module makes exactly one import: of that
/// module and of the symbols in their order, relative exactly where the module begins
/// with a dot.
pub proof fn law_python_from_is_read(m: Seq<char>, v: Seq<Seq<char>>)
    requires
        is_word(m),
        m != "import"@,
        v.len() > 0,
        forall|i: int| 0 <= i < v.len() ==> is_symbol(#[trigger] v[i]),
    ensures
        ({
            let r = imports_of(
                "from "@ + m + " import "@ + model::join(v, ", "@),
                Language::Python,
            );
            &&& r.len() == 1
            &&& r[0].module == m
            &&& r[0].symbols == if v == seq!["*"@] {
                None
            } else {
                Some(v)
            }
            &&& r[0].is_relative == (m[0] == '.')
        }),
{
    reveal_strlit("from ");
    reveal_strlit(" import ");
    reveal_strlit("import");
    let p = " import "@;
    let list = model::join(v, ", "@);
    lemma_symbols_one_line(v);
    let line = "from "@ + m + p + list;
    assert(line[0] == 'f' && line.last() == list.last());
    lemmas::lemma_trim_nothing(line);
    assert(line.take(5) =~= "from "@);
    let at = 5 + m.len() as int;
    assert forall|k: int| 0 <= k < at implies !model::occurs_at(line, p, k) by {
        if model::occurs_at(line, p, k) {
            let found = line.subrange(k, k + 8);
            assert(forall|j: int| 0 <= j < 8 ==> #[trigger] found[j] == line[k + j]);
            assert(found[0] == line[k] && p[0] == ' ');
            if k < 5 {
                assert(line[k] == "from "@[k]);
                assert(k == 4);
                // The word between is the module itself.
                if m.len() < 6 {
                    assert(line[5 + m.len() as int] == p[0]);
                    assert(found[1 + m.len() as int] == p[1 + m.len() as int]);
                } else if m.len() > 6 {
                    assert(line[11] == m[6]);
                    assert(found[7] == p[7]);
                } else {
                    assert(m =~= "import"@) by {
                        assert forall|j: int| 0 <= j < 6 implies m[j] == "import"@[j] by {
                            assert(line[5 + j] == m[j]);
                            assert(found[1 + j] == p[1 + j]);
                        }
                    }
                }
            } else {
                assert(line[k] == m[k - 5]);
            }
        }
    }
    assert(line.subrange(at, at + 8) =~= p);
    lemmas::lemma_find_first(line, p, at, 0);
    assert(line.subrange(5, at) =~= m);
    lemmas::lemma_trim_nothing(m);
    assert(line.skip(at + 8) =~= list);
    law_symbols_are_read(v);
    assert(line[5] == m[0]);
    assert(!line.contains('\n')) by {
        if line.contains('\n') {
            let k = choose|k: int| 0 <= k < line.len() && line[k] == '\n';
            if 5 <= k < at {
                assert(m[k - 5] == '\n');
                assert(model::is_white(m[k - 5]));
            } else if k >= at + 8 {
                assert(list[k - at - 8] == '\n');
            }
        }
    }
    lemma_single_line(line, Language::Python);
}

/// A line of Python that imports a module makes exactly one import: of that module, as
/// a whole, and never relative.
pub proof fn law_python_module_is_read(m: Seq<char>)
    requires
        is_word(m),
        m.last() != ';',
    ensures
        ({
            let r = imports_of("import "@ + m, Language::Python);
            &&& r.len() == 1
            &&& r[0].module == m
            &&& r[0].symbols is None
            &&& !r[0].is_relative
        }),
{
    reveal_strlit("import ");
    reveal_strlit("from ");
    reveal_strlit(";");
    let line = "import "@ + m;
    assert(line[0] == 'i' && line.last() == m.last());
    lemmas::lemma_trim_nothing(line);
    assert(line.take(7) =~= "import "@);
    assert(line.take(5)[0] == 'i');
    assert(line.skip(7) =~= m);
    lemmas::lemma_trim_nothing(m);
    assert(!";"@.contains(m.last()));
    lemmas::lemma_trim_end_any_all(m, Seq::empty(), ";"@);
    assert(m + Seq::<char>::empty() =~= m);
    assert(!line.contains('\n')) by {
        if line.contains('\n') {
            let k = choose|k: int| 0 <= k < line.len() && line[k] == '\n';
            if k >= 7 {
                assert(m[k - 7] == '\n');
                assert(model::is_white(m[k - 7]));
            }
        }
    }
    lemma_single_line(line, Language::Python);
}

/// A module of Go between quotes, as it stands in a block of imports.
pub open spec fn go_entry(m: Seq<char>) -> Seq<char> {
    seq!['\t', '"'] + m + seq!['"']
}

/// A module of Go as it can be imported.
pub open spec fn is_go_module(m: Seq<char>) -> bool {
    is_word(m) && !m.contains('"') && !m.contains('`')
}

/// A block of imports of Go imports each of its modules, in their order; so does a line
/// that imports one module, and none of them is relative.
pub proof fn law_go_modules_are_read(v: Seq<Seq<char>>, m: Seq<char>)
    requires
        forall|i: int| 0 <= i < v.len() ==> is_go_module(#[trigger] v[i]),
        is_go_module(m),
    ensures
        ({
            let lines = seq!["import ("@] + v.map_values(|m: Seq<char>| go_entry(m)) + seq![
                ")"@,
                "import \""@ + m + "\""@,
            ];
            let r = go_scan(lines, lines.len()).0;
            &&& r.len() == v.len() + 1
            &&& forall|i: int|
                0 <= i < v.len() ==> (#[trigger] r[i]).module == v[i] && !r[i].is_relative
                    && r[i].symbols is None
            &&& r[v.len() as int].module == m
            &&& !r[v.len() as int].is_relative
        }),
{
    let lines = seq!["import ("@] + v.map_values(|m: Seq<char>| go_entry(m)) + seq![
        ")"@,
        "import \""@ + m + "\""@,
    ];
    reveal_strlit("import (");
    reveal_strlit("import ");
    reveal_strlit(")");
    reveal_strlit("import \"");
    reveal_strlit("\"");
    reveal_strlit("\"`");
    let n = v.len();
    assert forall|k: int| 0 <= k <= n implies {
        let st = #[trigger] go_scan(lines, (k + 1) as nat);
        &&& st.1
        &&& st.0.len() == k
        &&& forall|i: int|
            0 <= i < k ==> (#[trigger] st.0[i]).module == v[i] && !st.0[i].is_relative
                && st.0[i].symbols is None
    } by {
        lemma_go_block(v, lines, k as nat);
    }
    let a = go_scan(lines, n + 1);
    assert(a.1);
    let close = lines[n as int + 1];
    assert(close == ")"@);
    assert(close[0] == ')' && close.last() == ')');
    lemmas::lemma_trim_nothing(close);
    assert(close.len() == 1 && "import ("@.len() == 8);
    let b = go_scan(lines, n + 2);
    assert(b == (a.0, false));
    let one = lines[n as int + 2];
    let q = seq!['"'] + m + seq!['"'];
    assert(one =~= "import "@ + q);
    assert(one[0] == 'i' && one.last() == '"');
    lemmas::lemma_trim_nothing(one);
    assert(one[7] == '"' && "import ("@[7] == '(');
    assert(one.take(7) =~= "import "@);
    assert(one.skip(7) =~= q);
    if q.len() >= 7 {
        assert(q.take(7)[0] == '"');
    }
    reveal_with_fuel(model::trim_start_text, 2);
    lemma_go_quoted(m);
    assert(go_scan(lines, n + 3) == go_step(b, one));
}

/// The module of Go between quotes.
proof fn lemma_go_quoted(m: Seq<char>)
    requires
        is_go_module(m),
    ensures
        go_module(seq!['"'] + m + seq!['"']) == m,
{
    reveal_strlit("\"`");
    let set = "\"`"@;
    assert(set[0] == '"' && set[1] == '`');
    assert(m.contains(m[0]) && m.contains(m.last()));
    assert(!set.contains(m[0]) && !set.contains(m.last()));
    let q = seq!['"'] + m + seq!['"'];
    assert(q =~= seq!['"'] + (m + seq!['"']));
    lemmas::lemma_trim_start_any_all(seq!['"'], m + seq!['"'], set);
    lemmas::lemma_trim_end_any_all(m, seq!['"'], set);
    lemmas::lemma_trim_nothing(m);
}

proof fn lemma_go_block(v: Seq<Seq<char>>, lines: Seq<Seq<char>>, k: nat)
    requires
        k <= v.len(),
        lines.len() > v.len(),
        lines[0] == "import ("@,
        forall|i: int| 0 <= i < v.len() ==> #[trigger] lines[i + 1] == go_entry(v[i]),
        forall|i: int| 0 <= i < v.len() ==> is_go_module(#[trigger] v[i]),
    ensures
        ({
            let st = go_scan(lines, k + 1);
            &&& st.1
            &&& st.0.len() == k
            &&& forall|i: int|
                0 <= i < k ==> (#[trigger] st.0[i]).module == v[i] && !st.0[i].is_relative
                    && st.0[i].symbols is None
        }),
    decreases k,
{
    reveal_strlit("import (");
    reveal_strlit(")");
    reveal_with_fuel(go_scan, 2);
    if k == 0 {
        let first = lines[0];
        assert(first[0] == 'i' && first.last() == '(');
        lemmas::lemma_trim_nothing(first);
    } else {
        lemma_go_block(v, lines, (k - 1) as nat);
        let m = v[k - 1];
        assert(is_go_module(m));
        let line = lines[(k - 1) + 1];
        assert(line == go_entry(m));
        let q = seq!['"'] + m + seq!['"'];
        assert(line.skip(1) =~= q);
        assert(line[0] == '\t');
        assert(q[0] == '"' && q.last() == '"');
        lemmas::lemma_trim_nothing(q);
        reveal_with_fuel(model::trim_start, 2);
        assert(model::trim(line) == q);
        assert("import ("@[0] == 'i' && ")"@[0] == ')');
        lemma_go_quoted(m);
    }
}

/// The language of a file is told by what follows the last dot of its name.
pub proof fn law_languages_by_extension(file_path: Seq<char>)
    ensures
        path::extension(file_path) == Some("rs"@) ==> language_of(file_path) == Language::Rust,
        path::extension(file_path) == Some("ts"@) ==> language_of(file_path)
            == Language::TypeScript,
        path::extension(file_path) == Some("tsx"@) ==> language_of(file_path)
            == Language::TypeScript,
        path::extension(file_path) == Some("js"@) ==> language_of(file_path)
            == Language::JavaScript,
        path::extension(file_path) == Some("jsx"@) ==> language_of(file_path)
            == Language::JavaScript,
        path::extension(file_path) == Some("py"@) ==> language_of(file_path) == Language::Python,
        path::extension(file_path) == Some("go"@) ==> language_of(file_path) == Language::Go,
        path::extension(file_path) == Some("java"@) ==> language_of(file_path) == Language::Java,
        path::extension(file_path) == Some("c"@) ==> language_of(file_path) == Language::C,
        path::extension(file_path) == Some("h"@) ==> language_of(file_path) == Language::C,
        path::extension(file_path) == Some("cpp"@) ==> language_of(file_path) == Language::Cpp,
        path::extension(file_path) == Some("cc"@) ==> language_of(file_path) == Language::Cpp,
        path::extension(file_path) == Some("hpp"@) ==> language_of(file_path) == Language::Cpp,
        path::extension(file_path) is None ==> language_of(file_path) == Language::Unknown,
{
    reveal_strlit("rs");
    reveal_strlit("ts");
    reveal_strlit("tsx");
    reveal_strlit("js");
    reveal_strlit("jsx");
    reveal_strlit("py");
    reveal_strlit("go");
    reveal_strlit("java");
    reveal_strlit("c");
    reveal_strlit("h");
    reveal_strlit("cpp");
    reveal_strlit("cc");
    reveal_strlit("hpp");
    assert("rs"@[0] == 'r' && "ts"@[0] == 't' && "tsx"@[0] == 't' && "js"@[0] == 'j');
    assert("jsx"@[0] == 'j' && "py"@[0] == 'p' && "go"@[0] == 'g' && "java"@[0] == 'j');
    assert("c"@[0] == 'c' && "h"@[0] == 'h' && "cpp"@[0] == 'c' && "cc"@[0] == 'c');
    assert("hpp"@[0] == 'h' && "cpp"@[1] == 'p' && "cc"@[1] == 'c');
    assert("rs"@.len() == 2 && "ts"@.len() == 2 && "tsx"@.len() == 3 && "js"@.len() == 2);
    assert("jsx"@.len() == 3 && "py"@.len() == 2 && "go"@.len() == 2 && "java"@.len() == 4);
    assert("c"@.len() == 1 && "h"@.len() == 1 && "cpp"@.len() == 3 && "cc"@.len() == 2);
    assert("hpp"@.len() == 3);
}

} // verus!
