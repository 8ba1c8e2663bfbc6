//! Source code cut into blocks of one function or one type each.
//!
//! The blocks are found line by line: a line that begins a definition opens a
//! block, the lines after it belong to it, and braces (in Python: indentation)
//! close it.

use crate::memory::embedding::{EmbeddingVector, VectorModel};
use crate::memory::repo_map::Language;
use crate::path;
use crate::path::FilePath;
use crate::text::{lemmas, model, ops};
use vstd::prelude::*;
use vstd::string::*;

verus! {

/// What a code block defines.
#[derive(Debug, Clone, Copy, PartialEq, Eq, Structural)]
pub enum CodeBlockKind {
    /// A function.
    Function,
    /// A function inside an `impl` block.
    Method,
    /// A class, struct or enum.
    Class,
    /// A trait.
    Trait,
    /// A constant or a type alias.
    Constant,
    /// The documentation of a module.
    ModuleDoc,
    /// A test function.
    Test,
    /// Anything else.
    Other,
}

/// A piece of source code that is embedded as a whole.
#[derive(Debug)]
pub struct CodeBlock {
    /// Unique over all files.
    pub id: String,
    /// The file that the block stands in.
    pub file_path: FilePath,
    /// What the block defines.
    pub kind: CodeBlockKind,
    /// The name of what it defines.
    pub name: String,
    /// The block's source text.
    pub source: String,
    /// Its first line, counted from zero.
    pub start_line: usize,
    /// Its last line.
    pub end_line: usize,
    /// The documentation comment.
    pub doc_comment: Option<String>,
    /// The embedding, once it has been made.
    pub embedding: Option<EmbeddingVector>,
}

/// What a code block holds.
#[verifier::ext_equal]
pub struct BlockModel {
    pub id: Seq<char>,
    pub file_path: Seq<char>,
    pub kind: CodeBlockKind,
    pub name: Seq<char>,
    pub source: Seq<char>,
    pub start_line: nat,
    pub end_line: nat,
    pub doc_comment: Option<Seq<char>>,
    pub embedding: Option<VectorModel>,
}

impl View for CodeBlock {
    type V = BlockModel;

    open spec fn view(&self) -> BlockModel {
        BlockModel {
            id: self.id@,
            file_path: self.file_path@,
            kind: self.kind,
            name: self.name@,
            source: self.source@,
            start_line: self.start_line as nat,
            end_line: self.end_line as nat,
            doc_comment: model::opt_text(self.doc_comment),
            embedding: match self.embedding {
                Some(v) => Some(v@),
                None => None,
            },
        }
    }
}

/// The blocks that a list holds.
pub open spec fn block_models(v: Seq<CodeBlock>) -> Seq<BlockModel> {
    v.map_values(|b: CodeBlock| b@)
}

/// The block that a list element may hold.
pub open spec fn opt_block(o: Option<CodeBlock>) -> Option<BlockModel> {
    match o {
        Some(b) => Some(b@),
        None => None,
    }
}

/// The identifier of a block: path, name and first line.
pub open spec fn block_id(file_path: Seq<char>, name: Seq<char>, start_line: nat) -> Seq<char> {
    file_path + ":"@ + name + ":"@ + model::decimal(start_line)
}

/// The block that a line opens.
pub open spec fn opened(
    file_path: Seq<char>,
    kind: CodeBlockKind,
    name: Seq<char>,
    line: Seq<char>,
    at: nat,
) -> BlockModel {
    BlockModel {
        id: block_id(file_path, name, at),
        file_path: file_path,
        kind: kind,
        name: name,
        source: line + "\n"@,
        start_line: at,
        end_line: at,
        doc_comment: None,
        embedding: None,
    }
}

/// The block with one line more.
pub open spec fn extended(b: BlockModel, line: Seq<char>, at: nat) -> BlockModel {
    BlockModel { source: b.source + line + "\n"@, end_line: at, ..b }
}

/// Piece `n` of the text cut at `p`; empty where there are fewer pieces.
pub open spec fn piece(s: Seq<char>, p: Seq<char>, n: int) -> Seq<char> {
    if 0 <= n < model::split(s, p).len() {
        model::split(s, p)[n]
    } else {
        Seq::empty()
    }
}

/// The name of the function that a line of Rust defines. It is found after
/// `async fn`, or after a `fn` with a blank on either side.
pub open spec fn rust_fn_name(line: Seq<char>) -> Seq<char> {
    let after = if model::contains(line, "async fn"@) {
        piece(line, "async fn"@, 1)
    } else {
        piece(line, " fn "@, 1)
    };
    model::trim_start_any(model::trim(piece(after, "("@, 0)), "<"@)
}

/// Whether a word introduces a type of Rust.
pub open spec fn is_type_word(w: Seq<char>) -> bool {
    w == "struct"@ || w == "enum"@ || w == "trait"@
}

/// A word without the brackets that may stick to its end.
pub open spec fn without_brackets(w: Seq<char>) -> Seq<char> {
    model::trim_end_any(model::trim_end_any(w, "<"@), "{"@)
}

/// The word after the first one, from word `i` on, that introduces a type.
pub open spec fn type_name_from(words: Seq<Seq<char>>, i: int) -> Seq<char>
    decreases words.len() - i,
{
    if i < 0 || i >= words.len() {
        Seq::empty()
    } else if is_type_word(words[i]) {
        if i + 1 < words.len() {
            without_brackets(words[i + 1])
        } else {
            Seq::empty()
        }
    } else {
        type_name_from(words, i + 1)
    }
}

/// The name of the type that a line of Rust defines.
pub open spec fn rust_type_name(line: Seq<char>) -> Seq<char> {
    type_name_from(model::split_whitespace(line), 0)
}

/// The name of the function that a line of JavaScript defines.
pub open spec fn js_fn_name(line: Seq<char>) -> Seq<char> {
    let after = if model::contains(line, "async function"@) {
        piece(line, "async function"@, 1)
    } else {
        piece(line, "function"@, 1)
    };
    model::trim(piece(after, "("@, 0))
}

/// The name of the class that a line of JavaScript defines.
pub open spec fn js_class_name(line: Seq<char>) -> Seq<char> {
    model::trim(piece(piece(piece(line, "class"@, 1), "{"@, 0), "extends"@, 0))
}

/// The name of the constant that a line of JavaScript defines.
pub open spec fn js_const_fn_name(line: Seq<char>) -> Seq<char> {
    let after = if model::contains(line, "export const"@) {
        piece(line, "export const"@, 1)
    } else {
        piece(line, "const "@, 1)
    };
    model::trim(piece(after, "="@, 0))
}

/// The name of the function that a line of Python defines.
pub open spec fn py_fn_name(line: Seq<char>) -> Seq<char> {
    model::trim(piece(piece(line, "def "@, 1), "("@, 0))
}

/// The name of the class that a line of Python defines.
pub open spec fn py_class_name(line: Seq<char>) -> Seq<char> {
    model::trim(piece(piece(piece(line, "class "@, 1), "("@, 0), ":"@, 0))
}

/// A line of Rust that opens a function.
pub open spec fn opens_rust_fn(line: Seq<char>) -> bool {
    ||| model::starts_with(line, "pub fn "@)
    ||| model::starts_with(line, "fn "@)
    ||| model::starts_with(line, "pub async fn "@)
    ||| model::starts_with(line, "async fn "@)
}

/// A line of Rust that opens a struct or an enum.
pub open spec fn opens_rust_type(line: Seq<char>) -> bool {
    ||| model::starts_with(line, "pub struct "@)
    ||| model::starts_with(line, "struct "@)
    ||| model::starts_with(line, "pub enum "@)
    ||| model::starts_with(line, "enum "@)
}

/// A line of Rust that opens a trait.
pub open spec fn opens_rust_trait(line: Seq<char>) -> bool {
    ||| model::starts_with(line, "pub trait "@)
    ||| model::starts_with(line, "trait "@)
}

/// A line of Rust that opens an `impl` block.
pub open spec fn opens_rust_impl(line: Seq<char>) -> bool {
    model::starts_with(line, "impl "@) && model::contains(line, "{"@)
}

/// What is known after some lines of a source text.
#[verifier::ext_equal]
pub struct Scan {
    /// The blocks that are complete.
    pub blocks: Seq<BlockModel>,
    /// The block that is open.
    pub current: Option<BlockModel>,
    /// How many braces are open in it; in Python, how far it is indented.
    pub depth: nat,
    /// How many braces are open in the `impl` block that the lines stand in; zero
    /// where they stand in none.
    pub impl_depth: nat,
}

/// Before the first line.
pub open spec fn scan_start() -> Scan {
    Scan { blocks: Seq::empty(), current: None, depth: 0, impl_depth: 0 }
}

/// The depth after a line that belongs to the open block.
pub open spec fn depth_after(depth: nat, line: Seq<char>) -> nat {
    let up = depth + model::count(line, '{');
    let down = model::count(line, '}');
    if up >= down {
        (up - down) as nat
    } else {
        0
    }
}

/// The complete blocks, the open block and the depth after a line that belongs
/// to the open block, where there is one. The block is complete when no brace
/// is open.
pub open spec fn inside(
    blocks: Seq<BlockModel>,
    current: Option<BlockModel>,
    depth: nat,
    line: Seq<char>,
    at: nat,
) -> (Seq<BlockModel>, Option<BlockModel>, nat) {
    match current {
        Some(b) => {
            let after = depth_after(depth, model::trim(line));
            let block = extended(b, line, at);
            if after == 0 {
                (blocks.push(block), None, after)
            } else {
                (blocks, Some(block), after)
            }
        },
        None => (blocks, None, depth),
    }
}

/// How many braces of an `impl` block are open after a line: the line may open the
/// block, or stand in it.
pub open spec fn impl_depth_after(depth: nat, line: Seq<char>) -> nat {
    if depth > 0 || opens_rust_impl(line) {
        depth_after(depth, line)
    } else {
        0
    }
}

/// One line of Rust. A function is a method where an `impl` block is open.
pub open spec fn rust_step(st: Scan, file_path: Seq<char>, line: Seq<char>, at: nat) -> Scan {
    let t = model::trim(line);
    let impl_depth = impl_depth_after(st.impl_depth, t);
    if opens_rust_fn(t) {
        let name = rust_fn_name(t);
        let kind = if st.impl_depth > 0 {
            CodeBlockKind::Method
        } else if model::starts_with(name, "test_"@) || model::contains(t, "#[test]"@) {
            CodeBlockKind::Test
        } else {
            CodeBlockKind::Function
        };
        Scan {
            current: Some(opened(file_path, kind, name, line, at)),
            depth: (model::count(t, '{') - model::count(t, '}')) as nat,
            impl_depth: impl_depth,
            ..st
        }
    } else if opens_rust_type(t) {
        Scan {
            current: Some(opened(file_path, CodeBlockKind::Class, rust_type_name(t), line, at)),
            depth: model::count(t, '{') + 1,
            impl_depth: impl_depth,
            ..st
        }
    } else if opens_rust_trait(t) {
        Scan {
            current: Some(opened(file_path, CodeBlockKind::Trait, rust_type_name(t), line, at)),
            depth: model::count(t, '{'),
            impl_depth: impl_depth,
            ..st
        }
    } else {
        let (blocks, current, depth) = inside(st.blocks, st.current, st.depth, line, at);
        Scan {
            blocks: blocks,
            current: current,
            depth: depth,
            impl_depth: impl_depth,
        }
    }
}

/// After the first `n` lines of Rust.
pub open spec fn rust_scan(file_path: Seq<char>, lines: Seq<Seq<char>>, n: nat) -> Scan
    decreases n,
{
    if n == 0 {
        scan_start()
    } else {
        rust_step(
            rust_scan(file_path, lines, (n - 1) as nat),
            file_path,
            lines[n - 1],
            (n - 1) as nat,
        )
    }
}

/// No line that opens a function closes more braces than it opens.
pub open spec fn rust_lines_balanced(lines: Seq<Seq<char>>) -> bool {
    forall|i: int|
        0 <= i < lines.len() ==> {
            let t = model::trim(#[trigger] lines[i]);
            opens_rust_fn(t) ==> model::count(t, '}') <= model::count(t, '{')
        }
}

/// The blocks of a Rust source text.
pub open spec fn rust_blocks(file_path: Seq<char>, source: Seq<char>) -> Seq<BlockModel> {
    let lines = model::lines(source);
    rust_scan(file_path, lines, lines.len()).blocks
}

/// A line of JavaScript that opens a function.
pub open spec fn opens_js_fn(line: Seq<char>) -> bool {
    ||| model::starts_with(line, "function "@)
    ||| model::starts_with(line, "export function "@)
    ||| model::starts_with(line, "async function "@)
    ||| model::starts_with(line, "export async function "@)
}

/// A line of JavaScript that opens a class.
pub open spec fn opens_js_class(line: Seq<char>) -> bool {
    ||| model::starts_with(line, "class "@)
    ||| model::starts_with(line, "export class "@)
    ||| model::starts_with(line, "export default class "@)
}

/// A line of JavaScript that gives a function to a named constant.
pub open spec fn opens_js_const_fn(line: Seq<char>) -> bool {
    &&& model::starts_with(line, "const "@) || model::starts_with(line, "export const "@)
    &&& model::contains(line, "=>"@) || model::contains(line, "function"@)
    &&& js_const_fn_name(line).len() > 0
}

/// One line of TypeScript or JavaScript.
pub open spec fn js_step(st: Scan, file_path: Seq<char>, line: Seq<char>, at: nat) -> Scan {
    let t = model::trim(line);
    if opens_js_fn(t) {
        Scan {
            current: Some(opened(file_path, CodeBlockKind::Function, js_fn_name(t), line, at)),
            depth: model::count(t, '{'),
            ..st
        }
    } else if opens_js_class(t) {
        Scan {
            current: Some(opened(file_path, CodeBlockKind::Class, js_class_name(t), line, at)),
            depth: model::count(t, '{'),
            ..st
        }
    } else if opens_js_const_fn(t) {
        Scan {
            current: Some(
                opened(file_path, CodeBlockKind::Function, js_const_fn_name(t), line, at),
            ),
            depth: model::count(t, '{'),
            ..st
        }
    } else {
        let (blocks, current, depth) = inside(st.blocks, st.current, st.depth, line, at);
        Scan { blocks: blocks, current: current, depth: depth, ..st }
    }
}

/// After the first `n` lines of TypeScript or JavaScript.
pub open spec fn js_scan(file_path: Seq<char>, lines: Seq<Seq<char>>, n: nat) -> Scan
    decreases n,
{
    if n == 0 {
        scan_start()
    } else {
        js_step(
            js_scan(file_path, lines, (n - 1) as nat),
            file_path,
            lines[n - 1],
            (n - 1) as nat,
        )
    }
}

/// The blocks of a TypeScript or JavaScript source text.
pub open spec fn js_blocks(file_path: Seq<char>, source: Seq<char>) -> Seq<BlockModel> {
    let lines = model::lines(source);
    js_scan(file_path, lines, lines.len()).blocks
}

/// How many bytes of white space a line begins with.
pub open spec fn indent(line: Seq<char>) -> nat {
    (model::byte_len(line) - model::byte_len(model::trim_start(line))) as nat
}

/// The complete blocks once the open one, where there is one, is complete too.
pub open spec fn closed_off(st: Scan) -> Seq<BlockModel> {
    match st.current {
        Some(b) => st.blocks.push(b),
        None => st.blocks,
    }
}

/// One line of Python. A line that is not blank, no comment and not indented
/// further than the line that opened the block ends the block.
pub open spec fn py_step(st: Scan, file_path: Seq<char>, line: Seq<char>, at: nat) -> Scan {
    let t = model::trim(line);
    if model::starts_with(t, "def "@) || model::starts_with(t, "class "@) {
        let is_class = model::starts_with(t, "class "@);
        let name = if is_class {
            py_class_name(t)
        } else {
            py_fn_name(t)
        };
        let kind = if is_class {
            CodeBlockKind::Class
        } else if model::starts_with(name, "test_"@) {
            CodeBlockKind::Test
        } else {
            CodeBlockKind::Function
        };
        Scan {
            blocks: closed_off(st),
            current: Some(opened(file_path, kind, name, line, at)),
            depth: indent(line),
            ..st
        }
    } else {
        match st.current {
            Some(b) => if t.len() > 0 && indent(line) <= st.depth && !model::starts_with(t, "#"@) {
                Scan { blocks: st.blocks.push(b), current: None, ..st }
            } else {
                Scan { current: Some(extended(b, line, at)), ..st }
            },
            None => st,
        }
    }
}

/// After the first `n` lines of Python.
pub open spec fn py_scan(file_path: Seq<char>, lines: Seq<Seq<char>>, n: nat) -> Scan
    decreases n,
{
    if n == 0 {
        scan_start()
    } else {
        py_step(
            py_scan(file_path, lines, (n - 1) as nat),
            file_path,
            lines[n - 1],
            (n - 1) as nat,
        )
    }
}

/// The blocks of a Python source text.
pub open spec fn py_blocks(file_path: Seq<char>, source: Seq<char>) -> Seq<BlockModel> {
    let lines = model::lines(source);
    closed_off(py_scan(file_path, lines, lines.len()))
}

/// A whole file as one block, named after the file.
pub open spec fn whole_file(file_path: Seq<char>, source: Seq<char>) -> BlockModel {
    let name = match path::file_stem(file_path) {
        Some(s) => s,
        None => "unknown"@,
    };
    let count = model::lines(source).len();
    BlockModel {
        id: block_id(file_path, name, 0),
        file_path: file_path,
        kind: CodeBlockKind::Other,
        name: name,
        source: source,
        start_line: 0,
        end_line: if count > 0 {
            (count - 1) as nat
        } else {
            0
        },
        doc_comment: None,
        embedding: None,
    }
}

/// The blocks of a source text.
pub open spec fn blocks_of(
    source: Seq<char>,
    file_path: Seq<char>,
    language: Language,
) -> Seq<BlockModel> {
    match language {
        Language::Rust => rust_blocks(file_path, source),
        Language::TypeScript | Language::JavaScript => js_blocks(file_path, source),
        Language::Python => py_blocks(file_path, source),
        _ => seq![whole_file(file_path, source)],
    }
}

/// How a block's kind is written in the text that is searched.
pub open spec fn kind_label(kind: CodeBlockKind) -> Seq<char> {
    match kind {
        CodeBlockKind::Function => "[function]"@,
        CodeBlockKind::Method => "[method]"@,
        CodeBlockKind::Class => "[class]"@,
        CodeBlockKind::Trait => "[trait]"@,
        CodeBlockKind::Constant => "[constant]"@,
        CodeBlockKind::Test => "[test]"@,
        CodeBlockKind::ModuleDoc => "[doc]"@,
        CodeBlockKind::Other => Seq::empty(),
    }
}

/// The first `n` of some texts, or all where there are fewer.
pub open spec fn at_most(v: Seq<Seq<char>>, n: nat) -> Seq<Seq<char>> {
    if v.len() <= n {
        v
    } else {
        v.take(n as int)
    }
}

/// The text by which a block is searched: its name, its documentation, its
/// first three lines and its kind.
pub open spec fn search_text(b: BlockModel) -> Seq<char> {
    let doc = match b.doc_comment {
        Some(d) => seq![d],
        None => Seq::empty(),
    };
    let signature = model::join(at_most(model::lines(b.source), 3), "\n"@);
    let label = if kind_label(b.kind).len() > 0 {
        seq![kind_label(b.kind)]
    } else {
        Seq::empty()
    };
    model::join(seq![b.name] + doc + seq![signature] + label, "\n"@)
}

/// The text that is embedded: the search text and the code, cut off after
/// about two thousand bytes.
pub open spec fn embedding_text(b: BlockModel) -> Seq<char> {
    let code = if model::byte_len(b.source) > 2000 {
        model::fitting(b.source, 2000) + "..."@
    } else {
        b.source
    };
    search_text(b) + "\n"@ + code
}

/// The block that a line opens.
fn open_block(
    file_path: &FilePath,
    kind: CodeBlockKind,
    name: String,
    line: &[char],
    at: usize,
) -> (r: CodeBlock)
    ensures
        r@ == opened(file_path@, kind, name@, line@, at as nat),
{
    let mut source = ops::string_of(line);
    source.append("\n");
    CodeBlock {
        id: CodeBlock::make_id(file_path, name.as_str(), at),
        file_path: file_path.clone(),
        kind: kind,
        name: name,
        source: source,
        start_line: at,
        end_line: at,
        doc_comment: None,
        embedding: None,
    }
}

/// Adds a line to the open block, where there is one, and completes the block
/// when no brace is open. Returns the depth after the line.
fn add_line(
    blocks: &mut Vec<CodeBlock>,
    current: &mut Option<CodeBlock>,
    depth: usize,
    line: &[char],
    trimmed: &[char],
    at: usize,
) -> (r: usize)
    requires
        trimmed@ == model::trim(line@),
        depth + trimmed@.len() <= usize::MAX,
    ensures
        inside(
            block_models(old(blocks)@),
            opt_block(*old(current)),
            depth as nat,
            line@,
            at as nat,
        ) == (block_models(final(blocks)@), opt_block(*final(current)), r as nat),
        r <= depth + trimmed@.len(),
{
    match current.take() {
        Some(block) => {
            let mut block = block;
            ops::push_chars(&mut block.source, line);
            block.source.append("\n");
            block.end_line = at;
            let up: usize = depth + ops::count(trimmed, '{');
            let down: usize = ops::count(trimmed, '}');
            let after: usize = if up >= down {
                up - down
            } else {
                0
            };
            let ghost shown = block@;
            if after == 0 {
                blocks.push(block);
                assert(block_models(blocks@) =~= block_models(old(blocks)@).push(shown));
            } else {
                *current = Some(block);
            }
            after
        },
        None => depth,
    }
}

impl CodeBlock {
    /// The text by which the block is searched.
    pub fn to_search_text(&self) -> (r: String)
        ensures
            r@ == search_text(self@),
    {
        let mut parts: Vec<String> = Vec::new();
        parts.push(self.name.clone());
        if let Some(doc) = &self.doc_comment {
            parts.push(doc.clone());
        }
        let chars = ops::chars_of(self.source.as_str());
        let lines = ops::lines(chars.as_slice());
        let shown = if lines.len() > 3 {
            vstd::slice::slice_subrange(lines.as_slice(), 0, 3)
        } else {
            lines.as_slice()
        };
        assert(model::slices(shown@) =~= at_most(model::lines(self.source@), 3));
        parts.push(ops::join(shown, "\n"));
        let label = match self.kind {
            CodeBlockKind::Function => "[function]",
            CodeBlockKind::Method => "[method]",
            CodeBlockKind::Class => "[class]",
            CodeBlockKind::Trait => "[trait]",
            CodeBlockKind::Constant => "[constant]",
            CodeBlockKind::Test => "[test]",
            CodeBlockKind::ModuleDoc => "[doc]",
            CodeBlockKind::Other => "",
        };
        proof {
            reveal_strlit("[function]");
            reveal_strlit("[method]");
            reveal_strlit("[class]");
            reveal_strlit("[trait]");
            reveal_strlit("[constant]");
            reveal_strlit("[test]");
            reveal_strlit("[doc]");
            reveal_strlit("");
            assert(label@ =~= kind_label(self.kind));
        }
        if !ops::is_empty(label) {
            parts.push(String::from_str(label));
        }
        proof {
            let doc = match self@.doc_comment {
                Some(d) => seq![d],
                None => Seq::empty(),
            };
            let signature = model::join(at_most(model::lines(self.source@), 3), "\n"@);
            let tail = if kind_label(self.kind).len() > 0 {
                seq![kind_label(self.kind)]
            } else {
                Seq::empty()
            };
            assert(model::texts(parts@) =~= seq![self.name@] + doc + seq![signature] + tail);
        }
        ops::join_texts(parts.as_slice(), "\n")
    }

    /// The text that is embedded.
    pub fn to_embedding_text(&self) -> (r: String)
        ensures
            r@ == embedding_text(self@),
    {
        let search = self.to_search_text();
        let code = if ops::text_byte_len(self.source.as_str()) > 2000 {
            let chars = ops::chars_of(self.source.as_str());
            let mut cut = ops::string_of(ops::fitting(chars.as_slice(), 2000));
            cut.append("...");
            cut
        } else {
            self.source.clone()
        };
        ops::concat3(search.as_str(), "\n", code.as_str())
    }

    /// The identifier of a block: path, name and first line.
    pub fn make_id(file_path: &FilePath, name: &str, start_line: usize) -> (r: String)
        ensures
            r@ == block_id(file_path@, name@, start_line as nat),
    {
        ops::concat5(file_path.as_text(), ":", name, ":", ops::decimal(start_line).as_str())
    }
}

/// Piece `n` of the text cut at `p`; empty where there are fewer pieces.
fn nth_piece<'a>(s: &'a [char], p: &str, n: usize) -> (r: &'a [char])
    requires
        p@.len() > 0,
    ensures
        r@ == piece(s@, p@, n as int),
{
    let pieces = ops::split(s, p);
    assert(model::slices(pieces@).len() == pieces@.len());
    if n < pieces.len() {
        assert(model::slices(pieces@)[n as int] == pieces@[n as int]@);
        pieces[n]
    } else {
        ops::take(s, 0)
    }
}

/// Finds code blocks in source text.
pub struct CodeBlockParser;

impl CodeBlockParser {
    /// The blocks of a source text.
    ///
    /// A line of Rust that opens a function must not close more braces than it
    /// opens.
    pub fn parse(source: &str, file_path: FilePath, language: Language) -> (r: Vec<CodeBlock>)
        requires
            language == Language::Rust ==> rust_lines_balanced(model::lines(source@)),
        ensures
            block_models(r@) == blocks_of(source@, file_path@, language),
    {
        match language {
            Language::Rust => Self::parse_rust(source, &file_path),
            Language::TypeScript | Language::JavaScript => Self::parse_typescript(
                source,
                &file_path,
            ),
            Language::Python => Self::parse_python(source, &file_path),
            _ => Self::parse_generic(source, &file_path),
        }
    }

    fn parse_typescript(source: &str, file_path: &FilePath) -> (r: Vec<CodeBlock>)
        ensures
            block_models(r@) == js_blocks(file_path@, source@),
    {
        let chars = ops::chars_of(source);
        let lines = ops::lines(chars.as_slice());
        let ghost texts = model::lines(source@);
        let total: usize = chars.len();
        let mut blocks: Vec<CodeBlock> = Vec::new();
        let mut current: Option<CodeBlock> = None;
        let mut depth: usize = 0;
        proof {
            lemmas::lemma_lines_total(source@);
            assert(texts.take(texts.len() as int) =~= texts);
            assert(model::slices(lines@) == texts);
            assert(block_models(blocks@) =~= Seq::empty());
        }
        let mut at: usize = 0;
        while at < lines.len()
            invariant
                at <= lines@.len(),
                texts == model::slices(lines@),
                lemmas::total_len(texts.take(texts.len() as int)) <= total,
                depth <= lemmas::total_len(texts.take(at as int)),
                (Scan {
                    blocks: block_models(blocks@),
                    current: opt_block(current),
                    depth: depth as nat,
                    impl_depth: 0,
                }) == js_scan(file_path@, texts, at as nat),
            decreases lines@.len() - at,
        {
            let line = lines[at];
            let t = ops::trim(line);
            assert(texts[at as int] == line@);
            proof {
                lemmas::lemma_trim_len(line@);
                lemmas::lemma_count_bound(t@, '{');
                assert(texts.take(at + 1).drop_last() =~= texts.take(at as int));
                lemmas::lemma_total_len_prefix(texts, at + 1, texts.len() as int);
            }
            let mut opening: Option<(CodeBlockKind, String)> = None;
            if ops::starts_with(t, "function ") || ops::starts_with(t, "export function ")
                || ops::starts_with(t, "async function ") || ops::starts_with(
                t,
                "export async function ",
            ) {
                opening = Some((CodeBlockKind::Function, Self::extract_js_fn_name(t)));
            } else if ops::starts_with(t, "class ") || ops::starts_with(t, "export class ")
                || ops::starts_with(t, "export default class ") {
                opening = Some((CodeBlockKind::Class, Self::extract_js_class_name(t)));
            } else if (ops::starts_with(t, "const ") || ops::starts_with(t, "export const ")) && (
            ops::contains(t, "=>") || ops::contains(t, "function")) {
                let name = Self::extract_js_const_fn_name(t);
                if !ops::is_empty(name.as_str()) {
                    opening = Some((CodeBlockKind::Function, name));
                }
            }
            match opening {
                Some((kind, name)) => {
                    current = Some(open_block(file_path, kind, name, line, at));
                    depth = ops::count(t, '{');
                },
                None => {
                    depth = add_line(&mut blocks, &mut current, depth, line, t, at);
                },
            }
            at = at + 1;
        }
        blocks
    }

    fn parse_python(source: &str, file_path: &FilePath) -> (r: Vec<CodeBlock>)
        ensures
            block_models(r@) == py_blocks(file_path@, source@),
    {
        let chars = ops::chars_of(source);
        let lines = ops::lines(chars.as_slice());
        let ghost texts = model::lines(source@);
        let mut blocks: Vec<CodeBlock> = Vec::new();
        let mut current: Option<CodeBlock> = None;
        let mut current_indent: usize = 0;
        assert(block_models(blocks@) =~= Seq::empty());
        let mut at: usize = 0;
        while at < lines.len()
            invariant
                at <= lines@.len(),
                texts == model::slices(lines@),
                (Scan {
                    blocks: block_models(blocks@),
                    current: opt_block(current),
                    depth: current_indent as nat,
                    impl_depth: 0,
                }) == py_scan(file_path@, texts, at as nat),
            decreases lines@.len() - at,
        {
            let line = lines[at];
            let t = ops::trim(line);
            let ghost before = block_models(blocks@);
            assert(texts[at as int] == line@);
            proof {
                lemmas::lemma_trim_start_bytes(line@);
            }
            let indent: usize = ops::byte_len(line) - ops::byte_len(ops::trim_start(line));
            if ops::starts_with(t, "def ") || ops::starts_with(t, "class ") {
                if let Some(block) = current {
                    blocks.push(block);
                    assert(block_models(blocks@) =~= before.push(block@));
                }
                let is_class = ops::starts_with(t, "class ");
                let name = if is_class {
                    Self::extract_py_class_name(t)
                } else {
                    Self::extract_py_fn_name(t)
                };
                let kind = if is_class {
                    CodeBlockKind::Class
                } else if ops::starts_with(ops::chars_of(name.as_str()).as_slice(), "test_") {
                    CodeBlockKind::Test
                } else {
                    CodeBlockKind::Function
                };
                current = Some(open_block(file_path, kind, name, line, at));
                current_indent = indent;
            } else if let Some(open) = current {
                let mut block = open;
                if t.len() > 0 && indent <= current_indent && !ops::starts_with(t, "#") {
                    blocks.push(block);
                    assert(block_models(blocks@) =~= before.push(block@));
                    current = None;
                } else {
                    ops::push_chars(&mut block.source, line);
                    block.source.append("\n");
                    block.end_line = at;
                    current = Some(block);
                }
            }
            at = at + 1;
        }
        let ghost before = block_models(blocks@);
        if let Some(block) = current {
            blocks.push(block);
            assert(block_models(blocks@) =~= before.push(block@));
        }
        blocks
    }

    fn parse_generic(source: &str, file_path: &FilePath) -> (r: Vec<CodeBlock>)
        ensures
            block_models(r@) == seq![whole_file(file_path@, source@)],
    {
        let name = match file_path.file_stem() {
            Some(stem) => stem,
            None => String::from_str("unknown"),
        };
        let chars = ops::chars_of(source);
        let lines = ops::lines(chars.as_slice());
        assert(model::slices(lines@).len() == lines@.len());
        let count: usize = lines.len();
        let block = CodeBlock {
            id: CodeBlock::make_id(file_path, name.as_str(), 0),
            file_path: file_path.clone(),
            kind: CodeBlockKind::Other,
            name: name,
            source: String::from_str(source),
            start_line: 0,
            end_line: if count > 0 {
                count - 1
            } else {
                0
            },
            doc_comment: None,
            embedding: None,
        };
        assert(block@ == whole_file(file_path@, source@));
        let mut out: Vec<CodeBlock> = Vec::new();
        out.push(block);
        assert(block_models(out@) =~= seq![whole_file(file_path@, source@)]);
        out
    }

    /// The name of the function that a line of JavaScript defines.
    fn extract_js_fn_name(line: &[char]) -> (r: String)
        ensures
            r@ == js_fn_name(line@),
    {
        proof {
            reveal_strlit("async function");
            reveal_strlit("function");
            reveal_strlit("(");
        }
        let after = if ops::contains(line, "async function") {
            nth_piece(line, "async function", 1)
        } else {
            nth_piece(line, "function", 1)
        };
        ops::string_of(ops::trim(nth_piece(after, "(", 0)))
    }

    /// The name of the class that a line of JavaScript defines.
    fn extract_js_class_name(line: &[char]) -> (r: String)
        ensures
            r@ == js_class_name(line@),
    {
        proof {
            reveal_strlit("class");
            reveal_strlit("{");
            reveal_strlit("extends");
        }
        let after = nth_piece(line, "class", 1);
        ops::string_of(ops::trim(nth_piece(nth_piece(after, "{", 0), "extends", 0)))
    }

    /// The name of the constant that a line of JavaScript defines.
    fn extract_js_const_fn_name(line: &[char]) -> (r: String)
        ensures
            r@ == js_const_fn_name(line@),
    {
        proof {
            reveal_strlit("export const");
            reveal_strlit("const ");
            reveal_strlit("=");
        }
        let after = if ops::contains(line, "export const") {
            nth_piece(line, "export const", 1)
        } else {
            nth_piece(line, "const ", 1)
        };
        ops::string_of(ops::trim(nth_piece(after, "=", 0)))
    }

    /// The name of the function that a line of Python defines.
    fn extract_py_fn_name(line: &[char]) -> (r: String)
        ensures
            r@ == py_fn_name(line@),
    {
        proof {
            reveal_strlit("def ");
            reveal_strlit("(");
        }
        ops::string_of(ops::trim(nth_piece(nth_piece(line, "def ", 1), "(", 0)))
    }

    /// The name of the class that a line of Python defines.
    fn extract_py_class_name(line: &[char]) -> (r: String)
        ensures
            r@ == py_class_name(line@),
    {
        proof {
            reveal_strlit("class ");
            reveal_strlit("(");
            reveal_strlit(":");
        }
        let after = nth_piece(line, "class ", 1);
        ops::string_of(ops::trim(nth_piece(nth_piece(after, "(", 0), ":", 0)))
    }

    fn parse_rust(source: &str, file_path: &FilePath) -> (r: Vec<CodeBlock>)
        requires
            rust_lines_balanced(model::lines(source@)),
        ensures
            block_models(r@) == rust_blocks(file_path@, source@),
    {
        let chars = ops::chars_of(source);
        let lines = ops::lines(chars.as_slice());
        let ghost texts = model::lines(source@);
        let total: usize = chars.len();
        let mut blocks: Vec<CodeBlock> = Vec::new();
        let mut current: Option<CodeBlock> = None;
        let mut depth: usize = 0;
        let mut impl_depth: usize = 0;
        proof {
            lemmas::lemma_lines_total(source@);
            assert(texts.take(texts.len() as int) =~= texts);
            assert(model::slices(lines@) == texts);
            assert(block_models(blocks@) =~= Seq::empty());
        }
        let mut at: usize = 0;
        while at < lines.len()
            invariant
                at <= lines@.len(),
                texts == model::slices(lines@),
                rust_lines_balanced(texts),
                lemmas::total_len(texts.take(texts.len() as int)) <= total,
                depth <= lemmas::total_len(texts.take(at as int)),
                impl_depth <= lemmas::total_len(texts.take(at as int)),
                (Scan {
                    blocks: block_models(blocks@),
                    current: opt_block(current),
                    depth: depth as nat,
                    impl_depth: impl_depth as nat,
                }) == rust_scan(file_path@, texts, at as nat),
            decreases lines@.len() - at,
        {
            let line = lines[at];
            let t = ops::trim(line);
            assert(texts[at as int] == line@);
            proof {
                lemmas::lemma_trim_len(line@);
                lemmas::lemma_count_bound(t@, '{');
                assert(texts.take(at + 1).drop_last() =~= texts.take(at as int));
                lemmas::lemma_total_len_prefix(texts, at + 1, texts.len() as int);
            }
            let in_impl = impl_depth > 0;
            if in_impl || (ops::starts_with(t, "impl ") && ops::contains(t, "{")) {
                let up: usize = impl_depth + ops::count(t, '{');
                let down: usize = ops::count(t, '}');
                impl_depth = if up >= down {
                    up - down
                } else {
                    0
                };
            }
            if ops::starts_with(t, "pub fn ") || ops::starts_with(t, "fn ") || ops::starts_with(
                t,
                "pub async fn ",
            ) || ops::starts_with(t, "async fn ") {
                let name = Self::extract_rust_fn_name(t);
                let kind = if in_impl {
                    CodeBlockKind::Method
                } else if ops::starts_with(ops::chars_of(name.as_str()).as_slice(), "test_")
                    || ops::contains(t, "#[test]") {
                    CodeBlockKind::Test
                } else {
                    CodeBlockKind::Function
                };
                current = Some(open_block(file_path, kind, name, line, at));
                let up: usize = ops::count(t, '{');
                let down: usize = ops::count(t, '}');
                depth = up - down;
            } else if ops::starts_with(t, "pub struct ") || ops::starts_with(t, "struct ")
                || ops::starts_with(t, "pub enum ") || ops::starts_with(t, "enum ") {
                proof {
                    reveal_strlit("pub struct ");
                    reveal_strlit("struct ");
                    reveal_strlit("pub enum ");
                    reveal_strlit("enum ");
                    assert(t@.len() > 0 && t@[0] != '{') by {
                        assert(t@[0] == t@.take(11)[0] || t@[0] == t@.take(7)[0] || t@[0]
                            == t@.take(9)[0] || t@[0] == t@.take(5)[0]);
                    }
                }
                let name = Self::extract_rust_type_name(t);
                current = Some(open_block(file_path, CodeBlockKind::Class, name, line, at));
                depth = ops::count(t, '{') + 1;
            } else if ops::starts_with(t, "pub trait ") || ops::starts_with(t, "trait ") {
                let name = Self::extract_rust_type_name(t);
                current = Some(open_block(file_path, CodeBlockKind::Trait, name, line, at));
                depth = ops::count(t, '{');
            } else {
                depth = add_line(&mut blocks, &mut current, depth, line, t, at);
            }
            at = at + 1;
        }
        blocks
    }

    /// The name of the function that a line of Rust defines.
    fn extract_rust_fn_name(line: &[char]) -> (r: String)
        ensures
            r@ == rust_fn_name(line@),
    {
        proof {
            reveal_strlit("async fn");
            reveal_strlit(" fn ");
            reveal_strlit("(");
        }
        let after = if ops::contains(line, "async fn") {
            nth_piece(line, "async fn", 1)
        } else {
            nth_piece(line, " fn ", 1)
        };
        ops::string_of(ops::trim_start_any(ops::trim(nth_piece(after, "(", 0)), "<"))
    }

    /// The name of the type that a line of Rust defines.
    fn extract_rust_type_name(line: &[char]) -> (r: String)
        ensures
            r@ == rust_type_name(line@),
    {
        let words = ops::split_whitespace(line);
        let ghost texts = model::slices(words@);
        let mut i: usize = 0;
        while i < words.len()
            invariant
                i <= words@.len(),
                texts == model::slices(words@),
                texts == model::split_whitespace(line@),
                rust_type_name(line@) == type_name_from(texts, i as int),
            decreases words@.len() - i,
        {
            assert(texts[i as int] == words@[i as int]@);
            if ops::is_text(words[i], "struct") || ops::is_text(words[i], "enum") || ops::is_text(
                words[i],
                "trait",
            ) {
                if i + 1 < words.len() {
                    assert(texts[i + 1] == words@[i + 1]@);
                    return ops::string_of(
                        ops::trim_end_any(ops::trim_end_any(words[i + 1], "<"), "{"),
                    );
                }
                return String::new();
            }
            i = i + 1;
        }
        String::new()
    }
}

/// The lines from `a` up to `b`, each with its line feed.
pub open spec fn quoted(lines: Seq<Seq<char>>, a: nat, b: nat) -> Seq<char>
    decreases b,
{
    if b <= a {
        Seq::empty()
    } else {
        quoted(lines, a, (b - 1) as nat) + lines[b - 1] + "\n"@
    }
}

/// The block quotes the lines that it says it spans, and is identified by its
/// file, its name and its first line.
pub open spec fn well_placed(b: BlockModel, file_path: Seq<char>, lines: Seq<Seq<char>>) -> bool {
    &&& b.start_line <= b.end_line < lines.len()
    &&& b.source == quoted(lines, b.start_line, b.end_line + 1)
    &&& b.file_path == file_path
    &&& b.id == block_id(file_path, b.name, b.start_line)
}

/// Every block found so far is well placed, and the open one ends with the
/// line before `n`.
spec fn scan_placed(st: Scan, file_path: Seq<char>, lines: Seq<Seq<char>>, n: nat) -> bool {
    &&& forall|i: int| 0 <= i < st.blocks.len() ==> well_placed(
        #[trigger] st.blocks[i],
        file_path,
        lines,
    )
    &&& st.current matches Some(b) ==> well_placed(b, file_path, lines) && b.end_line + 1 == n
}

proof fn lemma_opened_placed(
    file_path: Seq<char>,
    kind: CodeBlockKind,
    name: Seq<char>,
    lines: Seq<Seq<char>>,
    at: nat,
)
    requires
        at < lines.len(),
    ensures
        well_placed(opened(file_path, kind, name, lines[at as int], at), file_path, lines),
{
    reveal_with_fuel(quoted, 2);
    assert(Seq::<char>::empty() + lines[at as int] =~= lines[at as int]);
}

proof fn lemma_rust_placed(file_path: Seq<char>, lines: Seq<Seq<char>>, n: nat)
    requires
        n <= lines.len(),
    ensures
        scan_placed(rust_scan(file_path, lines, n), file_path, lines, n),
    decreases n,
{
    if n > 0 {
        let at = (n - 1) as nat;
        lemma_rust_placed(file_path, lines, at);
        let st = rust_scan(file_path, lines, n);
        if let Some(b) = st.current {
            lemma_opened_placed(file_path, b.kind, b.name, lines, at);
        }
    }
}

proof fn lemma_js_placed(file_path: Seq<char>, lines: Seq<Seq<char>>, n: nat)
    requires
        n <= lines.len(),
    ensures
        scan_placed(js_scan(file_path, lines, n), file_path, lines, n),
    decreases n,
{
    if n > 0 {
        let at = (n - 1) as nat;
        lemma_js_placed(file_path, lines, at);
        let st = js_scan(file_path, lines, n);
        if let Some(b) = st.current {
            lemma_opened_placed(file_path, b.kind, b.name, lines, at);
        }
    }
}

proof fn lemma_py_placed(file_path: Seq<char>, lines: Seq<Seq<char>>, n: nat)
    requires
        n <= lines.len(),
    ensures
        scan_placed(py_scan(file_path, lines, n), file_path, lines, n),
    decreases n,
{
    if n > 0 {
        let at = (n - 1) as nat;
        lemma_py_placed(file_path, lines, at);
        let st = py_scan(file_path, lines, n);
        if let Some(b) = st.current {
            lemma_opened_placed(file_path, b.kind, b.name, lines, at);
        }
    }
}

/// Every block that is found in Rust, TypeScript, JavaScript or Python lies
/// within the file, quotes exactly the lines that it says it spans, and is
/// identified by its file, its name and its first line.
pub proof fn law_blocks_quote_the_source(
    source: Seq<char>,
    file_path: Seq<char>,
    language: Language,
    i: int,
)
    requires
        language == Language::Rust || language == Language::TypeScript || language
            == Language::JavaScript || language == Language::Python,
        0 <= i < blocks_of(source, file_path, language).len(),
    ensures
        well_placed(blocks_of(source, file_path, language)[i], file_path, model::lines(source)),
{
    let lines = model::lines(source);
    lemma_rust_placed(file_path, lines, lines.len());
    lemma_js_placed(file_path, lines, lines.len());
    lemma_py_placed(file_path, lines, lines.len());
}

/// A function is a method exactly where an `impl` block is open, whatever stood in the
/// block before it; the block is open until its own braces are closed.
pub proof fn law_functions_in_impl_are_methods(
    file_path: Seq<char>,
    lines: Seq<Seq<char>>,
    n: nat,
)
    requires
        n < lines.len(),
        opens_rust_fn(model::trim(lines[n as int])),
    ensures
        ({
            let before = rust_scan(file_path, lines, n);
            let after = rust_scan(file_path, lines, n + 1);
            &&& after.current matches Some(b)
            &&& b.kind == CodeBlockKind::Method <==> before.impl_depth > 0
            &&& before.impl_depth > 0 ==> after.impl_depth == depth_after(
                before.impl_depth,
                model::trim(lines[n as int]),
            )
        }),
{
}

/// A line of Python that opens a block.
pub open spec fn opens_py_block(line: Seq<char>) -> bool {
    model::starts_with(model::trim(line), "def "@) || model::starts_with(
        model::trim(line),
        "class "@,
    )
}

/// A line of Python that stays in a block that was opened at an indentation: it is
/// blank, a comment, or indented further.
pub open spec fn stays_in_py_block(line: Seq<char>, opened_at: nat) -> bool {
    ||| model::trim(line).len() == 0
    ||| model::trim(line)[0] == '#'
    ||| indent(line) > opened_at
}

/// A line that begins with blanks is indented by as many as there are.
pub proof fn law_blanks_indent(n: nat, rest: Seq<char>)
    requires
        rest.len() > 0,
        !model::is_white(rest[0]),
    ensures
        indent(Seq::new(n, |i: int| ' ') + rest) == n,
{
    let head = Seq::new(n, |i: int| ' ');
    lemma_blanks(n, rest);
    lemmas::lemma_byte_len_concat(head, rest);
    lemma_blank_bytes(n);
}

proof fn lemma_blanks(n: nat, rest: Seq<char>)
    requires
        rest.len() > 0,
        !model::is_white(rest[0]),
    ensures
        model::trim_start(Seq::new(n, |i: int| ' ') + rest) == rest,
    decreases n,
{
    let s = Seq::new(n, |i: int| ' ') + rest;
    if n == 0 {
        assert(s =~= rest);
    } else {
        assert(s[0] == ' ');
        assert(s.skip(1) =~= Seq::new((n - 1) as nat, |i: int| ' ') + rest);
        lemma_blanks((n - 1) as nat, rest);
    }
}

proof fn lemma_blank_bytes(n: nat)
    ensures
        model::byte_len(Seq::new(n, |i: int| ' ')) == n,
    decreases n,
{
    let s = Seq::new(n, |i: int| ' ');
    if n > 0 {
        assert(s.drop_last() =~= Seq::new((n - 1) as nat, |i: int| ' '));
        lemma_blank_bytes((n - 1) as nat);
    }
}

/// The blocks that are complete stay, whatever lines follow.
proof fn lemma_py_keeps(file_path: Seq<char>, lines: Seq<Seq<char>>, m: nat, n: nat)
    requires
        m <= n,
    ensures
        ({
            let a = py_scan(file_path, lines, m).blocks;
            let b = py_scan(file_path, lines, n).blocks;
            a.len() <= b.len() && forall|k: int| 0 <= k < a.len() ==> #[trigger] b[k] == a[k]
        }),
    decreases n - m,
{
    if m < n {
        lemma_py_keeps(file_path, lines, m, (n - 1) as nat);
    }
}

proof fn lemma_py_open(file_path: Seq<char>, lines: Seq<Seq<char>>, a: nat, n: nat)
    requires
        a < n <= lines.len(),
        opens_py_block(lines[a as int]),
        forall|j: int|
            a < j < n ==> !opens_py_block(#[trigger] lines[j]) && stays_in_py_block(
                lines[j],
                indent(lines[a as int]),
            ),
    ensures
        ({
            let st = py_scan(file_path, lines, n);
            let first = py_scan(file_path, lines, a + 1).current->0;
            &&& st.current matches Some(b) && b.start_line == a && b.end_line + 1 == n && b.kind
                == first.kind && b.name == first.name
            &&& st.depth == indent(lines[a as int])
        }),
    decreases n,
{
    if n > a + 1 {
        lemma_py_open(file_path, lines, a, (n - 1) as nat);
        let t = model::trim(lines[n - 1]);
        assert(stays_in_py_block(lines[n - 1], indent(lines[a as int])));
        reveal_strlit("#");
        if t.len() > 0 && t[0] == '#' {
            assert(t.take(1) =~= "#"@);
        }
    }
}

/// A block of Python spans its body: from the line that opens it through every line
/// that stays in it, and it ends before the first line that does not, or that opens
/// another block.
pub proof fn law_python_block_spans_its_body(
    source: Seq<char>,
    file_path: Seq<char>,
    a: nat,
    b: nat,
) -> (k: int)
    requires
        a < b <= model::lines(source).len(),
        opens_py_block(model::lines(source)[a as int]),
        forall|j: int|
            a < j < b ==> !opens_py_block(#[trigger] model::lines(source)[j]) && stays_in_py_block(
                model::lines(source)[j],
                indent(model::lines(source)[a as int]),
            ),
        b == model::lines(source).len() || opens_py_block(model::lines(source)[b as int])
            || !stays_in_py_block(
            model::lines(source)[b as int],
            indent(model::lines(source)[a as int]),
        ),
    ensures
        ({
            let v = blocks_of(source, file_path, Language::Python);
            &&& 0 <= k < v.len()
            &&& v[k].start_line == a
            &&& v[k].end_line == b - 1
            &&& v[k].source == quoted(model::lines(source), a, b)
            &&& v[k].kind == CodeBlockKind::Class <==> model::starts_with(
                model::trim(model::lines(source)[a as int]),
                "class "@,
            )
            &&& v[k].kind == CodeBlockKind::Class ==> v[k].name == py_class_name(
                model::trim(model::lines(source)[a as int]),
            )
            &&& v[k].kind != CodeBlockKind::Class ==> v[k].name == py_fn_name(
                model::trim(model::lines(source)[a as int]),
            )
            &&& v[k].kind == CodeBlockKind::Class || (v[k].kind == CodeBlockKind::Test
                <==> model::starts_with(v[k].name, "test_"@))
            &&& v[k].kind == CodeBlockKind::Class || v[k].kind == CodeBlockKind::Test || v[k].kind
                == CodeBlockKind::Function
        }),
{
    let lines = model::lines(source);
    let n = lines.len();
    lemma_py_open(file_path, lines, a, b);
    lemma_py_placed(file_path, lines, b);
    let st = py_scan(file_path, lines, b);
    let block = st.current->0;
    let k = st.blocks.len() as int;
    let all = closed_off(py_scan(file_path, lines, n));
    if b < n {
        let t = model::trim(lines[b as int]);
        reveal_strlit("#");
        if t.len() > 0 && model::starts_with(t, "#"@) {
            assert(t.take(1)[0] == t[0]);
        }
        let next = py_scan(file_path, lines, b + 1);
        assert(next.blocks == st.blocks.push(block));
        lemma_py_keeps(file_path, lines, b + 1, n);
        assert(next.blocks[k] == block);
        assert(all[k] == block);
    } else {
        assert(all[k] == block);
    }
    k
}

/// The braces that are open behind some lines, from line `a` on.
pub open spec fn open_braces(lines: Seq<Seq<char>>, a: nat, b: nat) -> int
    decreases b,
{
    if b <= a {
        0
    } else {
        open_braces(lines, a, (b - 1) as nat) + model::count(model::trim(lines[b - 1]), '{')
            - model::count(model::trim(lines[b - 1]), '}')
    }
}

/// A line that begins, behind white space, with a text.
pub open spec fn line_begins(line: Seq<char>, p: Seq<char>) -> bool {
    model::starts_with(model::trim(line), p)
}

/// A line of Rust that begins a function.
pub open spec fn begins_rust_fn(line: Seq<char>) -> bool {
    line_begins(line, "fn "@) || line_begins(line, "pub fn "@) || line_begins(line, "async fn "@)
        || line_begins(line, "pub async fn "@)
}

/// A line of Rust that begins a type or a trait.
pub open spec fn begins_rust_type(line: Seq<char>) -> bool {
    line_begins(line, "struct "@) || line_begins(line, "pub struct "@) || line_begins(
        line,
        "enum "@,
    ) || line_begins(line, "pub enum "@) || line_begins(line, "trait "@) || line_begins(
        line,
        "pub trait "@,
    )
}

proof fn lemma_rust_open(file_path: Seq<char>, lines: Seq<Seq<char>>, a: nat, n: nat)
    requires
        a < n <= lines.len(),
        begins_rust_fn(lines[a as int]),
        forall|j: int|
            a < j < n ==> !begins_rust_fn(#[trigger] lines[j]) && !begins_rust_type(lines[j]),
        forall|j: nat| a < j <= n ==> #[trigger] open_braces(lines, a, j) > 0,
    ensures
        ({
            let st = rust_scan(file_path, lines, n);
            let first = rust_scan(file_path, lines, a + 1).current->0;
            &&& st.current matches Some(b) && b.start_line == a && b.end_line + 1 == n && b.kind
                == first.kind && b.name == first.name
            &&& st.depth == open_braces(lines, a, n)
        }),
    decreases n,
{
    reveal_with_fuel(open_braces, 2);
    assert(open_braces(lines, a, n) > 0);
    if n > a + 1 {
        lemma_rust_open(file_path, lines, a, (n - 1) as nat);
        assert(!begins_rust_fn(lines[n - 1]));
    } else {
        assert(open_braces(lines, a, a) == 0);
    }
}

proof fn lemma_rust_keeps(file_path: Seq<char>, lines: Seq<Seq<char>>, m: nat, n: nat)
    requires
        m <= n,
    ensures
        ({
            let a = rust_scan(file_path, lines, m).blocks;
            let b = rust_scan(file_path, lines, n).blocks;
            a.len() <= b.len() && forall|k: int| 0 <= k < a.len() ==> #[trigger] b[k] == a[k]
        }),
    decreases n - m,
{
    if m < n {
        lemma_rust_keeps(file_path, lines, m, (n - 1) as nat);
    }
}

/// A function of Rust spans its body: where its first line leaves a brace open, the block
/// goes on to the first line that closes the last of them, and not further.
pub proof fn law_rust_function_spans_its_body(
    source: Seq<char>,
    file_path: Seq<char>,
    a: nat,
    b: nat,
) -> (k: int)
    requires
        a < b < model::lines(source).len(),
        begins_rust_fn(model::lines(source)[a as int]),
        forall|j: int|
            a < j <= b ==> !begins_rust_fn(#[trigger] model::lines(source)[j]) && !begins_rust_type(
                model::lines(source)[j],
            ),
        forall|j: nat| a < j <= b ==> #[trigger] open_braces(model::lines(source), a, j) > 0,
        open_braces(model::lines(source), a, b + 1) <= 0,
    ensures
        ({
            let v = blocks_of(source, file_path, Language::Rust);
            &&& 0 <= k < v.len()
            &&& v[k].start_line == a
            &&& v[k].end_line == b
            &&& v[k].source == quoted(model::lines(source), a, b + 1)
            &&& v[k].kind == CodeBlockKind::Function || v[k].kind == CodeBlockKind::Method
                || v[k].kind == CodeBlockKind::Test
            &&& v[k].name == rust_fn_name(model::trim(model::lines(source)[a as int]))
            &&& v[k].kind == CodeBlockKind::Method <==> rust_scan(
                file_path,
                model::lines(source),
                a,
            ).impl_depth > 0
            &&& v[k].kind == CodeBlockKind::Test ==> model::starts_with(v[k].name, "test_"@)
                || model::contains(model::trim(model::lines(source)[a as int]), "#[test]"@)
            &&& v[k].kind == CodeBlockKind::Function ==> !model::starts_with(v[k].name, "test_"@)
                && !model::contains(model::trim(model::lines(source)[a as int]), "#[test]"@)
        }),
{
    let lines = model::lines(source);
    let n = lines.len();
    lemma_rust_open(file_path, lines, a, b);
    lemma_rust_placed(file_path, lines, b + 1);
    let st = rust_scan(file_path, lines, b);
    let k = st.blocks.len() as int;
    let next = rust_scan(file_path, lines, b + 1);
    assert(!begins_rust_fn(lines[b as int]));
    assert(next.blocks.len() == k + 1);
    assert(next.blocks[k].end_line == b);
    lemma_rust_keeps(file_path, lines, b + 1, n);
    assert(rust_scan(file_path, lines, n).blocks[k] == next.blocks[k]);
    k
}

/// A line of JavaScript that begins a function or a class.
pub open spec fn begins_js_block(line: Seq<char>) -> bool {
    line_begins(line, "function "@) || line_begins(line, "export function "@) || line_begins(
        line,
        "async function "@,
    ) || line_begins(line, "export async function "@) || line_begins(line, "class "@)
        || line_begins(line, "export class "@) || line_begins(line, "export default class "@)
}

/// A line of JavaScript that begins a constant.
pub open spec fn begins_js_const(line: Seq<char>) -> bool {
    line_begins(line, "const "@) || line_begins(line, "export const "@)
}

proof fn lemma_js_open(file_path: Seq<char>, lines: Seq<Seq<char>>, a: nat, n: nat)
    requires
        a < n <= lines.len(),
        begins_js_block(lines[a as int]),
        model::count(model::trim(lines[a as int]), '}') == 0,
        forall|j: int|
            a < j < n ==> !begins_js_block(#[trigger] lines[j]) && !begins_js_const(lines[j]),
        forall|j: nat| a < j <= n ==> #[trigger] open_braces(lines, a, j) > 0,
    ensures
        ({
            let st = js_scan(file_path, lines, n);
            let first = js_scan(file_path, lines, a + 1).current->0;
            &&& st.current matches Some(b) && b.start_line == a && b.end_line + 1 == n && b.kind
                == first.kind && b.name == first.name
            &&& st.depth == open_braces(lines, a, n)
        }),
    decreases n,
{
    reveal_with_fuel(open_braces, 2);
    assert(open_braces(lines, a, n) > 0);
    if n > a + 1 {
        lemma_js_open(file_path, lines, a, (n - 1) as nat);
        assert(!begins_js_block(lines[n - 1]));
    } else {
        assert(open_braces(lines, a, a) == 0);
    }
}

proof fn lemma_js_keeps(file_path: Seq<char>, lines: Seq<Seq<char>>, m: nat, n: nat)
    requires
        m <= n,
    ensures
        ({
            let a = js_scan(file_path, lines, m).blocks;
            let b = js_scan(file_path, lines, n).blocks;
            a.len() <= b.len() && forall|k: int| 0 <= k < a.len() ==> #[trigger] b[k] == a[k]
        }),
    decreases n - m,
{
    if m < n {
        lemma_js_keeps(file_path, lines, m, (n - 1) as nat);
    }
}

/// A function or a class of TypeScript or JavaScript spans its body: where its first line
/// opens a brace and closes none, the block goes on to the first line that closes the
/// last of them, and not further.
pub proof fn law_js_block_spans_its_body(
    source: Seq<char>,
    file_path: Seq<char>,
    language: Language,
    a: nat,
    b: nat,
) -> (k: int)
    requires
        language == Language::TypeScript || language == Language::JavaScript,
        a < b < model::lines(source).len(),
        begins_js_block(model::lines(source)[a as int]),
        model::count(model::trim(model::lines(source)[a as int]), '}') == 0,
        forall|j: int|
            a < j <= b ==> !begins_js_block(#[trigger] model::lines(source)[j]) && !begins_js_const(
                model::lines(source)[j],
            ),
        forall|j: nat| a < j <= b ==> #[trigger] open_braces(model::lines(source), a, j) > 0,
        open_braces(model::lines(source), a, b + 1) <= 0,
    ensures
        ({
            let v = blocks_of(source, file_path, language);
            let first = model::lines(source)[a as int];
            &&& 0 <= k < v.len()
            &&& v[k].start_line == a
            &&& v[k].end_line == b
            &&& v[k].source == quoted(model::lines(source), a, b + 1)
            &&& line_begins(first, "function "@) ==> v[k].kind == CodeBlockKind::Function
            &&& line_begins(first, "class "@) && !line_begins(first, "function "@)
                && !line_begins(first, "export function "@) && !line_begins(
                first,
                "async function "@,
            ) && !line_begins(first, "export async function "@) ==> v[k].kind
                == CodeBlockKind::Class
            &&& v[k].kind == CodeBlockKind::Function ==> v[k].name == js_fn_name(model::trim(first))
            &&& v[k].kind != CodeBlockKind::Function ==> v[k].kind == CodeBlockKind::Class
                && v[k].name == js_class_name(model::trim(first))
        }),
{
    let lines = model::lines(source);
    let n = lines.len();
    lemma_js_open(file_path, lines, a, b);
    lemma_js_placed(file_path, lines, b + 1);
    let st = js_scan(file_path, lines, b);
    let k = st.blocks.len() as int;
    let next = js_scan(file_path, lines, b + 1);
    assert(!begins_js_block(lines[b as int]));
    assert(next.blocks.len() == k + 1);
    assert(next.blocks[k].end_line == b);
    lemma_js_keeps(file_path, lines, b + 1, n);
    assert(js_scan(file_path, lines, n).blocks[k] == next.blocks[k]);
    k
}

/// The piece of a text behind the first place of a mark, up to an opening parenthesis.
proof fn lemma_name_after(s: Seq<char>, p: Seq<char>, i: int, named: Seq<char>, rest: Seq<char>)
    requires
        p.len() > 0,
        model::find(s, p) == Some(i),
        0 <= i,
        i + p.len() <= s.len(),
        s.skip(i + p.len()) == named + seq!['('] + rest,
        !named.contains('('),
        !p.contains('('),
        forall|k: int|
            0 <= k < named.len() ==> !(#[trigger] model::occurs_at(s.skip(i + p.len()), p, k)),
    ensures
        piece(piece(s, p, 1), "("@, 0) == named,
{
    reveal_strlit("(");
    assert("("@ =~= seq!['(']);
    let after = s.skip(i + p.len());
    let n = named.len() as int;
    lemmas::lemma_find_sound(after, p, 0);
    let first = model::split(after, p)[0];
    assert(model::split(s, p) == seq![s.take(i)] + model::split(after, p));
    lemmas::lemma_join_split(after, p);
    assert(piece(s, p, 1) == first);
    match model::find(after, p) {
        Some(j) => {
            assert(j >= n);
            assert(after[n] == '(');
            if j == n {
                assert(after.subrange(j, j + p.len())[0] == p[0]);
                assert(p.contains(p[0]));
            }
            let more = rest.take(j - n - 1);
            assert(first =~= named + seq!['('] + more);
            lemmas::lemma_split_first(named, '(', more);
        },
        None => {
            lemmas::lemma_split_first(named, '(', rest);
        },
    }
}

/// A name as it stands in source code.
pub open spec fn is_name(s: Seq<char>) -> bool {
    &&& s.len() > 0
    &&& !s.contains('(')
    &&& forall|i: int| 0 <= i < s.len() ==> !model::is_white(#[trigger] s[i])
}

/// A function of Python is named by what stands between `def` and the parenthesis, and
/// one whose name begins with `test_` is a test.
pub proof fn law_python_function_is_named(name: Seq<char>, rest: Seq<char>)
    requires
        is_name(name),
    ensures
        py_fn_name("def "@ + name + "("@ + rest) == name,
{
    reveal_strlit("def ");
    reveal_strlit("(");
    let s = "def "@ + name + "("@ + rest;
    let p = "def "@;
    assert(s.subrange(0, 4) =~= p);
    lemmas::lemma_find_first(s, p, 0, 0);
    assert(s.skip(4) =~= name + seq!['('] + rest);
    assert forall|k: int| 0 <= k < name.len() implies !model::occurs_at(s.skip(4), p, k) by {
        if model::occurs_at(s.skip(4), p, k) {
            let found = s.skip(4).subrange(k, k + 4);
            assert(forall|j: int| 0 <= j < 4 ==> #[trigger] found[j] == s.skip(4)[k + j]);
            assert(found[3] == p[3]);
            if k + 3 < name.len() {
                assert(s.skip(4)[k + 3] == name[k + 3]);
            } else {
                let q = name.len() - k;
                assert(s.skip(4)[k + q] == '(');
                assert(found[q] == p[q]);
            }
        }
    }
    lemma_name_after(s, p, 0, name, rest);
    lemmas::lemma_trim_nothing(name);
}

/// A public function of Rust is named by what stands between `fn` and the parenthesis.
pub proof fn law_rust_function_is_named(name: Seq<char>, rest: Seq<char>)
    requires
        is_name(name),
        name[0] != '<',
        !model::contains("pub fn "@ + name + "("@ + rest, "async fn"@),
    ensures
        rust_fn_name("pub fn "@ + name + "("@ + rest) == name,
{
    reveal_strlit("pub fn ");
    reveal_strlit(" fn ");
    reveal_strlit("(");
    reveal_strlit("<");
    let s = "pub fn "@ + name + "("@ + rest;
    let p = " fn "@;
    assert forall|k: int| 0 <= k < 3 implies !model::occurs_at(s, p, k) by {
        if model::occurs_at(s, p, k) {
            assert(s.subrange(k, k + 4)[0] == s[k]);
            assert(s[k] == "pub fn "@[k]);
        }
    }
    assert(s.subrange(3, 7) =~= p);
    lemmas::lemma_find_first(s, p, 3, 0);
    assert(s.skip(7) =~= name + seq!['('] + rest);
    assert forall|k: int| 0 <= k < name.len() implies !model::occurs_at(s.skip(7), p, k) by {
        if model::occurs_at(s.skip(7), p, k) {
            assert(s.skip(7).subrange(k, k + 4)[0] == name[k]);
        }
    }
    lemma_name_after(s, p, 3, name, rest);
    lemmas::lemma_trim_nothing(name);
    assert(!"<"@.contains(name[0]));
    lemmas::lemma_trim_start_any_all(Seq::empty(), name, "<"@);
    assert(Seq::<char>::empty() + name =~= name);
}

/// A function of JavaScript is named by what stands between `function` and the
/// parenthesis.
pub proof fn law_js_function_is_named(name: Seq<char>, rest: Seq<char>)
    requires
        is_name(name),
        !model::contains(" "@ + name + "("@, "function"@),
        !model::contains("function "@ + name + "("@ + rest, "async function"@),
    ensures
        js_fn_name("function "@ + name + "("@ + rest) == name,
{
    reveal_strlit("function ");
    reveal_strlit("function");
    reveal_strlit("(");
    reveal_strlit(" ");
    let s = "function "@ + name + "("@ + rest;
    let p = "function"@;
    assert(s.subrange(0, 8) =~= p);
    lemmas::lemma_find_first(s, p, 0, 0);
    let named = seq![' '] + name;
    assert(s.skip(8) =~= named + seq!['('] + rest);
    let near = " "@ + name + "("@;
    assert forall|k: int| 0 <= k < named.len() implies !model::occurs_at(s.skip(8), p, k) by {
        if model::occurs_at(s.skip(8), p, k) {
            let found = s.skip(8).subrange(k, k + 8);
            assert(forall|j: int| 0 <= j < 8 ==> #[trigger] found[j] == s.skip(8)[k + j]);
            if k + 8 <= named.len() {
                assert(near.subrange(k, k + 8) =~= found);
                lemmas::lemma_found(near, p, 0, k);
            } else {
                let q = named.len() - k;
                assert(s.skip(8)[k + q] == '(');
                assert(found[q] == p[q]);
            }
        }
    }
    assert(!named.contains('(')) by {
        if named.contains('(') {
            let k = choose|k: int| 0 <= k < named.len() && named[k] == '(';
            assert(name[k - 1] == '(');
        }
    }
    lemma_name_after(s, p, 0, named, rest);
    lemmas::lemma_trim_nothing(name);
    assert(named.skip(1) =~= name);
    reveal_with_fuel(model::trim_start, 2);
}

/// A file of another language is one block that holds all of it.
pub proof fn law_other_files_are_one_block(source: Seq<char>, file_path: Seq<char>, language: Language)
    requires
        language != Language::Rust,
        language != Language::TypeScript,
        language != Language::JavaScript,
        language != Language::Python,
    ensures
        blocks_of(source, file_path, language).len() == 1,
        blocks_of(source, file_path, language)[0].source == source,
        blocks_of(source, file_path, language)[0].start_line == 0,
        model::lines(source).len() > 0 ==> blocks_of(source, file_path, language)[0].end_line + 1
            == model::lines(source).len(),
        blocks_of(source, file_path, language)[0].kind == CodeBlockKind::Other,
{
}

/// What a block is searched by begins with its name, and holds its documentation and
/// the mark of its kind; what is embedded goes on with the code, all of it where it is
/// short.
pub proof fn law_blocks_are_searched_by_name(b: BlockModel)
    ensures
        model::starts_with(search_text(b), b.name),
        b.doc_comment matches Some(d) ==> model::contains(search_text(b), d),
        b.kind == CodeBlockKind::Function ==> model::contains(search_text(b), "[function]"@),
        b.kind == CodeBlockKind::Method ==> model::contains(search_text(b), "[method]"@),
        b.kind == CodeBlockKind::Class ==> model::contains(search_text(b), "[class]"@),
        b.kind == CodeBlockKind::Trait ==> model::contains(search_text(b), "[trait]"@),
        b.kind == CodeBlockKind::Test ==> model::contains(search_text(b), "[test]"@),
        model::starts_with(embedding_text(b), search_text(b)),
        model::byte_len(b.source) <= 2000 ==> model::ends_with(embedding_text(b), b.source),
{
    reveal_strlit("[function]");
    reveal_strlit("[method]");
    reveal_strlit("[class]");
    reveal_strlit("[trait]");
    reveal_strlit("[constant]");
    reveal_strlit("[test]");
    reveal_strlit("[doc]");
    let doc = match b.doc_comment {
        Some(d) => seq![d],
        None => Seq::empty(),
    };
    let signature = model::join(at_most(model::lines(b.source), 3), "\n"@);
    let label = if kind_label(b.kind).len() > 0 {
        seq![kind_label(b.kind)]
    } else {
        Seq::empty()
    };
    let parts = seq![b.name] + doc + seq![signature] + label;
    let tail = doc + seq![signature] + label;
    assert(parts =~= seq![b.name] + tail);
    lemmas::lemma_join_cons(b.name, tail, "\n"@);
    let s = search_text(b);
    assert(s.take(b.name.len() as int) =~= b.name);
    if let Some(d) = b.doc_comment {
        assert(parts[1] == d);
        lemma_holds_itself(d);
        lemmas::lemma_join_holds(parts, "\n"@, 1, d);
    }
    let mark = kind_label(b.kind);
    if mark.len() > 0 {
        assert(parts.last() == mark);
        lemma_holds_itself(mark);
        lemmas::lemma_join_holds(parts, "\n"@, parts.len() - 1, mark);
    }
    let e = embedding_text(b);
    assert(e.take(s.len() as int) =~= s);
    if model::byte_len(b.source) <= 2000 {
        assert(e.skip(e.len() - b.source.len()) =~= b.source);
    }
}

proof fn lemma_holds_itself(s: Seq<char>)
    ensures
        model::contains(s, s),
{
    assert(s.subrange(0, s.len() as int) =~= s);
    lemmas::lemma_found(s, s, 0, 0);
}

proof fn lemma_rust_type_open(file_path: Seq<char>, lines: Seq<Seq<char>>, a: nat, n: nat, extra: int)
    requires
        a < n <= lines.len(),
        !begins_rust_fn(lines[a as int]),
        begins_rust_type(lines[a as int]),
        model::count(model::trim(lines[a as int]), '}') == 0,
        extra == waited_for(lines[a as int]),
        forall|j: int|
            a < j < n ==> !begins_rust_fn(#[trigger] lines[j]) && !begins_rust_type(lines[j]),
        forall|j: nat| a < j <= n ==> #[trigger] open_braces(lines, a, j) + extra > 0,
    ensures
        ({
            let st = rust_scan(file_path, lines, n);
            let first = rust_scan(file_path, lines, a + 1).current->0;
            &&& st.current matches Some(b) && b.start_line == a && b.end_line + 1 == n && b.kind
                == first.kind && b.name == first.name
            &&& st.depth == open_braces(lines, a, n) + extra
        }),
    decreases n,
{
    reveal_with_fuel(open_braces, 2);
    assert(open_braces(lines, a, n) + extra > 0);
    if n > a + 1 {
        lemma_rust_type_open(file_path, lines, a, (n - 1) as nat, extra);
        assert(!begins_rust_fn(lines[n - 1]));
    } else {
        assert(open_braces(lines, a, a) == 0);
    }
}

/// How many closing braces a struct or an enum waits for beyond its own: one, since the
/// line that begins it may leave its opening brace to the next. A trait waits for none.
pub open spec fn waited_for(line: Seq<char>) -> int {
    if line_begins(line, "struct "@) || line_begins(line, "pub struct "@) || line_begins(
        line,
        "enum "@,
    ) || line_begins(line, "pub enum "@) {
        1
    } else {
        0
    }
}

/// A type or a trait of Rust that closes no brace in its first line spans the lines up to
/// the one that closes its last brace; for a struct or an enum, the one that closes one
/// brace more than it opened.
pub proof fn law_rust_type_spans_its_body(
    source: Seq<char>,
    file_path: Seq<char>,
    a: nat,
    b: nat,
) -> (k: int)
    requires
        a < b < model::lines(source).len(),
        !begins_rust_fn(model::lines(source)[a as int]),
        begins_rust_type(model::lines(source)[a as int]),
        model::count(model::trim(model::lines(source)[a as int]), '}') == 0,
        forall|j: int|
            a < j <= b ==> !begins_rust_fn(#[trigger] model::lines(source)[j]) && !begins_rust_type(
                model::lines(source)[j],
            ),
        forall|j: nat|
            a < j <= b ==> #[trigger] open_braces(model::lines(source), a, j) + waited_for(
                model::lines(source)[a as int],
            ) > 0,
        open_braces(model::lines(source), a, b + 1) + waited_for(model::lines(source)[a as int])
            <= 0,
    ensures
        ({
            let v = blocks_of(source, file_path, Language::Rust);
            let first = model::lines(source)[a as int];
            &&& 0 <= k < v.len()
            &&& v[k].start_line == a
            &&& v[k].end_line == b
            &&& v[k].source == quoted(model::lines(source), a, b + 1)
            &&& v[k].name == rust_type_name(model::trim(first))
            &&& waited_for(first) == 1 ==> v[k].kind == CodeBlockKind::Class
            &&& waited_for(first) == 0 ==> v[k].kind == CodeBlockKind::Trait
        }),
{
    let lines = model::lines(source);
    let n = lines.len();
    let extra = waited_for(lines[a as int]);
    lemma_rust_type_open(file_path, lines, a, b, extra);
    lemma_rust_placed(file_path, lines, b + 1);
    let st = rust_scan(file_path, lines, b);
    let k = st.blocks.len() as int;
    let next = rust_scan(file_path, lines, b + 1);
    assert(!begins_rust_fn(lines[b as int]));
    assert(next.blocks.len() == k + 1);
    assert(next.blocks[k].end_line == b);
    lemma_rust_keeps(file_path, lines, b + 1, n);
    assert(rust_scan(file_path, lines, n).blocks[k] == next.blocks[k]);
    k
}

/// A type of Rust is named by the word behind `struct`, `enum` or `trait`.
pub proof fn law_rust_type_is_named(line: Seq<char>, i: int)
    requires
        0 <= i,
        i + 1 < model::split_whitespace(line).len(),
        model::split_whitespace(line)[i] == "struct"@ || model::split_whitespace(line)[i]
            == "enum"@ || model::split_whitespace(line)[i] == "trait"@,
        forall|j: int|
            0 <= j < i ==> #[trigger] model::split_whitespace(line)[j] != "struct"@
                && model::split_whitespace(line)[j] != "enum"@ && model::split_whitespace(line)[j]
                != "trait"@,
        model::split_whitespace(line)[i + 1].len() > 0,
        model::split_whitespace(line)[i + 1].last() != '<',
        model::split_whitespace(line)[i + 1].last() != '{',
    ensures
        rust_type_name(line) == model::split_whitespace(line)[i + 1],
{
    let words = model::split_whitespace(line);
    let w = words[i + 1];
    lemma_type_name_from(words, 0, i);
    reveal_strlit("<");
    reveal_strlit("{");
    assert(!"<"@.contains(w.last()));
    assert(!"{"@.contains(w.last()));
    lemmas::lemma_trim_end_any_all(w, Seq::empty(), "<"@);
    lemmas::lemma_trim_end_any_all(w, Seq::empty(), "{"@);
    assert(w + Seq::<char>::empty() =~= w);
}

proof fn lemma_type_name_from(words: Seq<Seq<char>>, j: int, i: int)
    requires
        0 <= j <= i,
        i + 1 < words.len(),
        is_type_word(words[i]),
        forall|k: int| j <= k < i ==> !is_type_word(#[trigger] words[k]),
    ensures
        type_name_from(words, j) == without_brackets(words[i + 1]),
    decreases i - j,
{
    if j < i {
        assert(!is_type_word(words[j]));
        lemma_type_name_from(words, j + 1, i);
    }
}

/// What stands behind the only place of a mark at the beginning of a text.
proof fn lemma_piece_behind(p: Seq<char>, mid: Seq<char>)
    requires
        p.len() > 0,
        !model::contains(mid, p),
    ensures
        piece(p + mid, p, 1) == mid,
{
    let s = p + mid;
    assert(s.subrange(0, p.len() as int) =~= p);
    lemmas::lemma_find_first(s, p, 0, 0);
    assert(s.skip(p.len() as int) =~= mid);
    assert(model::split(mid, p) == seq![mid]);
    assert(model::split(s, p) == seq![s.take(0)] + model::split(mid, p));
}

/// A class of Python is named by what stands between `class` and the parenthesis or the
/// colon.
pub proof fn law_python_class_is_named(name: Seq<char>, rest: Seq<char>)
    requires
        is_name(name),
        !name.contains(':'),
    ensures
        !model::contains(name + ":"@ + rest, "class "@) ==> py_class_name(
            "class "@ + name + ":"@ + rest,
        ) == name,
        !model::contains(name + "("@ + rest, "class "@) ==> py_class_name(
            "class "@ + name + "("@ + rest,
        ) == name,
{
    reveal_strlit("class ");
    reveal_strlit(":");
    reveal_strlit("(");
    assert(":"@ =~= seq![':']);
    assert("("@ =~= seq!['(']);
    lemmas::lemma_trim_nothing(name);
    let m = name + ":"@ + rest;
    if !model::contains(m, "class "@) {
        lemma_piece_behind("class "@, m);
        assert("class "@ + m =~= "class "@ + name + ":"@ + rest);
        if rest.contains('(') {
            let k = rest.index_of_first('(')->0;
            rest.index_of_first_ensures('(');
            let a = name + ":"@ + rest.take(k);
            assert(!a.contains('(')) by {
                if a.contains('(') {
                    let j = choose|j: int| 0 <= j < a.len() && a[j] == '(';
                    if j < name.len() {
                        assert(name[j] == '(');
                    } else if j > name.len() {
                        assert(rest[j - name.len() - 1] == '(');
                    }
                }
            }
            assert(m =~= a + seq!['('] + rest.skip(k + 1));
            lemmas::lemma_split_first(a, '(', rest.skip(k + 1));
            assert(piece(m, "("@, 0) == a);
            lemmas::lemma_split_first(name, ':', rest.take(k));
        } else {
            assert(!m.contains('(')) by {
                if m.contains('(') {
                    let j = choose|j: int| 0 <= j < m.len() && m[j] == '(';
                    if j < name.len() {
                        assert(name[j] == '(');
                    } else if j > name.len() {
                        assert(rest[j - name.len() - 1] == '(');
                    }
                }
            }
            lemmas::lemma_split_single(m, '(');
            assert(piece(m, "("@, 0) == m);
            lemmas::lemma_split_first(name, ':', rest);
        }
    }
    let q = name + "("@ + rest;
    if !model::contains(q, "class "@) {
        lemma_piece_behind("class "@, q);
        assert("class "@ + q =~= "class "@ + name + "("@ + rest);
        lemmas::lemma_split_first(name, '(', rest);
        assert(piece(q, "("@, 0) == name);
        lemmas::lemma_split_single(name, ':');
    }
}

/// A class of JavaScript is named by what stands between `class` and the brace, without
/// what it extends.
pub proof fn law_js_class_is_named(name: Seq<char>, base: Seq<char>, rest: Seq<char>)
    requires
        is_name(name),
        !name.contains('{'),
        !base.contains('{'),
        !model::contains(" "@ + name + " "@, "extends"@),
    ensures
        !model::contains(" "@ + name + " {"@ + rest, "class"@) ==> js_class_name(
            "class "@ + name + " {"@ + rest,
        ) == name,
        !model::contains(" "@ + name + " extends "@ + base + "{"@ + rest, "class"@)
            && model::find(" "@ + name + " extends "@ + base, "extends"@) == Some(
            name.len() as int + 2,
        ) ==> js_class_name("class "@ + name + " extends "@ + base + "{"@ + rest) == name,
{
    reveal_strlit("class ");
    reveal_strlit("class");
    reveal_strlit("extends");
    reveal_strlit(" extends ");
    reveal_strlit("{");
    reveal_strlit(" {");
    reveal_strlit(" ");
    assert("{"@ =~= seq!['{']);
    assert(forall|i: int| 0 <= i < " "@.len() ==> model::is_white(#[trigger] " "@[i]));
    lemma_trimmed_name(name);
    let inner = " "@ + name + " "@;
    assert(!inner.contains('{')) by {
        if inner.contains('{') {
            let j = choose|j: int| 0 <= j < inner.len() && inner[j] == '{';
            if 0 < j <= name.len() {
                assert(name[j - 1] == '{');
            }
        }
    }
    let m = " "@ + name + " {"@ + rest;
    if !model::contains(m, "class"@) {
        lemma_piece_behind("class"@, m);
        assert("class"@ + m =~= "class "@ + name + " {"@ + rest);
        assert(m =~= inner + seq!['{'] + rest);
        lemmas::lemma_split_first(inner, '{', rest);
        assert(piece(m, "{"@, 0) == inner);
        assert(model::split(inner, "extends"@) == seq![inner]);
    }
    let q = " "@ + name + " extends "@ + base + "{"@ + rest;
    let part = " "@ + name + " extends "@ + base;
    if !model::contains(q, "class"@) && model::find(part, "extends"@) == Some(
        name.len() as int + 2,
    ) {
        lemma_piece_behind("class"@, q);
        assert("class"@ + q =~= "class "@ + name + " extends "@ + base + "{"@ + rest);
        assert(!part.contains('{')) by {
            if part.contains('{') {
                let j = choose|j: int| 0 <= j < part.len() && part[j] == '{';
                if j < inner.len() {
                    assert(inner[j] == '{');
                } else if j >= name.len() + 10 {
                    assert(base[j - name.len() - 10] == '{');
                }
            }
        }
        assert(q =~= part + seq!['{'] + rest);
        lemmas::lemma_split_first(part, '{', rest);
        assert(piece(q, "{"@, 0) == part);
        assert(part.take(name.len() as int + 2) =~= inner);
        assert(model::split(part, "extends"@)[0] == inner);
    }
}

proof fn lemma_trimmed_name(name: Seq<char>)
    requires
        is_name(name),
    ensures
        model::trim(" "@ + name + " "@) == name,
        model::trim(name + " "@) == name,
{
    reveal_strlit(" ");
    lemmas::law_white_space_is_trimmed(" "@, name, " "@);
    lemmas::law_white_space_is_trimmed(Seq::empty(), name, " "@);
    assert(Seq::<char>::empty() + name + " "@ =~= name + " "@);
}

/// A constant of JavaScript is named by what stands between `const` and the sign of
/// equality.
pub proof fn law_js_constant_is_named(name: Seq<char>, rest: Seq<char>)
    requires
        is_name(name),
        !name.contains('='),
        !model::contains("const "@ + name + " ="@ + rest, "export const"@),
        !model::contains(name + " ="@ + rest, "const "@),
    ensures
        js_const_fn_name("const "@ + name + " ="@ + rest) == name,
{
    reveal_strlit("const ");
    reveal_strlit(" =");
    reveal_strlit("=");
    reveal_strlit(" ");
    assert("="@ =~= seq!['=']);
    lemma_trimmed_name(name);
    let m = name + " ="@ + rest;
    lemma_piece_behind("const "@, m);
    assert("const "@ + m =~= "const "@ + name + " ="@ + rest);
    let a = name + " "@;
    assert(!a.contains('=')) by {
        if a.contains('=') {
            let j = choose|j: int| 0 <= j < a.len() && a[j] == '=';
            if j < name.len() {
                assert(name[j] == '=');
            }
        }
    }
    assert(m =~= a + seq!['='] + rest);
    lemmas::lemma_split_first(a, '=', rest);
}

/// A long block is embedded by its beginning, followed by three dots.
pub proof fn law_long_blocks_are_cut(b: BlockModel)
    requires
        model::byte_len(b.source) > 2000,
    ensures
        model::ends_with(embedding_text(b), "..."@),
        model::byte_len(embedding_text(b)) <= model::byte_len(search_text(b)) + 2004,
        model::starts_with(
            embedding_text(b).skip(search_text(b).len() as int + 1),
            model::fitting(b.source, 2000),
        ),
{
    reveal_strlit("...");
    reveal_strlit("\n");
    let s = search_text(b);
    let f = model::fitting(b.source, 2000);
    let e = embedding_text(b);
    assert(e =~= s + "\n"@ + f + "..."@);
    assert(e.skip(e.len() - 3) =~= "..."@);
    assert(e.skip(s.len() as int + 1).take(f.len() as int) =~= f);
    let k = lemmas::law_longest_beginning_fits(b.source, 2000);
    lemmas::lemma_byte_len_concat(s + "\n"@ + f, "..."@);
    lemmas::lemma_byte_len_concat(s + "\n"@, f);
    lemmas::lemma_byte_len_concat(s, "\n"@);
    reveal_with_fuel(model::byte_len, 4);
    assert(model::byte_len("\n"@) == 1);
    assert(model::byte_len("..."@) == 3);
}

/// A line that ends with `struct`, `enum` or `trait`, or has no such word, names no type.
pub proof fn law_unnamed_type(line: Seq<char>, i: int)
    requires
        0 <= i <= model::split_whitespace(line).len(),
        i + 1 >= model::split_whitespace(line).len(),
        forall|j: int|
            0 <= j < i ==> #[trigger] model::split_whitespace(line)[j] != "struct"@
                && model::split_whitespace(line)[j] != "enum"@ && model::split_whitespace(line)[j]
                != "trait"@,
    ensures
        rust_type_name(line).len() == 0,
{
    lemma_no_type_name(model::split_whitespace(line), 0, i);
}

proof fn lemma_no_type_name(words: Seq<Seq<char>>, j: int, i: int)
    requires
        0 <= j <= i <= words.len(),
        i + 1 >= words.len(),
        forall|k: int| j <= k < i ==> !is_type_word(#[trigger] words[k]),
    ensures
        type_name_from(words, j).len() == 0,
    decreases i - j,
{
    if j < i {
        assert(!is_type_word(words[j]));
        lemma_no_type_name(words, j + 1, i);
    } else if j < words.len() && !is_type_word(words[j]) {
        assert(type_name_from(words, j + 1).len() == 0);
    }
}

} // verus!
