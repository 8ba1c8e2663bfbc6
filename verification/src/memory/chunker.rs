//! Text cut into chunks.
//!
//! Markdown is cut at its headings, and a section that is too long at blank
//! lines and at line ends. Each chunk of a section carries the headings above
//! the section. Plain text is cut at line ends.

use crate::text::{lemmas, model, ops};
use vstd::prelude::*;
use vstd::slice::slice_subrange;
use vstd::string::*;

verus! {

/// How text is cut.
#[derive(Debug)]
pub struct ChunkConfig {
    /// The most bytes that a chunk should have.
    pub max_chunk_chars: usize,
    /// How many lines two neighbouring chunks share.
    pub overlap_lines: usize,
    /// The least level of a heading that starts a section.
    pub min_heading_level: usize,
}

impl Default for ChunkConfig {
    fn default() -> (r: Self)
        ensures
            r.max_chunk_chars == 2000,
            r.overlap_lines == 2,
            r.min_heading_level == 2,
    {
        ChunkConfig { max_chunk_chars: 2000, overlap_lines: 2, min_heading_level: 2 }
    }
}

impl Clone for ChunkConfig {
    fn clone(&self) -> (r: Self)
        ensures
            r == *self,
    {
        ChunkConfig {
            max_chunk_chars: self.max_chunk_chars,
            overlap_lines: self.overlap_lines,
            min_heading_level: self.min_heading_level,
        }
    }
}

/// A piece of a text.
#[derive(Debug)]
pub struct Chunk {
    /// The text of the chunk.
    pub content: String,
    /// The headings above it.
    pub heading_path: String,
    /// Its first line, counted from zero.
    pub start_line: usize,
    /// The line after its last.
    pub end_line: usize,
}

/// What a chunk holds.
#[verifier::ext_equal]
pub struct ChunkModel {
    pub content: Seq<char>,
    pub heading_path: Seq<char>,
    pub start_line: nat,
    pub end_line: nat,
}

impl View for Chunk {
    type V = ChunkModel;

    open spec fn view(&self) -> ChunkModel {
        ChunkModel {
            content: self.content@,
            heading_path: self.heading_path@,
            start_line: self.start_line as nat,
            end_line: self.end_line as nat,
        }
    }
}

/// The chunks that a list holds.
pub open spec fn chunk_models(v: Seq<Chunk>) -> Seq<ChunkModel> {
    v.map_values(|c: Chunk| c@)
}

/// How often `#` stands at the front of the text.
pub open spec fn hashes(s: Seq<char>) -> nat
    decreases s.len(),
{
    if s.len() > 0 && s[0] == '#' {
        1 + hashes(s.skip(1))
    } else {
        0
    }
}

/// The level of the heading that a line is: one to six `#` and then a blank or
/// the end of the line.
pub open spec fn level_of(line: Seq<char>) -> Option<nat> {
    let t = model::trim_start(line);
    let n = hashes(t);
    if 1 <= n <= 6 && (t.len() == n || t[n as int] == ' ') {
        Some(n)
    } else {
        None
    }
}

/// The level of the heading that a line is, if it is one.
pub fn header_level(line: &str) -> (r: Option<usize>)
    ensures
        match r {
            Some(n) => level_of(line@) == Some(n as nat),
            None => level_of(line@) is None,
        },
{
    let chars = ops::chars_of(line);
    heading(chars.as_slice())
}

/// The level of the heading that a line is, if it is one.
fn heading(line: &[char]) -> (r: Option<usize>)
    ensures
        match r {
            Some(n) => level_of(line@) == Some(n as nat),
            None => level_of(line@) is None,
        },
{
    let t = ops::trim_start(line);
    let mut n: usize = 0;
    assert(t@.skip(0) =~= t@);
    while n < t.len() && t[n] == '#'
        invariant
            n <= t@.len(),
            hashes(t@) == n + hashes(t@.skip(n as int)),
        decreases t@.len() - n,
    {
        assert(t@.skip(n as int).skip(1) =~= t@.skip(n + 1));
        n = n + 1;
    }
    if 1 <= n && n <= 6 && (n == t.len() || t[n] == ' ') {
        Some(n)
    } else {
        None
    }
}

/// The whole text as one chunk.
pub open spec fn whole(text: Seq<char>) -> ChunkModel {
    ChunkModel {
        content: text,
        heading_path: Seq::empty(),
        start_line: 0,
        end_line: model::lines(text).len(),
    }
}

/// The lines from `a` up to `b` as one text.
pub open spec fn span(lines: Seq<Seq<char>>, a: nat, b: nat) -> Seq<char> {
    model::join(lines.subrange(a as int, b as int), "\n"@)
}

/// The lines from `a` up to `b` as a chunk.
pub open spec fn plain_chunk(lines: Seq<Seq<char>>, a: nat, b: nat) -> ChunkModel {
    ChunkModel {
        content: span(lines, a, b),
        heading_path: Seq::empty(),
        start_line: a,
        end_line: b,
    }
}

/// `i - n`, or zero.
pub open spec fn less(i: nat, n: nat) -> nat {
    if i >= n {
        (i - n) as nat
    } else {
        0
    }
}

/// The first line from line `s` on from which the text through line `i` is not too
/// long; line `i` itself where there is none before it.
pub open spec fn fitting_start(lines: Seq<Seq<char>>, max: nat, s: nat, i: nat) -> nat
    decreases i - s,
{
    if s >= i || model::byte_len(span(lines, s, i + 1)) <= max {
        s
    } else {
        fitting_start(lines, max, s + 1, i)
    }
}

/// Where the chunk after a cut before line `i` begins: with as many of the last
/// `overlap` lines before it as fit beside it.
pub open spec fn overlap_start(lines: Seq<Seq<char>>, max: nat, i: nat, overlap: nat) -> nat {
    fitting_start(lines, max, less(i, overlap), i)
}

/// The line from which the text fits is no later than the line that it must reach.
proof fn lemma_fitting_start(lines: Seq<Seq<char>>, max: nat, s: nat, i: nat)
    requires
        s <= i,
    ensures
        s <= fitting_start(lines, max, s, i) <= i,
        fitting_start(lines, max, s, i) == i || model::byte_len(
            span(lines, fitting_start(lines, max, s, i), i + 1),
        ) <= max,
    decreases i - s,
{
    if s < i && model::byte_len(span(lines, s, i + 1)) > max {
        lemma_fitting_start(lines, max, s + 1, i);
    }
}

/// Plain text after its first `n` lines: the chunks that are complete, and
/// where the next one begins.
pub open spec fn text_scan(
    lines: Seq<Seq<char>>,
    max: nat,
    overlap: nat,
    n: nat,
) -> (Seq<ChunkModel>, nat)
    decreases n,
{
    if n == 0 {
        (Seq::empty(), 0)
    } else {
        let i = (n - 1) as nat;
        let (chunks, start) = text_scan(lines, max, overlap, i);
        if model::byte_len(span(lines, start, n)) > max && n - start > 1 {
            (chunks.push(plain_chunk(lines, start, i)), overlap_start(lines, max, i, overlap))
        } else {
            (chunks, start)
        }
    }
}

/// The chunks of a plain text.
pub open spec fn text_chunks(text: Seq<char>, max: nat, overlap: nat) -> Seq<ChunkModel> {
    let lines = model::lines(text);
    if text.len() == 0 {
        Seq::empty()
    } else if model::byte_len(text) <= max {
        seq![whole(text)]
    } else {
        let (chunks, start) = text_scan(lines, max, overlap, lines.len());
        chunks.push(plain_chunk(lines, start, lines.len()))
    }
}

/// A text that is not empty has a line.
proof fn lemma_has_line(text: Seq<char>)
    ensures
        text.len() > 0 ==> model::lines(text).len() > 0,
{
}

/// The next chunk begins before the line that is looked at.
proof fn lemma_text_scan_start(lines: Seq<Seq<char>>, max: nat, overlap: nat, n: nat)
    ensures
        text_scan(lines, max, overlap, n).1 <= n,
        n > 0 ==> text_scan(lines, max, overlap, n).1 < n,
        ({
            let (chunks, start) = text_scan(lines, max, overlap, n);
            chunks.len() == 0 ==> start == 0
        }),
        ({
            let (chunks, start) = text_scan(lines, max, overlap, n);
            chunks.len() > 0 ==> chunks.last().end_line < n && chunks.last().start_line
                < chunks.last().end_line && chunks.last() == plain_chunk(
                lines,
                chunks.last().start_line,
                chunks.last().end_line,
            ) && start <= chunks.last().end_line
        }),
    decreases n,
{
    if n > 0 {
        lemma_text_scan_start(lines, max, overlap, (n - 1) as nat);
        lemma_fitting_start(lines, max, less((n - 1) as nat, overlap), (n - 1) as nat);
    }
}

/// Joining more lines gives a longer text.
proof fn lemma_join_grows(parts: Seq<Seq<char>>, sep: Seq<char>, i: int, j: int)
    requires
        0 < i <= j <= parts.len(),
        sep.len() > 0,
    ensures
        model::join(parts.take(i), sep).len() + (j - i) <= model::join(parts.take(j), sep).len(),
    decreases j - i,
{
    if i < j {
        lemma_join_grows(parts, sep, i, j - 1);
        assert(parts.take(j).drop_last() =~= parts.take(j - 1));
    }
}

/// A longer span that begins at the same line has another text.
proof fn lemma_span_grows(lines: Seq<Seq<char>>, a: nat, b: nat, c: nat)
    requires
        a < b < c <= lines.len(),
    ensures
        span(lines, a, b) != span(lines, a, c),
{
    reveal_strlit("\n");
    let v = lines.subrange(a as int, c as int);
    assert(v.take(b - a) =~= lines.subrange(a as int, b as int));
    assert(v.take(c - a) =~= v);
    lemma_join_grows(v, "\n"@, b - a, c - a);
}

/// Where the chunk after a cut before line `i` begins.
fn find_overlap(lines: &Vec<&[char]>, max_chars: usize, i: usize, overlap_lines: usize) -> (r: usize)
    requires
        i < lines@.len(),
    ensures
        r == overlap_start(
            model::slices(lines@),
            max_chars as nat,
            i as nat,
            overlap_lines as nat,
        ),
        r <= i,
{
    let ghost texts = model::slices(lines@);
    let total: usize = lines.len();
    let mut s: usize = if i >= overlap_lines {
        i - overlap_lines
    } else {
        0
    };
    while s < i
        invariant
            s <= i < total,
            total == lines@.len(),
            texts == model::slices(lines@),
            overlap_start(texts, max_chars as nat, i as nat, overlap_lines as nat)
                == fitting_start(texts, max_chars as nat, s as nat, i as nat),
        decreases i - s,
    {
        assert(model::slices(lines@.subrange(s as int, i + 1)) =~= texts.subrange(
            s as int,
            i + 1,
        ));
        let joined = ops::join(slice_subrange(lines.as_slice(), s, i + 1), "\n");
        if ops::text_byte_len(joined.as_str()) <= max_chars {
            return s;
        }
        s = s + 1;
    }
    s
}

/// The chunks of a plain text: whole lines, together at most `max_chars` bytes unless
/// a single line is longer. Each chunk begins with the last `overlap_lines` lines of
/// the one before it, or with as many of them as fit.
pub fn chunk_text(text: &str, max_chars: usize, overlap_lines: usize) -> (r: Vec<Chunk>)
    ensures
        chunk_models(r@) == text_chunks(text@, max_chars as nat, overlap_lines as nat),
{
    let chars = ops::chars_of(text);
    let mut chunks: Vec<Chunk> = Vec::new();
    assert(chunk_models(chunks@) =~= Seq::empty());
    if chars.len() == 0 {
        return chunks;
    }
    let lines = ops::lines(chars.as_slice());
    let ghost texts = model::lines(text@);
    proof {
        lemma_has_line(text@);
        assert(texts == model::slices(lines@));
    }
    if ops::text_byte_len(text) <= max_chars {
        let only = Chunk {
            content: String::from_str(text),
            heading_path: String::new(),
            start_line: 0,
            end_line: lines.len(),
        };
        assert(only@ == whole(text@));
        chunks.push(only);
        assert(chunk_models(chunks@) =~= seq![whole(text@)]);
        return chunks;
    }
    let ghost max = max_chars as nat;
    let ghost overlap = overlap_lines as nat;
    let mut start: usize = 0;
    let mut i: usize = 0;
    while i < lines.len()
        invariant
            i <= lines@.len(),
            start <= i,
            texts == model::slices(lines@),
            max == max_chars,
            overlap == overlap_lines,
            (chunk_models(chunks@), start as nat) == text_scan(texts, max, overlap, i as nat),
        decreases lines@.len() - i,
    {
        let ghost before = chunk_models(chunks@);
        proof {
            lemma_text_scan_start(texts, max, overlap, (i + 1) as nat);
            assert(model::slices(lines@.subrange(start as int, i + 1)) =~= texts.subrange(
                start as int,
                i + 1,
            ));
            assert(model::slices(lines@.subrange(start as int, i as int)) =~= texts.subrange(
                start as int,
                i as int,
            ));
        }
        let joined = ops::join(slice_subrange(lines.as_slice(), start, i + 1), "\n");
        if ops::text_byte_len(joined.as_str()) > max_chars && i + 1 - start > 1 {
            let done = Chunk {
                content: ops::join(slice_subrange(lines.as_slice(), start, i), "\n"),
                heading_path: String::new(),
                start_line: start,
                end_line: i,
            };
            assert(done@ == plain_chunk(texts, start as nat, i as nat));
            chunks.push(done);
            assert(chunk_models(chunks@) =~= before.push(plain_chunk(
                texts,
                start as nat,
                i as nat,
            )));
            start = find_overlap(&lines, max_chars, i, overlap_lines);
        }
        i = i + 1;
    }
    let ghost before = chunk_models(chunks@);
    proof {
        lemma_text_scan_start(texts, max, overlap, texts.len());
        assert(model::slices(lines@.subrange(start as int, lines@.len() as int))
            =~= texts.subrange(start as int, texts.len() as int));
    }
    let content = ops::join(slice_subrange(lines.as_slice(), start, lines.len()), "\n");
    let repeated = if chunks.len() > 0 {
        let last = &chunks[chunks.len() - 1];
        last.start_line == start && ops::same_text(last.content.as_str(), content.as_str())
    } else {
        false
    };
    proof {
        if repeated {
            let last = before.last();
            assert(last == chunks@.last()@);
            lemma_span_grows(texts, last.start_line, last.end_line, texts.len());
        }
    }
    if !repeated {
        let rest = Chunk {
            content: content,
            heading_path: String::new(),
            start_line: start,
            end_line: lines.len(),
        };
        assert(rest@ == plain_chunk(texts, start as nat, texts.len()));
        chunks.push(rest);
        assert(chunk_models(chunks@) =~= before.push(plain_chunk(
            texts,
            start as nat,
            texts.len(),
        )));
    }
    chunks
}

/// A heading that is in force: its level and its line.
pub struct Heading {
    pub level: usize,
    pub line: String,
}

/// What a heading holds.
#[verifier::ext_equal]
pub struct HeadingModel {
    pub level: nat,
    pub line: Seq<char>,
}

impl View for Heading {
    type V = HeadingModel;

    open spec fn view(&self) -> HeadingModel {
        HeadingModel { level: self.level as nat, line: self.line@ }
    }
}

/// The headings that a list holds.
pub open spec fn heading_models(v: Seq<Heading>) -> Seq<HeadingModel> {
    v.map_values(|h: Heading| h@)
}

/// A section of a document: the lines from `start` up to `end`, and the
/// headings above it.
#[verifier::ext_equal]
pub struct SectionModel {
    pub start: nat,
    pub end: nat,
    pub context: Seq<char>,
}

/// A section of a document.
struct Section {
    start: usize,
    end: usize,
    context: String,
}

impl View for Section {
    type V = SectionModel;

    closed spec fn view(&self) -> SectionModel {
        SectionModel { start: self.start as nat, end: self.end as nat, context: self.context@ }
    }
}

spec fn section_models(v: Seq<Section>) -> Seq<SectionModel> {
    v.map_values(|s: Section| s@)
}

/// The headings above the innermost one, outermost first.
pub open spec fn context_of(stack: Seq<HeadingModel>) -> Seq<char> {
    if stack.len() <= 1 {
        Seq::empty()
    } else {
        model::join(stack.drop_last().map_values(|h: HeadingModel| model::trim(h.line)), " > "@)
    }
}

/// The headings that stay in force under a heading of the level.
pub open spec fn above(stack: Seq<HeadingModel>, level: nat) -> Seq<HeadingModel>
    decreases stack.len(),
{
    if stack.len() > 0 && stack.last().level >= level {
        above(stack.drop_last(), level)
    } else {
        stack
    }
}

/// What is known of a document's sections after some of its lines.
#[verifier::ext_equal]
pub struct Outline {
    /// The sections that are complete.
    pub sections: Seq<SectionModel>,
    /// Where the next one begins.
    pub start: nat,
    /// The headings in force.
    pub stack: Seq<HeadingModel>,
}

/// The sections once the open one is complete too.
pub open spec fn outline_flush(o: Outline, i: nat) -> Seq<SectionModel> {
    if o.start < i {
        o.sections.push(SectionModel { start: o.start, end: i, context: context_of(o.stack) })
    } else {
        o.sections
    }
}

/// A document's outline after its first `n` lines. A heading of at least the
/// level `min` starts a section.
pub open spec fn outline(lines: Seq<Seq<char>>, min: nat, n: nat) -> Outline
    decreases n,
{
    if n == 0 {
        Outline { sections: Seq::empty(), start: 0, stack: Seq::empty() }
    } else {
        let i = (n - 1) as nat;
        let o = outline(lines, min, i);
        match level_of(lines[i as int]) {
            Some(level) => if level >= min {
                Outline {
                    sections: outline_flush(o, i),
                    start: i,
                    stack: above(o.stack, level).push(
                        HeadingModel { level: level, line: lines[i as int] },
                    ),
                }
            } else {
                o
            },
            None => o,
        }
    }
}

/// The sections of a document.
pub open spec fn sections_of(lines: Seq<Seq<char>>, min: nat) -> Seq<SectionModel> {
    outline_flush(outline(lines, min, lines.len()), lines.len())
}

/// A text with the headings above it in front.
pub open spec fn with_context(context: Seq<char>, text: Seq<char>) -> Seq<char> {
    if context.len() == 0 {
        text
    } else {
        "[Context: "@ + context + "]\n\n"@ + text
    }
}

/// What is known of an overlong section after some of its lines.
#[verifier::ext_equal]
pub struct Cut {
    /// The chunks that are complete.
    pub chunks: Seq<ChunkModel>,
    /// The text of the next chunk so far.
    pub text: Seq<char>,
    /// The line that the next chunk begins with.
    pub start: nat,
    /// How many lines the next chunk has so far.
    pub count: nat,
}

/// A chunk of a section.
pub open spec fn section_chunk(s: SectionModel, text: Seq<char>, a: nat, b: nat) -> ChunkModel {
    ChunkModel {
        content: with_context(s.context, model::trim(text)),
        heading_path: s.context,
        start_line: a,
        end_line: b,
    }
}

/// The text that a chunk takes over from the lines before line `i` of the
/// section.
pub open spec fn overlap_text(own: Seq<Seq<char>>, i: nat, overlap: nat) -> Seq<char> {
    if overlap == 0 || i == 0 {
        Seq::empty()
    } else {
        span(own, less(i, overlap), i)
    }
}

/// Line `i` of an overlong section. At a blank line, and at a line that makes
/// the text too long, the text is cut; the next chunk begins `overlap` lines before.
pub open spec fn cut_step(
    c: Cut,
    s: SectionModel,
    own: Seq<Seq<char>>,
    max: nat,
    overlap: nat,
    i: nat,
) -> Cut {
    let line = own[i as int];
    let from = less(i, overlap);
    let chunks = c.chunks.push(section_chunk(s, c.text, c.start, s.start + i));
    let text = if c.text.len() > 0 {
        c.text + "\n"@ + line
    } else {
        line
    };
    if model::trim(line).len() == 0 && c.text.len() > 0 && model::byte_len(c.text) + 1
        + model::byte_len(line) > max && c.count > 0 {
        Cut {
            chunks: chunks,
            text: overlap_text(own, i, overlap),
            start: s.start + from,
            count: (i - from) as nat,
        }
    } else if model::byte_len(text) > max && c.text.len() > 0 && c.count > 0 {
        Cut {
            chunks: chunks,
            text: span(own, from, i + 1),
            start: s.start + from,
            count: (i - from + 1) as nat,
        }
    } else {
        Cut { text: text, count: c.count + 1, ..c }
    }
}

/// An overlong section after its first `n` lines.
pub open spec fn cut_scan(
    s: SectionModel,
    own: Seq<Seq<char>>,
    max: nat,
    overlap: nat,
    n: nat,
) -> Cut
    decreases n,
{
    if n == 0 {
        Cut { chunks: Seq::empty(), text: Seq::empty(), start: s.start, count: 0 }
    } else {
        cut_step(
            cut_scan(s, own, max, overlap, (n - 1) as nat),
            s,
            own,
            max,
            overlap,
            (n - 1) as nat,
        )
    }
}

/// The chunks of a section that is too long. `own` are its lines.
pub open spec fn cut_chunks(
    s: SectionModel,
    own: Seq<Seq<char>>,
    max: nat,
    overlap: nat,
) -> Seq<ChunkModel> {
    let c = cut_scan(s, own, max, overlap, own.len());
    if model::trim(c.text).len() > 0 {
        c.chunks.push(section_chunk(s, c.text, c.start, s.start + own.len()))
    } else {
        c.chunks
    }
}

/// The chunks of a section.
pub open spec fn section_chunks(
    s: SectionModel,
    lines: Seq<Seq<char>>,
    max: nat,
    overlap: nat,
) -> Seq<ChunkModel> {
    let text = span(lines, s.start, s.end);
    if model::byte_len(text) <= max {
        seq![
            ChunkModel {
                content: with_context(s.context, text),
                heading_path: s.context,
                start_line: s.start,
                end_line: s.end,
            },
        ]
    } else {
        cut_chunks(s, lines.subrange(s.start as int, s.end as int), max, overlap)
    }
}

/// The chunks of the first `n` sections.
pub open spec fn all_section_chunks(
    sections: Seq<SectionModel>,
    lines: Seq<Seq<char>>,
    max: nat,
    overlap: nat,
    n: nat,
) -> Seq<ChunkModel>
    decreases n,
{
    if n == 0 {
        Seq::empty()
    } else {
        all_section_chunks(sections, lines, max, overlap, (n - 1) as nat) + section_chunks(
            sections[n - 1],
            lines,
            max,
            overlap,
        )
    }
}

/// The chunks of a Markdown document.
pub open spec fn markdown_chunks(text: Seq<char>, config: ChunkConfig) -> Seq<ChunkModel> {
    let lines = model::lines(text);
    if text.len() == 0 {
        Seq::empty()
    } else if model::byte_len(text) <= config.max_chunk_chars {
        seq![whole(text)]
    } else {
        let sections = sections_of(lines, config.min_heading_level as nat);
        all_section_chunks(
            sections,
            lines,
            config.max_chunk_chars as nat,
            config.overlap_lines as nat,
            sections.len(),
        )
    }
}

/// The headings above the innermost one, outermost first.
fn format_header_context(stack: &Vec<Heading>) -> (r: String)
    ensures
        r@ == context_of(heading_models(stack@)),
{
    if stack.len() <= 1 {
        return String::new();
    }
    let ghost models = heading_models(stack@);
    let ghost wanted = models.drop_last().map_values(|h: HeadingModel| model::trim(h.line));
    let mut shown: Vec<String> = Vec::new();
    let mut i: usize = 0;
    while i < stack.len() - 1
        invariant
            stack@.len() > 1,
            i <= stack@.len() - 1,
            models == heading_models(stack@),
            wanted == models.drop_last().map_values(|h: HeadingModel| model::trim(h.line)),
            model::texts(shown@) == wanted.take(i as int),
        decreases stack@.len() - i,
    {
        let ghost before = shown@;
        let chars = ops::chars_of(stack[i].line.as_str());
        let one = ops::string_of(ops::trim(chars.as_slice()));
        assert(one@ == wanted[i as int]);
        shown.push(one);
        assert(model::texts(shown@) =~= model::texts(before).push(one@));
        assert(wanted.take(i + 1) =~= wanted.take(i as int).push(one@));
        i = i + 1;
    }
    assert(wanted.take(wanted.len() as int) =~= wanted);
    ops::join_texts(shown.as_slice(), " > ")
}

/// The sections of a document.
fn split_by_headers(lines: &Vec<&[char]>, min_level: usize) -> (r: Vec<Section>)
    ensures
        section_models(r@) == sections_of(model::slices(lines@), min_level as nat),
{
    let ghost texts = model::slices(lines@);
    let mut sections: Vec<Section> = Vec::new();
    let mut start: usize = 0;
    let mut stack: Vec<Heading> = Vec::new();
    assert(section_models(sections@) =~= Seq::empty());
    assert(heading_models(stack@) =~= Seq::empty());
    let mut i: usize = 0;
    while i < lines.len()
        invariant
            i <= lines@.len(),
            texts == model::slices(lines@),
            (Outline {
                sections: section_models(sections@),
                start: start as nat,
                stack: heading_models(stack@),
            }) == outline(texts, min_level as nat, i as nat),
        decreases lines@.len() - i,
    {
        let ghost o = outline(texts, min_level as nat, i as nat);
        assert(texts[i as int] == lines@[i as int]@);
        if let Some(level) = heading(lines[i]) {
            if level >= min_level {
                if start < i {
                    let done = Section {
                        start: start,
                        end: i,
                        context: format_header_context(&stack),
                    };
                    let ghost shown = done@;
                    sections.push(done);
                    assert(section_models(sections@) =~= o.sections.push(shown));
                }
                start = i;
                while stack.len() > 0 && stack[stack.len() - 1].level >= level
                    invariant
                        above(o.stack, level as nat) == above(heading_models(stack@), level as nat),
                    decreases stack@.len(),
                {
                    let ghost before = stack@;
                    assert(heading_models(before).last() == before.last()@);
                    stack.pop();
                    assert(heading_models(stack@) =~= heading_models(before).drop_last());
                }
                assert(stack@.len() > 0 ==> heading_models(stack@).last() == stack@.last()@);
                let ghost before = heading_models(stack@);
                let top = Heading { level: level, line: ops::string_of(lines[i]) };
                let ghost shown = top@;
                stack.push(top);
                assert(heading_models(stack@) =~= before.push(shown));
            }
        }
        i = i + 1;
    }
    let ghost o = outline(texts, min_level as nat, texts.len());
    if start < lines.len() {
        let done = Section {
            start: start,
            end: lines.len(),
            context: format_header_context(&stack),
        };
        let ghost shown = done@;
        sections.push(done);
        assert(section_models(sections@) =~= o.sections.push(shown));
    }
    sections
}

/// A text with the headings above it in front.
fn add_header_context(context: &str, text: &str) -> (r: String)
    ensures
        r@ == with_context(context@, text@),
{
    if ops::is_empty(context) {
        String::from_str(text)
    } else {
        ops::concat4("[Context: ", context, "]\n\n", text)
    }
}

/// The text that a chunk takes over from the lines before line `i`.
fn build_overlap_text(lines: &[&[char]], i: usize, overlap_lines: usize) -> (r: String)
    requires
        i <= lines@.len(),
    ensures
        r@ == overlap_text(model::slices(lines@), i as nat, overlap_lines as nat),
{
    if overlap_lines == 0 || i == 0 {
        return String::new();
    }
    let from: usize = if i >= overlap_lines {
        i - overlap_lines
    } else {
        0
    };
    assert(model::slices(lines@.subrange(from as int, i as int)) =~= model::slices(
        lines@,
    ).subrange(from as int, i as int));
    ops::join(slice_subrange(lines, from, i), "\n")
}

/// The chunk of a section that holds the text.
fn section_piece(section: &Section, text: &[char], a: usize, b: usize) -> (r: Chunk)
    ensures
        r@ == section_chunk(section@, text@, a as nat, b as nat),
{
    let body = ops::string_of(ops::trim(text));
    Chunk {
        content: add_header_context(section.context.as_str(), body.as_str()),
        heading_path: section.context.clone(),
        start_line: a,
        end_line: b,
    }
}

/// The chunks of a section that is too long.
fn split_section_by_paragraphs(
    section: &Section,
    own: &[&[char]],
    max_chars: usize,
    overlap_lines: usize,
) -> (r: Vec<Chunk>)
    requires
        section.start + own@.len() <= usize::MAX,
    ensures
        chunk_models(r@) == cut_chunks(
            section@,
            model::slices(own@),
            max_chars as nat,
            overlap_lines as nat,
        ),
{
    let ghost texts = model::slices(own@);
    let ghost max = max_chars as nat;
    let ghost overlap = overlap_lines as nat;
    let mut chunks: Vec<Chunk> = Vec::new();
    let mut text = String::new();
    let mut start: usize = section.start;
    let mut count: usize = 0;
    assert(chunk_models(chunks@) =~= Seq::empty());
    let mut i: usize = 0;
    while i < own.len()
        invariant
            i <= own@.len(),
            section.start + own@.len() <= usize::MAX,
            count <= i,
            texts == model::slices(own@),
            max == max_chars,
            overlap == overlap_lines,
            (Cut {
                chunks: chunk_models(chunks@),
                text: text@,
                start: start as nat,
                count: count as nat,
            }) == cut_scan(section@, texts, max, overlap, i as nat),
        decreases own@.len() - i,
    {
        let line = own[i];
        let ghost before = chunk_models(chunks@);
        assert(texts[i as int] == line@);
        let from: usize = if i >= overlap_lines {
            i - overlap_lines
        } else {
            0
        };
        proof {
            reveal_strlit("\n");
            lemmas::lemma_byte_len_concat(text@, "\n"@);
            lemmas::lemma_byte_len_concat(text@ + "\n"@, line@);
            reveal_with_fuel(model::byte_len, 2);
            assert(model::byte_len("\n"@) == 1);
        }
        let size: u128 = ops::text_byte_len(text.as_str()) as u128 + 1 + ops::byte_len(line) as u128;
        if ops::trim(line).len() == 0 && !ops::is_empty(text.as_str()) && size > max_chars as u128
            && count > 0 {
            let chars = ops::chars_of(text.as_str());
            let done = section_piece(section, chars.as_slice(), start, section.start + i);
            let ghost shown = done@;
            chunks.push(done);
            assert(chunk_models(chunks@) =~= before.push(shown));
            text = build_overlap_text(own, i, overlap_lines);
            start = section.start + from;
            count = i - from;
        } else if size > max_chars as u128 && !ops::is_empty(text.as_str()) && count > 0 {
            let chars = ops::chars_of(text.as_str());
            let done = section_piece(section, chars.as_slice(), start, section.start + i);
            let ghost shown = done@;
            chunks.push(done);
            assert(chunk_models(chunks@) =~= before.push(shown));
            assert(model::slices(own@.subrange(from as int, i + 1)) =~= texts.subrange(
                from as int,
                i + 1,
            ));
            text = ops::join(slice_subrange(own, from, i + 1), "\n");
            start = section.start + from;
            count = i - from + 1;
        } else {
            if !ops::is_empty(text.as_str()) {
                text.append("\n");
                ops::push_chars(&mut text, line);
            } else {
                text = ops::string_of(line);
            }
            count = count + 1;
        }
        i = i + 1;
    }
    let ghost before = chunk_models(chunks@);
    let chars = ops::chars_of(text.as_str());
    if ops::trim(chars.as_slice()).len() > 0 {
        let rest = section_piece(section, chars.as_slice(), start, section.start + own.len());
        let ghost shown = rest@;
        chunks.push(rest);
        assert(chunk_models(chunks@) =~= before.push(shown));
    }
    chunks
}

/// The sections lie within the document.
proof fn lemma_sections_within(lines: Seq<Seq<char>>, min: nat, n: nat)
    requires
        n <= lines.len(),
    ensures
        outline(lines, min, n).start <= n,
        forall|j: int|
            0 <= j < outline(lines, min, n).sections.len() ==> {
                let s = #[trigger] outline(lines, min, n).sections[j];
                s.start < s.end <= n
            },
    decreases n,
{
    if n > 0 {
        lemma_sections_within(lines, min, (n - 1) as nat);
    }
}

/// The chunks of a Markdown document.
///
/// A document that fits in one chunk is one chunk. Another is cut at its
/// headings; a section that is too long is cut at blank lines and at line ends, and
/// each of its chunks but the first begins `overlap_lines` lines before the cut.
pub fn chunk_markdown(text: &str, config: &ChunkConfig) -> (r: Vec<Chunk>)
    ensures
        chunk_models(r@) == markdown_chunks(text@, *config),
{
    let chars = ops::chars_of(text);
    let mut chunks: Vec<Chunk> = Vec::new();
    assert(chunk_models(chunks@) =~= Seq::empty());
    if chars.len() == 0 {
        return chunks;
    }
    let lines = ops::lines(chars.as_slice());
    let ghost texts = model::lines(text@);
    assert(texts == model::slices(lines@));
    if ops::text_byte_len(text) <= config.max_chunk_chars {
        let only = Chunk {
            content: String::from_str(text),
            heading_path: String::new(),
            start_line: 0,
            end_line: lines.len(),
        };
        assert(only@ == whole(text@));
        chunks.push(only);
        assert(chunk_models(chunks@) =~= seq![whole(text@)]);
        return chunks;
    }
    let sections = split_by_headers(&lines, config.min_heading_level);
    let ghost all = section_models(sections@);
    let ghost max = config.max_chunk_chars as nat;
    let ghost overlap = config.overlap_lines as nat;
    let n: usize = lines.len();
    proof {
        lemma_sections_within(texts, config.min_heading_level as nat, texts.len());
        assert forall|j: int| 0 <= j < all.len() implies (#[trigger] all[j]).start < all[j].end
            <= texts.len() by {
            let o = outline(texts, config.min_heading_level as nat, texts.len());
            if j < o.sections.len() {
                assert(all[j] == o.sections[j]);
            }
        }
    }
    let mut k: usize = 0;
    while k < sections.len()
        invariant
            k <= sections@.len(),
            n == lines@.len(),
            texts == model::slices(lines@),
            all == section_models(sections@),
            max == config.max_chunk_chars,
            overlap == config.overlap_lines,
            forall|j: int|
                0 <= j < all.len() ==> (#[trigger] all[j]).start < all[j].end <= texts.len(),
            chunk_models(chunks@) == all_section_chunks(all, texts, max, overlap, k as nat),
        decreases sections@.len() - k,
    {
        let section = &sections[k];
        let ghost before = chunk_models(chunks@);
        assert(all[k as int] == section@);
        let own = slice_subrange(lines.as_slice(), section.start, section.end);
        assert(model::slices(own@) =~= texts.subrange(section.start as int, section.end as int));
        let joined = ops::join(own, "\n");
        if ops::text_byte_len(joined.as_str()) <= config.max_chunk_chars {
            let one = Chunk {
                content: add_header_context(section.context.as_str(), joined.as_str()),
                heading_path: section.context.clone(),
                start_line: section.start,
                end_line: section.end,
            };
            let ghost shown = one@;
            chunks.push(one);
            assert(chunk_models(chunks@) =~= before + seq![shown]);
        } else {
            let mut more = split_section_by_paragraphs(
                section,
                own,
                config.max_chunk_chars,
                config.overlap_lines,
            );
            let ghost added = chunk_models(more@);
            chunks.append(&mut more);
            assert(chunk_models(chunks@) =~= before + added);
        }
        k = k + 1;
    }
    chunks
}

/// Consecutive chunks leave no line out: they begin at line `from`, each begins
/// no later than the one before it ends, and none is empty.
pub open spec fn gapless(chunks: Seq<ChunkModel>, from: nat) -> bool {
    &&& chunks.len() > 0 ==> chunks[0].start_line == from
    &&& forall|k: int|
        0 <= k < chunks.len() ==> (#[trigger] chunks[k]).start_line < chunks[k].end_line
    &&& forall|k: int|
        0 < k < chunks.len() ==> (#[trigger] chunks[k]).start_line <= chunks[k - 1].end_line
}

proof fn lemma_text_scan_gapless(lines: Seq<Seq<char>>, max: nat, overlap: nat, n: nat)
    ensures
        gapless(text_scan(lines, max, overlap, n).0, 0),
        forall|k: int|
            0 <= k < text_scan(lines, max, overlap, n).0.len() ==> {
                let c = #[trigger] text_scan(lines, max, overlap, n).0[k];
                c.end_line < n && c == plain_chunk(lines, c.start_line, c.end_line)
            },
    decreases n,
{
    if n > 0 {
        let i = (n - 1) as nat;
        lemma_text_scan_gapless(lines, max, overlap, i);
        lemma_text_scan_start(lines, max, overlap, i);
        lemma_text_scan_start(lines, max, overlap, n);
    }
}

/// The chunks of a plain text that needs more than one cover all its lines:
/// the first begins with the first line, none begins after the line that
/// follows the one before it, the last ends with the last line, and each holds
/// exactly the lines that it says it spans.
pub proof fn law_text_chunks_cover(text: Seq<char>, max: nat, overlap: nat)
    requires
        model::byte_len(text) > max,
    ensures
        ({
            let lines = model::lines(text);
            let chunks = text_chunks(text, max, overlap);
            &&& chunks.len() > 0
            &&& gapless(chunks, 0)
            &&& chunks.last().end_line == lines.len()
            &&& forall|k: int|
                0 <= k < chunks.len() ==> #[trigger] chunks[k] == plain_chunk(
                    lines,
                    chunks[k].start_line,
                    chunks[k].end_line,
                )
        }),
{
    let lines = model::lines(text);
    lemmas::lemma_byte_len_at_least(text);
    lemma_has_line(text);
    lemma_text_scan_gapless(lines, max, overlap, lines.len());
    lemma_text_scan_start(lines, max, overlap, lines.len());
}

proof fn lemma_text_scan_bounded(lines: Seq<Seq<char>>, max: nat, overlap: nat, n: nat)
    ensures
        ({
            let (chunks, start) = text_scan(lines, max, overlap, n);
            &&& model::byte_len(span(lines, start, n)) <= max || n - start <= 1
            &&& forall|k: int|
                0 <= k < chunks.len() ==> model::byte_len((#[trigger] chunks[k]).content) <= max
                    || chunks[k].end_line - chunks[k].start_line <= 1
        }),
    decreases n,
{
    if n > 0 {
        let i = (n - 1) as nat;
        lemma_text_scan_bounded(lines, max, overlap, i);
        lemma_fitting_start(lines, max, less(i, overlap), i);
    }
}

/// A chunk of a plain text has at most `max` bytes, unless it is a single line.
pub proof fn law_text_chunks_bounded(text: Seq<char>, max: nat, overlap: nat, k: int)
    requires
        0 <= k < text_chunks(text, max, overlap).len(),
    ensures
        ({
            let c = text_chunks(text, max, overlap)[k];
            model::byte_len(c.content) <= max || c.end_line - c.start_line <= 1
        }),
{
    let lines = model::lines(text);
    lemma_text_scan_bounded(lines, max, overlap, lines.len());
}

/// The sections, from line `0` up to line `n`, one directly after the other.
pub open spec fn partition(sections: Seq<SectionModel>, n: nat) -> bool {
    &&& sections.len() == 0 ==> n == 0
    &&& sections.len() > 0 ==> sections[0].start == 0 && sections.last().end == n
    &&& forall|k: int| 0 <= k < sections.len() ==> (#[trigger] sections[k]).start < sections[k].end
    &&& forall|k: int|
        0 < k < sections.len() ==> (#[trigger] sections[k]).start == sections[k - 1].end
}

proof fn lemma_outline_partition(lines: Seq<Seq<char>>, min: nat, n: nat)
    ensures
        partition(outline(lines, min, n).sections, outline(lines, min, n).start),
        outline(lines, min, n).start <= n,
    decreases n,
{
    if n > 0 {
        lemma_outline_partition(lines, min, (n - 1) as nat);
    }
}

/// The sections of a document follow each other without gap or overlap, from
/// the first line to the last.
pub proof fn law_sections_partition(lines: Seq<Seq<char>>, min: nat)
    ensures
        partition(sections_of(lines, min), lines.len()),
{
    lemma_outline_partition(lines, min, lines.len());
}

/// Every section of a document but the first begins with a heading of at least
/// the level `min`.
pub proof fn law_sections_begin_with_headings(lines: Seq<Seq<char>>, min: nat, k: int)
    requires
        0 < k < sections_of(lines, min).len(),
    ensures
        ({
            let first = lines[sections_of(lines, min)[k].start as int];
            level_of(first) matches Some(level) && level >= min
        }),
{
    lemma_outline_headings(lines, min, lines.len());
    lemma_outline_partition(lines, min, lines.len());
}

proof fn lemma_outline_headings(lines: Seq<Seq<char>>, min: nat, n: nat)
    ensures
        ({
            let o = outline(lines, min, n);
            &&& forall|k: int|
                0 < k < o.sections.len() ==> (level_of(lines[(#[trigger] o.sections[k]).start as int])
                    matches Some(level) && level >= min)
            &&& o.sections.len() > 0 ==> (level_of(lines[o.start as int]) matches Some(level)
                && level >= min)
        }),
    decreases n,
{
    if n > 0 {
        lemma_outline_headings(lines, min, (n - 1) as nat);
        lemma_outline_partition(lines, min, (n - 1) as nat);
    }
}

/// What is known of every chunk of a document that is cut.
pub open spec fn carries_headings(c: ChunkModel, n: nat) -> bool {
    &&& c.start_line <= c.end_line <= n
    &&& exists|body: Seq<char>| c.content == #[trigger] with_context(c.heading_path, body)
}

proof fn lemma_cut_carries(
    s: SectionModel,
    own: Seq<Seq<char>>,
    max: nat,
    overlap: nat,
    n: nat,
    total: nat,
)
    requires
        n <= own.len(),
        s.start + own.len() <= total,
    ensures
        ({
            let c = cut_scan(s, own, max, overlap, n);
            &&& c.start <= s.start + n
            &&& forall|k: int|
                0 <= k < c.chunks.len() ==> {
                    &&& carries_headings(#[trigger] c.chunks[k], total)
                    &&& c.chunks[k].heading_path == s.context
                }
        }),
    decreases n,
{
    if n > 0 {
        let i = (n - 1) as nat;
        lemma_cut_carries(s, own, max, overlap, i, total);
        let c = cut_scan(s, own, max, overlap, i);
        let d = cut_scan(s, own, max, overlap, n);
        if d.chunks.len() > c.chunks.len() {
            let last = d.chunks.last();
            assert(last.content == with_context(last.heading_path, model::trim(c.text)));
        }
    }
}

proof fn lemma_section_carries(
    s: SectionModel,
    lines: Seq<Seq<char>>,
    max: nat,
    overlap: nat,
)
    requires
        s.start < s.end <= lines.len(),
    ensures
        forall|k: int|
            0 <= k < section_chunks(s, lines, max, overlap).len() ==> {
                &&& carries_headings(
                    #[trigger] section_chunks(s, lines, max, overlap)[k],
                    lines.len(),
                )
                &&& section_chunks(s, lines, max, overlap)[k].heading_path == s.context
            },
{
    let text = span(lines, s.start, s.end);
    let own = lines.subrange(s.start as int, s.end as int);
    if model::byte_len(text) <= max {
        let c = section_chunks(s, lines, max, overlap)[0];
        assert(c.content == with_context(c.heading_path, text));
    } else {
        lemma_cut_carries(s, own, max, overlap, own.len(), lines.len());
        let c = cut_scan(s, own, max, overlap, own.len());
        let last = section_chunk(s, c.text, c.start, s.start + own.len());
        assert(last.content == with_context(last.heading_path, model::trim(c.text)));
    }
}

proof fn lemma_all_carry(
    sections: Seq<SectionModel>,
    lines: Seq<Seq<char>>,
    max: nat,
    overlap: nat,
    n: nat,
)
    requires
        n <= sections.len(),
        forall|j: int|
            0 <= j < sections.len() ==> (#[trigger] sections[j]).start < sections[j].end
                <= lines.len(),
    ensures
        forall|k: int|
            0 <= k < all_section_chunks(sections, lines, max, overlap, n).len() ==> {
                let c = #[trigger] all_section_chunks(sections, lines, max, overlap, n)[k];
                &&& carries_headings(c, lines.len())
                &&& exists|j: int|
                    0 <= j < sections.len() && (#[trigger] sections[j]).context == c.heading_path
            },
    decreases n,
{
    if n > 0 {
        lemma_all_carry(sections, lines, max, overlap, (n - 1) as nat);
        lemma_section_carries(sections[n - 1], lines, max, overlap);
        let before = all_section_chunks(sections, lines, max, overlap, (n - 1) as nat);
        let own = section_chunks(sections[n - 1], lines, max, overlap);
        assert forall|k: int| 0 <= k < (before + own).len() implies ({
            let c = #[trigger] (before + own)[k];
            &&& carries_headings(c, lines.len())
            &&& exists|j: int|
                0 <= j < sections.len() && (#[trigger] sections[j]).context == c.heading_path
        }) by {
            if k >= before.len() {
                let c = own[k - before.len()];
                assert(sections[n - 1].context == c.heading_path);
            }
        }
    }
}

/// Every chunk of a document that is cut lies within the document, is headed by
/// the headings above its section, and shows them in front of its text.
pub proof fn law_markdown_chunks_carry_headings(text: Seq<char>, config: ChunkConfig, k: int)
    requires
        model::byte_len(text) > config.max_chunk_chars,
        0 <= k < markdown_chunks(text, config).len(),
    ensures
        ({
            let c = markdown_chunks(text, config)[k];
            let sections = sections_of(model::lines(text), config.min_heading_level as nat);
            &&& carries_headings(c, model::lines(text).len())
            &&& exists|j: int|
                0 <= j < sections.len() && (#[trigger] sections[j]).context == c.heading_path
        }),
{
    let lines = model::lines(text);
    let sections = sections_of(lines, config.min_heading_level as nat);
    lemmas::lemma_byte_len_at_least(text);
    lemma_sections_within(lines, config.min_heading_level as nat, lines.len());
    law_sections_partition(lines, config.min_heading_level as nat);
    assert forall|j: int| 0 <= j < sections.len() implies (#[trigger] sections[j]).start
        < sections[j].end <= lines.len() by {
        let o = outline(lines, config.min_heading_level as nat, lines.len());
        if j < o.sections.len() {
            assert(sections[j] == o.sections[j]);
        }
    }
    lemma_all_carry(
        sections,
        lines,
        config.max_chunk_chars as nat,
        config.overlap_lines as nat,
        sections.len(),
    );
}

/// Whether chunk `k` begins `overlap` lines before the end of the one before it, or
/// with line `from` where there are fewer lines.
pub open spec fn overlaps(chunks: Seq<ChunkModel>, k: int, from: nat, overlap: nat) -> bool {
    let end = chunks[k - 1].end_line;
    end >= from && chunks[k].start_line == from + less((end - from) as nat, overlap)
}

/// The first chunk begins with line `from`, and each other one overlaps the one before
/// it.
pub open spec fn overlapping(chunks: Seq<ChunkModel>, from: nat, overlap: nat) -> bool {
    &&& chunks.len() > 0 ==> chunks[0].start_line == from
    &&& forall|k: int| 0 < k < chunks.len() ==> #[trigger] overlaps(chunks, k, from, overlap)
}

/// One more chunk, which begins where it should.
proof fn lemma_overlapping_push(
    chunks: Seq<ChunkModel>,
    from: nat,
    overlap: nat,
    start: nat,
    c: ChunkModel,
)
    requires
        overlapping(chunks, from, overlap),
        chunks.len() == 0 ==> start == from,
        chunks.len() > 0 ==> chunks.last().end_line >= from && start == from + less(
            (chunks.last().end_line - from) as nat,
            overlap,
        ),
        c.start_line == start,
    ensures
        overlapping(chunks.push(c), from, overlap),
{
    let all = chunks.push(c);
    assert forall|k: int| 0 < k < all.len() implies #[trigger] overlaps(all, k, from, overlap) by {
        if k < chunks.len() {
            assert(overlaps(chunks, k, from, overlap));
        }
    }
}

proof fn lemma_cut_overlaps(
    s: SectionModel,
    own: Seq<Seq<char>>,
    max: nat,
    overlap: nat,
    n: nat,
)
    ensures
        ({
            let c = cut_scan(s, own, max, overlap, n);
            &&& overlapping(c.chunks, s.start, overlap)
            &&& c.chunks.len() == 0 ==> c.start == s.start
            &&& c.chunks.len() > 0 ==> c.chunks.last().end_line >= s.start && c.start == s.start
                + less((c.chunks.last().end_line - s.start) as nat, overlap)
        }),
    decreases n,
{
    if n > 0 {
        let i = (n - 1) as nat;
        lemma_cut_overlaps(s, own, max, overlap, i);
        let c = cut_scan(s, own, max, overlap, i);
        let done = section_chunk(s, c.text, c.start, s.start + i);
        lemma_overlapping_push(c.chunks, s.start, overlap, c.start, done);
        assert(c.chunks.push(done).last() == done);
    }
}

/// Where a section is cut, neighbouring chunks share as many lines as the overlap
/// says: each chunk begins that many lines before the end of the one before it, or at
/// the beginning of the section.
pub proof fn law_cut_chunks_overlap(
    s: SectionModel,
    own: Seq<Seq<char>>,
    max: nat,
    overlap: nat,
)
    ensures
        overlapping(cut_chunks(s, own, max, overlap), s.start, overlap),
{
    lemma_cut_overlaps(s, own, max, overlap, own.len());
    let c = cut_scan(s, own, max, overlap, own.len());
    let last = section_chunk(s, c.text, c.start, s.start + own.len());
    lemma_overlapping_push(c.chunks, s.start, overlap, c.start, last);
}

/// Some chunk holds a text.
pub open spec fn held(chunks: Seq<ChunkModel>, p: Seq<char>) -> bool {
    exists|k: int| 0 <= k < chunks.len() && model::contains((#[trigger] chunks[k]).content, p)
}

/// What a list of chunks holds, it holds with more chunks behind it.
proof fn lemma_still_held(chunks: Seq<ChunkModel>, more: Seq<ChunkModel>, p: Seq<char>)
    ensures
        held(chunks, p) ==> held(chunks + more, p),
        held(more, p) ==> held(chunks + more, p),
{
    let all = chunks + more;
    if held(chunks, p) {
        let k = choose|k: int|
            0 <= k < chunks.len() && model::contains((#[trigger] chunks[k]).content, p);
        assert(all[k] == chunks[k]);
    }
    if held(more, p) {
        let k = choose|k: int|
            0 <= k < more.len() && model::contains((#[trigger] more[k]).content, p);
        assert(all[chunks.len() + k] == more[k]);
    }
}

/// A text with headings in front still holds what it held.
proof fn lemma_context_holds(context: Seq<char>, text: Seq<char>, p: Seq<char>)
    requires
        model::contains(text, p),
    ensures
        model::contains(with_context(context, text), p),
{
    if context.len() > 0 {
        let head = "[Context: "@ + context + "]\n\n"@;
        lemmas::lemma_contains_within(head, text, Seq::empty(), p);
        assert(head + text + Seq::<char>::empty() =~= with_context(context, text));
    }
}

/// A chunk of a section holds what its text holds, but for white space.
proof fn lemma_section_chunk_holds(
    s: SectionModel,
    text: Seq<char>,
    a: nat,
    b: nat,
    p: Seq<char>,
)
    requires
        lemmas::is_trimmed(p),
        model::contains(text, p),
    ensures
        model::contains(section_chunk(s, text, a, b).content, p),
{
    lemmas::lemma_contains_trimmed(text, p);
    lemma_context_holds(s.context, model::trim(text), p);
}

/// A span of lines holds each of them.
proof fn lemma_span_holds(lines: Seq<Seq<char>>, a: nat, b: nat, j: int, p: Seq<char>)
    requires
        a <= j < b <= lines.len(),
        model::contains(lines[j], p),
    ensures
        model::contains(span(lines, a, b), p),
{
    let v = lines.subrange(a as int, b as int);
    assert(v[j - a] == lines[j]);
    lemmas::lemma_join_holds(v, "\n"@, j - a, p);
}

/// After some lines of a section, each line that is not blank is in a chunk or in the
/// text of the next one.
proof fn lemma_cut_holds(
    s: SectionModel,
    own: Seq<Seq<char>>,
    max: nat,
    overlap: nat,
    n: nat,
    j: int,
)
    requires
        0 <= j < n <= own.len(),
        model::trim(own[j]).len() > 0,
    ensures
        ({
            let c = cut_scan(s, own, max, overlap, n);
            let p = model::trim(own[j]);
            held(c.chunks, p) || model::contains(c.text, p)
        }),
    decreases n,
{
    let i = (n - 1) as nat;
    let c = cut_scan(s, own, max, overlap, i);
    let d = cut_scan(s, own, max, overlap, n);
    let line = own[i as int];
    let p = model::trim(own[j]);
    lemmas::lemma_trim_is_trimmed(own[j]);
    let done = section_chunk(s, c.text, c.start, s.start + i);
    if j < i {
        lemma_cut_holds(s, own, max, overlap, i, j);
        if d.chunks.len() > c.chunks.len() {
            assert(d.chunks =~= c.chunks + seq![done]);
            lemma_still_held(c.chunks, seq![done], p);
            if model::contains(c.text, p) {
                lemma_section_chunk_holds(s, c.text, c.start, s.start + i, p);
                assert(seq![done][0] == done);
                assert(held(seq![done], p));
            }
        } else if model::contains(c.text, p) {
            lemmas::lemma_contains_fits(c.text, p);
            lemmas::lemma_contains_within(Seq::empty(), c.text, "\n"@ + line, p);
            assert(Seq::<char>::empty() + c.text + ("\n"@ + line) =~= c.text + "\n"@ + line);
        }
    } else {
        let from = less(i, overlap);
        if d.chunks.len() > c.chunks.len() {
            lemma_span_holds(own, from, i + 1, j, p);
        } else if c.text.len() > 0 {
            lemmas::lemma_contains_within(c.text + "\n"@, line, Seq::empty(), p);
            assert((c.text + "\n"@) + line + Seq::<char>::empty() =~= c.text + "\n"@ + line);
        }
    }
}

/// The chunks of a section hold each of its lines that is not blank.
proof fn lemma_section_holds(
    s: SectionModel,
    lines: Seq<Seq<char>>,
    max: nat,
    overlap: nat,
    j: int,
)
    requires
        s.start <= j < s.end <= lines.len(),
        model::trim(lines[j]).len() > 0,
    ensures
        held(section_chunks(s, lines, max, overlap), model::trim(lines[j])),
{
    let text = span(lines, s.start, s.end);
    let p = model::trim(lines[j]);
    let chunks = section_chunks(s, lines, max, overlap);
    lemmas::lemma_trim_is_trimmed(lines[j]);
    if model::byte_len(text) <= max {
        lemma_span_holds(lines, s.start, s.end, j, p);
        lemma_context_holds(s.context, text, p);
        assert(model::contains(chunks[0].content, p));
    } else {
        let own = lines.subrange(s.start as int, s.end as int);
        assert(own[j - s.start] == lines[j]);
        lemma_cut_holds(s, own, max, overlap, own.len(), j - s.start);
        let c = cut_scan(s, own, max, overlap, own.len());
        let last = section_chunk(s, c.text, c.start, s.start + own.len());
        if model::contains(c.text, p) {
            lemmas::lemma_contains_trimmed(c.text, p);
            lemmas::lemma_contains_fits(model::trim(c.text), p);
            lemma_section_chunk_holds(s, c.text, c.start, s.start + own.len(), p);
            assert(chunks == c.chunks.push(last));
            assert(chunks.last() == last);
            assert(model::contains(chunks[chunks.len() - 1].content, p));
        } else {
            lemma_still_held(c.chunks, seq![last], p);
            assert(c.chunks + seq![last] =~= c.chunks.push(last));
        }
    }
}

/// The chunks of some sections hold what those of each hold.
proof fn lemma_all_hold(
    sections: Seq<SectionModel>,
    lines: Seq<Seq<char>>,
    max: nat,
    overlap: nat,
    n: nat,
    k: int,
    p: Seq<char>,
)
    requires
        0 <= k < n <= sections.len(),
        held(section_chunks(sections[k], lines, max, overlap), p),
    ensures
        held(all_section_chunks(sections, lines, max, overlap, n), p),
    decreases n,
{
    let before = all_section_chunks(sections, lines, max, overlap, (n - 1) as nat);
    let own = section_chunks(sections[n - 1], lines, max, overlap);
    if k < n - 1 {
        lemma_all_hold(sections, lines, max, overlap, (n - 1) as nat, k, p);
    }
    lemma_still_held(before, own, p);
}

/// A line of a document stands in one of its sections.
proof fn lemma_line_in_section(sections: Seq<SectionModel>, n: nat, j: int) -> (k: int)
    requires
        partition(sections, n),
        0 <= j < n,
    ensures
        0 <= k < sections.len(),
        sections[k].start <= j < sections[k].end,
    decreases sections.len(),
{
    let last = sections.len() - 1;
    if sections[last].start <= j {
        last
    } else {
        let before = sections.drop_last();
        assert forall|k: int| 0 < k < before.len() implies (#[trigger] before[k]).start
            == before[k - 1].end by {
            assert(sections[k].start == sections[k - 1].end);
        }
        assert forall|k: int| 0 <= k < before.len() implies (#[trigger] before[k]).start
            < before[k].end by {
            assert(sections[k].start < sections[k].end);
        }
        assert(sections[last].start == sections[last - 1].end);
        lemma_line_in_section(before, sections[last].start, j)
    }
}

/// No text is lost: each line of a document that is not blank stands, without the
/// white space around it, in some chunk.
pub proof fn law_markdown_chunks_lose_no_text(text: Seq<char>, config: ChunkConfig, j: int)
    requires
        0 <= j < model::lines(text).len(),
        model::trim(model::lines(text)[j]).len() > 0,
    ensures
        held(markdown_chunks(text, config), model::trim(model::lines(text)[j])),
{
    let lines = model::lines(text);
    let p = model::trim(lines[j]);
    let min = config.min_heading_level as nat;
    let max = config.max_chunk_chars as nat;
    let overlap = config.overlap_lines as nat;
    lemmas::lemma_trim_is_trimmed(lines[j]);
    if model::byte_len(text) <= config.max_chunk_chars {
        lemmas::lemma_lines_within(text, j, p);
        assert(model::contains(markdown_chunks(text, config)[0].content, p));
    } else {
        let sections = sections_of(lines, min);
        law_sections_partition(lines, min);
        let k = lemma_line_in_section(sections, lines.len(), j);
        lemma_sections_end(sections, lines.len(), k);
        lemma_section_holds(sections[k], lines, max, overlap, j);
        lemma_all_hold(sections, lines, max, overlap, sections.len(), k, p);
    }
}

/// No section ends behind the document.
proof fn lemma_sections_end(sections: Seq<SectionModel>, n: nat, k: int)
    requires
        partition(sections, n),
        0 <= k < sections.len(),
    ensures
        sections[k].end <= n,
    decreases sections.len() - k,
{
    if k + 1 < sections.len() {
        assert(sections[k + 1].start == sections[k].end);
        lemma_sections_end(sections, n, k + 1);
    }
}

/// A line is a heading of level `n` exactly where, behind white space, it begins with
/// `n` hashes, from one to six, which a blank follows or the end of the line.
pub proof fn law_heading_levels(n: nat, rest: Seq<char>)
    requires
        rest.len() == 0 || rest[0] != '#',
    ensures
        level_of(Seq::new(n, |i: int| '#') + rest) == if 1 <= n <= 6 && (rest.len() == 0
            || rest[0] == ' ') {
            Some(n)
        } else if n > 0 {
            None
        } else {
            level_of(rest)
        },
        level_of(seq![' '] + rest) == level_of(rest),
{
    let s = Seq::new(n, |i: int| '#') + rest;
    assert((seq![' '] + rest).skip(1) =~= rest);
    if n == 0 {
        assert(s =~= rest);
    } else {
        assert(s[0] == '#');
        lemma_hashes(n, rest);
        if rest.len() > 0 {
            assert(s[n as int] == rest[0]);
        }
    }
}

proof fn lemma_hashes(n: nat, rest: Seq<char>)
    requires
        rest.len() == 0 || rest[0] != '#',
    ensures
        hashes(Seq::new(n, |i: int| '#') + rest) == n,
    decreases n,
{
    let s = Seq::new(n, |i: int| '#') + rest;
    if n == 0 {
        assert(s =~= rest);
    } else {
        assert(s[0] == '#');
        assert(s.skip(1) =~= Seq::new((n - 1) as nat, |i: int| '#') + rest);
        lemma_hashes((n - 1) as nat, rest);
    }
}

/// Line `i` is a heading of at least the level `min`.
pub open spec fn heads(lines: Seq<Seq<char>>, min: nat, i: int) -> bool {
    0 <= i < lines.len() && (level_of(lines[i]) matches Some(level) && level >= min)
}

/// The level of the heading on line `i`.
pub open spec fn level_at(lines: Seq<Seq<char>>, i: int) -> nat {
    level_of(lines[i])->0
}

/// The heading on line `i` is in force before line `n`: no heading of its own or of a
/// lower level follows it.
pub open spec fn is_in_force(lines: Seq<Seq<char>>, min: nat, n: nat, i: int) -> bool {
    &&& i < n
    &&& heads(lines, min, i)
    &&& forall|j: int| i < j < n && #[trigger] heads(lines, min, j) ==> level_at(lines, j)
        > level_at(lines, i)
}

/// The headings in force at any line are the headings that no heading of the same or
/// of a lower level has closed, in the order of the document; so their levels grow
/// strictly. `idx` holds the lines that they stand on.
pub proof fn law_headings_in_force(lines: Seq<Seq<char>>, min: nat, n: nat) -> (idx: Seq<int>)
    requires
        n <= lines.len(),
    ensures
        outline(lines, min, n).stack.len() == idx.len(),
        forall|k: int|
            0 <= k < idx.len() ==> (#[trigger] outline(lines, min, n).stack[k]).line
                == lines[idx[k]] && outline(lines, min, n).stack[k].level == level_at(
                lines,
                idx[k],
            ),
        forall|k: int| 0 <= k < idx.len() ==> is_in_force(lines, min, n, #[trigger] idx[k]),
        forall|i: int| #[trigger] is_in_force(lines, min, n, i) ==> idx.contains(i),
        forall|a: int, b: int|
            0 <= a < b < idx.len() ==> #[trigger] idx[a] < #[trigger] idx[b] && level_at(
                lines,
                idx[a],
            ) < level_at(lines, idx[b]),
    decreases n,
{
    if n == 0 {
        Seq::empty()
    } else {
        let i = (n - 1) as nat;
        let before = law_headings_in_force(lines, min, i);
        let o = outline(lines, min, i);
        if heads(lines, min, i as int) {
            let level = level_at(lines, i as int);
            let m = lemma_above(o.stack, level);
            let kept = before.take(m);
            let idx = kept.push(i as int);
            let stack = outline(lines, min, n).stack;
            assert(stack =~= o.stack.take(m).push(
                HeadingModel { level: level, line: lines[i as int] },
            ));
            assert forall|k: int| 0 <= k < idx.len() implies is_in_force(
                lines,
                min,
                n,
                #[trigger] idx[k],
            ) && stack[k].line == lines[idx[k]] && stack[k].level == level_at(
                lines,
                idx[k],
            ) by {
                if k < m {
                    assert(idx[k] == before[k]);
                    assert(o.stack[k].level == level_at(lines, before[k]));
                    if m > 0 {
                        assert(o.stack[m - 1].level == level_at(lines, before[m - 1]));
                        assert(k < m - 1 ==> level_at(lines, before[k]) < level_at(
                            lines,
                            before[m - 1],
                        ));
                    }
                    assert(is_in_force(lines, min, i, before[k]));
                }
            }
            assert forall|j: int| #[trigger] is_in_force(lines, min, n, j) implies idx.contains(
                j,
            ) by {
                if j == i {
                    assert(idx[m] == j);
                } else {
                    assert(heads(lines, min, i as int));
                    assert(is_in_force(lines, min, i, j));
                    let k = choose|k: int| 0 <= k < before.len() && before[k] == j;
                    assert(o.stack[k].level == level_at(lines, before[k]));
                    assert(k < m);
                    assert(idx[k] == j);
                }
            }
            assert forall|a: int, b: int| 0 <= a < b < idx.len() implies #[trigger] idx[a]
                < #[trigger] idx[b] && level_at(lines, idx[a]) < level_at(lines, idx[b]) by {
                assert(idx[a] == before[a]);
                assert(o.stack[a].level == level_at(lines, before[a]));
                if b < m {
                    assert(idx[b] == before[b]);
                } else {
                    assert(is_in_force(lines, min, i, before[a]));
                    assert(o.stack[m - 1].level == level_at(lines, before[m - 1]));
                    assert(a < m - 1 ==> level_at(lines, before[a]) < level_at(
                        lines,
                        before[m - 1],
                    ));
                }
            }
            idx
        } else {
            assert forall|j: int| is_in_force(lines, min, n, j) == #[trigger] is_in_force(
                lines,
                min,
                i,
                j,
            ) by {
                assert(!heads(lines, min, i as int));
                if is_in_force(lines, min, i, j) {
                    assert forall|k: int| j < k < n && #[trigger] heads(
                        lines,
                        min,
                        k,
                    ) implies level_at(lines, k) > level_at(lines, j) by {
                        assert(k != i);
                    }
                }
            }
            assert forall|j: int| #[trigger] is_in_force(lines, min, n, j) implies before.contains(
                j,
            ) by {
                assert(is_in_force(lines, min, i, j));
            }
            before
        }
    }
}

/// The headings above a level are the first ones, up to the last of a lower level.
proof fn lemma_above(stack: Seq<HeadingModel>, level: nat) -> (m: int)
    ensures
        0 <= m <= stack.len(),
        above(stack, level) == stack.take(m),
        m > 0 ==> stack[m - 1].level < level,
        forall|k: int| m <= k < stack.len() ==> (#[trigger] stack[k]).level >= level,
    decreases stack.len(),
{
    if stack.len() > 0 && !(stack.last().level < level) {
        let m = lemma_above(stack.drop_last(), level);
        assert(stack.drop_last().take(m) =~= stack.take(m));
        assert forall|k: int| m <= k < stack.len() implies (#[trigger] stack[k]).level
            >= level by {
            if k < stack.len() - 1 {
                assert(stack.drop_last()[k] == stack[k]);
            }
        }
        m
    } else {
        assert(stack.take(stack.len() as int) =~= stack);
        stack.len() as int
    }
}

/// Every section is told the headings in force at its first line but the innermost.
proof fn lemma_outline_contexts(lines: Seq<Seq<char>>, min: nat, n: nat)
    requires
        n <= lines.len(),
    ensures
        ({
            let o = outline(lines, min, n);
            &&& forall|k: int|
                0 <= k < o.sections.len() ==> (#[trigger] o.sections[k]).context == context_of(
                    outline(lines, min, o.sections[k].start + 1).stack,
                )
            &&& n > 0 ==> o.start < n && o.stack == outline(lines, min, o.start + 1).stack
        }),
    decreases n,
{
    if n > 0 {
        let i = (n - 1) as nat;
        lemma_outline_contexts(lines, min, i);
        let p = outline(lines, min, i);
        let o = outline(lines, min, n);
        assert forall|k: int| 0 <= k < o.sections.len() implies (#[trigger] o.sections[k]).context
            == context_of(outline(lines, min, o.sections[k].start + 1).stack) by {
            if k < p.sections.len() {
                assert(o.sections[k] == p.sections[k]);
            }
        }
    }
}

/// The heading on line `i` is a parent of the section that begins with the heading on
/// line `at`: it is of a lower level, and none between them closes it.
pub open spec fn is_parent(lines: Seq<Seq<char>>, min: nat, at: int, i: int) -> bool {
    &&& heads(lines, min, at)
    &&& heads(lines, min, i)
    &&& i < at
    &&& level_at(lines, i) < level_at(lines, at)
    &&& forall|j: int| i < j < at && #[trigger] heads(lines, min, j) ==> level_at(lines, j)
        > level_at(lines, i)
}

/// A section is told exactly its parents, outermost first: the last heading of a lower
/// level before it, and so on outwards. A section without a heading has none. `idx`
/// holds the lines that they stand on.
pub proof fn law_sections_tell_their_parents(lines: Seq<Seq<char>>, min: nat, k: int) -> (idx: Seq<
    int,
>)
    requires
        0 <= k < sections_of(lines, min).len(),
    ensures
        ({
            let s = sections_of(lines, min)[k];
            let at = s.start as int;
            &&& s.context == model::join(
                Seq::new(idx.len(), |j: int| model::trim(lines[idx[j]])),
                " > "@,
            )
            &&& forall|j: int| 0 <= j < idx.len() ==> is_parent(lines, min, at, #[trigger] idx[j])
            &&& forall|i: int| #[trigger] is_parent(lines, min, at, i) ==> idx.contains(i)
            &&& forall|a: int, b: int|
                0 <= a < b < idx.len() ==> #[trigger] idx[a] < #[trigger] idx[b] && level_at(
                    lines,
                    idx[a],
                ) < level_at(lines, idx[b])
        }),
{
    let n = lines.len();
    let s = sections_of(lines, min)[k];
    let at = s.start as int;
    law_sections_partition(lines, min);
    lemma_sections_end(sections_of(lines, min), n, k);
    lemma_outline_contexts(lines, min, n);
    let o = outline(lines, min, n);
    let stack = outline(lines, min, s.start + 1).stack;
    assert(s.context == context_of(stack));
    let all = law_headings_in_force(lines, min, s.start + 1);
    let idx = if all.len() == 0 {
        all
    } else {
        all.drop_last()
    };
    let shown = Seq::new(idx.len(), |j: int| model::trim(lines[idx[j]]));
    if stack.len() <= 1 {
        assert(shown =~= Seq::empty());
    } else {
        let parts = stack.drop_last().map_values(|h: HeadingModel| model::trim(h.line));
        assert forall|j: int| 0 <= j < parts.len() implies parts[j] == shown[j] by {
            assert(stack[j].line == lines[all[j]]);
        }
        assert(parts =~= shown);
    }
    if all.len() > 0 && !heads(lines, min, at) {
        assert(is_in_force(lines, min, s.start + 1, all[0]));
        lemma_unheaded_start(lines, min, n, at);
    }
    if all.len() > 0 {
        assert(is_in_force(lines, min, s.start + 1, at));
        let w = choose|w: int| 0 <= w < all.len() && all[w] == at;
        assert(is_in_force(lines, min, s.start + 1, all.last()));
        if w < all.len() - 1 {
            assert(all[w] < all[all.len() - 1]);
        }
        assert forall|j: int| 0 <= j < idx.len() implies is_parent(
            lines,
            min,
            at,
            #[trigger] idx[j],
        ) by {
            assert(all[j] < all[all.len() - 1]);
            assert(is_in_force(lines, min, s.start + 1, all[j]));
        }
    }
    assert forall|i: int| #[trigger] is_parent(lines, min, at, i) implies idx.contains(i) by {
        assert forall|j: int| i < j < s.start + 1 && #[trigger] heads(
            lines,
            min,
            j,
        ) implies level_at(lines, j) > level_at(lines, i) by {}
        assert(is_in_force(lines, min, s.start + 1, i));
        let w = choose|w: int| 0 <= w < all.len() && all[w] == i;
        assert(all.last() == at);
        assert(idx[w] == i);
    }
    idx
}

/// A section without a heading is the first one, before every heading.
proof fn lemma_unheaded_start(lines: Seq<Seq<char>>, min: nat, n: nat, at: int)
    requires
        n <= lines.len(),
        !heads(lines, min, at),
        outline(lines, min, n).start == at || exists|k: int|
            0 <= k < outline(lines, min, n).sections.len() && (#[trigger] outline(
                lines,
                min,
                n,
            ).sections[k]).start == at,
    ensures
        at == 0,
    decreases n,
{
    lemma_outline_headings(lines, min, n);
    lemma_outline_partition(lines, min, n);
    let o = outline(lines, min, n);
    if n > 0 {
        let p = outline(lines, min, (n - 1) as nat);
        lemma_outline_contexts(lines, min, n);
        if o.start == at {
            if !(p.start == at) {
                assert(heads(lines, min, n - 1));
            }
            lemma_unheaded_start(lines, min, (n - 1) as nat, at);
        } else {
            let k = choose|k: int|
                0 <= k < o.sections.len() && (#[trigger] o.sections[k]).start == at;
            if k < p.sections.len() {
                assert(p.sections[k].start == at);
            }
            lemma_unheaded_start(lines, min, (n - 1) as nat, at);
        }
    }
}

/// A chunk of a document that is cut belongs to a section: it lies within it, its path
/// is what the section is told, and where that is not empty the chunk's text shows it in
/// brackets before anything else. A section that fits is one chunk with all its lines.
pub proof fn law_chunks_belong_to_sections(text: Seq<char>, config: ChunkConfig, k: int) -> (j: int)
    requires
        model::byte_len(text) > config.max_chunk_chars,
        0 <= k < markdown_chunks(text, config).len(),
    ensures
        ({
            let lines = model::lines(text);
            let sections = sections_of(lines, config.min_heading_level as nat);
            let c = markdown_chunks(text, config)[k];
            let s = sections[j];
            &&& 0 <= j < sections.len()
            &&& c.heading_path == s.context
            &&& s.start <= c.start_line <= c.end_line <= s.end
            &&& s.context.len() > 0 ==> model::starts_with(
                c.content,
                "[Context: "@ + s.context + "]\n\n"@,
            )
            &&& model::byte_len(span(lines, s.start, s.end)) <= config.max_chunk_chars ==> {
                &&& c.start_line == s.start
                &&& c.end_line == s.end
                &&& model::ends_with(c.content, span(lines, s.start, s.end))
                &&& s.context.len() == 0 ==> c.content == span(lines, s.start, s.end)
            }
        }),
{
    let lines = model::lines(text);
    let sections = sections_of(lines, config.min_heading_level as nat);
    law_sections_partition(lines, config.min_heading_level as nat);
    reveal_strlit("");
    lemma_chunk_section(
        sections,
        lines,
        config.max_chunk_chars as nat,
        config.overlap_lines as nat,
        sections.len(),
        k,
    )
}

/// What is told of a chunk and its section.
spec fn chunk_of_section(
    c: ChunkModel,
    s: SectionModel,
    lines: Seq<Seq<char>>,
    max: nat,
) -> bool {
    let whole = span(lines, s.start, s.end);
    &&& c.heading_path == s.context
    &&& s.start <= c.start_line <= c.end_line <= s.end
    &&& s.context.len() > 0 ==> model::starts_with(
        c.content,
        "[Context: "@ + s.context + "]\n\n"@,
    )
    &&& model::byte_len(whole) <= max ==> {
        &&& c.start_line == s.start
        &&& c.end_line == s.end
        &&& model::ends_with(c.content, whole)
        &&& s.context.len() == 0 ==> c.content == whole
    }
}

proof fn lemma_chunk_section(
    sections: Seq<SectionModel>,
    lines: Seq<Seq<char>>,
    max: nat,
    overlap: nat,
    n: nat,
    k: int,
) -> (j: int)
    requires
        n <= sections.len(),
        partition(sections, lines.len()),
        0 <= k < all_section_chunks(sections, lines, max, overlap, n).len(),
    ensures
        0 <= j < n,
        chunk_of_section(
            all_section_chunks(sections, lines, max, overlap, n)[k],
            sections[j],
            lines,
            max,
        ),
    decreases n,
{
    if n == 0 {
        0
    } else {
        let before = all_section_chunks(sections, lines, max, overlap, (n - 1) as nat);
        if k < before.len() {
            lemma_chunk_section(sections, lines, max, overlap, (n - 1) as nat, k)
        } else {
            let s = sections[n - 1];
            let own = lines.subrange(s.start as int, s.end as int);
            lemma_sections_end(sections, lines.len(), n - 1);
            let text = span(lines, s.start, s.end);
            lemma_context_shows(s.context, text);
            if model::byte_len(text) > max {
                lemma_cut_within(s, own, max, overlap, own.len());
                let c = cut_scan(s, own, max, overlap, own.len());
                lemma_context_shows(s.context, model::trim(c.text));
            }
            n - 1
        }
    }
}

proof fn lemma_context_shows(context: Seq<char>, text: Seq<char>)
    ensures
        context.len() > 0 ==> model::starts_with(
            with_context(context, text),
            "[Context: "@ + context + "]\n\n"@,
        ),
        model::ends_with(with_context(context, text), text),
        context.len() == 0 ==> with_context(context, text) == text,
{
    let head = "[Context: "@ + context + "]\n\n"@;
    let w = with_context(context, text);
    if context.len() > 0 {
        assert(w.take(head.len() as int) =~= head);
    }
    assert(w.skip(w.len() - text.len()) =~= text);
}

proof fn lemma_cut_within(
    s: SectionModel,
    own: Seq<Seq<char>>,
    max: nat,
    overlap: nat,
    n: nat,
)
    requires
        n <= own.len(),
        s.end - s.start == own.len(),
    ensures
        ({
            let c = cut_scan(s, own, max, overlap, n);
            &&& s.start <= c.start <= s.start + n
            &&& forall|k: int|
                0 <= k < c.chunks.len() ==> {
                    let d = #[trigger] c.chunks[k];
                    &&& d.heading_path == s.context
                    &&& s.start <= d.start_line <= d.end_line <= s.start + n
                    &&& s.context.len() > 0 ==> model::starts_with(
                        d.content,
                        "[Context: "@ + s.context + "]\n\n"@,
                    )
                }
        }),
    decreases n,
{
    if n > 0 {
        lemma_cut_within(s, own, max, overlap, (n - 1) as nat);
        let b = cut_scan(s, own, max, overlap, (n - 1) as nat);
        lemma_context_shows(s.context, model::trim(b.text));
    }
}

/// A plain text that fits is one chunk, and one that is cut is cut as late as it can
/// be: with one line more, every chunk but the last would be too long.
pub proof fn law_text_is_cut_where_it_must(text: Seq<char>, max: nat, overlap: nat, k: int)
    ensures
        text.len() == 0 ==> text_chunks(text, max, overlap).len() == 0,
        0 < text.len() && model::byte_len(text) <= max ==> {
            let v = text_chunks(text, max, overlap);
            &&& v.len() == 1
            &&& v[0].content == text
            &&& v[0].heading_path.len() == 0
            &&& v[0].start_line == 0
            &&& v[0].end_line == model::lines(text).len()
        },
        model::byte_len(text) > max && 0 <= k < text_chunks(text, max, overlap).len() - 1
            ==> model::byte_len(
            span(
                model::lines(text),
                text_chunks(text, max, overlap)[k].start_line,
                text_chunks(text, max, overlap)[k].end_line + 1,
            ),
        ) > max,
{
    lemma_text_scan_full(model::lines(text), max, overlap, model::lines(text).len());
}

proof fn lemma_text_scan_full(lines: Seq<Seq<char>>, max: nat, overlap: nat, n: nat)
    ensures
        forall|k: int|
            0 <= k < text_scan(lines, max, overlap, n).0.len() ==> model::byte_len(
                span(
                    lines,
                    (#[trigger] text_scan(lines, max, overlap, n).0[k]).start_line,
                    text_scan(lines, max, overlap, n).0[k].end_line + 1,
                ),
            ) > max,
    decreases n,
{
    if n > 0 {
        lemma_text_scan_full(lines, max, overlap, (n - 1) as nat);
        let a = text_scan(lines, max, overlap, (n - 1) as nat).0;
        let b = text_scan(lines, max, overlap, n).0;
        assert forall|k: int| 0 <= k < b.len() implies model::byte_len(
            span(lines, (#[trigger] b[k]).start_line, b[k].end_line + 1),
        ) > max by {
            if k < a.len() {
                assert(b[k] == a[k]);
            }
        }
    }
}

/// A document that is empty has no chunks, and one that fits is one chunk, which is not
/// changed.
pub proof fn law_short_document_is_one_chunk(text: Seq<char>, config: ChunkConfig)
    requires
        model::byte_len(text) <= config.max_chunk_chars,
    ensures
        text.len() == 0 ==> markdown_chunks(text, config).len() == 0,
        text.len() > 0 ==> {
            let v = markdown_chunks(text, config);
            &&& v.len() == 1
            &&& v[0].content == text
            &&& v[0].heading_path.len() == 0
            &&& v[0].start_line == 0
            &&& v[0].end_line == model::lines(text).len()
        },
{
}

} // verus!
