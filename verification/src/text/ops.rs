//! Operations on text, each with the meaning that [`crate::text::model`] gives
//! to its name. They work on slices of characters.

use crate::text::{lemmas, model};
use vstd::prelude::*;
use vstd::slice::slice_subrange;
use vstd::string::*;

verus! {

/// `String::push` appends one character to the text.
pub assume_specification[ String::push ](s: &mut String, c: char)
    ensures
        final(s)@ == old(s)@.push(c),
;

/// The characters of a text, in order.
pub fn chars_of(s: &str) -> (r: Vec<char>)
    ensures
        r@ == s@,
{
    let mut v: Vec<char> = Vec::new();
    for c in it: s.chars()
        invariant
            v@ == it.seq().take(it.index() as int),
            it.seq() == s@,
    {
        v.push(c);
    }
    v
}

/// Appends characters to a text.
pub fn push_chars(out: &mut String, s: &[char])
    ensures
        final(out)@ == old(out)@ + s@,
{
    let mut i: usize = 0;
    while i < s.len()
        invariant
            i <= s@.len(),
            out@ == old(out)@ + s@.take(i as int),
        decreases s@.len() - i,
    {
        out.push(s[i]);
        i = i + 1;
    }
    assert(s@.take(s@.len() as int) =~= s@);
}

/// The text made of the characters in order.
pub fn string_of(s: &[char]) -> (r: String)
    ensures
        r@ == s@,
{
    let mut out = String::new();
    push_chars(&mut out, s);
    assert(Seq::<char>::empty() + s@ =~= s@);
    out
}

/// The two texts one after the other.
pub fn concat2(a: &str, b: &str) -> (r: String)
    ensures
        r@ == a@ + b@,
{
    let mut out = String::from_str(a);
    out.append(b);
    out
}

/// The three texts one after the other.
pub fn concat3(a: &str, b: &str, c: &str) -> (r: String)
    ensures
        r@ == a@ + b@ + c@,
{
    let mut out = concat2(a, b);
    out.append(c);
    out
}

/// The four texts one after the other.
pub fn concat4(a: &str, b: &str, c: &str, d: &str) -> (r: String)
    ensures
        r@ == a@ + b@ + c@ + d@,
{
    let mut out = concat3(a, b, c);
    out.append(d);
    out
}

/// The five texts one after the other.
pub fn concat5(a: &str, b: &str, c: &str, d: &str, e: &str) -> (r: String)
    ensures
        r@ == a@ + b@ + c@ + d@ + e@,
{
    let mut out = concat4(a, b, c, d);
    out.append(e);
    out
}

/// Whether two sequences of characters are the same.
pub fn same(a: &[char], b: &[char]) -> (r: bool)
    ensures
        r == (a@ == b@),
{
    if a.len() != b.len() {
        return false;
    }
    let mut i: usize = 0;
    while i < a.len()
        invariant
            i <= a@.len(),
            a@.len() == b@.len(),
            forall|j: int| 0 <= j < i ==> a@[j] == b@[j],
        decreases a@.len() - i,
    {
        if a[i] != b[i] {
            return false;
        }
        i = i + 1;
    }
    assert(a@ =~= b@);
    true
}

/// Whether two texts are the same.
pub fn same_text(a: &str, b: &str) -> (r: bool)
    ensures
        r == (a@ == b@),
{
    same(chars_of(a).as_slice(), chars_of(b).as_slice())
}

/// Whether the characters spell the text.
pub fn is_text(a: &[char], b: &str) -> (r: bool)
    ensures
        r == (a@ == b@),
{
    same(a, chars_of(b).as_slice())
}

/// Whether the text has no characters.
pub fn is_empty(s: &str) -> (r: bool)
    ensures
        r == (s@.len() == 0),
{
    chars_of(s).len() == 0
}

pub fn is_white(c: char) -> (r: bool)
    ensures
        r == model::is_white(c),
{
    ('\u{9}' <= c && c <= '\u{d}') || c == '\u{20}' || c == '\u{85}' || c == '\u{a0}' || c
        == '\u{1680}' || ('\u{2000}' <= c && c <= '\u{200a}') || c == '\u{2028}' || c == '\u{2029}'
        || c == '\u{202f}' || c == '\u{205f}' || c == '\u{3000}'
}

pub fn is_ascii_punctuation(c: char) -> (r: bool)
    ensures
        r == model::is_ascii_punctuation(c),
{
    ('!' <= c && c <= '/') || (':' <= c && c <= '@') || ('[' <= c && c <= '`') || ('{' <= c && c
        <= '~')
}

pub fn is_ascii_digit(c: char) -> (r: bool)
    ensures
        r == model::is_ascii_digit(c),
{
    '0' <= c && c <= '9'
}

pub fn trim_start(s: &[char]) -> (r: &[char])
    ensures
        r@ == model::trim_start(s@),
{
    let mut i: usize = 0;
    assert(s@.skip(0) =~= s@);
    while i < s.len() && is_white(s[i])
        invariant
            i <= s@.len(),
            model::trim_start(s@) == model::trim_start(s@.skip(i as int)),
        decreases s@.len() - i,
    {
        assert(s@.skip(i as int).skip(1) =~= s@.skip(i + 1));
        i = i + 1;
    }
    slice_subrange(s, i, s.len())
}

pub fn trim_end(s: &[char]) -> (r: &[char])
    ensures
        r@ == model::trim_end(s@),
{
    let mut i: usize = s.len();
    assert(s@.take(i as int) =~= s@);
    while i > 0 && is_white(s[i - 1])
        invariant
            i <= s@.len(),
            model::trim_end(s@) == model::trim_end(s@.take(i as int)),
        decreases i,
    {
        assert(s@.take(i as int).drop_last() =~= s@.take(i - 1));
        i = i - 1;
    }
    slice_subrange(s, 0, i)
}

pub fn trim(s: &[char]) -> (r: &[char])
    ensures
        r@ == model::trim(s@),
{
    trim_end(trim_start(s))
}

/// Whether `c` is one of the characters of `set`.
pub fn has_char(set: &[char], c: char) -> (r: bool)
    ensures
        r == set@.contains(c),
{
    let mut i: usize = 0;
    while i < set.len()
        invariant
            i <= set@.len(),
            forall|j: int| 0 <= j < i ==> set@[j] != c,
        decreases set@.len() - i,
    {
        if set[i] == c {
            return true;
        }
        i = i + 1;
    }
    false
}

pub fn trim_start_any<'a>(s: &'a [char], set: &str) -> (r: &'a [char])
    ensures
        r@ == model::trim_start_any(s@, set@),
{
    let chars = chars_of(set);
    let mut i: usize = 0;
    assert(s@.skip(0) =~= s@);
    while i < s.len() && has_char(chars.as_slice(), s[i])
        invariant
            i <= s@.len(),
            chars@ == set@,
            model::trim_start_any(s@, set@) == model::trim_start_any(s@.skip(i as int), set@),
        decreases s@.len() - i,
    {
        assert(s@.skip(i as int).skip(1) =~= s@.skip(i + 1));
        i = i + 1;
    }
    slice_subrange(s, i, s.len())
}

pub fn trim_end_any<'a>(s: &'a [char], set: &str) -> (r: &'a [char])
    ensures
        r@ == model::trim_end_any(s@, set@),
{
    let chars = chars_of(set);
    let mut i: usize = s.len();
    assert(s@.take(i as int) =~= s@);
    while i > 0 && has_char(chars.as_slice(), s[i - 1])
        invariant
            i <= s@.len(),
            chars@ == set@,
            model::trim_end_any(s@, set@) == model::trim_end_any(s@.take(i as int), set@),
        decreases i,
    {
        assert(s@.take(i as int).drop_last() =~= s@.take(i - 1));
        i = i - 1;
    }
    slice_subrange(s, 0, i)
}

/// Whether `p` stands in `s` at position `i`.
pub fn occurs_at(s: &[char], p: &[char], i: usize) -> (r: bool)
    ensures
        r == model::occurs_at(s@, p@, i as int),
{
    if i > s.len() || p.len() > s.len() - i {
        return false;
    }
    same(slice_subrange(s, i, i + p.len()), p)
}

/// Whether the characters begin with those of the text.
pub fn starts_with(s: &[char], p: &str) -> (r: bool)
    ensures
        r == model::starts_with(s@, p@),
{
    let chars = chars_of(p);
    assert(p@.len() <= s@.len() ==> s@.subrange(0, p@.len() as int) =~= s@.take(p@.len() as int));
    occurs_at(s, chars.as_slice(), 0)
}

/// Whether the characters end with those of the text.
pub fn ends_with(s: &[char], p: &str) -> (r: bool)
    ensures
        r == model::ends_with(s@, p@),
{
    let chars = chars_of(p);
    if chars.len() > s.len() {
        return false;
    }
    let at: usize = s.len() - chars.len();
    assert(s@.subrange(at as int, at + p@.len()) =~= s@.skip(at as int));
    occurs_at(s, chars.as_slice(), at)
}

/// The characters after the first `n`.
pub fn skip(s: &[char], n: usize) -> (r: &[char])
    requires
        n <= s@.len(),
    ensures
        r@ == s@.skip(n as int),
{
    slice_subrange(s, n, s.len())
}

/// The first `n` characters.
pub fn take(s: &[char], n: usize) -> (r: &[char])
    requires
        n <= s@.len(),
    ensures
        r@ == s@.take(n as int),
{
    slice_subrange(s, 0, n)
}

pub fn trim_start_text<'a>(s: &'a [char], p: &str) -> (r: &'a [char])
    ensures
        r@ == model::trim_start_text(s@, p@),
{
    let chars = chars_of(p);
    let mut rest = s;
    while chars.len() > 0 && starts_with(rest, p)
        invariant
            chars@ == p@,
            model::trim_start_text(s@, p@) == model::trim_start_text(rest@, p@),
        decreases rest@.len(),
    {
        rest = skip(rest, chars.len());
    }
    rest
}

pub fn find(s: &[char], p: &str) -> (r: Option<usize>)
    ensures
        match r {
            Some(i) => model::find(s@, p@) == Some(i as int) && i + p@.len() <= s@.len(),
            None => model::find(s@, p@) is None,
        },
{
    let chars = chars_of(p);
    let n: usize = s.len();
    let mut i: usize = 0;
    while chars.len() <= n - i
        invariant
            i <= n,
            n == s@.len(),
            chars@ == p@,
            model::find(s@, p@) == model::find_from(s@, p@, i as int),
        decreases n - i,
    {
        if occurs_at(s, chars.as_slice(), i) {
            return Some(i);
        }
        if i == n {
            assert(model::find_from(s@, p@, i + 1) is None);
            return None;
        }
        i = i + 1;
    }
    None
}

pub fn contains(s: &[char], p: &str) -> (r: bool)
    ensures
        r == model::contains(s@, p@),
{
    find(s, p).is_some()
}

/// Whether one text stands in another.
pub fn text_contains(s: &str, p: &str) -> (r: bool)
    ensures
        r == model::contains(s@, p@),
{
    contains(chars_of(s).as_slice(), p)
}

pub fn rfind(s: &[char], p: &str) -> (r: Option<usize>)
    ensures
        match r {
            Some(i) => model::rfind(s@, p@) == Some(i as int) && i + p@.len() <= s@.len(),
            None => model::rfind(s@, p@) is None,
        },
{
    let chars = chars_of(p);
    if chars.len() > s.len() {
        return None;
    }
    let mut i: usize = s.len() - chars.len();
    loop
        invariant
            i + p@.len() <= s@.len(),
            chars@ == p@,
            model::rfind(s@, p@) == model::rfind_from(s@, p@, i as int),
        decreases i,
    {
        if occurs_at(s, chars.as_slice(), i) {
            return Some(i);
        }
        if i == 0 {
            assert(model::rfind_from(s@, p@, -1) is None);
            return None;
        }
        i = i - 1;
    }
}

pub fn split<'a>(s: &'a [char], p: &str) -> (r: Vec<&'a [char]>)
    requires
        p@.len() > 0,
    ensures
        model::slices(r@) == model::split(s@, p@),
        r@.len() > 0,
{
    let n: usize = chars_of(p).len();
    let mut out: Vec<&'a [char]> = Vec::new();
    let mut rest = s;
    loop
        invariant
            n == p@.len(),
            n > 0,
            model::slices(out@) + model::split(rest@, p@) == model::split(s@, p@),
        decreases rest@.len(),
    {
        let ghost before = out@;
        let len: usize = rest.len();
        match find(rest, p) {
            Some(i) => {
                out.push(take(rest, i));
                assert(model::slices(out@) =~= model::slices(before).push(rest@.take(i as int)));
                assert(model::slices(before) + (seq![rest@.take(i as int)] + model::split(
                    rest@.skip(i + n),
                    p@,
                )) =~= model::slices(out@) + model::split(rest@.skip(i + n), p@));
                rest = skip(rest, i + n);
            },
            None => {
                out.push(rest);
                assert(model::slices(out@) =~= model::slices(before) + seq![rest@]);
                return out;
            },
        }
    }
}

pub fn lines(s: &[char]) -> (r: Vec<&[char]>)
    ensures
        model::slices(r@) == model::lines(s@),
{
    let mut out: Vec<&[char]> = Vec::new();
    let mut rest = s;
    while rest.len() > 0
        invariant
            model::slices(out@) + model::lines(rest@) == model::lines(s@),
        decreases rest@.len(),
    {
        let ghost before = out@;
        let ghost f = |c: char| c == '\n';
        let mut i: usize = 0;
        while i < rest.len() && rest[i] != '\n'
            invariant
                i <= rest@.len(),
                f == (|c: char| c == '\n'),
                model::position_from(rest@, f, 0) == model::position_from(rest@, f, i as int),
            decreases rest@.len() - i,
        {
            i = i + 1;
        }
        if i < rest.len() {
            let line = take(rest, i);
            let shown = if line.len() > 0 && line[line.len() - 1] == '\r' {
                take(line, line.len() - 1)
            } else {
                line
            };
            assert(shown@ == model::without_cr(line@));
            out.push(shown);
            assert(model::slices(out@) =~= model::slices(before).push(shown@));
            assert(model::slices(before) + (seq![shown@] + model::lines(rest@.skip(i + 1)))
                =~= model::slices(out@) + model::lines(rest@.skip(i + 1)));
            rest = skip(rest, i + 1);
        } else {
            out.push(rest);
            assert(model::slices(out@) =~= model::slices(before) + seq![rest@]);
            assert(model::slices(out@) + model::lines(Seq::empty()) =~= model::slices(out@));
            rest = skip(rest, rest.len());
            assert(rest@ =~= Seq::<char>::empty());
        }
    }
    assert(model::lines(rest@) =~= Seq::empty());
    assert(model::slices(out@) + Seq::empty() =~= model::slices(out@));
    out
}

/// The length of the text's UTF-8 encoding.
pub fn text_byte_len(s: &str) -> (r: usize)
    ensures
        r == model::byte_len(s@),
{
    proof {
        lemmas::lemma_encoded_len(s@);
    }
    s.as_bytes().len()
}

pub fn byte_len(s: &[char]) -> (r: usize)
    ensures
        r == model::byte_len(s@),
{
    text_byte_len(string_of(s).as_str())
}

/// How many bytes a character takes.
pub fn width(c: char) -> (r: usize)
    ensures
        r == model::width(c),
{
    if c <= '\u{7f}' {
        1
    } else if c <= '\u{7ff}' {
        2
    } else if c <= '\u{ffff}' {
        3
    } else {
        4
    }
}

/// How many of the first characters fill exactly `n` bytes, if any number does.
pub fn chars_in(s: &[char], n: usize) -> (r: Option<usize>)
    ensures
        match r {
            Some(k) => model::is_boundary(s@, n as nat) && k == model::chars_in(s@, n as nat) && k
                <= s@.len() && model::byte_len(s@.take(k as int)) == n,
            None => !model::is_boundary(s@, n as nat),
        },
{
    let mut i: usize = 0;
    let mut bytes: usize = 0;
    while bytes < n && i < s.len()
        invariant
            i <= s@.len(),
            bytes == model::byte_len(s@.take(i as int)),
            bytes <= n,
        decreases s@.len() - i,
    {
        assert(s@.take(i + 1).drop_last() =~= s@.take(i as int));
        let w: usize = width(s[i]);
        if w > n - bytes {
            proof {
                assert forall|k: int| 0 <= k <= s@.len() implies #[trigger] model::byte_len(
                    s@.take(k),
                ) != n by {
                    if k <= i {
                        lemmas::lemma_byte_len_prefix(s@, k, i as int);
                    } else {
                        lemmas::lemma_byte_len_prefix(s@, i + 1, k);
                    }
                }
            }
            return None;
        }
        bytes = bytes + w;
        i = i + 1;
    }
    if bytes == n {
        proof {
            lemmas::lemma_chars_in(s@, i as int);
        }
        Some(i)
    } else {
        proof {
            assert forall|k: int| 0 <= k <= s@.len() implies #[trigger] model::byte_len(s@.take(k))
                != n by {
                lemmas::lemma_byte_len_prefix(s@, k, i as int);
            }
        }
        None
    }
}

/// The longest beginning of the text that has at most `n` bytes.
pub fn fitting(s: &[char], n: usize) -> (r: &[char])
    ensures
        r@ == model::fitting(s@, n as nat),
{
    let mut i: usize = 0;
    let mut bytes: usize = 0;
    while i < s.len()
        invariant
            i <= s@.len(),
            bytes == model::byte_len(s@.take(i as int)),
            bytes <= n,
            model::fitting_from(s@, n as nat, 0) == model::fitting_from(s@, n as nat, i as int),
        decreases s@.len() - i,
    {
        assert(s@.take(i + 1).drop_last() =~= s@.take(i as int));
        let w: usize = width(s[i]);
        if w > n - bytes {
            return take(s, i);
        }
        bytes = bytes + w;
        i = i + 1;
    }
    take(s, i)
}

pub fn join(parts: &[&[char]], sep: &str) -> (r: String)
    ensures
        r@ == model::join(model::slices(parts@), sep@),
{
    let mut out = String::new();
    let mut i: usize = 0;
    while i < parts.len()
        invariant
            i <= parts@.len(),
            out@ == model::join(model::slices(parts@.take(i as int)), sep@),
        decreases parts@.len() - i,
    {
        let ghost now = model::slices(parts@.take(i + 1));
        assert(now.drop_last() =~= model::slices(parts@.take(i as int)));
        assert(now.last() == parts@[i as int]@);
        if i > 0 {
            out.append(sep);
        }
        push_chars(&mut out, parts[i]);
        assert(i == 0 ==> out@ =~= now[0]);
        i = i + 1;
    }
    assert(parts@.take(parts@.len() as int) =~= parts@);
    out
}

/// The texts in order, with `sep` between each two neighbours.
pub fn join_texts(parts: &[String], sep: &str) -> (r: String)
    ensures
        r@ == model::join(model::texts(parts@), sep@),
{
    let mut out = String::new();
    let mut i: usize = 0;
    while i < parts.len()
        invariant
            i <= parts@.len(),
            out@ == model::join(model::texts(parts@.take(i as int)), sep@),
        decreases parts@.len() - i,
    {
        let ghost now = model::texts(parts@.take(i + 1));
        assert(now.drop_last() =~= model::texts(parts@.take(i as int)));
        assert(now.last() == parts@[i as int]@);
        if i > 0 {
            out.append(sep);
        }
        out.append(parts[i].as_str());
        assert(i == 0 ==> out@ =~= now[0]);
        i = i + 1;
    }
    assert(parts@.take(parts@.len() as int) =~= parts@);
    out
}

pub fn replace(s: &[char], from: &str, to: &str) -> (r: String)
    requires
        from@.len() > 0,
    ensures
        r@ == model::replace(s@, from@, to@),
{
    join(split(s, from).as_slice(), to)
}

pub fn count(s: &[char], c: char) -> (r: usize)
    ensures
        r == model::count(s@, c),
        r <= s@.len(),
{
    let mut n: usize = 0;
    let mut i: usize = 0;
    while i < s.len()
        invariant
            n <= i <= s@.len(),
            n == model::count(s@.take(i as int), c),
        decreases s@.len() - i,
    {
        assert(s@.take(i + 1).drop_last() =~= s@.take(i as int));
        if s[i] == c {
            n = n + 1;
        }
        i = i + 1;
    }
    assert(s@.take(s@.len() as int) =~= s@);
    n
}

/// The position of the first character that `f` picks, or the length.
fn position<F: Fn(char) -> bool>(s: &[char], f: &F, Ghost(g): Ghost<spec_fn(char) -> bool>) -> (r:
    usize)
    requires
        forall|c: char| f.requires((c,)),
        forall|c: char, b: bool| f.ensures((c,), b) ==> b == g(c),
    ensures
        r == model::position_from(s@, g, 0),
        r <= s@.len(),
{
    let mut i: usize = 0;
    while i < s.len()
        invariant
            i <= s@.len(),
            forall|c: char| f.requires((c,)),
            forall|c: char, b: bool| f.ensures((c,), b) ==> b == g(c),
            model::position_from(s@, g, 0) == model::position_from(s@, g, i as int),
        decreases s@.len() - i,
    {
        if f(s[i]) {
            return i;
        }
        i = i + 1;
    }
    i
}

/// The pieces between the characters that `f` picks.
fn split_where<'a, F: Fn(char) -> bool>(
    s: &'a [char],
    f: F,
    Ghost(g): Ghost<spec_fn(char) -> bool>,
) -> (r: Vec<&'a [char]>)
    requires
        forall|c: char| f.requires((c,)),
        forall|c: char, b: bool| f.ensures((c,), b) ==> b == g(c),
    ensures
        model::slices(r@) == model::split_where(s@, g),
{
    let mut out: Vec<&'a [char]> = Vec::new();
    let mut rest = s;
    loop
        invariant
            forall|c: char| f.requires((c,)),
            forall|c: char, b: bool| f.ensures((c,), b) ==> b == g(c),
            model::slices(out@) + model::split_where(rest@, g) == model::split_where(s@, g),
        decreases rest@.len(),
    {
        let ghost before = out@;
        let i: usize = position(rest, &f, Ghost(g));
        if i < rest.len() {
            out.push(take(rest, i));
            assert(model::slices(out@) =~= model::slices(before).push(rest@.take(i as int)));
            assert(model::slices(before) + (seq![rest@.take(i as int)] + model::split_where(
                rest@.skip(i + 1),
                g,
            )) =~= model::slices(out@) + model::split_where(rest@.skip(i + 1), g));
            rest = skip(rest, i + 1);
        } else {
            out.push(rest);
            assert(model::slices(out@) =~= model::slices(before) + seq![rest@]);
            return out;
        }
    }
}

/// The pieces of the text between the characters of `set`.
pub fn split_any<'a>(s: &'a [char], set: &str) -> (r: Vec<&'a [char]>)
    ensures
        model::slices(r@) == model::split_where(s@, |c: char| set@.contains(c)),
{
    let chars = chars_of(set);
    let pick = |c: char| -> (b: bool)
        ensures
            b == chars@.contains(c),
        { has_char(chars.as_slice(), c) };
    split_where(s, pick, Ghost(|c: char| set@.contains(c)))
}

/// The pieces of the text between white space and ASCII punctuation.
pub fn split_white_or_punctuation(s: &[char]) -> (r: Vec<&[char]>)
    ensures
        model::slices(r@) == model::split_where(
            s@,
            |c: char| model::is_white(c) || model::is_ascii_punctuation(c),
        ),
{
    let pick = |c: char| -> (b: bool)
        ensures
            b == (model::is_white(c) || model::is_ascii_punctuation(c)),
        { is_white(c) || is_ascii_punctuation(c) };
    split_where(
        s,
        pick,
        Ghost(|c: char| model::is_white(c) || model::is_ascii_punctuation(c)),
    )
}

/// The pieces that are not empty.
pub fn non_empty<'a>(v: &[&'a [char]]) -> (r: Vec<&'a [char]>)
    ensures
        model::slices(r@) == model::slices(v@).filter(|w: Seq<char>| w.len() > 0),
{
    let ghost keep = |w: Seq<char>| w.len() > 0;
    let mut out: Vec<&'a [char]> = Vec::new();
    let mut i: usize = 0;
    reveal(Seq::filter);
    while i < v.len()
        invariant
            i <= v@.len(),
            keep == (|w: Seq<char>| w.len() > 0),
            model::slices(out@) == model::slices(v@.take(i as int)).filter(keep),
        decreases v@.len() - i,
    {
        reveal(Seq::filter);
        let ghost now = model::slices(v@.take(i + 1));
        let ghost before = out@;
        assert(now.drop_last() =~= model::slices(v@.take(i as int)));
        assert(now.last() == v@[i as int]@);
        if v[i].len() > 0 {
            out.push(v[i]);
            assert(model::slices(out@) =~= model::slices(before).push(v@[i as int]@));
        }
        i = i + 1;
    }
    assert(v@.take(v@.len() as int) =~= v@);
    out
}

pub fn split_whitespace(s: &[char]) -> (r: Vec<&[char]>)
    ensures
        model::slices(r@) == model::split_whitespace(s@),
{
    let pick = |c: char| -> (b: bool)
        ensures
            b == model::is_white(c),
        { is_white(c) };
    let pieces = split_where(s, pick, Ghost(|c: char| model::is_white(c)));
    non_empty(pieces.as_slice())
}

/// The pieces of the text, each up to and with a character of `set`.
pub fn split_inclusive_any<'a>(s: &'a [char], set: &str) -> (r: Vec<&'a [char]>)
    ensures
        model::slices(r@) == model::split_inclusive_where(s@, |c: char| set@.contains(c)),
{
    let chars = chars_of(set);
    let ghost g = |c: char| set@.contains(c);
    let pick = |c: char| -> (b: bool)
        ensures
            b == chars@.contains(c),
        { has_char(chars.as_slice(), c) };
    let mut out: Vec<&'a [char]> = Vec::new();
    let mut rest = s;
    while rest.len() > 0
        invariant
            forall|c: char| pick.requires((c,)),
            forall|c: char, b: bool| pick.ensures((c,), b) ==> b == g(c),
            model::slices(out@) + model::split_inclusive_where(rest@, g)
                == model::split_inclusive_where(s@, g),
        decreases rest@.len(),
    {
        let ghost before = out@;
        let i: usize = position(rest, &pick, Ghost(g));
        if i < rest.len() {
            out.push(take(rest, i + 1));
            assert(model::slices(out@) =~= model::slices(before).push(rest@.take(i + 1)));
            assert(model::slices(before) + (seq![rest@.take(i + 1)] + model::split_inclusive_where(
                rest@.skip(i + 1),
                g,
            )) =~= model::slices(out@) + model::split_inclusive_where(rest@.skip(i + 1), g));
            rest = skip(rest, i + 1);
        } else {
            out.push(rest);
            assert(model::slices(out@) =~= model::slices(before) + seq![rest@]);
            rest = skip(rest, rest.len());
            assert(rest@ =~= Seq::<char>::empty());
            assert(model::slices(out@) + Seq::empty() =~= model::slices(out@));
        }
    }
    assert(model::slices(out@) + Seq::empty() =~= model::slices(out@));
    out
}

/// The decimal digit of a value below ten.
fn digit(d: usize) -> (r: char)
    requires
        d < 10,
    ensures
        r == model::digit(d as nat),
{
    match d {
        0 => '0',
        1 => '1',
        2 => '2',
        3 => '3',
        4 => '4',
        5 => '5',
        6 => '6',
        7 => '7',
        8 => '8',
        _ => '9',
    }
}

/// The number in decimal notation.
pub fn decimal(n: usize) -> (r: String)
    ensures
        r@ == model::decimal(n as nat),
    decreases n,
{
    let mut out = if n < 10 {
        String::new()
    } else {
        decimal(n / 10)
    };
    out.push(digit(n % 10));
    assert(n < 10 ==> out@ =~= seq![model::digit(n as nat)]);
    out
}

/// The number in decimal notation.
pub fn decimal_u64(n: u64) -> (r: String)
    ensures
        r@ == model::decimal(n as nat),
    decreases n,
{
    let mut out = if n < 10 {
        String::new()
    } else {
        decimal_u64(n / 10)
    };
    let last: u64 = n % 10;
    out.push(digit(last as usize));
    assert(n < 10 ==> out@ =~= seq![model::digit(n as nat)]);
    out
}

/// The texts that the slices hold.
pub fn strings_of(v: &[&[char]]) -> (r: Vec<String>)
    ensures
        model::texts(r@) == model::slices(v@),
        r@.len() == v@.len(),
{
    let mut out: Vec<String> = Vec::new();
    let mut i: usize = 0;
    while i < v.len()
        invariant
            i <= v@.len(),
            out@.len() == i,
            forall|j: int| 0 <= j < i ==> (#[trigger] out@[j])@ == v@[j]@,
        decreases v@.len() - i,
    {
        out.push(string_of(v[i]));
        i = i + 1;
    }
    assert(model::texts(out@) =~= model::slices(v@));
    out
}

/// The same texts in a list of their own.
pub fn clone_texts(v: &[String]) -> (r: Vec<String>)
    ensures
        model::texts(r@) == model::texts(v@),
        r@.len() == v@.len(),
{
    let mut out: Vec<String> = Vec::new();
    let mut i: usize = 0;
    while i < v.len()
        invariant
            i <= v@.len(),
            out@.len() == i,
            forall|j: int| 0 <= j < i ==> (#[trigger] out@[j])@ == v@[j]@,
        decreases v@.len() - i,
    {
        out.push(v[i].clone());
        i = i + 1;
    }
    assert(model::texts(out@) =~= model::texts(v@));
    out
}

/// Whether the text stands in the list.
pub fn has_text(v: &[String], s: &str) -> (r: bool)
    ensures
        r == model::texts(v@).contains(s@),
{
    let mut i: usize = 0;
    while i < v.len()
        invariant
            i <= v@.len(),
            forall|j: int| 0 <= j < i ==> (#[trigger] v@[j])@ != s@,
        decreases v@.len() - i,
    {
        if same_text(v[i].as_str(), s) {
            assert(model::texts(v@)[i as int] == s@);
            return true;
        }
        i = i + 1;
    }
    assert forall|j: int| 0 <= j < model::texts(v@).len() implies model::texts(v@)[j] != s@ by {
        assert(v@[j]@ != s@);
    }
    false
}

} // verus!
