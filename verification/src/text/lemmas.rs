//! Facts about the text model.

use crate::text::model;
use vstd::prelude::*;

verus! {

/// The length in bytes of two texts one after the other.
pub proof fn lemma_byte_len_concat(a: Seq<char>, b: Seq<char>)
    ensures
        model::byte_len(a + b) == model::byte_len(a) + model::byte_len(b),
    decreases b.len(),
{
    if b.len() == 0 {
        assert(a + b =~= a);
    } else {
        assert((a + b).drop_last() =~= a + b.drop_last());
        lemma_byte_len_concat(a, b.drop_last());
    }
}

/// A longer prefix of a text has at least as many bytes.
pub proof fn lemma_byte_len_prefix(s: Seq<char>, i: int, j: int)
    requires
        0 <= i <= j <= s.len(),
    ensures
        model::byte_len(s.take(i)) + (j - i) <= model::byte_len(s.take(j)),
    decreases j - i,
{
    if i < j {
        lemma_byte_len_prefix(s, i, j - 1);
        assert(s.take(j).drop_last() =~= s.take(j - 1));
    }
}

/// A text has at least as many bytes as characters.
pub proof fn lemma_byte_len_at_least(s: Seq<char>)
    ensures
        s.len() <= model::byte_len(s) <= 4 * s.len(),
    decreases s.len(),
{
    if s.len() > 0 {
        lemma_byte_len_at_least(s.drop_last());
    }
}

/// The characters that fill a given number of bytes are determined by it.
pub proof fn lemma_chars_in(s: Seq<char>, k: int)
    requires
        0 <= k <= s.len(),
    ensures
        model::is_boundary(s, model::byte_len(s.take(k))),
        model::chars_in(s, model::byte_len(s.take(k))) == k,
{
    let n = model::byte_len(s.take(k));
    let c = model::chars_in(s, n);
    assert(0 <= c <= s.len() && model::byte_len(s.take(c)) == n);
    if c < k {
        lemma_byte_len_prefix(s, c, k);
    }
    if k < c {
        lemma_byte_len_prefix(s, k, c);
    }
}

/// The UTF-8 encoding of a character has as many bytes as the model says.
proof fn lemma_width(c: char)
    ensures
        vstd::utf8::encode_scalar(c as u32).len() == model::width(c),
{
}

/// The UTF-8 encoding of a text has as many bytes as the model says.
pub proof fn lemma_encoded_len(s: Seq<char>)
    ensures
        vstd::utf8::encode_utf8(s).len() == model::byte_len(s),
    decreases s.len(),
{
    reveal_with_fuel(model::byte_len, 3);
    if s.len() > 0 {
        let head = s.take(1);
        let rest = s.drop_first();
        lemma_encoded_len(rest);
        assert(head + rest =~= s);
        lemma_byte_len_concat(head, rest);
        assert(model::byte_len(head) == model::width(s[0]));
        lemma_width(s[0]);
    }
}

/// Trimming does not lengthen a text.
pub proof fn lemma_trim_len(s: Seq<char>)
    ensures
        model::trim_start(s).len() <= s.len(),
        model::trim(s).len() <= s.len(),
{
    lemma_trim_start_suffix(s);
    lemma_trim_end_prefix(model::trim_start(s));
}

/// A trimmed text is the end of the text.
pub proof fn lemma_trim_start_suffix(s: Seq<char>)
    ensures
        model::trim_start(s).len() <= s.len(),
        model::trim_start(s) == s.skip(s.len() - model::trim_start(s).len()),
    decreases s.len(),
{
    if s.len() > 0 && model::is_white(s[0]) {
        lemma_trim_start_suffix(s.skip(1));
        let n = model::trim_start(s).len();
        assert(s.skip(1).skip(s.len() - 1 - n) =~= s.skip(s.len() - n));
    } else {
        assert(s.skip(0) =~= s);
    }
}

/// A text trimmed at its end is the text's beginning.
pub proof fn lemma_trim_end_prefix(s: Seq<char>)
    ensures
        model::trim_end(s).len() <= s.len(),
        model::trim_end(s) == s.take(model::trim_end(s).len() as int),
    decreases s.len(),
{
    if s.len() > 0 && model::is_white(s.last()) {
        lemma_trim_end_prefix(s.drop_last());
        let n = model::trim_end(s).len() as int;
        assert(s.drop_last().take(n) =~= s.take(n));
    } else {
        assert(s.take(s.len() as int) =~= s);
    }
}

/// The white space before a text takes no negative number of bytes.
pub proof fn lemma_trim_start_bytes(s: Seq<char>)
    ensures
        model::byte_len(model::trim_start(s)) <= model::byte_len(s),
{
    lemma_trim_start_suffix(s);
    let n = s.len() - model::trim_start(s).len();
    assert(s.take(n) + s.skip(n) =~= s);
    lemma_byte_len_concat(s.take(n), s.skip(n));
}

/// A character occurs no more often than there are characters.
pub proof fn lemma_count_bound(s: Seq<char>, c: char)
    ensures
        model::count(s, c) <= s.len(),
        s.len() > 0 && s[0] != c ==> model::count(s, c) < s.len(),
    decreases s.len(),
{
    if s.len() > 0 {
        lemma_count_bound(s.drop_last(), c);
    }
}

/// How many characters the texts have together.
pub open spec fn total_len(v: Seq<Seq<char>>) -> nat
    decreases v.len(),
{
    if v.len() == 0 {
        0
    } else {
        total_len(v.drop_last()) + v.last().len()
    }
}

/// Leading texts have no more characters than all.
pub proof fn lemma_total_len_prefix(v: Seq<Seq<char>>, i: int, j: int)
    requires
        0 <= i <= j <= v.len(),
    ensures
        total_len(v.take(i)) <= total_len(v.take(j)),
    decreases j - i,
{
    if i < j {
        lemma_total_len_prefix(v, i, j - 1);
        assert(v.take(j).drop_last() =~= v.take(j - 1));
    }
}

/// One text more.
pub proof fn lemma_total_len_cons(a: Seq<char>, v: Seq<Seq<char>>)
    ensures
        total_len(seq![a] + v) == a.len() + total_len(v),
    decreases v.len(),
{
    if v.len() == 0 {
        reveal_with_fuel(total_len, 2);
        assert((seq![a] + v).drop_last() =~= Seq::<Seq<char>>::empty());
    } else {
        assert((seq![a] + v).drop_last() =~= seq![a] + v.drop_last());
        lemma_total_len_cons(a, v.drop_last());
    }
}

/// The first position that is sought is no position before the start.
pub proof fn lemma_position_bound(s: Seq<char>, f: spec_fn(char) -> bool, i: int)
    requires
        0 <= i <= s.len(),
    ensures
        i <= model::position_from(s, f, i) <= s.len(),
    decreases s.len() - i,
{
    if i < s.len() && !f(s[i]) {
        lemma_position_bound(s, f, i + 1);
    }
}

/// The lines of a text have together no more characters than the text.
pub proof fn lemma_lines_total(s: Seq<char>)
    ensures
        total_len(model::lines(s)) <= s.len(),
    decreases s.len(),
{
    reveal_with_fuel(total_len, 2);
    let f = |c: char| c == '\n';
    let i = model::position_from(s, f, 0);
    if s.len() > 0 {
        if 0 <= i < s.len() {
            lemma_lines_total(s.skip(i + 1));
            lemma_total_len_cons(model::without_cr(s.take(i)), model::lines(s.skip(i + 1)));
        } else {
            assert(seq![s].drop_last() =~= Seq::<Seq<char>>::empty());
        }
    }
}

/// A text without the character, the character and another text: the first
/// place of the character is where the first text ends.
proof fn lemma_find_after(a: Seq<char>, c: char, b: Seq<char>, i: int)
    requires
        0 <= i <= a.len(),
        !a.contains(c),
    ensures
        model::find_from(a + seq![c] + b, seq![c], i) == Some(a.len() as int),
    decreases a.len() - i,
{
    let s = a + seq![c] + b;
    let p = seq![c];
    if i < a.len() {
        assert(s.subrange(i, i + 1)[0] == a[i]);
        assert(s.subrange(i, i + 1) != p);
        lemma_find_after(a, c, b, i + 1);
    } else {
        assert(s.subrange(i, i + 1) =~= p);
    }
}

/// A text without the character is not cut at it.
proof fn lemma_find_none(a: Seq<char>, c: char, i: int)
    requires
        0 <= i <= a.len(),
        !a.contains(c),
    ensures
        model::find_from(a, seq![c], i) is None,
    decreases a.len() - i,
{
    if i < a.len() {
        assert(a.subrange(i, i + 1)[0] == a[i]);
        assert(a.subrange(i, i + 1) != seq![c]);
        lemma_find_none(a, c, i + 1);
    }
}

/// Cutting a text at a character: the part before the first place of the
/// character is the first piece.
pub proof fn lemma_split_first(a: Seq<char>, c: char, b: Seq<char>)
    requires
        !a.contains(c),
    ensures
        model::split(a + seq![c] + b, seq![c]) == seq![a] + model::split(b, seq![c]),
{
    let s = a + seq![c] + b;
    lemma_find_after(a, c, b, 0);
    assert(s.take(a.len() as int) =~= a);
    assert(s.skip(a.len() as int + 1) =~= b);
}

/// A text without the character is its own only piece.
pub proof fn lemma_split_single(a: Seq<char>, c: char)
    requires
        !a.contains(c),
    ensures
        model::split(a, seq![c]) == seq![a],
{
    lemma_find_none(a, c, 0);
}

/// The first place where something is found is a place where it stands.
pub proof fn lemma_find_sound(s: Seq<char>, p: Seq<char>, i: int)
    requires
        0 <= i,
    ensures
        model::find_from(s, p, i) matches Some(j) ==> i <= j && model::occurs_at(s, p, j),
    decreases s.len() - i + 1,
{
    if i + p.len() <= s.len() && !model::occurs_at(s, p, i) {
        lemma_find_sound(s, p, i + 1);
    }
}

/// Pieces joined, with one more in front.
pub proof fn lemma_join_cons(a: Seq<char>, v: Seq<Seq<char>>, sep: Seq<char>)
    requires
        v.len() > 0,
    ensures
        model::join(seq![a] + v, sep) == a + sep + model::join(v, sep),
    decreases v.len(),
{
    let w = seq![a] + v;
    reveal_with_fuel(model::join, 2);
    assert(w.drop_last() =~= seq![a] + v.drop_last());
    assert(w.last() == v.last());
    if v.len() == 1 {
        assert(w.drop_last() =~= seq![a]);
        assert(a + sep + v[0] =~= model::join(w, sep));
    } else {
        lemma_join_cons(a, v.drop_last(), sep);
        assert(a + sep + (model::join(v.drop_last(), sep) + sep + v.last()) =~= (a + sep
            + model::join(v.drop_last(), sep)) + sep + v.last());
    }
}

/// A text cut into pieces and joined again is the text.
pub proof fn lemma_join_split(s: Seq<char>, p: Seq<char>)
    requires
        p.len() > 0,
    ensures
        model::join(model::split(s, p), p) == s,
        model::split(s, p).len() > 0,
    decreases s.len(),
{
    lemma_find_sound(s, p, 0);
    match model::find(s, p) {
        Some(i) => {
            let rest = s.skip(i + p.len());
            lemma_join_split(rest, p);
            lemma_join_cons(s.take(i), model::split(rest, p), p);
            assert(s.subrange(i, i + p.len()) == p);
            assert(s.take(i) + p + rest =~= s);
        },
        None => {},
    }
}

/// What stands somewhere in a text is found in it.
pub proof fn lemma_found(s: Seq<char>, p: Seq<char>, i: int, j: int)
    requires
        0 <= i <= j,
        model::occurs_at(s, p, j),
    ensures
        model::find_from(s, p, i) is Some,
    decreases j - i,
{
    if i < j {
        lemma_found(s, p, i + 1, j);
    }
}

/// Where a text stands in another that contains it.
pub proof fn lemma_contains_fits(s: Seq<char>, p: Seq<char>) -> (i: int)
    requires
        model::contains(s, p),
    ensures
        model::occurs_at(s, p, i),
        p.len() <= s.len(),
{
    lemma_find_sound(s, p, 0);
    model::find(s, p)->0
}

/// A text contains what a part of it contains.
pub proof fn lemma_contains_within(a: Seq<char>, m: Seq<char>, b: Seq<char>, p: Seq<char>)
    requires
        model::contains(m, p),
    ensures
        model::contains(a + m + b, p),
{
    let i = lemma_contains_fits(m, p);
    let s = a + m + b;
    assert(s.subrange(a.len() + i, a.len() + i + p.len()) =~= m.subrange(i, i + p.len()));
    lemma_found(s, p, 0, a.len() + i);
}

/// A text that begins and ends with something else than white space.
pub open spec fn is_trimmed(p: Seq<char>) -> bool {
    p.len() > 0 && !model::is_white(p[0]) && !model::is_white(p.last())
}

/// What is trimmed and stands in a text stands in it without leading white space.
proof fn lemma_contains_trim_start(s: Seq<char>, p: Seq<char>)
    requires
        is_trimmed(p),
        model::contains(s, p),
    ensures
        model::contains(model::trim_start(s), p),
    decreases s.len(),
{
    let i = lemma_contains_fits(s, p);
    if s.len() > 0 && model::is_white(s[0]) {
        assert(s.subrange(i, i + p.len())[0] == s[i]);
        let rest = s.skip(1);
        assert(rest.subrange(i - 1, i - 1 + p.len()) =~= s.subrange(i, i + p.len()));
        lemma_found(rest, p, 0, i - 1);
        lemma_contains_trim_start(rest, p);
    }
}

/// What is trimmed and stands in a text stands in it without trailing white space.
proof fn lemma_contains_trim_end(s: Seq<char>, p: Seq<char>)
    requires
        is_trimmed(p),
        model::contains(s, p),
    ensures
        model::contains(model::trim_end(s), p),
    decreases s.len(),
{
    let i = lemma_contains_fits(s, p);
    if s.len() > 0 && model::is_white(s.last()) {
        assert(s.subrange(i, i + p.len()).last() == s[i + p.len() - 1]);
        let rest = s.drop_last();
        assert(rest.subrange(i, i + p.len()) =~= s.subrange(i, i + p.len()));
        lemma_found(rest, p, 0, i);
        lemma_contains_trim_end(rest, p);
    }
}

/// What is trimmed and stands in a text stands in the trimmed text.
pub proof fn lemma_contains_trimmed(s: Seq<char>, p: Seq<char>)
    requires
        is_trimmed(p),
        model::contains(s, p),
    ensures
        model::contains(model::trim(s), p),
{
    lemma_contains_trim_start(s, p);
    lemma_contains_trim_end(model::trim_start(s), p);
}

/// A text without leading white space begins with something else.
proof fn lemma_trim_start_ends(s: Seq<char>)
    ensures
        model::trim_start(s).len() > 0 ==> !model::is_white(model::trim_start(s)[0]),
    decreases s.len(),
{
    if s.len() > 0 && model::is_white(s[0]) {
        lemma_trim_start_ends(s.skip(1));
    }
}

/// A text without trailing white space ends with something else.
proof fn lemma_trim_end_ends(s: Seq<char>)
    ensures
        model::trim_end(s).len() > 0 ==> !model::is_white(model::trim_end(s).last()),
    decreases s.len(),
{
    if s.len() > 0 && model::is_white(s.last()) {
        lemma_trim_end_ends(s.drop_last());
    }
}

/// A text that is not blank contains its trimmed form.
pub proof fn lemma_trim_is_trimmed(s: Seq<char>)
    ensures
        model::trim(s).len() > 0 ==> is_trimmed(model::trim(s)) && model::contains(
            s,
            model::trim(s),
        ),
{
    let t = model::trim_start(s);
    let p = model::trim(s);
    lemma_trim_start_suffix(s);
    lemma_trim_end_prefix(t);
    lemma_trim_start_ends(s);
    lemma_trim_end_ends(t);
    if p.len() > 0 {
        let i = s.len() - t.len();
        assert(p[0] == t[0]);
        assert(s.subrange(i, i + p.len()) =~= p);
        lemma_found(s, p, 0, i);
    }
}

/// Joined pieces contain what each contains.
pub proof fn lemma_join_holds(v: Seq<Seq<char>>, sep: Seq<char>, j: int, p: Seq<char>)
    requires
        0 <= j < v.len(),
        model::contains(v[j], p),
    ensures
        model::contains(model::join(v, sep), p),
    decreases v.len(),
{
    if v.len() > 1 {
        let before = model::join(v.drop_last(), sep);
        if j == v.len() - 1 {
            lemma_contains_within(before + sep, v.last(), Seq::empty(), p);
            assert((before + sep) + v.last() + Seq::<char>::empty() =~= before + sep + v.last());
        } else {
            assert(v.drop_last()[j] == v[j]);
            lemma_join_holds(v.drop_last(), sep, j, p);
            lemma_contains_within(Seq::empty(), before, sep + v.last(), p);
            assert(Seq::<char>::empty() + before + (sep + v.last()) =~= before + sep + v.last());
        }
    }
}

/// A text contains what each of its lines contains.
pub proof fn lemma_lines_within(s: Seq<char>, j: int, p: Seq<char>)
    requires
        0 <= j < model::lines(s).len(),
        model::contains(model::lines(s)[j], p),
    ensures
        model::contains(s, p),
    decreases s.len(),
{
    let i = model::position_from(s, |c: char| c == '\n', 0);
    if 0 <= i < s.len() {
        let first = model::without_cr(s.take(i));
        let rest = s.skip(i + 1);
        if j == 0 {
            let n = first.len() as int;
            lemma_contains_within(Seq::empty(), first, s.skip(n), p);
            assert(Seq::<char>::empty() + first + s.skip(n) =~= s);
        } else {
            lemma_lines_within(rest, j - 1, p);
            lemma_contains_within(s.take(i + 1), rest, Seq::empty(), p);
            assert(s.take(i + 1) + rest + Seq::<char>::empty() =~= s);
        }
    }
}

/// A text with nothing but itself at its ends is not shortened.
pub proof fn lemma_trim_nothing(s: Seq<char>)
    requires
        is_trimmed(s),
    ensures
        model::trim(s) == s,
        model::trim_start(s) == s,
        model::trim_end(s) == s,
{
}

/// Trailing characters of a set are taken off, up to one that is not in it.
pub proof fn lemma_trim_end_any_all(s: Seq<char>, tail: Seq<char>, set: Seq<char>)
    requires
        s.len() == 0 || !set.contains(s.last()),
        forall|i: int| 0 <= i < tail.len() ==> set.contains(#[trigger] tail[i]),
    ensures
        model::trim_end_any(s + tail, set) == s,
    decreases tail.len(),
{
    let w = s + tail;
    if tail.len() == 0 {
        assert(w =~= s);
    } else {
        assert(w.last() == tail[tail.len() - 1]);
        assert(w.drop_last() =~= s + tail.drop_last());
        lemma_trim_end_any_all(s, tail.drop_last(), set);
    }
}

/// Leading characters of a set are taken off, up to one that is not in it.
pub proof fn lemma_trim_start_any_all(head: Seq<char>, s: Seq<char>, set: Seq<char>)
    requires
        s.len() == 0 || !set.contains(s[0]),
        forall|i: int| 0 <= i < head.len() ==> set.contains(#[trigger] head[i]),
    ensures
        model::trim_start_any(head + s, set) == s,
    decreases head.len(),
{
    let w = head + s;
    if head.len() == 0 {
        assert(w =~= s);
    } else {
        assert(w[0] == head[0]);
        assert(w.skip(1) =~= head.skip(1) + s);
        lemma_trim_start_any_all(head.skip(1), s, set);
    }
}

/// Something is found where it stands first.
pub proof fn lemma_find_first(s: Seq<char>, p: Seq<char>, i: int, j: int)
    requires
        0 <= j <= i,
        model::occurs_at(s, p, i),
        forall|k: int| j <= k < i ==> !model::occurs_at(s, p, k),
    ensures
        model::find_from(s, p, j) == Some(i),
    decreases i - j,
{
    if j < i {
        assert(!model::occurs_at(s, p, j));
        lemma_find_first(s, p, i, j + 1);
    }
}

/// What stands nowhere is not found.
pub proof fn lemma_find_nowhere(s: Seq<char>, p: Seq<char>, j: int)
    requires
        0 <= j,
        forall|k: int| j <= k ==> !model::occurs_at(s, p, k),
    ensures
        model::find_from(s, p, j) is None,
    decreases s.len() - j + 1,
{
    if j + p.len() <= s.len() {
        assert(!model::occurs_at(s, p, j));
        lemma_find_nowhere(s, p, j + 1);
    }
}

/// What is found at a place stands nowhere before it, and what is not found stands
/// nowhere.
pub proof fn lemma_find_is_first(s: Seq<char>, p: Seq<char>, j: int, k: int)
    requires
        0 <= j <= k,
        model::occurs_at(s, p, k),
    ensures
        model::find_from(s, p, j) matches Some(i) && i <= k,
    decreases k - j,
{
    if j < k && !model::occurs_at(s, p, j) {
        lemma_find_is_first(s, p, j + 1, k);
    }
}

/// The first line of a text, and the lines behind it.
pub proof fn lemma_lines_first(a: Seq<char>, b: Seq<char>)
    requires
        !a.contains('\n'),
    ensures
        model::lines(a + seq!['\n'] + b) == seq![model::without_cr(a)] + model::lines(b),
{
    let s = a + seq!['\n'] + b;
    let f = |c: char| c == '\n';
    lemma_position_of(s, f, 0, a.len() as int);
    assert(s.take(a.len() as int) =~= a);
    assert(s.skip(a.len() as int + 1) =~= b);
}

/// The first character that is sought, given its place.
pub proof fn lemma_position_of(s: Seq<char>, f: spec_fn(char) -> bool, j: int, i: int)
    requires
        0 <= j <= i <= s.len(),
        forall|k: int| j <= k < i ==> !f(#[trigger] s[k]),
        i < s.len() ==> f(s[i]),
    ensures
        model::position_from(s, f, j) == i,
    decreases i - j,
{
    if j < i {
        assert(!f(s[j]));
        lemma_position_of(s, f, j + 1, i);
    }
}

/// A text without a line feed is its own only line.
pub proof fn lemma_lines_single(s: Seq<char>)
    requires
        s.len() > 0,
        !s.contains('\n'),
    ensures
        model::lines(s) == seq![s],
{
    lemma_position_of(s, |c: char| c == '\n', 0, s.len() as int);
}

/// What stands on both sides of a character at which a text is split is split on its own.
pub proof fn lemma_split_where_concat(
    a: Seq<char>,
    c: char,
    b: Seq<char>,
    f: spec_fn(char) -> bool,
)
    requires
        f(c),
    ensures
        model::split_where(a + seq![c] + b, f) == model::split_where(a, f) + model::split_where(
            b,
            f,
        ),
    decreases a.len(),
{
    let s = a + seq![c] + b;
    assert(s.take(a.len() as int) =~= a);
    lemma_position_concat(a, s, f, 0);
    let i = model::position_from(a, f, 0);
    lemma_position_bound(a, f, 0);
    if i < a.len() {
        let rest = a.skip(i + 1);
        lemma_split_where_concat(rest, c, b, f);
        assert(s.skip(i + 1) =~= rest + seq![c] + b);
        assert(s.take(i) =~= a.take(i));
        assert(model::split_where(s, f) =~= model::split_where(a, f) + model::split_where(b, f));
    } else {
        assert(s[a.len() as int] == c);
        assert(model::position_from(s, f, a.len() as int) == a.len());
        assert(s.take(a.len() as int) =~= a);
        assert(s.skip(a.len() as int + 1) =~= b);
        assert(model::split_where(a, f) == seq![a]);
    }
}

/// The beginning of a text is searched as the text is.
proof fn lemma_position_concat(a: Seq<char>, s: Seq<char>, f: spec_fn(char) -> bool, i: int)
    requires
        0 <= i <= a.len() <= s.len(),
        s.take(a.len() as int) == a,
    ensures
        model::position_from(a, f, i) < a.len() ==> model::position_from(s, f, i)
            == model::position_from(a, f, i),
        model::position_from(a, f, i) >= a.len() ==> model::position_from(s, f, i)
            == model::position_from(s, f, a.len() as int),
    decreases a.len() - i,
{
    if i < a.len() {
        assert(a[i] == s[i]);
        if !f(a[i]) {
            lemma_position_concat(a, s, f, i + 1);
        }
    }
}

/// A text does not end with another that differs from its ending.
pub proof fn lemma_other_ending(s: Seq<char>, p: Seq<char>, q: Seq<char>, k: int)
    requires
        model::ends_with(s, p),
        0 <= k < p.len(),
        k < q.len(),
        p[p.len() - 1 - k] != q[q.len() - 1 - k],
    ensures
        !model::ends_with(s, q),
{
    if model::ends_with(s, q) {
        assert(s.skip(s.len() - p.len())[p.len() - 1 - k] == s[s.len() - 1 - k]);
        assert(s.skip(s.len() - q.len())[q.len() - 1 - k] == s[s.len() - 1 - k]);
    }
}

/// A text is split at the last place on its own.
pub proof fn lemma_split_last(a: Seq<char>, c: char, b: Seq<char>)
    requires
        !b.contains(c),
    ensures
        model::split(a + seq![c] + b, seq![c]) == model::split(a, seq![c]).push(b),
        model::split(a, seq![c]).len() > 0,
    decreases a.len(),
{
    let f = |x: char| x == c;
    let i = model::position_from(a, f, 0);
    lemma_position_bound(a, f, 0);
    if i >= a.len() {
        lemma_position_none(a, f, 0);
        assert(!a.contains(c)) by {
            if a.contains(c) {
                let k = choose|k: int| 0 <= k < a.len() && a[k] == c;
                assert(!f(a[k]));
            }
        }
        lemma_split_first(a, c, b);
        lemma_split_single(a, c);
        lemma_split_single(b, c);
        assert(seq![a] + seq![b] =~= seq![a].push(b));
    } else {
        lemma_position_found(a, f, 0);
        let x = a.take(i);
        let y = a.skip(i + 1);
        assert(a[i] == c);
        assert(!x.contains(c)) by {
            if x.contains(c) {
                let k = choose|k: int| 0 <= k < x.len() && x[k] == c;
                assert(!f(a[k]));
            }
        }
        assert(a =~= x + seq![c] + y);
        lemma_split_first(x, c, y);
        assert(a + seq![c] + b =~= x + seq![c] + (y + seq![c] + b));
        lemma_split_first(x, c, y + seq![c] + b);
        lemma_split_last(y, c, b);
        assert(seq![x] + model::split(y, seq![c]).push(b) =~= (seq![x] + model::split(
            y,
            seq![c],
        )).push(b));
    }
}

/// Where nothing is found, nothing is there.
proof fn lemma_position_none(s: Seq<char>, f: spec_fn(char) -> bool, i: int)
    requires
        0 <= i <= s.len(),
        model::position_from(s, f, i) >= s.len(),
    ensures
        forall|k: int| i <= k < s.len() ==> !f(#[trigger] s[k]),
    decreases s.len() - i,
{
    if i < s.len() {
        lemma_position_none(s, f, i + 1);
    }
}

/// What is found is there, and not before.
proof fn lemma_position_found(s: Seq<char>, f: spec_fn(char) -> bool, i: int)
    requires
        0 <= i <= s.len(),
        model::position_from(s, f, i) < s.len(),
    ensures
        i <= model::position_from(s, f, i),
        f(s[model::position_from(s, f, i)]),
        forall|k: int| i <= k < model::position_from(s, f, i) ==> !f(#[trigger] s[k]),
    decreases s.len() - i,
{
    if i < s.len() && !f(s[i]) {
        lemma_position_found(s, f, i + 1);
    }
}

/// Texts that are joined by a character that none of them holds are split apart again.
pub proof fn lemma_split_joined(v: Seq<Seq<char>>, c: char)
    requires
        v.len() > 0,
        forall|i: int| 0 <= i < v.len() ==> !(#[trigger] v[i]).contains(c),
    ensures
        model::split(model::join(v, seq![c]), seq![c]) == v,
    decreases v.len(),
{
    if v.len() == 1 {
        lemma_split_single(v[0], c);
        assert(v =~= seq![v[0]]);
    } else {
        let w = v.drop_last();
        assert forall|i: int| 0 <= i < w.len() implies !(#[trigger] w[i]).contains(c) by {
            assert(w[i] == v[i]);
        }
        lemma_split_joined(w, c);
        assert(!v[v.len() - 1].contains(c));
        lemma_split_last(model::join(w, seq![c]), c, v.last());
        assert(w.push(v.last()) =~= v);
    }
}

/// Trimming takes the white space at both ends away and nothing else.
pub proof fn law_white_space_is_trimmed(a: Seq<char>, s: Seq<char>, b: Seq<char>)
    requires
        forall|i: int| 0 <= i < a.len() ==> model::is_white(#[trigger] a[i]),
        forall|i: int| 0 <= i < b.len() ==> model::is_white(#[trigger] b[i]),
        s.len() > 0,
        !model::is_white(s[0]),
        !model::is_white(s.last()),
    ensures
        model::trim(a + s + b) == s,
        model::trim_start(a + s + b) == s + b,
        model::trim_end(a + s + b) == a + s,
{
    lemma_white_start(a, s + b);
    assert(a + s + b =~= a + (s + b));
    lemma_white_end(s, b);
    assert(a + s + b =~= (a + s) + b);
    assert((a + s).last() == s.last());
    lemma_white_end(a + s, b);
}

proof fn lemma_white_start(a: Seq<char>, s: Seq<char>)
    requires
        forall|i: int| 0 <= i < a.len() ==> model::is_white(#[trigger] a[i]),
        s.len() > 0,
        !model::is_white(s[0]),
    ensures
        model::trim_start(a + s) == s,
    decreases a.len(),
{
    let t = a + s;
    if a.len() == 0 {
        assert(t =~= s);
    } else {
        assert(t[0] == a[0]);
        assert(t.skip(1) =~= a.skip(1) + s);
        assert forall|i: int| 0 <= i < a.skip(1).len() implies model::is_white(
            #[trigger] a.skip(1)[i],
        ) by {
            assert(a.skip(1)[i] == a[i + 1]);
        }
        lemma_white_start(a.skip(1), s);
    }
}

proof fn lemma_white_end(s: Seq<char>, b: Seq<char>)
    requires
        forall|i: int| 0 <= i < b.len() ==> model::is_white(#[trigger] b[i]),
        s.len() > 0,
        !model::is_white(s.last()),
    ensures
        model::trim_end(s + b) == s,
    decreases b.len(),
{
    let t = s + b;
    if b.len() == 0 {
        assert(t =~= s);
    } else {
        assert(t.last() == b.last());
        assert(model::is_white(b[b.len() - 1]));
        assert(t.drop_last() =~= s + b.drop_last());
        lemma_white_end(s, b.drop_last());
    }
}

/// White space parts words: what stands on both sides gives its own, and a text without
/// any is one word, or none where it is empty.
pub proof fn law_white_space_parts_words(a: Seq<char>, c: char, b: Seq<char>, w: Seq<char>)
    requires
        model::is_white(c),
        forall|i: int| 0 <= i < w.len() ==> !model::is_white(#[trigger] w[i]),
    ensures
        model::split_whitespace(a + seq![c] + b) == model::split_whitespace(a)
            + model::split_whitespace(b),
        w.len() > 0 ==> model::split_whitespace(w) == seq![w],
        w.len() == 0 ==> model::split_whitespace(w).len() == 0,
{
    let f = |c: char| model::is_white(c);
    let g = |w: Seq<char>| w.len() > 0;
    lemma_split_where_concat(a, c, b, f);
    Seq::filter_distributes_over_add(model::split_where(a, f), model::split_where(b, f), g);
    lemma_position_of(w, f, 0, w.len() as int);
    assert(model::split_where(w, f) == seq![w]);
    reveal(Seq::filter);
    assert(seq![w].drop_last() =~= Seq::<Seq<char>>::empty());
    assert(Seq::<Seq<char>>::empty().filter(g) =~= Seq::<Seq<char>>::empty());
    if w.len() > 0 {
        assert(seq![w].filter(g) =~= seq![w]);
    } else {
        assert(seq![w].filter(g) =~= Seq::<Seq<char>>::empty());
    }
}

/// The first occurrence of a text is replaced, and then those after it.
pub proof fn law_text_is_replaced(
    a: Seq<char>,
    from: Seq<char>,
    b: Seq<char>,
    to: Seq<char>,
    s: Seq<char>,
)
    requires
        from.len() > 0,
        forall|k: int|
            0 <= k < a.len() ==> !#[trigger] model::occurs_at(a + from + b, from, k),
        !model::contains(s, from),
    ensures
        model::replace(a + from + b, from, to) == a + to + model::replace(b, from, to),
        model::replace(s, from, to) == s,
{
    let t = a + from + b;
    let n = a.len() as int;
    assert(t.subrange(n, n + from.len()) =~= from);
    lemma_find_first(t, from, n, 0);
    assert(t.take(n) =~= a);
    assert(t.skip(n + from.len()) =~= b);
    assert(model::split(t, from) == seq![a] + model::split(b, from));
    assert(model::split(b, from).len() > 0);
    lemma_join_cons(a, model::split(b, from), to);
    assert(model::split(s, from) == seq![s]);
    assert(model::join(seq![s], to) == s);
}

/// What fits into a number of bytes is the longest beginning that takes no more of them.
pub proof fn law_longest_beginning_fits(s: Seq<char>, n: nat) -> (k: int)
    ensures
        0 <= k <= s.len(),
        model::fitting(s, n) == s.take(k),
        model::byte_len(s.take(k)) <= n,
        k < s.len() ==> model::byte_len(s.take(k + 1)) > n,
{
    assert(s.take(0) =~= Seq::<char>::empty());
    lemma_fitting(s, n, 0);
    model::fitting_from(s, n, 0)
}

proof fn lemma_fitting(s: Seq<char>, n: nat, k: int)
    requires
        0 <= k <= s.len(),
        model::byte_len(s.take(k)) <= n,
    ensures
        ({
            let r = model::fitting_from(s, n, k);
            &&& k <= r <= s.len()
            &&& model::byte_len(s.take(r)) <= n
            &&& r < s.len() ==> model::byte_len(s.take(r + 1)) > n
        }),
    decreases s.len() - k,
{
    if k < s.len() && model::byte_len(s.take(k + 1)) <= n {
        lemma_fitting(s, n, k + 1);
    }
}

/// The last occurrence of a text is found from the end.
pub proof fn law_last_occurrence_is_found(s: Seq<char>, p: Seq<char>, j: int)
    requires
        model::occurs_at(s, p, j),
        forall|k: int| j < k ==> !#[trigger] model::occurs_at(s, p, k),
    ensures
        model::rfind(s, p) == Some(j),
{
    lemma_rfind_from(s, p, j, s.len() - p.len());
}

proof fn lemma_rfind_from(s: Seq<char>, p: Seq<char>, j: int, i: int)
    requires
        model::occurs_at(s, p, j),
        j <= i,
        forall|k: int| j < k ==> !#[trigger] model::occurs_at(s, p, k),
    ensures
        model::rfind_from(s, p, i) == Some(j),
    decreases i - j,
{
    if j < i {
        assert(!model::occurs_at(s, p, i));
        lemma_rfind_from(s, p, j, i - 1);
    }
}

/// A character is counted wherever it stands.
pub proof fn law_characters_are_counted(s: Seq<char>, x: char, c: char)
    ensures
        model::count(Seq::empty(), c) == 0,
        model::count(s.push(c), c) == model::count(s, c) + 1,
        x != c ==> model::count(s.push(x), c) == model::count(s, c),
{
    assert(s.push(c).drop_last() =~= s);
    assert(s.push(x).drop_last() =~= s);
}

/// A text is taken away from the front as often as it stands there.
pub proof fn law_text_is_taken_from_the_front(s: Seq<char>, p: Seq<char>)
    requires
        p.len() > 0,
    ensures
        model::trim_start_text(p + s, p) == model::trim_start_text(s, p),
        !model::starts_with(s, p) ==> model::trim_start_text(s, p) == s,
{
    let t = p + s;
    assert(t.take(p.len() as int) =~= p);
    assert(t.skip(p.len() as int) =~= s);
}

} // verus!
