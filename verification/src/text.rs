//! Character sequences: conversion between strings and character vectors.

use vstd::prelude::*;

verus! {

/// `String::push` puts the character after the characters that the string
/// holds.
pub assume_specification[ String::push ](s: &mut String, c: char)
    ensures
        final(s)@ == old(s)@.push(c),
;

/// Whether two strings hold the same characters: `==` of `str`.
#[verifier::external_body]
pub(crate) fn same_text(a: &str, b: &str) -> (same: bool)
    ensures
        same == (a@ == b@),
{
    a == b
}

/// The characters of `text`, in order.
pub fn to_chars(text: &str) -> (chars: Vec<char>)
    ensures
        chars@ == text@,
{
    broadcast use vstd::string::group_string_axioms;

    let mut chars: Vec<char> = Vec::new();
    for c in it: text.chars()
        invariant
            it.seq() == text@,
            chars@ == text@.take(it.index() as int),
    {
        chars.push(c);
    }
    chars
}

/// The string made of `chars`, in order.
pub fn to_text(chars: &[char]) -> (text: String)
    ensures
        text@ == chars@,
{
    let mut text = String::new();
    let mut i: usize = 0;
    while i < chars.len()
        invariant
            i <= chars.len(),
            text@ == chars@.take(i as int),
        decreases chars.len() - i,
    {
        text.push(chars[i]);
        i += 1;
    }
    text
}

/// The least index at or after `from` at which `s` holds `c`, or the length
/// of `s` when there is none.
pub open spec fn index_from(s: Seq<char>, c: char, from: int) -> int
    decreases s.len() - from,
{
    if from >= s.len() {
        s.len() as int
    } else if s[from] == c {
        from
    } else {
        index_from(s, c, from + 1)
    }
}

/// The index of the first `c` in `s`, or the length of `s` when `s` holds
/// no `c`.
pub open spec fn first_index(s: Seq<char>, c: char) -> int {
    index_from(s, c, 0)
}

/// Whether `c` occurs nowhere in `s`.
pub open spec fn free_of(s: Seq<char>, c: char) -> bool {
    forall|i: int| 0 <= i < s.len() ==> #[trigger] s[i] != c
}

pub proof fn lemma_index_from(s: Seq<char>, c: char, from: int)
    requires
        0 <= from <= s.len(),
    ensures
        from <= index_from(s, c, from) <= s.len(),
        index_from(s, c, from) < s.len() ==> s[index_from(s, c, from)] == c,
        forall|j: int| from <= j < index_from(s, c, from) ==> #[trigger] s[j] != c,
    decreases s.len() - from,
{
    if from < s.len() && s[from] != c {
        lemma_index_from(s, c, from + 1);
    }
}

/// An index that holds the first `c` of `s` is `first_index(s, c)`; so is
/// the length of `s` when `s` holds no `c`.
pub proof fn lemma_first_index_is(s: Seq<char>, c: char, i: int)
    requires
        0 <= i <= s.len(),
        i < s.len() ==> s[i] == c,
        forall|j: int| 0 <= j < i ==> #[trigger] s[j] != c,
    ensures
        first_index(s, c) == i,
{
    lemma_index_from(s, c, 0);
}

/// The least index at or after `from` at which `s` holds `c`, or the length
/// of `s`.
pub fn find_from(s: &[char], c: char, from: usize) -> (at: usize)
    requires
        from <= s.len(),
    ensures
        at == index_from(s@, c, from as int),
{
    let mut at: usize = from;
    while at < s.len() && s[at] != c
        invariant
            from <= at <= s.len(),
            index_from(s@, c, from as int) == index_from(s@, c, at as int),
        decreases s.len() - at,
    {
        at += 1;
    }
    at
}

/// Appends the characters of `tail` to `out`.
pub fn push_all(out: &mut Vec<char>, tail: &[char])
    ensures
        final(out)@ == old(out)@ + tail@,
{
    let mut i: usize = 0;
    while i < tail.len()
        invariant
            i <= tail.len(),
            out@ == old(out)@ + tail@.take(i as int),
        decreases tail.len() - i,
    {
        out.push(tail[i]);
        i += 1;
        assert(out@ =~= old(out)@ + tail@.take(i as int));
    }
    assert(tail@.take(tail.len() as int) =~= tail@);
}

/// Appends the characters of `tail` to `out`.
pub fn push_str(out: &mut Vec<char>, tail: &str)
    ensures
        final(out)@ == old(out)@ + tail@,
{
    let chars = to_chars(tail);
    push_all(out, chars.as_slice());
}

/// Whether `s` can stand as a field of a record: it holds no comma and no
/// line feed.
pub open spec fn is_field(s: Seq<char>) -> bool {
    free_of(s, ',') && free_of(s, '\n')
}

/// A copy of `s[from..to]`.
pub fn copy_range(s: &[char], from: usize, to: usize) -> (part: Vec<char>)
    requires
        from <= to <= s.len(),
    ensures
        part@ == s@.subrange(from as int, to as int),
{
    let mut part: Vec<char> = Vec::new();
    let mut i: usize = from;
    while i < to
        invariant
            from <= i <= to <= s.len(),
            part@ == s@.subrange(from as int, i as int),
        decreases to - i,
    {
        part.push(s[i]);
        i += 1;
        assert(part@ =~= s@.subrange(from as int, i as int));
    }
    part
}

/// The parts of `s` between the occurrences of `sep`: one part more than
/// there are occurrences, each free of `sep`.
pub open spec fn split(s: Seq<char>, sep: char) -> Seq<Seq<char>>
    decreases s.len(),
{
    let i = first_index(s, sep);
    if 0 <= i < s.len() {
        seq![s.take(i)] + split(s.skip(i + 1), sep)
    } else {
        seq![s]
    }
}

/// The line without the carriage return at its end, if it has one there.
pub open spec fn strip_cr(line: Seq<char>) -> Seq<char> {
    if line.len() > 0 && line.last() == '\r' {
        line.drop_last()
    } else {
        line
    }
}

/// The lines of `s`: the parts that end in a line feed, each without the
/// line feed and without a carriage return before it, and then what is left
/// after the last line feed, if anything is.
pub open spec fn lines(s: Seq<char>) -> Seq<Seq<char>>
    decreases s.len(),
{
    if s.len() == 0 {
        Seq::empty()
    } else {
        let i = first_index(s, '\n');
        if 0 <= i < s.len() {
            seq![strip_cr(s.take(i))] + lines(s.skip(i + 1))
        } else {
            seq![s]
        }
    }
}

/// The character sequences that the vectors hold.
pub open spec fn rows(v: Seq<Vec<char>>) -> Seq<Seq<char>> {
    Seq::new(v.len(), |i: int| v[i]@)
}

/// What is free of `sep` is the one part of itself.
pub proof fn lemma_split_single(f: Seq<char>, sep: char)
    requires
        free_of(f, sep),
    ensures
        split(f, sep) == seq![f],
{
    lemma_first_index_is(f, sep, f.len() as int);
}

/// The first part of a sequence that starts with `f` and `sep`, `f` free of
/// `sep`, is `f`; the other parts are those of what follows.
pub proof fn lemma_split_cons(f: Seq<char>, rest: Seq<char>, sep: char)
    requires
        free_of(f, sep),
    ensures
        split(f + seq![sep] + rest, sep) == seq![f] + split(rest, sep),
{
    let s = f + seq![sep] + rest;
    let i = f.len() as int;
    assert(s[i] == sep);
    assert forall|j: int| 0 <= j < i implies #[trigger] s[j] != sep by {
        assert(s[j] == f[j]);
    }
    lemma_first_index_is(s, sep, i);
    assert(s.take(i) =~= f);
    assert(s.skip(i + 1) =~= rest);
}

/// The parts of a sequence are free of the separator, and of every
/// character that the sequence is free of.
pub proof fn lemma_split_parts(s: Seq<char>, sep: char, c: char)
    requires
        c == sep || free_of(s, c),
    ensures
        split(s, sep).len() >= 1,
        forall|k: int| 0 <= k < split(s, sep).len() ==> free_of(#[trigger] split(s, sep)[k], c),
    decreases s.len(),
{
    let i = first_index(s, sep);
    lemma_index_from(s, sep, 0);
    if 0 <= i < s.len() {
        let rest = s.skip(i + 1);
        assert(free_of(s, c) ==> free_of(rest, c)) by {
            if free_of(s, c) {
                assert forall|j: int| 0 <= j < rest.len() implies #[trigger] rest[j] != c by {
                    assert(rest[j] == s[i + 1 + j]);
                }
            }
        }
        lemma_split_parts(rest, sep, c);
        let parts = split(s, sep);
        let tail = split(rest, sep);
        assert forall|k: int| 0 <= k < parts.len() implies free_of(#[trigger] parts[k], c) by {
            if k == 0 {
                assert(parts[0] == s.take(i));
                assert forall|j: int| 0 <= j < s.take(i).len() implies #[trigger] s.take(i)[j]
                    != c by {
                    assert(s.take(i)[j] == s[j]);
                }
            } else {
                assert(parts[k] == tail[k - 1]);
            }
        }
    } else {
        assert(split(s, sep)[0] == s);
    }
}

/// The lines of a text hold no line feed.
pub proof fn lemma_lines_free(s: Seq<char>)
    ensures
        forall|k: int| 0 <= k < lines(s).len() ==> free_of(#[trigger] lines(s)[k], '\n'),
    decreases s.len(),
{
    if s.len() > 0 {
        let i = first_index(s, '\n');
        lemma_index_from(s, '\n', 0);
        let all = lines(s);
        if 0 <= i < s.len() {
            let rest = s.skip(i + 1);
            lemma_lines_free(rest);
            let head = s.take(i);
            assert forall|k: int| 0 <= k < all.len() implies free_of(#[trigger] all[k], '\n') by {
                if k == 0 {
                    let line = strip_cr(head);
                    assert(all[0] == line);
                    assert forall|j: int| 0 <= j < line.len() implies #[trigger] line[j] != '\n' by {
                        assert(line[j] == s[j]);
                    }
                } else {
                    assert(all[k] == lines(rest)[k - 1]);
                }
            }
        } else {
            assert(all[0] == s);
        }
    }
}

/// The fields of a line of a text can stand as fields.
pub proof fn lemma_fields_of_line(s: Seq<char>, k: int)
    requires
        0 <= k < lines(s).len(),
    ensures
        forall|f: int|
            0 <= f < split(lines(s)[k], ',').len() ==> is_field(#[trigger] split(lines(s)[k], ',')[f]),
{
    lemma_lines_free(s);
    lemma_split_parts(lines(s)[k], ',', ',');
    lemma_split_parts(lines(s)[k], ',', '\n');
}

/// A line free of line feeds, put with its line feed after a text that is
/// empty or ends in a line feed, is one more line after the lines of that
/// text.
pub proof fn lemma_lines_push(a: Seq<char>, l: Seq<char>)
    requires
        a.len() == 0 || a.last() == '\n',
        free_of(l, '\n'),
    ensures
        lines(a + l + seq!['\n']) == lines(a).push(strip_cr(l)),
    decreases a.len(),
{
    let s = a + l + seq!['\n'];
    if a.len() == 0 {
        let i = l.len() as int;
        assert(s[i] == '\n');
        assert forall|j: int| 0 <= j < i implies #[trigger] s[j] != '\n' by {
            assert(s[j] == l[j]);
        }
        lemma_first_index_is(s, '\n', i);
        assert(s.take(i) =~= l);
        assert(s.skip(i + 1) =~= Seq::<char>::empty());
        assert(lines(s) == seq![strip_cr(s.take(i))] + lines(s.skip(i + 1)));
        assert(lines(s.skip(i + 1)) =~= Seq::<Seq<char>>::empty());
        assert(lines(a) =~= Seq::<Seq<char>>::empty());
        assert(lines(s) =~= lines(a).push(strip_cr(l)));
    } else {
        let i = first_index(a, '\n');
        lemma_index_from(a, '\n', 0);
        if i == a.len() {
            assert(a[a.len() - 1] != '\n');
        }
        assert(s[i] == a[i]);
        assert forall|j: int| 0 <= j < i implies #[trigger] s[j] != '\n' by {
            assert(s[j] == a[j]);
        }
        lemma_first_index_is(s, '\n', i);
        let tail = a.skip(i + 1);
        if tail.len() > 0 {
            assert(tail.last() == a.last());
        }
        lemma_lines_push(tail, l);
        assert(s.take(i) =~= a.take(i));
        assert(s.skip(i + 1) =~= tail + l + seq!['\n']);
        assert(0 <= i < a.len());
        assert(lines(a) == seq![strip_cr(a.take(i))] + lines(tail));
        assert(lines(s) == seq![strip_cr(s.take(i))] + lines(s.skip(i + 1)));
        assert(lines(s) =~= lines(a).push(strip_cr(l)));
    }
}

/// Splits `s` at each `sep`.
pub fn split_fields(s: &[char], sep: char) -> (fields: Vec<Vec<char>>)
    ensures
        rows(fields@) == split(s@, sep),
{
    let mut fields: Vec<Vec<char>> = Vec::new();
    let mut start: usize = 0;
    let mut done: bool = false;
    assert(s@.skip(0) =~= s@);
    assert(rows(fields@) =~= Seq::<Seq<char>>::empty());
    while !done
        invariant
            start <= s.len(),
            !done ==> split(s@, sep) == rows(fields@) + split(s@.skip(start as int), sep),
            done ==> rows(fields@) == split(s@, sep),
        decreases
            (if done {
                0
            } else {
                s.len() - start + 1
            }),
    {
        let at: usize = find_from(s, sep, start);
        let ghost tail = s@.skip(start as int);
        let ghost before = rows(fields@);
        proof {
            lemma_index_from(s@, sep, start as int);
            assert forall|j: int| 0 <= j < at - start implies #[trigger] tail[j] != sep by {
                assert(tail[j] == s@[start + j]);
            }
            lemma_first_index_is(tail, sep, at - start);
        }
        let part = copy_range(s, start, at);
        fields.push(part);
        assert(rows(fields@) =~= before.push(s@.subrange(start as int, at as int)));
        if at < s.len() {
            proof {
                assert(tail.take(at - start) =~= s@.subrange(start as int, at as int));
                assert(tail.skip(at - start + 1) =~= s@.skip(at + 1));
                assert(split(tail, sep) == seq![tail.take(at - start)] + split(
                    tail.skip(at - start + 1),
                    sep,
                ));
                assert(rows(fields@) + split(s@.skip(at + 1), sep) =~= before + split(tail, sep));
            }
            start = at + 1;
        } else {
            proof {
                assert(tail =~= s@.subrange(start as int, at as int));
                assert(split(tail, sep) == seq![tail]);
                assert(rows(fields@) =~= before + split(tail, sep));
            }
            done = true;
        }
    }
    fields
}

/// Splits `s` into its lines.
pub fn split_lines(s: &[char]) -> (out: Vec<Vec<char>>)
    ensures
        rows(out@) == lines(s@),
{
    let mut out: Vec<Vec<char>> = Vec::new();
    let mut start: usize = 0;
    assert(s@.skip(0) =~= s@);
    assert(rows(out@) =~= Seq::<Seq<char>>::empty());
    while start < s.len()
        invariant
            start <= s.len(),
            lines(s@) == rows(out@) + lines(s@.skip(start as int)),
        decreases s.len() - start,
    {
        let at: usize = find_from(s, '\n', start);
        let ghost tail = s@.skip(start as int);
        let ghost before = rows(out@);
        proof {
            lemma_index_from(s@, '\n', start as int);
            assert forall|j: int| 0 <= j < at - start implies #[trigger] tail[j] != '\n' by {
                assert(tail[j] == s@[start + j]);
            }
            lemma_first_index_is(tail, '\n', at - start);
        }
        if at < s.len() {
            let end: usize = if at > start && s[at - 1] == '\r' {
                at - 1
            } else {
                at
            };
            let part = copy_range(s, start, end);
            out.push(part);
            proof {
                let line = tail.take(at - start);
                assert(line =~= s@.subrange(start as int, at as int));
                assert(strip_cr(line) =~= s@.subrange(start as int, end as int));
                assert(tail.skip(at - start + 1) =~= s@.skip(at + 1));
                assert(rows(out@) =~= before.push(strip_cr(line)));
                assert(lines(tail) == seq![strip_cr(line)] + lines(tail.skip(at - start + 1)));
                assert(rows(out@) + lines(s@.skip(at + 1)) =~= before + lines(tail));
            }
            start = at + 1;
        } else {
            let part = copy_range(s, start, at);
            out.push(part);
            proof {
                assert(tail =~= s@.subrange(start as int, at as int));
                assert(lines(tail) == seq![tail]);
                assert(rows(out@) =~= before.push(tail));
                assert(s@.skip(at as int) =~= Seq::<char>::empty());
                assert(rows(out@) + lines(s@.skip(at as int)) =~= before + lines(tail));
            }
            start = at;
        }
    }
    proof {
        assert(s@.skip(start as int) =~= Seq::<char>::empty());
        assert(rows(out@) + lines(s@.skip(start as int)) =~= rows(out@));
    }
    out
}

} // verus!
