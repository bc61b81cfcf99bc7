//! Text helpers shared by the other modules: conversion between strings and
//! character vectors, comparison, searching and splitting into fields.

use vstd::prelude::*;
use vstd::std_specs::iter::IteratorSpec;

verus! {

/// `String::push` appends exactly the given character.
pub assume_specification[ String::push ](s: &mut String, c: char)
    ensures
        final(s)@ == old(s)@.push(c),
;

/// The characters of `s`, in order.
pub fn chars_of(s: &str) -> (v: Vec<char>)
    ensures
        v@ == s@,
{
    let mut v: Vec<char> = Vec::new();
    for c in it: s.chars()
        invariant
            v@ == it.seq().take(it.index() as int),
            it.seq() == s@,
    {
        v.push(c);
    }
    v
}

/// The string made of the characters `v[from..to]`.
pub(crate) fn text_between(v: &Vec<char>, from: usize, to: usize) -> (s: String)
    requires
        from <= to <= v.len(),
    ensures
        s@ == v@.subrange(from as int, to as int),
{
    let mut s = String::new();
    let mut i: usize = from;
    while i < to
        invariant
            from <= i <= to <= v.len(),
            s@ == v@.subrange(from as int, i as int),
        decreases to - i,
    {
        s.push(v[i]);
        i += 1;
    }
    s
}

/// The string made of the characters of `v`.
pub fn text_of(v: &Vec<char>) -> (s: String)
    ensures
        s@ == v@,
{
    let s = text_between(v, 0, v.len());
    assert(v@.subrange(0, v@.len() as int) == v@);
    s
}

/// Appends the characters of `s` to `out`.
pub fn push_text(out: &mut Vec<char>, s: &str)
    ensures
        final(out)@ == old(out)@ + s@,
{
    let ghost before = out@;
    for c in it: s.chars()
        invariant
            out@ == before + it.seq().take(it.index() as int),
            it.seq() == s@,
    {
        out.push(c);
    }
}

/// Whether two strings hold the same characters.
pub fn same_text(a: &str, b: &str) -> (r: bool)
    ensures
        r == (a@ == b@),
{
    let x = chars_of(a);
    let y = chars_of(b);
    same_chars(&x, &y)
}

/// Whether two character vectors hold the same characters.
pub fn same_chars(a: &Vec<char>, b: &Vec<char>) -> (r: bool)
    ensures
        r == (a@ == b@),
{
    if a.len() != b.len() {
        return false;
    }
    let mut i: usize = 0;
    while i < a.len()
        invariant
            i <= a.len(),
            a.len() == b.len(),
            a@.take(i as int) == b@.take(i as int),
        decreases a.len() - i,
    {
        if a[i] != b[i] {
            return false;
        }
        assert(a@.take(i + 1) == a@.take(i as int).push(a@[i as int]));
        assert(b@.take(i + 1) == b@.take(i as int).push(b@[i as int]));
        i += 1;
    }
    assert(a@.take(a@.len() as int) == a@);
    assert(b@.take(b@.len() as int) == b@);
    true
}


/// The characters of each string of a list.
pub open spec fn texts(v: Seq<String>) -> Seq<Seq<char>> {
    Seq::new(v.len(), |i: int| v[i]@)
}

/// White space as Unicode defines it.
pub open spec fn is_space(c: char) -> bool {
    ('\u{9}' <= c && c <= '\u{d}') || c == ' ' || c == '\u{85}' || c == '\u{a0}' || c == '\u{1680}'
        || ('\u{2000}' <= c && c <= '\u{200a}') || c == '\u{2028}' || c == '\u{2029}' || c
        == '\u{202f}' || c == '\u{205f}' || c == '\u{3000}'
}

/// The first position at or behind `from` that holds no white space.
pub open spec fn spaces_end(s: Seq<char>, from: int) -> int
    decreases s.len() - from,
{
    if 0 <= from < s.len() && is_space(s[from]) {
        spaces_end(s, from + 1)
    } else {
        from
    }
}

/// The first position at or behind `from` that holds white space.
pub open spec fn word_end(s: Seq<char>, from: int) -> int
    decreases s.len() - from,
{
    if 0 <= from < s.len() && !is_space(s[from]) {
        word_end(s, from + 1)
    } else {
        from
    }
}

/// The first position at or behind `from` that holds a line feed.
pub open spec fn line_end(s: Seq<char>, from: int) -> int
    decreases s.len() - from,
{
    if 0 <= from < s.len() && s[from] != '\n' {
        line_end(s, from + 1)
    } else {
        from
    }
}

/// The lines of `s` from position `from` on: what stands between line
/// feeds. A line feed at the very end starts no further line.
pub open spec fn lines_from(s: Seq<char>, from: int) -> Seq<Seq<char>>
    decreases s.len() - from,
{
    if 0 <= from < s.len() {
        proof {
            lemma_line_end_bounds(s, from);
        }
        seq![s.subrange(from, line_end(s, from))] + if line_end(s, from) < s.len() {
            lines_from(s, line_end(s, from) + 1)
        } else {
            Seq::empty()
        }
    } else {
        Seq::empty()
    }
}

/// The lines of `s`.
pub open spec fn lines(s: Seq<char>) -> Seq<Seq<char>> {
    lines_from(s, 0)
}

/// The fields of `s` from position `from` on: the longest runs of characters
/// that are not white space.
pub open spec fn fields_from(s: Seq<char>, from: int) -> Seq<Seq<char>>
    decreases s.len() - from,
{
    let start = spaces_end(s, from);
    if 0 <= from && start < s.len() {
        proof {
            lemma_spaces_end_bounds(s, from);
            lemma_word_end_bounds(s, start);
        }
        seq![s.subrange(start, word_end(s, start))] + fields_from(s, word_end(s, start))
    } else {
        Seq::empty()
    }
}

/// The fields of `s`, separated by white space.
pub open spec fn fields(s: Seq<char>) -> Seq<Seq<char>> {
    fields_from(s, 0)
}

/// `p` stands at the start of `s`.
pub open spec fn has_prefix(s: Seq<char>, p: Seq<char>) -> bool {
    p.len() <= s.len() && s.subrange(0, p.len() as int) == p
}

/// `p` stands in `s` at position `at`.
pub open spec fn occurs_at(s: Seq<char>, p: Seq<char>, at: int) -> bool {
    0 <= at && at + p.len() <= s.len() && s.subrange(at, at + p.len()) == p
}

/// `p` stands somewhere in `s`.
pub open spec fn has_part(s: Seq<char>, p: Seq<char>) -> bool {
    exists|at: int| occurs_at(s, p, at)
}

/// White space ends at or behind where it is looked for, within the text,
/// and at a character that is none.
pub proof fn lemma_spaces_end_bounds(s: Seq<char>, from: int)
    requires
        0 <= from <= s.len(),
    ensures
        from <= spaces_end(s, from) <= s.len(),
        spaces_end(s, from) < s.len() ==> !is_space(s[spaces_end(s, from)]),
    decreases s.len() - from,
{
    if from < s.len() && is_space(s[from]) {
        lemma_spaces_end_bounds(s, from + 1);
    }
}

/// A field ends at or behind where it starts, within the text, and behind
/// its start where that holds no white space.
pub proof fn lemma_word_end_bounds(s: Seq<char>, from: int)
    requires
        0 <= from <= s.len(),
    ensures
        from <= word_end(s, from) <= s.len(),
        from < s.len() && !is_space(s[from]) ==> from < word_end(s, from),
    decreases s.len() - from,
{
    if from < s.len() && !is_space(s[from]) {
        lemma_word_end_bounds(s, from + 1);
    }
}

/// A line ends at or behind where it starts, within the text.
pub proof fn lemma_line_end_bounds(s: Seq<char>, from: int)
    requires
        0 <= from <= s.len(),
    ensures
        from <= line_end(s, from) <= s.len(),
    decreases s.len() - from,
{
    if from < s.len() && s[from] != '\n' {
        lemma_line_end_bounds(s, from + 1);
    }
}

/// Whether the character is white space.
pub fn space(c: char) -> (r: bool)
    ensures
        r == is_space(c),
{
    ('\u{9}' <= c && c <= '\u{d}') || c == ' ' || c == '\u{85}' || c == '\u{a0}' || c == '\u{1680}'
        || ('\u{2000}' <= c && c <= '\u{200a}') || c == '\u{2028}' || c == '\u{2029}' || c
        == '\u{202f}' || c == '\u{205f}' || c == '\u{3000}'
}

/// A copy of the characters `v[from..to]`.
pub(crate) fn chars_between(v: &Vec<char>, from: usize, to: usize) -> (r: Vec<char>)
    requires
        from <= to <= v.len(),
    ensures
        r@ == v@.subrange(from as int, to as int),
{
    let mut out: Vec<char> = Vec::new();
    let mut i: usize = from;
    while i < to
        invariant
            from <= i <= to <= v.len(),
            out@ == v@.subrange(from as int, i as int),
        decreases to - i,
    {
        out.push(v[i]);
        i += 1;
    }
    out
}

/// The lines of a text.
pub fn split_lines(s: &Vec<char>) -> (r: Vec<Vec<char>>)
    ensures
        r.len() == lines(s@).len(),
        forall|i: int| 0 <= i < r.len() ==> (#[trigger] r@[i])@ == lines(s@)[i],
{
    let mut out: Vec<Vec<char>> = Vec::new();
    let mut from: usize = 0;
    let ghost mut done: Seq<Seq<char>> = Seq::empty();
    while from < s.len()
        invariant
            from <= s.len(),
            done.len() == out.len(),
            forall|i: int| 0 <= i < out.len() ==> (#[trigger] out@[i])@ == done[i],
            lines(s@) == done + lines_from(s@, from as int),
        decreases s.len() - from,
    {
        let mut end: usize = from;
        while end < s.len() && s[end] != '\n'
            invariant
                from <= end <= s.len(),
                line_end(s@, from as int) == line_end(s@, end as int),
            decreases s.len() - end,
        {
            end += 1;
        }
        let line = chars_between(s, from, end);
        proof {
            let next = done.push(line@);
            let rest = if end < s.len() {
                lines_from(s@, end + 1)
            } else {
                Seq::<Seq<char>>::empty()
            };
            assert(next + rest =~= done + lines_from(s@, from as int));
            done = next;
        }
        out.push(line);
        if end == s.len() {
            from = end;
        } else {
            from = end + 1;
        }
    }
    proof {
        assert(lines_from(s@, from as int) =~= Seq::<Seq<char>>::empty());
        assert(lines(s@) =~= done);
    }
    out
}

/// The fields of a line, separated by white space.
pub fn split_fields(s: &Vec<char>) -> (r: Vec<Vec<char>>)
    ensures
        r.len() == fields(s@).len(),
        forall|i: int| 0 <= i < r.len() ==> (#[trigger] r@[i])@ == fields(s@)[i],
{
    let mut out: Vec<Vec<char>> = Vec::new();
    let mut from: usize = 0;
    let ghost mut done: Seq<Seq<char>> = Seq::empty();
    loop
        invariant
            from <= s.len(),
            done.len() == out.len(),
            forall|i: int| 0 <= i < out.len() ==> (#[trigger] out@[i])@ == done[i],
            fields(s@) == done + fields_from(s@, from as int),
        ensures
            fields(s@) == done,
            done.len() == out.len(),
            forall|i: int| 0 <= i < out.len() ==> (#[trigger] out@[i])@ == done[i],
        decreases s.len() - from,
    {
        let mut start: usize = from;
        while start < s.len() && space(s[start])
            invariant
                from <= start <= s.len(),
                spaces_end(s@, from as int) == spaces_end(s@, start as int),
            decreases s.len() - start,
        {
            start += 1;
        }
        if start >= s.len() {
            proof {
                assert(fields_from(s@, from as int) =~= Seq::<Seq<char>>::empty());
                assert(fields(s@) =~= done);
            }
            break;
        }
        let mut end: usize = start;
        while end < s.len() && !space(s[end])
            invariant
                start <= end <= s.len(),
                word_end(s@, start as int) == word_end(s@, end as int),
            decreases s.len() - end,
        {
            end += 1;
        }
        let field = chars_between(s, start, end);
        proof {
            lemma_word_end_bounds(s@, start as int);
            let next = done.push(field@);
            assert(next + fields_from(s@, end as int) =~= done + fields_from(s@, from as int));
            done = next;
        }
        out.push(field);
        from = end;
    }
    out
}

/// Whether `p` stands in `s` at position `at`.
pub fn stands_at(s: &Vec<char>, p: &Vec<char>, at: usize) -> (r: bool)
    ensures
        r == occurs_at(s@, p@, at as int),
{
    if at > s.len() || p.len() > s.len() - at {
        return false;
    }
    let mut i: usize = 0;
    while i < p.len()
        invariant
            i <= p.len(),
            at + p.len() <= s.len(),
            s@.subrange(at as int, at + i) == p@.take(i as int),
        decreases p.len() - i,
    {
        if s[at + i] != p[i] {
            assert(s@.subrange(at as int, at + p.len())[i as int] != p@[i as int]);
            return false;
        }
        assert(s@.subrange(at as int, at + i + 1) == s@.subrange(at as int, at + i).push(
            s@[at + i],
        ));
        assert(p@.take(i + 1) == p@.take(i as int).push(p@[i as int]));
        i += 1;
    }
    assert(p@.take(p@.len() as int) == p@);
    true
}

/// Whether `s` starts with `p`.
pub fn starts_with(s: &Vec<char>, p: &Vec<char>) -> (r: bool)
    ensures
        r == has_prefix(s@, p@),
{
    stands_at(s, p, 0)
}

/// Whether `p` stands somewhere in `s`.
pub fn contains(s: &Vec<char>, p: &Vec<char>) -> (r: bool)
    ensures
        r == has_part(s@, p@),
{
    if p.len() > s.len() {
        assert forall|at: int| !occurs_at(s@, p@, at) by {}
        return false;
    }
    if p.len() == 0 {
        assert(occurs_at(s@, p@, 0)) by {
            assert(s@.subrange(0, 0) =~= p@);
        }
        return true;
    }
    let last: usize = s.len() - p.len();
    let mut at: usize = 0;
    while at <= last
        invariant
            at <= last + 1,
            last == s.len() - p.len(),
            p.len() > 0,
            forall|k: int| 0 <= k < at ==> !occurs_at(s@, p@, k),
        decreases last + 1 - at,
    {
        if stands_at(s, p, at) {
            return true;
        }
        at += 1;
    }
    assert forall|k: int| !occurs_at(s@, p@, k) by {}
    false
}


/// A decimal digit.
pub open spec fn dec_digit(v: u8) -> char {
    match v {
        0 => '0',
        1 => '1',
        2 => '2',
        3 => '3',
        4 => '4',
        5 => '5',
        6 => '6',
        7 => '7',
        8 => '8',
        _ => '9',
    }
}

/// A natural number in decimal, without leading zeros.
pub open spec fn decimal(n: nat) -> Seq<char>
    decreases n,
{
    if n < 10 {
        seq![dec_digit(n as u8)]
    } else {
        decimal(n / 10).push(dec_digit((n % 10) as u8))
    }
}

/// The character of a decimal digit.
pub(crate) fn decimal_char(v: u8) -> (c: char)
    requires
        v < 10,
    ensures
        c == dec_digit(v),
{
    match v {
        0 => '0',
        1 => '1',
        2 => '2',
        3 => '3',
        4 => '4',
        5 => '5',
        6 => '6',
        7 => '7',
        8 => '8',
        _ => '9',
    }
}

/// Appends a natural number in decimal.
pub fn push_natural(out: &mut Vec<char>, n: u64)
    ensures
        final(out)@ == old(out)@ + decimal(n as nat),
    decreases n,
{
    if n >= 10 {
        push_natural(out, n / 10);
    }
    out.push(decimal_char((n % 10) as u8));
}


/// The first position at or before `upto` from which only white space
/// stands up to `upto`.
pub open spec fn spaces_start(s: Seq<char>, upto: int) -> int
    decreases upto,
{
    if 0 < upto <= s.len() && is_space(s[upto - 1]) {
        spaces_start(s, upto - 1)
    } else {
        upto
    }
}

/// The text without the white space at its two ends.
pub open spec fn trimmed(s: Seq<char>) -> Seq<char> {
    if spaces_end(s, 0) >= s.len() {
        Seq::empty()
    } else {
        s.subrange(spaces_end(s, 0), spaces_start(s, s.len() as int))
    }
}

/// The text from `at` on with every occurrence of `from` replaced by `to`,
/// the occurrences taken from the left and not overlapping. An empty
/// `from` occurs before every character and at the end.
pub open spec fn replaced_from(s: Seq<char>, from: Seq<char>, to: Seq<char>, at: int) -> Seq<char>
    decreases s.len() - at,
{
    if at < 0 || at >= s.len() {
        if from.len() == 0 {
            to
        } else {
            Seq::empty()
        }
    } else if from.len() == 0 {
        to + seq![s[at]] + replaced_from(s, from, to, at + 1)
    } else if occurs_at(s, from, at) {
        to + replaced_from(s, from, to, at + from.len())
    } else {
        seq![s[at]] + replaced_from(s, from, to, at + 1)
    }
}

/// The text with every occurrence of `from` replaced by `to`.
pub open spec fn replaced(s: Seq<char>, from: Seq<char>, to: Seq<char>) -> Seq<char> {
    replaced_from(s, from, to, 0)
}

/// The text without the white space at its two ends.
pub fn trim(s: &Vec<char>) -> (r: Vec<char>)
    ensures
        r@ == trimmed(s@),
{
    let mut start: usize = 0;
    while start < s.len() && space(s[start])
        invariant
            start <= s.len(),
            spaces_end(s@, 0) == spaces_end(s@, start as int),
        decreases s.len() - start,
    {
        start += 1;
    }
    if start >= s.len() {
        return Vec::new();
    }
    let mut end: usize = s.len();
    while end > 0 && space(s[end - 1])
        invariant
            end <= s.len(),
            start < s.len(),
            !is_space(s@[start as int]),
            start < end,
            spaces_start(s@, s@.len() as int) == spaces_start(s@, end as int),
        decreases end,
    {
        end -= 1;
    }
    chars_between(s, start, end)
}

/// The text with every occurrence of `from` replaced by `to`.
pub fn replace_all(s: &Vec<char>, from: &Vec<char>, to: &Vec<char>) -> (r: Vec<char>)
    ensures
        r@ == replaced(s@, from@, to@),
{
    let mut out: Vec<char> = Vec::new();
    let mut at: usize = 0;
    while at < s.len()
        invariant
            at <= s.len(),
            replaced(s@, from@, to@) == out@ + replaced_from(s@, from@, to@, at as int),
        decreases s.len() - at,
    {
        let ghost before = out@;
        if from.len() == 0 {
            push_chars(&mut out, to);
            out.push(s[at]);
            assert(out@ + replaced_from(s@, from@, to@, at + 1) =~= before + replaced_from(
                s@,
                from@,
                to@,
                at as int,
            ));
            at += 1;
        } else if stands_at(s, from, at) {
            push_chars(&mut out, to);
            assert(out@ + replaced_from(s@, from@, to@, at + from.len()) =~= before + replaced_from(
                s@,
                from@,
                to@,
                at as int,
            ));
            at += from.len();
        } else {
            out.push(s[at]);
            assert(out@ + replaced_from(s@, from@, to@, at + 1) =~= before + replaced_from(
                s@,
                from@,
                to@,
                at as int,
            ));
            at += 1;
        }
    }
    let ghost before = out@;
    if from.len() == 0 {
        push_chars(&mut out, to);
    }
    assert(out@ =~= before + replaced_from(s@, from@, to@, at as int));
    out
}

/// Appends the characters of `more` to `out`.
pub fn push_chars(out: &mut Vec<char>, more: &Vec<char>)
    ensures
        final(out)@ == old(out)@ + more@,
{
    let ghost before = out@;
    let mut i: usize = 0;
    while i < more.len()
        invariant
            i <= more.len(),
            out@ == before + more@.take(i as int),
        decreases more.len() - i,
    {
        out.push(more[i]);
        assert(more@.take(i + 1) =~= more@.take(i as int).push(more@[i as int]));
        i += 1;
    }
    assert(more@.take(more@.len() as int) =~= more@);
}

} // verus!
