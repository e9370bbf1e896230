//! Small verified helpers on text: characters, prefixes, trimming, splitting.
//!
//! Every function here works on the characters of a string (`s@`), never on
//! its bytes, so an index is always a character index.

use vstd::prelude::*;

verus! {

/// The characters that count as white space when a line is trimmed: the
/// code points with the Unicode property `White_Space`.
pub open spec fn is_space(c: char) -> bool {
    let n = c as u32;
    (0x09 <= n <= 0x0D) || n == 0x20 || n == 0x85 || n == 0xA0 || n == 0x1680 || (0x2000 <= n
        <= 0x200A) || n == 0x2028 || n == 0x2029 || n == 0x202F || n == 0x205F || n == 0x3000
}

pub fn is_space_char(c: char) -> (r: bool)
    ensures
        r == is_space(c),
{
    let n: u32 = c as u32;
    (0x09 <= n && n <= 0x0D) || n == 0x20 || n == 0x85 || n == 0xA0 || n == 0x1680 || (0x2000 <= n
        && n <= 0x200A) || n == 0x2028 || n == 0x2029 || n == 0x202F || n == 0x205F || n == 0x3000
}

/// The index of the first `c` in `s` at or after `from`; `s.len()` where there is none.
pub open spec fn first_at(s: Seq<char>, from: int, c: char) -> int
    decreases s.len() - from,
{
    if from < 0 || from >= s.len() {
        s.len() as int
    } else if s[from] == c {
        from
    } else {
        first_at(s, from + 1, c)
    }
}

/// `first_at` is the least index at or after `from` that holds `c`.
pub proof fn lemma_first_at(s: Seq<char>, from: int, c: char)
    requires
        0 <= from <= s.len(),
    ensures
        from <= first_at(s, from, c) <= s.len(),
        first_at(s, from, c) < s.len() ==> s[first_at(s, from, c)] == c,
        forall|k: int| from <= k < first_at(s, from, c) ==> s[k] != c,
    decreases s.len() - from,
{
    if from < s.len() && s[from] != c {
        lemma_first_at(s, from + 1, c);
    }
}

/// Where `i` is the first index at or after `from` that holds `c`, `first_at` is `i`.
pub proof fn lemma_first_at_is(s: Seq<char>, from: int, c: char, i: int)
    requires
        0 <= from <= i <= s.len(),
        i < s.len() ==> s[i] == c,
        forall|k: int| from <= k < i ==> s[k] != c,
    ensures
        first_at(s, from, c) == i,
    decreases i - from,
{
    if from < i {
        lemma_first_at_is(s, from + 1, c, i);
    }
}

pub fn find_char(cs: &Vec<char>, from: usize, c: char) -> (i: usize)
    requires
        from <= cs.len(),
    ensures
        i == first_at(cs@, from as int, c),
        from <= i <= cs.len(),
{
    let mut i: usize = from;
    while i < cs.len() && cs[i] != c
        invariant
            from <= i <= cs.len(),
            forall|k: int| from <= k < i ==> cs@[k] != c,
        decreases cs.len() - i,
    {
        i += 1;
    }
    proof {
        lemma_first_at_is(cs@, from as int, c, i as int);
    }
    i
}

/// The pieces of `s` between occurrences of `sep`, starting at index `from`.
/// A string without `sep` is one piece; a trailing `sep` leaves an empty last piece.
pub open spec fn split_from(s: Seq<char>, from: int, sep: char) -> Seq<Seq<char>>
    decreases s.len() - from,
{
    let i = first_at(s, from, sep);
    if from < 0 || from > s.len() {
        Seq::empty()
    } else if i >= s.len() {
        seq![s.subrange(from, s.len() as int)]
    } else {
        proof {
            lemma_first_at(s, from, sep);
        }
        seq![s.subrange(from, i)] + split_from(s, i + 1, sep)
    }
}

/// The pieces of `s` between occurrences of `sep`.
pub open spec fn split_on(s: Seq<char>, sep: char) -> Seq<Seq<char>> {
    split_from(s, 0, sep)
}

/// The characters each string of `v` holds.
pub open spec fn texts(v: Seq<String>) -> Seq<Seq<char>> {
    Seq::new(v.len(), |i: int| v[i]@)
}

/// The characters of `text` from index `a` up to `b`.
pub fn slice_text(text: &str, a: usize, b: usize) -> (r: String)
    requires
        a <= b <= text@.len(),
    ensures
        r@ == text@.subrange(a as int, b as int),
{
    text.substring_char(a, b).to_owned()
}

/// `String::push` appends the character to the end of the string.
pub assume_specification[ String::push ](s: &mut String, c: char)
    ensures
        final(s)@ == old(s)@.push(c),
;

/// The string made of the characters of `cs` from index `from` up to `to`.
pub fn collect_text(cs: &Vec<char>, from: usize, to: usize) -> (r: String)
    requires
        from <= to <= cs.len(),
    ensures
        r@ == cs@.subrange(from as int, to as int),
{
    let mut r = String::new();
    let mut i: usize = from;
    assert(cs@.subrange(from as int, from as int) =~= Seq::<char>::empty());
    while i < to
        invariant
            from <= i <= to <= cs.len(),
            r@ == cs@.subrange(from as int, i as int),
        decreases to - i,
    {
        r.push(cs[i]);
        assert(cs@.subrange(from as int, i + 1) =~= cs@.subrange(from as int, i as int).push(
            cs@[i as int],
        ));
        i += 1;
    }
    r
}

pub fn split_text(text: &str, sep: char) -> (parts: Vec<String>)
    ensures
        texts(parts@) == split_on(text@, sep),
{
    let cs = chars_of(text);
    let mut parts: Vec<String> = Vec::new();
    let mut from: usize = 0;
    loop
        invariant
            cs@ == text@,
            from <= cs.len(),
            texts(parts@) + split_from(text@, from as int, sep) == split_on(text@, sep),
        decreases cs.len() - from,
    {
        let i = find_char(&cs, from, sep);
        let piece = collect_text(&cs, from, i);
        let ghost before = texts(parts@);
        parts.push(piece);
        assert(texts(parts@) == before + seq![text@.subrange(from as int, i as int)]);
        if i >= cs.len() {
            assert(texts(parts@) == split_on(text@, sep));
            return parts;
        }
        from = i + 1;
    }
}

/// `s` without the white space at its start.
pub open spec fn trim_start(s: Seq<char>) -> Seq<char>
    decreases s.len(),
{
    if s.len() > 0 && is_space(s[0]) {
        trim_start(s.skip(1))
    } else {
        s
    }
}

/// `s` without the white space at its end.
pub open spec fn trim_end(s: Seq<char>) -> Seq<char>
    decreases s.len(),
{
    if s.len() > 0 && is_space(s.last()) {
        trim_end(s.drop_last())
    } else {
        s
    }
}

/// `s` without the white space at either end.
pub open spec fn trim(s: Seq<char>) -> Seq<char> {
    trim_end(trim_start(s))
}

proof fn lemma_trim_start_range(s: Seq<char>, a: int)
    requires
        0 <= a <= s.len(),
        forall|k: int| 0 <= k < a ==> is_space(s[k]),
        a < s.len() ==> !is_space(s[a]),
    ensures
        trim_start(s) == s.subrange(a, s.len() as int),
    decreases a,
{
    if a == 0 {
        assert(s.subrange(0, s.len() as int) == s);
    } else {
        let t = s.skip(1);
        assert forall|k: int| 0 <= k < a - 1 implies is_space(t[k]) by {
            assert(t[k] == s[k + 1]);
        }
        lemma_trim_start_range(t, a - 1);
        assert(t.subrange(a - 1, t.len() as int) == s.subrange(a, s.len() as int));
    }
}

proof fn lemma_trim_end_range(s: Seq<char>, b: int)
    requires
        0 <= b <= s.len(),
        forall|k: int| b <= k < s.len() ==> is_space(s[k]),
        b > 0 ==> !is_space(s[b - 1]),
    ensures
        trim_end(s) == s.subrange(0, b),
    decreases s.len() - b,
{
    if b == s.len() {
        assert(s.subrange(0, s.len() as int) == s);
    } else {
        let t = s.drop_last();
        lemma_trim_end_range(t, b);
        assert(t.subrange(0, b) == s.subrange(0, b));
    }
}

pub fn trim_text(text: &str) -> (r: String)
    ensures
        r@ == trim(text@),
{
    let cs = chars_of(text);
    let mut a: usize = 0;
    while a < cs.len() && is_space_char(cs[a])
        invariant
            a <= cs.len(),
            forall|k: int| 0 <= k < a ==> is_space(cs@[k]),
        decreases cs.len() - a,
    {
        a += 1;
    }
    let mut b: usize = cs.len();
    while b > a && is_space_char(cs[b - 1])
        invariant
            a <= b <= cs.len(),
            forall|k: int| b <= k < cs.len() ==> is_space(cs@[k]),
        decreases b,
    {
        b -= 1;
    }
    proof {
        lemma_trim_start_range(cs@, a as int);
        let t = cs@.subrange(a as int, cs.len() as int);
        assert forall|k: int| b - a <= k < t.len() implies is_space(t[k]) by {
            assert(t[k] == cs@[k + a]);
        }
        if b > a {
            assert(t[b - a - 1] == cs@[b - 1]);
        }
        lemma_trim_end_range(t, b - a);
        assert(t.subrange(0, b - a) == cs@.subrange(a as int, b as int));
    }
    slice_text(text, a, b)
}

/// The characters of `s`, in order.
pub fn chars_of(s: &str) -> (v: Vec<char>)
    ensures
        v@ == s@,
{
    let mut v: Vec<char> = Vec::new();
    for c in it: s.chars()
        invariant
            v@ == it.seq().take(it.index()),
            it.seq() == s@,
    {
        v.push(c);
    }
    v
}

/// Whether two strings hold the same characters.
pub fn same_text(a: &str, b: &str) -> (r: bool)
    ensures
        r == (a@ == b@),
{
    let x: String = a.to_owned();
    let y: String = b.to_owned();
    x == y
}

/// Whether `text` begins with `prefix`.
pub fn starts_with(text: &str, prefix: &str) -> (r: bool)
    ensures
        r == prefix@.is_prefix_of(text@),
{
    let t = chars_of(text);
    let p = chars_of(prefix);
    if p.len() > t.len() {
        return false;
    }
    let mut i: usize = 0;
    while i < p.len()
        invariant
            i <= p.len() <= t.len(),
            t@ == text@,
            p@ == prefix@,
            forall|k: int| 0 <= k < i ==> p@[k] == t@[k],
        decreases p.len() - i,
    {
        if p[i] != t[i] {
            assert(p@[i as int] != t@.subrange(0, p@.len() as int)[i as int]);
            return false;
        }
        i += 1;
    }
    assert(p@ == t@.subrange(0, p@.len() as int));
    true
}

/// Whether `text` ends with `suffix`.
pub fn ends_with(text: &str, suffix: &str) -> (r: bool)
    ensures
        r == suffix@.is_suffix_of(text@),
{
    let t = chars_of(text);
    let p = chars_of(suffix);
    if p.len() > t.len() {
        return false;
    }
    let d: usize = t.len() - p.len();
    let mut i: usize = 0;
    while i < p.len()
        invariant
            i <= p.len() <= t.len(),
            t@ == text@,
            p@ == suffix@,
            d == t.len() - p.len(),
            forall|k: int| 0 <= k < i ==> p@[k] == t@[k + d],
        decreases p.len() - i,
    {
        if p[i] != t[i + d] {
            assert(t@.subrange(d as int, t@.len() as int)[i as int] == t@[i + d]);
            return false;
        }
        i += 1;
    }
    assert(p@ == t@.subrange(d as int, t@.len() as int));
    true
}

/// `text` without its first `n` characters.
pub fn skip_text(text: &str, n: usize) -> (r: String)
    requires
        n <= text@.len(),
    ensures
        r@ == text@.skip(n as int),
{
    let len = text.unicode_len();
    slice_text(text, n, len)
}

/// Shifting a string to the right by a prefix shifts what `first_at` finds.
pub proof fn lemma_first_at_shift(p: Seq<char>, b: Seq<char>, j: int, c: char)
    requires
        0 <= j <= b.len(),
    ensures
        first_at(p + b, p.len() + j, c) == p.len() + first_at(b, j, c),
    decreases b.len() - j,
{
    let s = p + b;
    if j < b.len() {
        assert(s[p.len() + j] == b[j]);
        if b[j] != c {
            lemma_first_at_shift(p, b, j + 1, c);
        }
    }
}

/// The pieces found past a prefix are the pieces of what follows the prefix.
pub proof fn lemma_split_shift(p: Seq<char>, b: Seq<char>, j: int, sep: char)
    requires
        0 <= j <= b.len(),
    ensures
        split_from(p + b, p.len() + j, sep) == split_from(b, j, sep),
    decreases b.len() - j,
{
    let s = p + b;
    let i = first_at(b, j, sep);
    lemma_first_at_shift(p, b, j, sep);
    lemma_first_at(b, j, sep);
    if i >= b.len() {
        assert(s.subrange(p.len() + j, s.len() as int) =~= b.subrange(j, b.len() as int));
    } else {
        assert(s.subrange(p.len() + j, p.len() + i) =~= b.subrange(j, i));
        lemma_split_shift(p, b, i + 1, sep);
    }
}

/// A string without the separator is one piece.
pub proof fn lemma_split_none(a: Seq<char>, sep: char)
    requires
        !a.contains(sep),
    ensures
        split_on(a, sep) == seq![a],
{
    assert forall|k: int| 0 <= k < a.len() implies a[k] != sep by {
        if a[k] == sep {
            assert(a.contains(sep));
        }
    }
    lemma_first_at_is(a, 0, sep, a.len() as int);
    assert(a.subrange(0, a.len() as int) =~= a);
}

/// Before the first separator stands the first piece; the other pieces are
/// those of what follows it.
pub proof fn lemma_split_prepend(a: Seq<char>, b: Seq<char>, sep: char)
    requires
        !a.contains(sep),
    ensures
        split_on(a + seq![sep] + b, sep) == seq![a] + split_on(b, sep),
{
    let p = a + seq![sep];
    let s = p + b;
    assert forall|k: int| 0 <= k < a.len() implies s[k] != sep by {
        if a[k] == sep {
            assert(a.contains(sep));
        }
    }
    assert(s[a.len() as int] == sep);
    lemma_first_at_is(s, 0, sep, a.len() as int);
    assert(s.subrange(0, a.len() as int) =~= a);
    lemma_split_shift(p, b, 0, sep);
}

/// Trimming leaves alone a string that neither starts nor ends with white space.
pub proof fn lemma_trim_nothing(s: Seq<char>)
    requires
        s.len() > 0 ==> !is_space(s[0]) && !is_space(s.last()),
    ensures
        trim(s) == s,
{
}

/// `line` without one carriage return at its end.
pub open spec fn strip_cr(line: Seq<char>) -> Seq<char> {
    if line.len() > 0 && line.last() == '\r' {
        line.drop_last()
    } else {
        line
    }
}

/// The lines of a text file: the pieces between line feeds, each without a
/// carriage return at its end; a line feed at the very end starts no line.
pub open spec fn file_lines(text: Seq<char>) -> Seq<Seq<char>> {
    let parts = split_on(text, '\n');
    let body = if parts.len() > 0 && parts.last().len() == 0 {
        parts.drop_last()
    } else {
        parts
    };
    Seq::new(body.len(), |i: int| strip_cr(body[i]))
}

pub fn lines_of(text: &str) -> (lines: Vec<String>)
    ensures
        texts(lines@) == file_lines(text@),
{
    let parts = split_text(text, '\n');
    let n: usize = if parts.len() > 0 && parts[parts.len() - 1].as_str().is_empty() {
        assert(texts(parts@).last() == parts@[parts.len() - 1]@);
        parts.len() - 1
    } else {
        if parts.len() > 0 {
            assert(texts(parts@).last() == parts@[parts.len() - 1]@);
        }
        parts.len()
    };
    let ghost body = texts(parts@).subrange(0, n as int);
    assert(n < parts.len() ==> body == texts(parts@).drop_last());
    assert(n == parts.len() ==> body == texts(parts@));
    let mut lines: Vec<String> = Vec::new();
    let mut i: usize = 0;
    while i < n
        invariant
            i <= n <= parts.len(),
            body == texts(parts@).subrange(0, n as int),
            lines@.len() == i,
            forall|k: int| 0 <= k < i ==> (#[trigger] lines@[k])@ == strip_cr(body[k]),
        decreases n - i,
    {
        let cs = chars_of(parts[i].as_str());
        assert(body[i as int] == parts@[i as int]@);
        let line = if cs.len() > 0 && cs[cs.len() - 1] == '\r' {
            slice_text(parts[i].as_str(), 0, cs.len() - 1)
        } else {
            parts[i].clone()
        };
        lines.push(line);
        i += 1;
    }
    assert(texts(lines@) =~= file_lines(text@));
    lines
}

} // verus!
