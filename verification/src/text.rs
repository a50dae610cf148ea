//! Texts as sequences of characters: their fields, their white space and
//! their length in bytes.

use vstd::prelude::*;

verus! {

/// Whether `c` occurs nowhere in `s`.
pub open spec fn free_of(s: Seq<char>, c: char) -> bool {
    forall|i: int| 0 <= i < s.len() ==> #[trigger] s[i] != c
}

/// The fields of `s` between the separators `sep`, in order: one more than
/// there are separators, empty fields included.
pub open spec fn fields(s: Seq<char>, sep: char) -> Seq<Seq<char>>
    decreases s.len(),
{
    if s.len() == 0 {
        seq![Seq::<char>::empty()]
    } else {
        let before = fields(s.drop_last(), sep);
        if s.last() == sep {
            before.push(Seq::<char>::empty())
        } else {
            before.drop_last().push(before.last().push(s.last()))
        }
    }
}

/// The contents of a list of fields.
pub open spec fn field_views(parts: Seq<Vec<char>>) -> Seq<Seq<char>> {
    Seq::new(parts.len(), |i: int| parts[i]@)
}

/// The characters of `text`.
pub fn chars_of(text: &str) -> (chars: Vec<char>)
    ensures
        chars@ == text@,
{
    let mut chars: Vec<char> = Vec::new();
    for c in it: text.chars()
        invariant
            it.seq() == text@,
            chars@ == text@.take(it.index() as int),
    {
        chars.push(c);
    }
    chars
}

/// The fields of `chars` between the separators `sep`.
pub fn split_fields(chars: &Vec<char>, sep: char) -> (parts: Vec<Vec<char>>)
    ensures
        field_views(parts@) == fields(chars@, sep),
{
    let mut parts: Vec<Vec<char>> = Vec::new();
    let mut current: Vec<char> = Vec::new();
    let mut i: usize = 0;
    while i < chars.len()
        invariant
            i <= chars.len(),
            field_views(parts@).push(current@) == fields(chars@.take(i as int), sep),
        decreases chars.len() - i,
    {
        assert(chars@.take(i as int + 1).drop_last() =~= chars@.take(i as int));
        let c: char = chars[i];
        if c == sep {
            parts.push(current);
            current = Vec::new();
        } else {
            current.push(c);
        }
        i += 1;
    }
    assert(chars@.take(chars.len() as int) =~= chars@);
    parts.push(current);
    parts
}

/// Whether `c` is white space: one of the characters that Unicode gives
/// the property White_Space.
pub open spec fn is_space(c: char) -> bool {
    ||| '\u{9}' <= c <= '\u{d}'
    ||| c == ' '
    ||| c == '\u{85}'
    ||| c == '\u{a0}'
    ||| c == '\u{1680}'
    ||| '\u{2000}' <= c <= '\u{200a}'
    ||| c == '\u{2028}'
    ||| c == '\u{2029}'
    ||| c == '\u{202f}'
    ||| c == '\u{205f}'
    ||| c == '\u{3000}'
}

/// Whether `s` holds nothing but white space.
pub open spec fn blank(s: Seq<char>) -> bool {
    forall|i: int| 0 <= i < s.len() ==> is_space(#[trigger] s[i])
}

/// `s` without the white space at its beginning.
pub open spec fn trim_start(s: Seq<char>) -> Seq<char>
    decreases s.len(),
{
    if s.len() > 0 && is_space(s[0]) {
        trim_start(s.skip(1))
    } else {
        s
    }
}

/// `s` without the white space at its end.
pub open spec fn trim_end(s: Seq<char>) -> Seq<char>
    decreases s.len(),
{
    if s.len() > 0 && is_space(s.last()) {
        trim_end(s.drop_last())
    } else {
        s
    }
}

/// `s` without the white space at its beginning and at its end.
pub open spec fn trimmed_text(s: Seq<char>) -> Seq<char> {
    trim_end(trim_start(s))
}

/// The number of bytes that `c` takes in UTF-8.
pub open spec fn utf8_width(c: char) -> int {
    if c <= '\u{7f}' {
        1
    } else if c <= '\u{7ff}' {
        2
    } else if c <= '\u{ffff}' {
        3
    } else {
        4
    }
}

/// The number of bytes that `s` takes in UTF-8.
pub open spec fn utf8_len(s: Seq<char>) -> int
    decreases s.len(),
{
    if s.len() == 0 {
        0
    } else {
        utf8_len(s.drop_last()) + utf8_width(s.last())
    }
}

/// Whether `c` is white space.
pub fn is_space_char(c: char) -> (space: bool)
    ensures
        space == is_space(c),
{
    ('\u{9}' <= c && c <= '\u{d}') || c == ' ' || c == '\u{85}' || c == '\u{a0}' || c == '\u{1680}'
        || ('\u{2000}' <= c && c <= '\u{200a}') || c == '\u{2028}' || c == '\u{2029}' || c
        == '\u{202f}' || c == '\u{205f}' || c == '\u{3000}'
}

/// The number of bytes that `c` takes in UTF-8.
pub fn utf8_width_of(c: char) -> (width: u8)
    ensures
        width == utf8_width(c),
{
    if c <= '\u{7f}' {
        1
    } else if c <= '\u{7ff}' {
        2
    } else if c <= '\u{ffff}' {
        3
    } else {
        4
    }
}

/// `chars` without the white space at its beginning and at its end.
pub fn trim_chars(chars: &Vec<char>) -> (trimmed: Vec<char>)
    ensures
        trimmed@ == trimmed_text(chars@),
{
    let n: usize = chars.len();
    let mut lo: usize = 0;
    assert(chars@.skip(0) =~= chars@);
    while lo < n && is_space_char(chars[lo])
        invariant
            lo <= n == chars.len(),
            trim_start(chars@) == trim_start(chars@.skip(lo as int)),
        decreases n - lo,
    {
        assert(chars@.skip(lo as int).skip(1) =~= chars@.skip(lo as int + 1));
        lo += 1;
    }
    let mut hi: usize = n;
    while hi > lo && is_space_char(chars[hi - 1])
        invariant
            lo <= hi <= n == chars.len(),
            trimmed_text(chars@) == trim_end(chars@.subrange(lo as int, hi as int)),
        decreases hi - lo,
    {
        assert(chars@.subrange(lo as int, hi as int).drop_last() =~= chars@.subrange(
            lo as int,
            hi as int - 1,
        ));
        hi -= 1;
    }
    let mut trimmed: Vec<char> = Vec::new();
    let mut i: usize = lo;
    while i < hi
        invariant
            lo <= i <= hi <= chars.len(),
            trimmed@ == chars@.subrange(lo as int, i as int),
        decreases hi - i,
    {
        trimmed.push(chars[i]);
        i += 1;
    }
    trimmed
}

/// A text always has at least one field.
pub proof fn lemma_fields_nonempty(s: Seq<char>, sep: char)
    ensures
        fields(s, sep).len() >= 1,
    decreases s.len(),
{
    if s.len() > 0 {
        lemma_fields_nonempty(s.drop_last(), sep);
    }
}

/// Text without a separator, put after `s`, lengthens the last field of `s`.
pub proof fn lemma_fields_append(s: Seq<char>, t: Seq<char>, sep: char)
    requires
        free_of(t, sep),
    ensures
        fields(s, sep).len() >= 1,
        fields(s + t, sep) == fields(s, sep).drop_last().push(fields(s, sep).last() + t),
    decreases t.len(),
{
    lemma_fields_nonempty(s, sep);
    let f = fields(s, sep);
    if t.len() > 0 {
        let shorter = t.drop_last();
        lemma_fields_append(s, shorter, sep);
        assert((s + t).drop_last() =~= s + shorter);
        assert(fields(s + shorter, sep).last().push(t.last()) =~= f.last() + t);
    }
}

/// A separator after `s` opens a new, empty field.
pub proof fn lemma_fields_separator(s: Seq<char>, sep: char)
    ensures
        fields(s + seq![sep], sep) == fields(s, sep).push(Seq::<char>::empty()),
{
    assert((s + seq![sep]).drop_last() =~= s);
}

/// Three texts without the separator, joined by it, are the three fields of
/// what they make.
pub proof fn lemma_fields_of_three(a: Seq<char>, b: Seq<char>, c: Seq<char>, sep: char)
    requires
        free_of(a, sep),
        free_of(b, sep),
        free_of(c, sep),
    ensures
        fields(a + seq![sep] + b + seq![sep] + c, sep) == seq![a, b, c],
{
    let empty = Seq::<char>::empty();
    lemma_fields_append(empty, a, sep);
    lemma_fields_separator(a, sep);
    lemma_fields_append(a + seq![sep], b, sep);
    lemma_fields_separator(a + seq![sep] + b, sep);
    lemma_fields_append(a + seq![sep] + b + seq![sep], c, sep);
}

/// A text without the separator is its own single field.
pub proof fn lemma_fields_of_one(s: Seq<char>, sep: char)
    requires
        free_of(s, sep),
    ensures
        fields(s, sep) == seq![s],
{
    let empty = Seq::<char>::empty();
    lemma_fields_append(empty, s, sep);
}

/// Where a character of `s` is no white space, trimming the end of `s`
/// leaves a beginning of `s` that reaches beyond that character.
pub proof fn lemma_trim_end_keeps(s: Seq<char>, k: int)
    requires
        0 <= k < s.len(),
        !is_space(s[k]),
    ensures
        k < trim_end(s).len() <= s.len(),
        trim_end(s) == s.take(trim_end(s).len() as int),
    decreases s.len(),
{
    if is_space(s.last()) {
        let shorter = s.drop_last();
        lemma_trim_end_keeps(shorter, k);
        assert(shorter.take(trim_end(shorter).len() as int) =~= s.take(
            trim_end(shorter).len() as int,
        ));
    }
}

/// A text of `n` characters of one byte each takes `n` bytes.
pub proof fn lemma_utf8_len_of_narrow(s: Seq<char>)
    requires
        narrow(s),
    ensures
        utf8_len(s) == s.len(),
    decreases s.len(),
{
    if s.len() > 0 {
        lemma_utf8_len_of_narrow(s.drop_last());
    }
}

/// Whether every character of `s` takes one byte.
pub open spec fn narrow(s: Seq<char>) -> bool {
    forall|i: int| 0 <= i < s.len() ==> utf8_width(#[trigger] s[i]) == 1
}

/// The fields of a text of one-byte characters are such texts.
pub proof fn lemma_fields_of_narrow(s: Seq<char>, sep: char, i: int)
    requires
        narrow(s),
        0 <= i < fields(s, sep).len(),
    ensures
        narrow(fields(s, sep)[i]),
    decreases s.len(),
{
    if s.len() > 0 {
        let shorter = s.drop_last();
        let before = fields(shorter, sep);
        lemma_fields_nonempty(shorter, sep);
        if i < before.len() - 1 {
            lemma_fields_of_narrow(shorter, sep, i);
        } else if s.last() != sep {
            lemma_fields_of_narrow(shorter, sep, before.len() - 1);
        } else if i < before.len() {
            lemma_fields_of_narrow(shorter, sep, i);
        }
    }
}

/// A text of one-byte characters is one when trimmed.
pub proof fn lemma_trimmed_narrow(s: Seq<char>)
    requires
        narrow(s),
    ensures
        narrow(trim_start(s)),
        narrow(trim_end(s)),
        narrow(trimmed_text(s)),
{
    lemma_trim_start_narrow(s);
    lemma_trim_end_narrow(trim_start(s));
    lemma_trim_end_narrow(s);
}

/// A text of one-byte characters is one without the white space at its
/// beginning.
pub proof fn lemma_trim_start_narrow(s: Seq<char>)
    requires
        narrow(s),
    ensures
        narrow(trim_start(s)),
    decreases s.len(),
{
    if s.len() > 0 && is_space(s[0]) {
        lemma_trim_start_narrow(s.skip(1));
    }
}

/// A text of one-byte characters is one without the white space at its end.
pub proof fn lemma_trim_end_narrow(s: Seq<char>)
    requires
        narrow(s),
    ensures
        narrow(trim_end(s)),
    decreases s.len(),
{
    if s.len() > 0 && is_space(s.last()) {
        lemma_trim_end_narrow(s.drop_last());
    }
}

} // verus!
