//! Character classes and the conversions between strings and character
//! sequences that the rest of the crate works on.

use vstd::prelude::*;
use vstd::slice::slice_subrange;

verus! {

broadcast use vstd::string::group_string_axioms;

/// The characters that trimming removes: those that Unicode classes as white
/// space.
pub open spec fn is_space(c: char) -> bool {
    let n = c as u32;
    ||| 0x09 <= n <= 0x0D
    ||| n == 0x20
    ||| n == 0x85
    ||| n == 0xA0
    ||| n == 0x1680
    ||| 0x2000 <= n <= 0x200A
    ||| n == 0x2028
    ||| n == 0x2029
    ||| n == 0x202F
    ||| n == 0x205F
    ||| n == 0x3000
}

/// The characters that separate constraint literals: space, tab, line feed,
/// form feed and carriage return.
pub open spec fn is_ascii_space(c: char) -> bool {
    let n = c as u32;
    n == 0x20 || n == 0x09 || n == 0x0A || n == 0x0C || n == 0x0D
}

/// Decides `is_space`.
pub fn char_is_space(c: char) -> (b: bool)
    ensures
        b == is_space(c),
{
    let n: u32 = c as u32;
    (0x09 <= n && n <= 0x0D) || n == 0x20 || n == 0x85 || n == 0xA0 || n == 0x1680 || (0x2000 <= n
        && n <= 0x200A) || n == 0x2028 || n == 0x2029 || n == 0x202F || n == 0x205F || n == 0x3000
}

/// Decides `is_ascii_space`.
pub fn char_is_ascii_space(c: char) -> (b: bool)
    ensures
        b == is_ascii_space(c),
{
    let n: u32 = c as u32;
    n == 0x20 || n == 0x09 || n == 0x0A || n == 0x0C || n == 0x0D
}

/// `String::push` appends one character to the end of the string.
pub assume_specification[ String::push ](s: &mut String, c: char)
    ensures
        final(s)@ == old(s)@.push(c),
;

/// The characters of `s`, in order.
pub fn str_to_chars(s: &str) -> (v: Vec<char>)
    ensures
        v@ == s@,
{
    let mut v: Vec<char> = Vec::new();
    for c in it: s.chars()
        invariant
            it.seq() == s@,
            v@ =~= s@.take(it.index()),
    {
        v.push(c);
    }
    v
}

/// The string made of the characters of `s`, in order.
pub fn chars_to_string(s: &[char]) -> (r: String)
    ensures
        r@ == s@,
{
    let mut r = String::new();
    let mut i: usize = 0;
    while i < s.len()
        invariant
            i <= s.len(),
            r@ =~= s@.take(i as int),
        decreases s.len() - i,
    {
        r.push(s[i]);
        i += 1;
    }
    r
}

/// `s` without its leading white space.
pub open spec fn trim_start(s: Seq<char>) -> Seq<char>
    decreases s.len(),
{
    if s.len() > 0 && is_space(s[0]) {
        trim_start(s.drop_first())
    } else {
        s
    }
}

/// `s` without its trailing white space.
pub open spec fn trim_end(s: Seq<char>) -> Seq<char>
    decreases s.len(),
{
    if s.len() > 0 && is_space(s.last()) {
        trim_end(s.drop_last())
    } else {
        s
    }
}

/// `s` without its leading and trailing white space.
pub open spec fn trim(s: Seq<char>) -> Seq<char> {
    trim_end(trim_start(s))
}

/// The position of the first `c` in `s`, or the length of `s` if there is
/// none.
pub open spec fn find_char(s: Seq<char>, c: char) -> nat
    decreases s.len(),
{
    if s.len() == 0 || s[0] == c {
        0
    } else {
        1 + find_char(s.drop_first(), c)
    }
}

/// Whether `=>` starts at position `i` of `s`.
pub open spec fn arrow_at(s: Seq<char>, i: int) -> bool {
    0 <= i && i + 1 < s.len() && s[i] == '=' && s[i + 1] == '>'
}

/// The position of the first `=>` in `s`, or the length of `s` if there is
/// none.
pub open spec fn find_arrow(s: Seq<char>) -> nat
    decreases s.len(),
{
    if s.len() == 0 {
        0
    } else if arrow_at(s, 0) {
        0
    } else {
        1 + find_arrow(s.drop_first())
    }
}

/// The pieces of `s` between the occurrences of `sep`. There is always at
/// least one piece, and a piece may be empty.
pub open spec fn split(s: Seq<char>, sep: char) -> Seq<Seq<char>>
    decreases s.len(),
{
    let i = find_char(s, sep);
    if i >= s.len() {
        seq![s]
    } else {
        seq![s.take(i as int)] + split(s.skip(i as int + 1), sep)
    }
}

/// The length of the longest prefix of `s` that holds no ASCII white space.
pub open spec fn word_len(s: Seq<char>) -> nat
    decreases s.len(),
{
    if s.len() == 0 || is_ascii_space(s[0]) {
        0
    } else {
        1 + word_len(s.drop_first())
    }
}

/// The maximal runs of characters of `s` that hold no ASCII white space, in
/// order. None of them is empty.
pub open spec fn words(s: Seq<char>) -> Seq<Seq<char>>
    decreases s.len(),
    via words_decreases
{
    if s.len() == 0 {
        Seq::empty()
    } else if is_ascii_space(s[0]) {
        words(s.drop_first())
    } else {
        let n = word_len(s) as int;
        seq![s.take(n)] + words(s.skip(n))
    }
}

#[via_fn]
proof fn words_decreases(s: Seq<char>) {
    if s.len() > 0 && !is_ascii_space(s[0]) {
        lemma_word_len(s);
    }
}

/// The lower-case form of an ASCII capital, any other character unchanged.
pub open spec fn lower_char(c: char) -> char {
    if 'A' <= c <= 'Z' {
        ((c as u8) + 32) as char
    } else {
        c
    }
}

/// `s` with each ASCII capital replaced by its lower-case form.
pub open spec fn lower(s: Seq<char>) -> Seq<char> {
    Seq::new(s.len(), |i: int| lower_char(s[i]))
}

/// The views of a sequence of slices.
pub open spec fn slice_views(v: Seq<&[char]>) -> Seq<Seq<char>> {
    Seq::new(v.len(), |i: int| v[i]@)
}

/// `find_char` yields the least position that holds `c`.
pub proof fn lemma_find_char(s: Seq<char>, c: char)
    ensures
        find_char(s, c) <= s.len(),
        find_char(s, c) < s.len() ==> s[find_char(s, c) as int] == c,
        forall|j: int| 0 <= j < find_char(s, c) ==> s[j] != c,
    decreases s.len(),
{
    if s.len() == 0 || s[0] == c {
    } else {
        let t = s.drop_first();
        lemma_find_char(t, c);
        assert forall|j: int| 0 <= j < find_char(s, c) implies s[j] != c by {
            if j > 0 {
                assert(s[j] == t[j - 1]);
            }
        }
    }
}

/// A position that holds `c`, or the end, with no `c` before it is the one
/// `find_char` yields.
pub proof fn lemma_find_char_is(s: Seq<char>, c: char, i: int)
    requires
        0 <= i <= s.len(),
        i < s.len() ==> s[i] == c,
        forall|j: int| 0 <= j < i ==> s[j] != c,
    ensures
        find_char(s, c) == i,
{
    lemma_find_char(s, c);
    let k = find_char(s, c) as int;
    if k < i {
        assert(s[k] == c);
    }
}

/// `find_arrow` yields the least position where `=>` starts.
pub proof fn lemma_find_arrow(s: Seq<char>)
    ensures
        find_arrow(s) <= s.len(),
        find_arrow(s) < s.len() ==> arrow_at(s, find_arrow(s) as int),
        forall|j: int| 0 <= j < find_arrow(s) ==> !arrow_at(s, j),
    decreases s.len(),
{
    if s.len() == 0 || arrow_at(s, 0) {
    } else {
        let t = s.drop_first();
        lemma_find_arrow(t);
        assert(find_arrow(t) < t.len() ==> arrow_at(t, find_arrow(t) as int));
        assert forall|j: int| 0 <= j < find_arrow(s) implies !arrow_at(s, j) by {
            if j > 0 {
                assert(!arrow_at(t, j - 1));
            }
        }
    }
}

/// A position where `=>` starts, or the end, with no `=>` starting before it
/// is the one `find_arrow` yields.
pub proof fn lemma_find_arrow_is(s: Seq<char>, i: int)
    requires
        0 <= i <= s.len(),
        i < s.len() ==> arrow_at(s, i),
        forall|j: int| 0 <= j < i ==> !arrow_at(s, j),
    ensures
        find_arrow(s) == i,
{
    lemma_find_arrow(s);
    let k = find_arrow(s) as int;
    if k < i {
        assert(arrow_at(s, k));
    }
}

/// A text without `sep` is its own single piece.
pub proof fn lemma_split_single(a: Seq<char>, sep: char)
    requires
        forall|j: int| 0 <= j < a.len() ==> a[j] != sep,
    ensures
        split(a, sep) == seq![a],
{
    lemma_find_char_is(a, sep, a.len() as int);
}

/// The first piece of a text ends at its first `sep`, and the other pieces
/// are those of what follows it.
pub proof fn lemma_split_first(a: Seq<char>, rest: Seq<char>, sep: char)
    requires
        forall|j: int| 0 <= j < a.len() ==> a[j] != sep,
    ensures
        split(a + seq![sep] + rest, sep) == seq![a] + split(rest, sep),
{
    let s = a + seq![sep] + rest;
    lemma_find_char_is(s, sep, a.len() as int);
    assert(s.take(a.len() as int) =~= a);
    assert(s.skip(a.len() as int + 1) =~= rest);
}

/// Removes leading and trailing white space.
pub fn trim_chars(s: &[char]) -> (r: &[char])
    ensures
        r@ == trim(s@),
{
    let n = s.len();
    let mut lo: usize = 0;
    assert(s@.subrange(0, n as int) =~= s@);
    while lo < n && char_is_space(s[lo])
        invariant
            lo <= n,
            n == s@.len(),
            trim_start(s@) == trim_start(s@.subrange(lo as int, n as int)),
        decreases n - lo,
    {
        assert(s@.subrange(lo as int, n as int).drop_first() =~= s@.subrange(lo + 1, n as int));
        lo += 1;
    }
    let mut hi: usize = n;
    while hi > lo && char_is_space(s[hi - 1])
        invariant
            lo <= hi <= n,
            n == s@.len(),
            trim(s@) == trim_end(s@.subrange(lo as int, hi as int)),
        decreases hi,
    {
        assert(s@.subrange(lo as int, hi as int).drop_last() =~= s@.subrange(lo as int, hi - 1));
        hi -= 1;
    }
    slice_subrange(s, lo, hi)
}

/// Finds the first `c`.
pub fn index_of(s: &[char], c: char) -> (i: usize)
    ensures
        i == find_char(s@, c),
        i <= s@.len(),
{
    let mut i: usize = 0;
    while i < s.len() && s[i] != c
        invariant
            i <= s.len(),
            forall|j: int| 0 <= j < i ==> s@[j] != c,
        decreases s.len() - i,
    {
        i += 1;
    }
    proof {
        lemma_find_char_is(s@, c, i as int);
    }
    i
}

/// Finds the first `=>`.
pub fn index_of_arrow(s: &[char]) -> (i: usize)
    ensures
        i == find_arrow(s@),
        i <= s@.len(),
        i < s@.len() ==> i + 2 <= s@.len(),
{
    let n = s.len();
    let mut i: usize = 0;
    while i < n && !(n - i >= 2 && s[i] == '=' && s[i + 1] == '>')
        invariant
            n == s@.len(),
            i <= n,
            forall|j: int| 0 <= j < i ==> !arrow_at(s@, j),
        decreases n - i,
    {
        i += 1;
    }
    proof {
        lemma_find_arrow_is(s@, i as int);
    }
    i
}

/// Splits at every `sep`.
pub fn split_chars<'a>(s: &'a [char], sep: char) -> (r: Vec<&'a [char]>)
    ensures
        slice_views(r@) == split(s@, sep),
{
    let mut out: Vec<&'a [char]> = Vec::new();
    let mut rest: &'a [char] = s;
    assert(slice_views(out@) + split(rest@, sep) =~= split(s@, sep));
    loop
        invariant_except_break
            split(s@, sep) == slice_views(out@) + split(rest@, sep),
        ensures
            slice_views(out@) == split(s@, sep),
        decreases rest@.len(),
    {
        let i = index_of(rest, sep);
        if i >= rest.len() {
            proof {
                assert(slice_views(out@.push(rest)) =~= slice_views(out@) + seq![rest@]);
            }
            out.push(rest);
            break ;
        }
        let piece = slice_subrange(rest, 0, i);
        let tail = slice_subrange(rest, i + 1, rest.len());
        proof {
            assert(slice_views(out@.push(piece)) =~= slice_views(out@) + seq![piece@]);
            assert(piece@ == rest@.take(i as int));
            assert(tail@ == rest@.skip(i + 1));
            assert(slice_views(out@) + split(rest@, sep) =~= slice_views(out@.push(piece)) + split(
                tail@,
                sep,
            ));
        }
        out.push(piece);
        rest = tail;
    }
    out
}

/// `word_len` yields the least position that holds ASCII white space.
pub proof fn lemma_word_len(s: Seq<char>)
    ensures
        word_len(s) <= s.len(),
        word_len(s) < s.len() ==> is_ascii_space(s[word_len(s) as int]),
        forall|j: int| 0 <= j < word_len(s) ==> !is_ascii_space(s[j]),
    decreases s.len(),
{
    if s.len() == 0 || is_ascii_space(s[0]) {
    } else {
        let t = s.drop_first();
        lemma_word_len(t);
        assert forall|j: int| 0 <= j < word_len(s) implies !is_ascii_space(s[j]) by {
            if j > 0 {
                assert(s[j] == t[j - 1]);
            }
        }
    }
}

/// A position that holds ASCII white space, or the end, with none before it
/// is the one `word_len` yields.
pub proof fn lemma_word_len_is(s: Seq<char>, i: int)
    requires
        0 <= i <= s.len(),
        i < s.len() ==> is_ascii_space(s[i]),
        forall|j: int| 0 <= j < i ==> !is_ascii_space(s[j]),
    ensures
        word_len(s) == i,
{
    lemma_word_len(s);
    let k = word_len(s) as int;
    if k < i {
        assert(is_ascii_space(s[k]));
    }
}

/// Splits at ASCII white space, dropping empty pieces.
pub fn split_words<'a>(s: &'a [char]) -> (r: Vec<&'a [char]>)
    ensures
        slice_views(r@) == words(s@),
{
    let n = s.len();
    let mut out: Vec<&'a [char]> = Vec::new();
    let mut pos: usize = 0;
    assert(s@.skip(0) =~= s@);
    assert(slice_views(out@) + words(s@) =~= words(s@));
    while pos < n
        invariant
            n == s@.len(),
            pos <= n,
            words(s@) == slice_views(out@) + words(s@.skip(pos as int)),
        decreases n - pos,
    {
        let ghost rest = s@.skip(pos as int);
        if char_is_ascii_space(s[pos]) {
            assert(rest.drop_first() =~= s@.skip(pos + 1));
            pos += 1;
        } else {
            let mut end: usize = pos + 1;
            while end < n && !char_is_ascii_space(s[end])
                invariant
                    n == s@.len(),
                    pos < end <= n,
                    forall|j: int| pos <= j < end ==> !is_ascii_space(s@[j]),
                decreases n - end,
            {
                end += 1;
            }
            let piece = slice_subrange(s, pos, end);
            proof {
                lemma_word_len_is(rest, end - pos);
                assert(piece@ =~= rest.take(end - pos));
                assert(rest.skip(end - pos) =~= s@.skip(end as int));
                assert(slice_views(out@.push(piece)) =~= slice_views(out@) + seq![piece@]);
                assert(slice_views(out@) + words(rest) =~= slice_views(out@.push(piece)) + words(
                    s@.skip(end as int),
                ));
            }
            out.push(piece);
            pos = end;
        }
    }
    assert(slice_views(out@) + words(s@.skip(pos as int)) =~= slice_views(out@));
    out
}

/// Computes `lower_char`.
pub fn to_lower(c: char) -> (r: char)
    ensures
        r == lower_char(c),
{
    if 'A' <= c && c <= 'Z' {
        ((c as u8) + 32) as char
    } else {
        c
    }
}

/// Whether `s`, with ASCII capitals lowered, reads `word`.
pub fn eq_ignore_case(s: &[char], word: &str) -> (b: bool)
    ensures
        b == (lower(s@) == word@),
{
    let n = word.unicode_len();
    if s.len() != n {
        return false;
    }
    let mut i: usize = 0;
    while i < n
        invariant
            n == s@.len(),
            n == word@.len(),
            i <= n,
            forall|j: int| 0 <= j < i ==> lower_char(s@[j]) == word@[j],
        decreases n - i,
    {
        if to_lower(s[i]) != word.get_char(i) {
            assert(lower(s@)[i as int] != word@[i as int]);
            return false;
        }
        i += 1;
    }
    assert(lower(s@) =~= word@);
    true
}

/// Whether `s` begins with `word`.
pub fn has_prefix(s: &[char], word: &str) -> (b: bool)
    ensures
        b == word@.is_prefix_of(s@),
{
    let n = word.unicode_len();
    if s.len() < n {
        return false;
    }
    let mut i: usize = 0;
    while i < n
        invariant
            n <= s@.len(),
            n == word@.len(),
            i <= n,
            forall|j: int| 0 <= j < i ==> s@[j] == word@[j],
        decreases n - i,
    {
        if s[i] != word.get_char(i) {
            assert(s@.subrange(0, n as int)[i as int] != word@[i as int]);
            return false;
        }
        i += 1;
    }
    assert(s@.subrange(0, n as int) =~= word@);
    true
}

} // verus!
