//! Character-level helpers: conversions between strings and character
//! vectors, line splitting, tokenizing and substring search.
//!
//! Every executable function here is specified against a spec function over
//! `Seq<char>`, the view shared by `str`, `String` and `Vec<char>`.

use crate::views::{lemma_view_all_empty, lemma_view_all_push, view_all};
use vstd::prelude::*;

verus! {

/// `String::push` appends one character at the end of the string.
pub assume_specification[ String::push ](s: &mut String, c: char)
    ensures
        final(s)@ == old(s)@.push(c),
;

/// The Unicode `White_Space` property, which is what `char::is_whitespace`
/// tests.
pub open spec fn is_space(c: char) -> bool {
    let n = c as u32;
    ||| 0x09 <= n <= 0x0D
    ||| n == 0x20
    ||| n == 0x85
    ||| n == 0xA0
    ||| n == 0x1680
    ||| 0x2000 <= n <= 0x200A
    ||| n == 0x2028
    ||| n == 0x2029
    ||| n == 0x202F
    ||| n == 0x205F
    ||| n == 0x3000
}

/// Tests whether `c` is white space.
pub fn is_whitespace(c: char) -> (r: bool)
    ensures
        r == is_space(c),
{
    let n: u32 = c as u32;
    (0x09 <= n && n <= 0x0D) || n == 0x20 || n == 0x85 || n == 0xA0 || n == 0x1680 || (0x2000 <= n
        && n <= 0x200A) || n == 0x2028 || n == 0x2029 || n == 0x202F || n == 0x205F || n == 0x3000
}

/// Copies the characters of `s` into a vector.
pub fn to_chars(s: &str) -> (out: Vec<char>)
    ensures
        out@ == s@,
{
    let mut out: Vec<char> = Vec::new();
    for c in it: s.chars()
        invariant
            out@ == it.seq().take(it.index() as int),
            it.seq() == s@,
    {
        out.push(c);
    }
    out
}

/// Builds a string from characters.
pub fn to_text(chars: &[char]) -> (out: String)
    ensures
        out@ == chars@,
{
    let mut out = String::new();
    let mut i: usize = 0;
    while i < chars.len()
        invariant
            i <= chars.len(),
            out@ == chars@.take(i as int),
        decreases chars.len() - i,
    {
        out.push(chars[i]);
        i += 1;
        assert(chars@.take(i as int) == chars@.take(i - 1).push(chars@[i - 1]));
    }
    assert(chars@.take(i as int) == chars@);
    out
}

/// Copies `s[from..to]`.
pub fn copy_range(s: &[char], from: usize, to: usize) -> (out: Vec<char>)
    requires
        from <= to <= s.len(),
    ensures
        out@ == s@.subrange(from as int, to as int),
{
    let mut out: Vec<char> = Vec::new();
    let mut i: usize = from;
    while i < to
        invariant
            from <= i <= to <= s.len(),
            out@ == s@.subrange(from as int, i as int),
        decreases to - i,
    {
        out.push(s[i]);
        i += 1;
        assert(s@.subrange(from as int, i as int) == s@.subrange(from as int, i - 1).push(
            s@[i - 1],
        ));
    }
    out
}

/// Tests whether the slice spells the given word.
pub fn is_word(a: &[char], word: &str) -> (r: bool)
    ensures
        r == (a@ == word@),
{
    let mut i: usize = 0;
    for c in it: word.chars()
        invariant
            it.seq() == word@,
            i == it.index(),
            i <= a.len(),
            a@.take(i as int) == word@.take(i as int),
    {
        if i >= a.len() || a[i] != c {
            return false;
        }
        i += 1;
        assert(a@.take(i as int) == a@.take(i - 1).push(a@[i - 1]));
        assert(word@.take(i as int) == word@.take(i - 1).push(word@[i - 1]));
    }
    assert(word@.take(i as int) == word@);
    assert(a@.take(a@.len() as int) == a@);
    i == a.len()
}

/// Index of the first `c` in `s`, or the length of `s` where there is none.
pub open spec fn first_index(s: Seq<char>, c: char) -> nat
    decreases s.len(),
{
    if s.len() == 0 || s[0] == c {
        0
    } else {
        1 + first_index(s.drop_first(), c)
    }
}

/// `first_index` is the position before which no `c` stands and at which
/// one does, or the sequence ends.
pub proof fn lemma_first_index(s: Seq<char>, c: char, n: int)
    requires
        0 <= n <= s.len(),
        forall|k: int| 0 <= k < n ==> s[k] != c,
        n < s.len() ==> s[n] == c,
    ensures
        first_index(s, c) == n,
    decreases n,
{
    if n > 0 {
        let t = s.drop_first();
        assert forall|k: int| 0 <= k < n - 1 implies t[k] != c by {
            assert(t[k] == s[k + 1]);
        }
        lemma_first_index(t, c, n - 1);
    }
}

/// The pieces of `s` between occurrences of `sep`; always at least one.
pub open spec fn fields_of(s: Seq<char>, sep: char) -> Seq<Seq<char>>
    decreases s.len(),
{
    let n = first_index(s, sep);
    if n < s.len() {
        seq![s.take(n as int)] + fields_of(s.skip(n as int + 1), sep)
    } else {
        seq![s]
    }
}

/// Splits `s` at every `sep`.
pub fn fields(s: &[char], sep: char) -> (out: Vec<Vec<char>>)
    ensures
        view_all(out@) == fields_of(s@, sep),
{
    let mut out: Vec<Vec<char>> = Vec::new();
    let mut start: usize = 0;
    let mut i: usize = 0;
    assert(s@.skip(0) == s@);
    proof {
        lemma_view_all_empty(out@);
    }
    while i < s.len()
        invariant
            start <= i <= s.len(),
            forall|k: int| start <= k < i ==> s@[k] != sep,
            fields_of(s@, sep) == view_all(out@) + fields_of(s@.skip(start as int), sep),
        decreases s.len() - i,
    {
        if s[i] == sep {
            let piece = copy_range(s, start, i);
            proof {
                let rest = s@.skip(start as int);
                lemma_first_index(rest, sep, i - start);
                lemma_view_all_push(out@, piece);
                assert(rest.take(i - start) == piece@);
                assert(rest.skip(i - start + 1) == s@.skip(i + 1));
            }
            out.push(piece);
            start = i + 1;
        }
        i += 1;
    }
    let piece = copy_range(s, start, s.len());
    proof {
        let rest = s@.skip(start as int);
        lemma_first_index(rest, sep, s.len() - start);
        lemma_view_all_push(out@, piece);
        assert(rest == piece@);
    }
    out.push(piece);
    out
}

/// `s` without one trailing carriage return.
pub open spec fn strip_cr(s: Seq<char>) -> Seq<char> {
    if s.len() > 0 && s.last() == '\r' {
        s.drop_last()
    } else {
        s
    }
}

/// The lines of `s`: the text between line feeds, each without the carriage
/// return that stood before its line feed. A last line needs no line feed,
/// and an empty rest after the last line feed is no line.
pub open spec fn lines_of(s: Seq<char>) -> Seq<Seq<char>>
    decreases s.len(),
{
    let n = first_index(s, '\n');
    if n < s.len() {
        seq![strip_cr(s.take(n as int))] + lines_of(s.skip(n as int + 1))
    } else if s.len() == 0 {
        Seq::empty()
    } else {
        seq![s]
    }
}

/// Splits `s` into lines.
pub fn lines(s: &[char]) -> (out: Vec<Vec<char>>)
    ensures
        view_all(out@) == lines_of(s@),
{
    let mut out: Vec<Vec<char>> = Vec::new();
    let mut start: usize = 0;
    let mut i: usize = 0;
    assert(s@.skip(0) == s@);
    proof {
        lemma_view_all_empty(out@);
    }
    while i < s.len()
        invariant
            start <= i <= s.len(),
            forall|k: int| start <= k < i ==> s@[k] != '\n',
            lines_of(s@) == view_all(out@) + lines_of(s@.skip(start as int)),
        decreases s.len() - i,
    {
        if s[i] == '\n' {
            let end = if start < i && s[i - 1] == '\r' {
                i - 1
            } else {
                i
            };
            let piece = copy_range(s, start, end);
            proof {
                let rest = s@.skip(start as int);
                lemma_first_index(rest, '\n', i - start);
                lemma_view_all_push(out@, piece);
                assert(strip_cr(rest.take(i - start)) == piece@);
                assert(rest.skip(i - start + 1) == s@.skip(i + 1));
            }
            out.push(piece);
            start = i + 1;
        }
        i += 1;
    }
    proof {
        lemma_first_index(s@.skip(start as int), '\n', s.len() - start);
    }
    if start < s.len() {
        let piece = copy_range(s, start, s.len());
        proof {
            lemma_view_all_push(out@, piece);
            assert(s@.skip(start as int) == piece@);
        }
        out.push(piece);
    }
    out
}

/// Number of characters at the start of `s` before the first white space.
pub open spec fn word_len(s: Seq<char>) -> nat
    decreases s.len(),
{
    if s.len() == 0 || is_space(s[0]) {
        0
    } else {
        1 + word_len(s.drop_first())
    }
}

/// `word_len` is the position before which no white space stands and at
/// which some does, or the sequence ends.
pub proof fn lemma_word_len(s: Seq<char>, n: int)
    requires
        0 <= n <= s.len(),
        forall|k: int| 0 <= k < n ==> !is_space(s[k]),
        n < s.len() ==> is_space(s[n]),
    ensures
        word_len(s) == n,
    decreases n,
{
    if n > 0 {
        let t = s.drop_first();
        assert forall|k: int| 0 <= k < n - 1 implies !is_space(t[k]) by {
            assert(t[k] == s[k + 1]);
        }
        lemma_word_len(t, n - 1);
    }
}

/// A word never runs past the end of its text.
pub proof fn lemma_word_len_bound(s: Seq<char>)
    ensures
        word_len(s) <= s.len(),
    decreases s.len(),
{
    if s.len() > 0 && !is_space(s[0]) {
        lemma_word_len_bound(s.drop_first());
    }
}

/// The words of `s`: its maximal runs of characters that are not white
/// space, in order.
pub open spec fn words_of(s: Seq<char>) -> Seq<Seq<char>>
    decreases s.len(),
{
    if s.len() == 0 {
        Seq::empty()
    } else if is_space(s[0]) {
        words_of(s.drop_first())
    } else {
        let n = word_len(s);
        proof {
            lemma_word_len_bound(s);
        }
        seq![s.take(n as int)] + words_of(s.skip(n as int))
    }
}

/// Splits `s` into words.
pub fn words(s: &[char]) -> (out: Vec<Vec<char>>)
    ensures
        view_all(out@) == words_of(s@),
{
    let mut out: Vec<Vec<char>> = Vec::new();
    let mut i: usize = 0;
    assert(s@.skip(0) == s@);
    proof {
        lemma_view_all_empty(out@);
    }
    while i < s.len()
        invariant
            i <= s.len(),
            words_of(s@) == view_all(out@) + words_of(s@.skip(i as int)),
        decreases s.len() - i,
    {
        if is_whitespace(s[i]) {
            assert(s@.skip(i as int).drop_first() == s@.skip(i + 1));
            i += 1;
        } else {
            let start = i;
            while i < s.len() && !is_whitespace(s[i])
                invariant
                    start <= i <= s.len(),
                    forall|k: int| start <= k < i ==> !is_space(s@[k]),
                decreases s.len() - i,
            {
                i += 1;
            }
            let piece = copy_range(s, start, i);
            proof {
                let rest = s@.skip(start as int);
                lemma_word_len(rest, i - start);
                lemma_view_all_push(out@, piece);
                assert(rest.take(i - start) == piece@);
                assert(rest.skip(i - start) == s@.skip(i as int));
            }
            out.push(piece);
        }
    }
    out
}

/// Whether `pat` stands in `s` at position `at`.
pub open spec fn occurs_at(s: Seq<char>, pat: Seq<char>, at: int) -> bool {
    0 <= at && at + pat.len() <= s.len() && s.subrange(at, at + pat.len()) == pat
}

/// Whether `pat` stands somewhere in `s`.
pub open spec fn contains(s: Seq<char>, pat: Seq<char>) -> bool {
    exists|at: int| occurs_at(s, pat, at)
}

/// Whether `s` begins with `pat`.
pub open spec fn starts_with(s: Seq<char>, pat: Seq<char>) -> bool {
    occurs_at(s, pat, 0)
}

/// Tests whether `pat` stands in `s` at position `at`.
pub fn has_at(s: &[char], pat: &[char], at: usize) -> (r: bool)
    ensures
        r == occurs_at(s@, pat@, at as int),
{
    if at > s.len() || pat.len() > s.len() - at {
        return false;
    }
    let mut j: usize = 0;
    while j < pat.len()
        invariant
            j <= pat.len(),
            at + pat.len() <= s.len(),
            s@.subrange(at as int, at + j) == pat@.take(j as int),
        decreases pat.len() - j,
    {
        if s[at + j] != pat[j] {
            assert(s@.subrange(at as int, at + pat.len())[j as int] != pat@[j as int]);
            return false;
        }
        j += 1;
        assert(s@.subrange(at as int, at + j) == s@.subrange(at as int, at + j - 1).push(
            s@[at + j - 1],
        ));
        assert(pat@.take(j as int) == pat@.take(j - 1).push(pat@[j - 1]));
    }
    assert(pat@.take(j as int) == pat@);
    true
}

/// Tests whether `s` begins with `pat`.
pub fn has_prefix(s: &[char], pat: &[char]) -> (r: bool)
    ensures
        r == starts_with(s@, pat@),
{
    has_at(s, pat, 0)
}

/// Tests whether `pat` stands somewhere in `s`.
pub fn has_part(s: &[char], pat: &[char]) -> (r: bool)
    ensures
        r == contains(s@, pat@),
{
    let mut at: usize = 0;
    while at < s.len()
        invariant
            at <= s.len(),
            forall|k: int| 0 <= k < at ==> !occurs_at(s@, pat@, k),
        decreases s.len() - at,
    {
        if has_at(s, pat, at) {
            return true;
        }
        at += 1;
    }
    has_at(s, pat, at)
}

/// Whether `s` is a word: not empty, and free of white space.
pub open spec fn is_token(s: Seq<char>) -> bool {
    s.len() > 0 && forall|k: int| 0 <= k < s.len() ==> !is_space(#[trigger] s[k])
}

/// A word is free of white space up to its end.
pub proof fn lemma_word_len_chars(s: Seq<char>)
    ensures
        word_len(s) <= s.len(),
        forall|k: int| 0 <= k < word_len(s) ==> !is_space(#[trigger] s[k]),
    decreases s.len(),
{
    if s.len() > 0 && !is_space(s[0]) {
        let t = s.drop_first();
        lemma_word_len_chars(t);
        assert forall|k: int| 0 <= k < word_len(s) implies !is_space(#[trigger] s[k]) by {
            if k > 0 {
                assert(s[k] == t[k - 1]);
            }
        }
    }
}

/// Each of the words of a text is a word: not empty, and free of white
/// space.
pub proof fn lemma_words_are_tokens(s: Seq<char>)
    ensures
        forall|i: int| 0 <= i < words_of(s).len() ==> is_token(#[trigger] words_of(s)[i]),
    decreases s.len(),
{
    if s.len() == 0 {
        assert(words_of(s).len() == 0);
    } else if is_space(s[0]) {
        lemma_words_are_tokens(s.drop_first());
        assert(words_of(s) == words_of(s.drop_first()));
    } else {
        let n = word_len(s) as int;
        lemma_word_len_chars(s);
        let first = s.take(n);
        let rest = s.skip(n);
        lemma_words_are_tokens(rest);
        assert(words_of(s) == seq![first] + words_of(rest));
        assert(words_of(s)[0] == first);
        assert(is_token(first)) by {
            assert forall|k: int| 0 <= k < first.len() implies !is_space(#[trigger] first[k]) by {
                assert(first[k] == s[k]);
            }
        }
        assert forall|i: int| 0 <= i < words_of(s).len() implies is_token(
            #[trigger] words_of(s)[i],
        ) by {
            if i > 0 {
                assert(words_of(s)[i] == words_of(rest)[i - 1]);
            }
        }
    }
}

/// The words joined by single spaces.
pub open spec fn spaced(words: Seq<Seq<char>>) -> Seq<char>
    decreases words.len(),
{
    if words.len() == 0 {
        Seq::empty()
    } else if words.len() == 1 {
        words[0]
    } else {
        words[0] + seq![' '] + spaced(words.drop_first())
    }
}

/// Splitting what was joined by single spaces gives the words back.
pub proof fn lemma_words_of_spaced(words: Seq<Seq<char>>)
    requires
        forall|i: int| 0 <= i < words.len() ==> is_token(#[trigger] words[i]),
    ensures
        words_of(spaced(words)) == words,
    decreases words.len(),
{
    let s = spaced(words);
    if words.len() == 0 {
        assert(words_of(s) =~= words);
    } else {
        let first = words[0];
        assert(is_token(first));
        assert(!is_space(first[0]));
        if words.len() == 1 {
            lemma_word_len(s, s.len() as int);
            assert(s.take(s.len() as int) == s);
            assert(s.skip(s.len() as int).len() == 0);
            assert(words_of(s.skip(s.len() as int)) == Seq::<Seq<char>>::empty());
            assert(words_of(s) == seq![s] + words_of(s.skip(s.len() as int)));
            assert(words_of(s) =~= words);
        } else {
            let rest = words.drop_first();
            assert forall|i: int| 0 <= i < rest.len() implies is_token(#[trigger] rest[i]) by {
                assert(rest[i] == words[i + 1]);
            }
            lemma_words_of_spaced(rest);
            let n = first.len() as int;
            assert forall|k: int| 0 <= k < n implies !is_space(s[k]) by {
                assert(s[k] == first[k]);
            }
            assert(s[n] == ' ');
            lemma_word_len(s, n);
            assert(s.take(n) == first);
            let tail = s.skip(n);
            assert(tail == seq![' '] + spaced(rest));
            assert(tail.drop_first() == spaced(rest));
            assert(words_of(tail) == words_of(spaced(rest)));
            assert(words_of(s) =~= words);
        }
    }
}

/// The fields joined by `sep`.
pub open spec fn joined_by(fields: Seq<Seq<char>>, sep: char) -> Seq<char>
    decreases fields.len(),
{
    if fields.len() == 0 {
        Seq::empty()
    } else if fields.len() == 1 {
        fields[0]
    } else {
        fields[0] + seq![sep] + joined_by(fields.drop_first(), sep)
    }
}

/// Splitting at `sep` what was joined by `sep` gives the fields back, where
/// no field holds `sep`.
pub proof fn lemma_fields_of_joined(fields: Seq<Seq<char>>, sep: char)
    requires
        fields.len() > 0,
        forall|i: int, k: int|
            0 <= i < fields.len() && 0 <= k < fields[i].len() ==> (#[trigger] fields[i][k]) != sep,
    ensures
        fields_of(joined_by(fields, sep), sep) == fields,
    decreases fields.len(),
{
    let s = joined_by(fields, sep);
    let first = fields[0];
    if fields.len() == 1 {
        assert forall|k: int| 0 <= k < s.len() implies s[k] != sep by {
            assert(fields[0][k] != sep);
        }
        lemma_first_index(s, sep, s.len() as int);
        assert(fields_of(s, sep) =~= fields);
    } else {
        let rest = fields.drop_first();
        assert forall|i: int, k: int| 0 <= i < rest.len() && 0 <= k < rest[i].len() implies (
        #[trigger] rest[i][k]) != sep by {
            assert(rest[i][k] == fields[i + 1][k]);
        }
        lemma_fields_of_joined(rest, sep);
        let n = first.len() as int;
        assert forall|k: int| 0 <= k < n implies s[k] != sep by {
            assert(s[k] == fields[0][k]);
        }
        assert(s[n] == sep);
        lemma_first_index(s, sep, n);
        assert(s.take(n) == first);
        assert(s.skip(n + 1) == joined_by(rest, sep));
        assert(fields_of(s, sep) =~= fields);
    }
}

/// The first line that holds `pat` somewhere.
pub open spec fn first_with(lines: Seq<Seq<char>>, pat: Seq<char>) -> Option<Seq<char>>
    decreases lines.len(),
{
    if lines.len() == 0 {
        None
    } else if contains(lines[0], pat) {
        Some(lines[0])
    } else {
        first_with(lines.drop_first(), pat)
    }
}

/// Finds the first line that holds `pat` somewhere.
pub fn find_with(lines: &Vec<Vec<char>>, pat: &str) -> (r: Option<usize>)
    ensures
        match r {
            Some(i) => i < lines.len() && first_with(view_all(lines@), pat@) == Some(lines[i as int]@),
            None => first_with(view_all(lines@), pat@) is None,
        },
{
    let p = to_chars(pat);
    let ghost all = view_all(lines@);
    let mut i: usize = 0;
    assert(all.skip(0) == all);
    while i < lines.len()
        invariant
            i <= lines.len(),
            all == view_all(lines@),
            p@ == pat@,
            first_with(all, pat@) == first_with(all.skip(i as int), pat@),
        decreases lines.len() - i,
    {
        assert(all.skip(i as int)[0] == lines[i as int]@);
        if has_part(lines[i].as_slice(), p.as_slice()) {
            return Some(i);
        }
        assert(all.skip(i as int).drop_first() == all.skip(i + 1));
        i += 1;
    }
    None
}

/// Among lines of which none holds `pat`, there is no first that does.
pub proof fn lemma_first_with_none(lines: Seq<Seq<char>>, pat: Seq<char>)
    requires
        forall|i: int| 0 <= i < lines.len() ==> !contains(#[trigger] lines[i], pat),
    ensures
        first_with(lines, pat) is None,
    decreases lines.len(),
{
    if lines.len() > 0 {
        let rest = lines.drop_first();
        assert forall|i: int| 0 <= i < rest.len() implies !contains(#[trigger] rest[i], pat) by {
            assert(rest[i] == lines[i + 1]);
        }
        lemma_first_with_none(rest, pat);
        assert(!contains(lines[0], pat));
    }
}

/// Index of the last `c` in `s`, or -1 where there is none.
pub open spec fn last_index(s: Seq<char>, c: char) -> int
    decreases s.len(),
{
    if s.len() == 0 {
        -1
    } else if s.last() == c {
        s.len() - 1
    } else {
        last_index(s.drop_last(), c)
    }
}

/// `last_index` is the position at which a `c` stands, or -1, and after
/// which none stands.
pub proof fn lemma_last_index(s: Seq<char>, c: char, n: int)
    requires
        -1 <= n < s.len(),
        forall|k: int| n < k < s.len() ==> s[k] != c,
        0 <= n ==> s[n] == c,
    ensures
        last_index(s, c) == n,
    decreases s.len(),
{
    if s.len() > 0 && n < s.len() - 1 {
        let t = s.drop_last();
        assert forall|k: int| n < k < t.len() implies t[k] != c by {
            assert(t[k] == s[k]);
        }
        lemma_last_index(t, c, n);
    }
}

/// The last `c` stands within the text, and no `c` stands after it.
pub proof fn lemma_last_index_bounds(s: Seq<char>, c: char)
    ensures
        -1 <= last_index(s, c) < s.len(),
        forall|k: int| last_index(s, c) < k < s.len() ==> s[k] != c,
        last_index(s, c) >= 0 ==> s[last_index(s, c)] == c,
    decreases s.len(),
{
    if s.len() > 0 && s.last() != c {
        let t = s.drop_last();
        lemma_last_index_bounds(t, c);
        assert forall|k: int| last_index(s, c) < k < s.len() implies s[k] != c by {
            if k < t.len() {
                assert(t[k] == s[k]);
            }
        }
        if last_index(s, c) >= 0 {
            assert(t[last_index(t, c)] == s[last_index(s, c)]);
        }
    }
}

/// Finds the position after the last `c` in `s`, or 0 where there is none.
pub fn after_last(s: &[char], c: char) -> (r: usize)
    ensures
        r <= s.len(),
        r == last_index(s@, c) + 1,
{
    let mut i: usize = s.len();
    while i > 0 && s[i - 1] != c
        invariant
            i <= s.len(),
            forall|k: int| i <= k < s.len() ==> s@[k] != c,
        decreases i,
    {
        i -= 1;
    }
    proof {
        lemma_last_index(s@, c, i - 1);
    }
    i
}

} // verus!
