//! Strings as sequences of characters: conversions and the few scans that
//! the rest of the crate needs.

use vstd::prelude::*;
use vstd::std_specs::iter::IteratorSpec;

verus! {

broadcast use vstd::string::group_string_axioms;

/// `String::push` appends one character to the end of the string.
pub assume_specification[ String::push ](s: &mut String, ch: char)
    ensures
        final(s)@ == old(s)@.push(ch),
;

/// The characters of a string, in order.
pub fn chars_of(s: &str) -> (chars: Vec<char>)
    ensures
        chars@ == s@,
{
    let mut chars: Vec<char> = Vec::new();
    let mut it = s.chars();
    loop
        invariant
            it.obeys_prophetic_iter_laws(),
            chars@ + it.remaining() == s@,
        decreases s@.len() - chars@.len(),
    {
        let ghost before = it.remaining();
        match it.next() {
            Some(c) => {
                chars.push(c);
                assert(chars@ + it.remaining() =~= s@) by {
                    assert(before =~= seq![c] + before.drop_first());
                }
            },
            None => {
                assert(chars@ =~= s@);
                return chars;
            },
        }
    }
}

/// The string made of the characters `chars[from..to]`.
pub fn string_of(chars: &Vec<char>, from: usize, to: usize) -> (s: String)
    requires
        from <= to <= chars@.len(),
    ensures
        s@ == chars@.subrange(from as int, to as int),
{
    let mut s = String::new();
    let mut i: usize = from;
    while i < to
        invariant
            from <= i <= to <= chars@.len(),
            s@ == chars@.subrange(from as int, i as int),
        decreases to - i,
    {
        s.push(chars[i]);
        assert(s@ =~= chars@.subrange(from as int, i + 1));
        i += 1;
    }
    s
}

/// The strings of a sequence as sequences of characters.
pub open spec fn strings_view(v: Seq<String>) -> Seq<Seq<char>> {
    Seq::new(v.len(), |i: int| v[i]@)
}

/// The pieces of `s` between the occurrences of `sep`: one more than there
/// are separators, empty pieces included.
pub open spec fn split_on(s: Seq<char>, sep: char) -> Seq<Seq<char>>
    decreases s.len(),
{
    if s.len() == 0 {
        seq![Seq::empty()]
    } else {
        let before = split_on(s.drop_last(), sep);
        if s.last() == sep {
            before.push(Seq::empty())
        } else {
            before.update(before.len() - 1, before.last().push(s.last()))
        }
    }
}

/// Splits the characters at every occurrence of `sep`.
pub fn split_chars(chars: &Vec<char>, sep: char) -> (pieces: Vec<String>)
    ensures
        strings_view(pieces@) == split_on(chars@, sep),
{
    let mut pieces: Vec<String> = Vec::new();
    let mut start: usize = 0;
    let mut i: usize = 0;
    assert(chars@.take(0) =~= Seq::empty());
    assert(split_on(chars@.take(0), sep) =~= strings_view(pieces@).push(
        chars@.subrange(0, 0),
    ));
    while i < chars.len()
        invariant
            start <= i <= chars@.len(),
            split_on(chars@.take(i as int), sep) == strings_view(pieces@).push(
                chars@.subrange(start as int, i as int),
            ),
        decreases chars@.len() - i,
    {
        let ghost prefix = chars@.take(i + 1);
        let ghost done = strings_view(pieces@);
        proof {
            assert(prefix.drop_last() =~= chars@.take(i as int));
            assert(prefix.last() == chars@[i as int]);
        }
        if chars[i] == sep {
            let piece = string_of(chars, start, i);
            pieces.push(piece);
            start = i + 1;
            assert(strings_view(pieces@) =~= done.push(piece@));
            assert(chars@.subrange(start as int, i + 1) =~= Seq::empty());
        } else {
            assert(chars@.subrange(start as int, i + 1) =~= chars@.subrange(
                start as int,
                i as int,
            ).push(chars@[i as int]));
            assert(split_on(prefix, sep) =~= done.push(chars@.subrange(start as int, i + 1)));
        }
        i += 1;
    }
    assert(chars@.take(chars@.len() as int) =~= chars@);
    let ghost done = strings_view(pieces@);
    let piece = string_of(chars, start, chars.len());
    pieces.push(piece);
    assert(strings_view(pieces@) =~= done.push(piece@));
    pieces
}

/// Whether `needle` stands in `hay` at position `at`.
pub open spec fn occurs_at(hay: Seq<char>, needle: Seq<char>, at: int) -> bool {
    0 <= at && at + needle.len() <= hay.len() && hay.subrange(at, at + needle.len()) == needle
}

/// Whether `needle` stands somewhere in `hay`.
pub open spec fn contains_seq(hay: Seq<char>, needle: Seq<char>) -> bool {
    exists|at: int| occurs_at(hay, needle, at)
}

/// Whether `hay` begins with `needle`.
pub open spec fn starts_with_seq(hay: Seq<char>, needle: Seq<char>) -> bool {
    occurs_at(hay, needle, 0)
}

/// Tells whether `needle` stands in `hay` at position `at`.
pub fn occurs_at_chars(hay: &Vec<char>, needle: &Vec<char>, at: usize) -> (found: bool)
    ensures
        found == occurs_at(hay@, needle@, at as int),
{
    if needle.len() > hay.len() || at > hay.len() - needle.len() {
        return false;
    }
    let mut k: usize = 0;
    while k < needle.len()
        invariant
            k <= needle@.len(),
            at + needle@.len() <= hay@.len(),
            hay@.len() <= usize::MAX,
            forall|j: int| 0 <= j < k ==> hay@[at + j] == needle@[j],
        decreases needle@.len() - k,
    {
        if hay[at + k] != needle[k] {
            proof {
                if occurs_at(hay@, needle@, at as int) {
                    assert(hay@.subrange(at as int, at + needle@.len())[k as int] == needle@[k as int]);
                }
            }
            return false;
        }
        k += 1;
    }
    assert(hay@.subrange(at as int, at + needle@.len()) =~= needle@);
    true
}

/// Tells whether `needle` stands somewhere in `hay`.
pub fn contains_chars(hay: &Vec<char>, needle: &Vec<char>) -> (found: bool)
    ensures
        found == contains_seq(hay@, needle@),
{
    if needle.len() > hay.len() {
        return false;
    }
    let last: usize = hay.len() - needle.len();
    let mut at: usize = 0;
    loop
        invariant
            at <= last,
            last == hay@.len() - needle@.len(),
            forall|j: int| 0 <= j < at ==> !occurs_at(hay@, needle@, j),
        decreases last - at,
    {
        if occurs_at_chars(hay, needle, at) {
            return true;
        }
        if at == last {
            return false;
        }
        at += 1;
    }
}

/// Tells whether one string contains another.
pub fn str_contains(hay: &str, needle: &str) -> (found: bool)
    ensures
        found == contains_seq(hay@, needle@),
{
    let h = chars_of(hay);
    let n = chars_of(needle);
    contains_chars(&h, &n)
}

/// Tells whether one string begins with another.
pub fn str_starts_with(hay: &str, needle: &str) -> (found: bool)
    ensures
        found == starts_with_seq(hay@, needle@),
{
    let h = chars_of(hay);
    let n = chars_of(needle);
    occurs_at_chars(&h, &n, 0)
}

/// What `str::to_lowercase` makes of a string.
pub uninterp spec fn lowercase_of(s: Seq<char>) -> Seq<char>;

/// Calls `str::to_lowercase`, which returns the lowercase equivalent of the
/// string as Unicode defines it.
#[verifier::external_body]
pub(crate) fn to_lowercase(s: &str) -> (lower: String)
    ensures
        lower@ == lowercase_of(s@),
{
    s.to_lowercase()
}

/// `s` without the occurrences of `c` at its end.
pub open spec fn strip_trailing(s: Seq<char>, c: char) -> Seq<char>
    decreases s.len(),
{
    if s.len() > 0 && s.last() == c {
        strip_trailing(s.drop_last(), c)
    } else {
        s
    }
}

/// Finds where `chars[from..to]` without the occurrences of `c` at its end
/// stops.
pub fn strip_trailing_end(chars: &Vec<char>, from: usize, to: usize, c: char) -> (end: usize)
    requires
        from <= to <= chars@.len(),
    ensures
        from <= end <= to,
        chars@.subrange(from as int, end as int) == strip_trailing(
            chars@.subrange(from as int, to as int),
            c,
        ),
{
    let mut end: usize = to;
    while end > from && chars[end - 1] == c
        invariant
            from <= end <= to <= chars@.len(),
            strip_trailing(chars@.subrange(from as int, end as int), c) == strip_trailing(
                chars@.subrange(from as int, to as int),
                c,
            ),
        decreases end,
    {
        assert(chars@.subrange(from as int, end as int).drop_last() =~= chars@.subrange(
            from as int,
            end - 1,
        ));
        end -= 1;
    }
    end
}

/// Whether a character is white space as Unicode defines it.
pub open spec fn is_space(c: char) -> bool {
    let u = c as u32;
    ||| 0x09 <= u <= 0x0d
    ||| u == 0x20
    ||| u == 0x85
    ||| u == 0xa0
    ||| u == 0x1680
    ||| 0x2000 <= u <= 0x200a
    ||| u == 0x2028
    ||| u == 0x2029
    ||| u == 0x202f
    ||| u == 0x205f
    ||| u == 0x3000
}

/// Tells whether a character is white space.
pub fn is_space_char(c: char) -> (space: bool)
    ensures
        space == is_space(c),
{
    let u: u32 = c as u32;
    (0x09 <= u && u <= 0x0d) || u == 0x20 || u == 0x85 || u == 0xa0 || u == 0x1680 || (0x2000 <= u
        && u <= 0x200a) || u == 0x2028 || u == 0x2029 || u == 0x202f || u == 0x205f || u == 0x3000
}

/// The words completed within `s`, and the word that `s` ends in (empty
/// where it ends in white space).
pub open spec fn words_state(s: Seq<char>) -> (Seq<Seq<char>>, Seq<char>)
    decreases s.len(),
{
    if s.len() == 0 {
        (Seq::empty(), Seq::empty())
    } else {
        let (done, current) = words_state(s.drop_last());
        if is_space(s.last()) {
            if current.len() > 0 {
                (done.push(current), Seq::empty())
            } else {
                (done, current)
            }
        } else {
            (done, current.push(s.last()))
        }
    }
}

/// The words of `s`: its longest stretches without white space.
pub open spec fn words(s: Seq<char>) -> Seq<Seq<char>> {
    let (done, current) = words_state(s);
    if current.len() > 0 {
        done.push(current)
    } else {
        done
    }
}

/// The stretches `chars[start..end]` that the ranges name.
pub open spec fn ranges_view(chars: Seq<char>, ranges: Seq<(usize, usize)>) -> Seq<Seq<char>> {
    Seq::new(ranges.len(), |i: int| chars.subrange(ranges[i].0 as int, ranges[i].1 as int))
}

/// Finds the words of the characters, each as the range where it stands.
pub fn split_words(chars: &Vec<char>) -> (ranges: Vec<(usize, usize)>)
    ensures
        ranges_view(chars@, ranges@) == words(chars@),
        forall|i: int|
            0 <= i < ranges@.len() ==> (#[trigger] ranges@[i]).0 <= ranges@[i].1 <= chars@.len(),
{
    let mut ranges: Vec<(usize, usize)> = Vec::new();
    let mut start: usize = 0;
    let mut i: usize = 0;
    assert(chars@.take(0) =~= Seq::empty());
    assert(ranges_view(chars@, ranges@) =~= Seq::empty());
    assert(chars@.subrange(0, 0) =~= Seq::empty());
    while i < chars.len()
        invariant
            start <= i <= chars@.len(),
            forall|j: int|
                0 <= j < ranges@.len() ==> (#[trigger] ranges@[j]).0 <= ranges@[j].1 <= chars@.len(),
            words_state(chars@.take(i as int)) == (
                ranges_view(chars@, ranges@),
                chars@.subrange(start as int, i as int),
            ),
        decreases chars@.len() - i,
    {
        let ghost prefix = chars@.take(i + 1);
        let ghost done = ranges_view(chars@, ranges@);
        proof {
            assert(prefix.drop_last() =~= chars@.take(i as int));
            assert(prefix.last() == chars@[i as int]);
        }
        if is_space_char(chars[i]) {
            if i > start {
                ranges.push((start, i));
                assert(ranges_view(chars@, ranges@) =~= done.push(
                    chars@.subrange(start as int, i as int),
                ));
            }
            start = i + 1;
            assert(chars@.subrange(start as int, i + 1) =~= Seq::empty());
        } else {
            assert(chars@.subrange(start as int, i + 1) =~= chars@.subrange(
                start as int,
                i as int,
            ).push(chars@[i as int]));
        }
        i += 1;
    }
    assert(chars@.take(chars@.len() as int) =~= chars@);
    if i > start {
        let ghost done = ranges_view(chars@, ranges@);
        ranges.push((start, i));
        assert(ranges_view(chars@, ranges@) =~= done.push(chars@.subrange(start as int, i as int)));
    }
    ranges
}

/// Where the first line of `s` ends: at its first line feed, or at its end.
pub open spec fn line_end(s: Seq<char>, from: int) -> int
    decreases s.len() - from,
{
    if from < 0 || from >= s.len() || s[from] == '\n' {
        from
    } else {
        line_end(s, from + 1)
    }
}

/// The first line of `s`, without its line ending (a line feed, or a
/// carriage return and a line feed); `None` where `s` is empty.
pub open spec fn first_line(s: Seq<char>) -> Option<Seq<char>> {
    if s.len() == 0 {
        None
    } else {
        let end = line_end(s, 0);
        if end < s.len() && end > 0 && s[end - 1] == '\r' {
            Some(s.take(end - 1))
        } else {
            Some(s.take(end))
        }
    }
}

/// Finds the first line of the characters, as the position where it stops.
pub fn first_line_end(chars: &Vec<char>) -> (end: Option<usize>)
    ensures
        match end {
            Some(e) => e <= chars@.len() && first_line(chars@) == Some(chars@.take(e as int)),
            None => first_line(chars@) is None,
        },
{
    if chars.len() == 0 {
        return None;
    }
    let mut i: usize = 0;
    while i < chars.len() && chars[i] != '\n'
        invariant
            i <= chars@.len(),
            line_end(chars@, 0) == line_end(chars@, i as int),
        decreases chars@.len() - i,
    {
        i += 1;
    }
    if i < chars.len() && i > 0 && chars[i - 1] == '\r' {
        Some(i - 1)
    } else {
        Some(i)
    }
}

/// Appending text without a separator to a string lengthens the last
/// piece of its split.
pub proof fn lemma_split_append_plain(a: Seq<char>, b: Seq<char>, sep: char)
    requires
        !b.contains(sep),
    ensures
        split_on(a + b, sep).len() == split_on(a, sep).len(),
        split_on(a, sep).len() >= 1,
        split_on(a + b, sep) == split_on(a, sep).update(
            split_on(a, sep).len() - 1,
            split_on(a, sep).last() + b,
        ),
    decreases b.len(),
{
    lemma_split_nonempty(a, sep);
    let base = split_on(a, sep);
    if b.len() == 0 {
        assert(a + b =~= a);
        assert(base.last() + b =~= base.last());
        assert(base.update(base.len() - 1, base.last()) =~= base);
    } else {
        let init = b.drop_last();
        assert forall|i: int| 0 <= i < init.len() implies init[i] != sep by {
            assert(init[i] == b[i]);
            assert(b.contains(b[i]));
        }
        assert(!init.contains(sep));
        lemma_split_append_plain(a, init, sep);
        assert((a + b).drop_last() =~= a + init);
        assert((a + b).last() == b.last());
        assert(b.contains(b.last()));
        let before = split_on(a + init, sep);
        assert(before.last() == base.last() + init);
        assert(base.last() + init.push(b.last()) =~= (base.last() + init).push(b.last()));
        assert(init.push(b.last()) =~= b);
        assert(split_on(a + b, sep) =~= base.update(base.len() - 1, base.last() + b));
    }
}

/// A split has at least one piece.
pub proof fn lemma_split_nonempty(s: Seq<char>, sep: char)
    ensures
        split_on(s, sep).len() >= 1,
    decreases s.len(),
{
    if s.len() > 0 {
        lemma_split_nonempty(s.drop_last(), sep);
    }
}

/// Appending a separator to a string adds an empty piece to its split.
pub proof fn lemma_split_append_sep(a: Seq<char>, sep: char)
    ensures
        split_on(a.push(sep), sep) == split_on(a, sep).push(Seq::empty()),
{
    assert(a.push(sep).drop_last() =~= a);
}

} // verus!
