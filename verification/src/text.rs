//! Characters and strings: the conversions that the parsers work with.

use vstd::prelude::*;

verus! {

/// `String::push` of the standard library appends one character to the end
/// of the string and leaves the rest as it was.
pub assume_specification[ String::push ](text: &mut String, c: char)
    ensures
        final(text)@ == old(text)@.push(c),
;

/// The characters of a text, one by one.
pub fn chars_of(text: &str) -> (chars: Vec<char>)
    ensures
        chars@ == text@,
{
    let mut chars: Vec<char> = Vec::new();
    for c in it: text.chars()
        invariant
            chars@ == it.seq().take(it.index() as int),
            it.seq() == text@,
    {
        chars.push(c);
    }
    chars
}

/// The string made of the characters from `from` up to, not including, `to`.
pub fn string_of(chars: &Vec<char>, from: usize, to: usize) -> (text: String)
    requires
        from <= to <= chars.len(),
    ensures
        text@ == chars@.subrange(from as int, to as int),
{
    let mut text = String::new();
    let mut i: usize = from;
    while i < to
        invariant
            from <= i <= to <= chars.len(),
            text@ == chars@.subrange(from as int, i as int),
        decreases to - i,
    {
        text.push(chars[i]);
        i = i + 1;
    }
    text
}

/// The characters from `from` up to, not including, `to`, as a vector of
/// their own.
pub fn chars_between(chars: &Vec<char>, from: usize, to: usize) -> (part: Vec<char>)
    requires
        from <= to <= chars.len(),
    ensures
        part@ == chars@.subrange(from as int, to as int),
{
    let mut part: Vec<char> = Vec::new();
    let mut i: usize = from;
    while i < to
        invariant
            from <= i <= to <= chars.len(),
            part@ == chars@.subrange(from as int, i as int),
        decreases to - i,
    {
        part.push(chars[i]);
        i = i + 1;
    }
    part
}

/// A class of characters that a scan passes over.
#[derive(Clone, Copy, Debug, PartialEq, Eq, Structural)]
pub enum CharClass {
    /// A blank or a tab.
    Space,
    /// A digit, a decimal point or a grouping comma.
    Numeric,
    /// Anything but a single quote.
    Unquoted,
    /// Anything but a line feed.
    InLine,
}

/// Whether `c` is one of the ten digits.
pub open spec fn is_digit(c: char) -> bool {
    '0' <= c <= '9'
}

/// Whether `c` belongs to the class.
pub open spec fn in_class(class: CharClass, c: char) -> bool {
    match class {
        CharClass::Space => c == ' ' || c == '\t',
        CharClass::Numeric => is_digit(c) || c == '.' || c == ',',
        CharClass::Unquoted => c != '\'',
        CharClass::InLine => c != '\n',
    }
}

/// The first place from `at` on that holds no character of the class: where
/// a scan over the class, begun at `at`, ends.
pub open spec fn scan(s: Seq<char>, at: int, class: CharClass) -> int
    decreases s.len() - at,
{
    if 0 <= at < s.len() && in_class(class, s[at]) {
        scan(s, at + 1, class)
    } else {
        at
    }
}

/// Whether the characters of `tag` stand in `s` from `at` on.
pub open spec fn has_tag(s: Seq<char>, at: int, tag: Seq<char>) -> bool {
    0 <= at && at + tag.len() <= s.len() && s.subrange(at, at + tag.len()) == tag
}

/// Whether what a parser returned, a value and the place where it ended, is
/// what its specification gives.
pub open spec fn found<T>(r: Option<(T, usize)>, wanted: Option<(T, int)>) -> bool {
    match (r, wanted) {
        (Some((value, end)), Some((wanted_value, wanted_end))) => value == wanted_value && end
            == wanted_end,
        (None, None) => true,
        _ => false,
    }
}

/// Whether the place that a parser returned is the one that its
/// specification gives.
pub open spec fn found_end(r: Option<usize>, wanted: Option<int>) -> bool {
    match (r, wanted) {
        (Some(end), Some(wanted_end)) => end == wanted_end,
        (None, None) => true,
        _ => false,
    }
}

/// A scan ends between its start and the end of the text.
pub proof fn lemma_scan_bounds(s: Seq<char>, at: int, class: CharClass)
    requires
        0 <= at <= s.len(),
    ensures
        at <= scan(s, at, class) <= s.len(),
    decreases s.len() - at,
{
    if at < s.len() && in_class(class, s[at]) {
        lemma_scan_bounds(s, at + 1, class);
    }
}

/// Whether `c` belongs to the class.
pub fn is_in_class(class: CharClass, c: char) -> (b: bool)
    ensures
        b == in_class(class, c),
{
    match class {
        CharClass::Space => c == ' ' || c == '\t',
        CharClass::Numeric => ('0' <= c && c <= '9') || c == '.' || c == ',',
        CharClass::Unquoted => c != '\'',
        CharClass::InLine => c != '\n',
    }
}

/// Where a scan over the class, begun at `at`, ends.
pub fn scan_while(chars: &Vec<char>, at: usize, class: CharClass) -> (end: usize)
    ensures
        end == scan(chars@, at as int, class),
        at <= end,
        at <= chars.len() ==> end <= chars.len(),
{
    if at > chars.len() {
        return at;
    }
    let mut i: usize = at;
    while i < chars.len() && is_in_class(class, chars[i])
        invariant
            at <= i <= chars.len(),
            scan(chars@, at as int, class) == scan(chars@, i as int, class),
        decreases chars.len() - i,
    {
        i = i + 1;
    }
    i
}

/// Whether the characters of `tag` stand in `chars` from `at` on.
pub fn matches_at(chars: &Vec<char>, at: usize, tag: &str) -> (b: bool)
    ensures
        b == has_tag(chars@, at as int, tag@),
{
    let wanted = chars_of(tag);
    if at > chars.len() || wanted.len() > chars.len() - at {
        return false;
    }
    let mut i: usize = 0;
    while i < wanted.len()
        invariant
            i <= wanted.len(),
            at + wanted.len() <= chars.len(),
            wanted@ == tag@,
            chars@.subrange(at as int, at + i) == wanted@.take(i as int),
        decreases wanted.len() - i,
    {
        if chars[at + i] != wanted[i] {
            proof {
                let whole = chars@.subrange(at as int, at + wanted.len());
                assert(whole[i as int] != wanted@[i as int]);
            }
            return false;
        }
        proof {
            assert(chars@.subrange(at as int, at + i + 1) =~= chars@.subrange(
                at as int,
                at + i,
            ).push(chars@[at + i]));
            assert(wanted@.take(i + 1) =~= wanted@.take(i as int).push(wanted@[i as int]));
        }
        i = i + 1;
    }
    proof {
        assert(wanted@.take(wanted.len() as int) =~= wanted@);
    }
    true
}

/// The line that runs from `from` up to the line feed at `to`: without the
/// carriage return that may stand before the line feed.
pub open spec fn line_before_feed(s: Seq<char>, from: int, to: int) -> Seq<char> {
    if from < to && s[to - 1] == '\r' {
        s.subrange(from, to - 1)
    } else {
        s.subrange(from, to)
    }
}

/// The lines of the text from `at` on. A line ends at a line feed, or at a
/// carriage return with a line feed after it; the last line need not end in
/// one, and after the last line ending no empty line follows.
pub open spec fn lines_from(s: Seq<char>, at: int) -> Seq<Seq<char>>
    decreases s.len() - at,
{
    if at < 0 || at >= s.len() {
        Seq::empty()
    } else {
        let end = scan(s, at, CharClass::InLine);
        proof {
            lemma_scan_bounds(s, at, CharClass::InLine);
        }
        if end >= s.len() {
            seq![s.subrange(at, s.len() as int)]
        } else {
            seq![line_before_feed(s, at, end)] + lines_from(s, end + 1)
        }
    }
}

/// The lines of a text.
pub open spec fn lines_of(s: Seq<char>) -> Seq<Seq<char>> {
    lines_from(s, 0)
}

/// The lines of a vector of them, as the specifications see them.
pub open spec fn line_views(lines: Seq<Vec<char>>) -> Seq<Seq<char>> {
    Seq::new(lines.len(), |i: int| lines[i]@)
}

/// The lines of a text, each as a vector of its characters.
pub fn split_lines(chars: &Vec<char>) -> (lines: Vec<Vec<char>>)
    ensures
        line_views(lines@) == lines_of(chars@),
{
    let mut lines: Vec<Vec<char>> = Vec::new();
    let mut at: usize = 0;
    assert(line_views(lines@) =~= Seq::<Seq<char>>::empty());
    while at < chars.len()
        invariant
            at <= chars.len(),
            lines_of(chars@) == line_views(lines@) + lines_from(chars@, at as int),
        decreases chars.len() - at,
    {
        let end = scan_while(chars, at, CharClass::InLine);
        let ghost before = line_views(lines@);
        if end >= chars.len() {
            let line = chars_between(chars, at, chars.len());
            lines.push(line);
            proof {
                assert(line_views(lines@) =~= before.push(line@));
                assert(lines_from(chars@, chars.len() as int) =~= Seq::<Seq<char>>::empty());
                assert(before + seq![line@] =~= before.push(line@) + Seq::<Seq<char>>::empty());
            }
            at = chars.len();
        } else {
            let stop: usize = if at < end && chars[end - 1] == '\r' {
                end - 1
            } else {
                end
            };
            let line = chars_between(chars, at, stop);
            lines.push(line);
            proof {
                assert(line_views(lines@) =~= before.push(line@));
                assert(before + (seq![line@] + lines_from(chars@, end + 1)) =~= before.push(line@)
                    + lines_from(chars@, end + 1));
            }
            at = end + 1;
        }
    }
    proof {
        assert(lines_from(chars@, at as int) =~= Seq::<Seq<char>>::empty());
        assert(line_views(lines@) + Seq::<Seq<char>>::empty() =~= line_views(lines@));
    }
    lines
}

} // verus!
