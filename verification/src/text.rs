//! Text: the string operations that the timeline, the Git classifier and the
//! screen are written with, each stated over the characters of its arguments.

use vstd::prelude::*;
use vstd::string::*;
use vstd::utf8::*;

verus! {

/// A string as the sequence of its characters.
pub type Text = Seq<char>;

/// Appending a character, as `String::push` documents it: the string keeps its
/// characters and gains this one at the end.
pub assume_specification[ String::push ](s: &mut String, c: char)
    ensures
        final(s)@ == old(s)@.push(c),
;

/// The characters of `s`, in order.
pub fn chars_of(s: &str) -> (out: Vec<char>)
    ensures
        out@ == s@,
{
    let mut out: Vec<char> = Vec::new();
    for c in it: s.chars()
        invariant
            it.seq() == s@,
            out@ == s@.take(it.index() as int),
    {
        out.push(c);
    }
    assert(s@.take(s@.len() as int) == s@);
    out
}

/// The string whose characters are `chars[from..to]`.
pub fn string_of(chars: &Vec<char>, from: usize, to: usize) -> (out: String)
    requires
        from <= to <= chars@.len(),
    ensures
        out@ == chars@.subrange(from as int, to as int),
{
    let mut out = String::new();
    let mut i: usize = from;
    while i < to
        invariant
            from <= i <= to <= chars@.len(),
            out@ == chars@.subrange(from as int, i as int),
        decreases to - i,
    {
        out.push(chars[i]);
        i += 1;
        assert(chars@.subrange(from as int, i as int) == chars@.subrange(
            from as int,
            i - 1,
        ).push(chars@[i - 1]));
    }
    out
}

/// Whether two strings have the same characters.
pub fn same_text(a: &str, b: &str) -> (same: bool)
    ensures
        same == (a@ == b@),
{
    let x = a.as_bytes();
    let y = b.as_bytes();
    proof {
        encode_utf8_decode_utf8(a@);
        encode_utf8_decode_utf8(b@);
    }
    if x.len() != y.len() {
        return false;
    }
    let mut i: usize = 0;
    while i < x.len()
        invariant
            0 <= i <= x@.len(),
            x@.len() == y@.len(),
            x@ == a.spec_bytes(),
            y@ == b.spec_bytes(),
            decode_utf8(encode_utf8(a@)) == a@,
            decode_utf8(encode_utf8(b@)) == b@,
            forall|j: int| 0 <= j < i ==> x@[j] == y@[j],
        decreases x@.len() - i,
    {
        if x[i] != y[i] {
            return false;
        }
        i += 1;
    }
    assert(x@ == y@);
    true
}

/// The digit that stands for `n`.
pub open spec fn digit(n: nat) -> char {
    ('0' as nat + n) as char
}

/// `n` in decimal, without leading zeros.
pub open spec fn decimal_text(n: nat) -> Text
    decreases n,
{
    if n < 10 {
        seq![digit(n)]
    } else {
        decimal_text(n / 10).push(digit(n % 10))
    }
}

/// Writes `n` in decimal.
pub fn decimal(n: u64) -> (out: String)
    ensures
        out@ == decimal_text(n as nat),
    decreases n,
{
    if n < 10 {
        let mut out = String::new();
        out.push((48u8 + n as u8) as char);
        assert(out@ == seq![digit(n as nat)]);
        out
    } else {
        let mut out = decimal(n / 10);
        out.push((48u8 + (n % 10) as u8) as char);
        out
    }
}

/// Blank characters in front of or behind `text`, so that it fills `width`.
pub open spec fn blanks(n: int) -> Text {
    Seq::new(if n > 0 { n as nat } else { 0 }, |i: int| ' ')
}

/// `text` with blanks behind it, up to `width` characters.
pub open spec fn padded_right(text: Text, width: nat) -> Text {
    text + blanks(width - text.len())
}

/// `text` with blanks in front of it, up to `width` characters.
pub open spec fn padded_left(text: Text, width: nat) -> Text {
    blanks(width - text.len()) + text
}

/// Appends blanks until `out`, whose text began with `length` characters of
/// content, has `width` of them.
fn push_blanks(out: &mut String, length: usize, width: usize)
    ensures
        final(out)@ == old(out)@ + blanks(width - length),
{
    let mut i: usize = length;
    while i < width
        invariant
            i >= length,
            i <= width || i == length,
            out@ == old(out)@ + blanks(i - length),
        decreases width - i,
    {
        out.push(' ');
        i += 1;
        assert(out@ =~= old(out)@ + blanks(i - length));
    }
    assert(out@ =~= old(out)@ + blanks(width - length));
}

/// `text`, padded on the right to `width` characters.
pub fn pad_right(text: &str, width: usize) -> (out: String)
    ensures
        out@ == padded_right(text@, width as nat),
{
    let mut out = text.to_owned();
    push_blanks(&mut out, text.unicode_len(), width);
    out
}

/// `text`, padded on the left to `width` characters.
pub fn pad_left(text: &str, width: usize) -> (out: String)
    ensures
        out@ == padded_left(text@, width as nat),
{
    let mut out = String::new();
    push_blanks(&mut out, text.unicode_len(), width);
    out.append(text);
    assert(out@ =~= padded_left(text@, width as nat));
    out
}

/// `a` followed by `b`.
pub fn join2(a: &str, b: &str) -> (out: String)
    ensures
        out@ == a@ + b@,
{
    let mut out = a.to_owned();
    out.append(b);
    out
}

/// `a`, `b` and `c`, one behind the other.
pub fn join3(a: &str, b: &str, c: &str) -> (out: String)
    ensures
        out@ == a@ + b@ + c@,
{
    let mut out = a.to_owned();
    out.append(b);
    out.append(c);
    out
}

/// The texts of `items`, with `separator` between neighbours.
pub open spec fn joined(items: Seq<Text>, separator: Text) -> Text
    decreases items.len(),
{
    if items.len() == 0 {
        Seq::empty()
    } else if items.len() == 1 {
        items[0]
    } else {
        joined(items.drop_last(), separator) + separator + items.last()
    }
}

/// The texts of a list of strings.
pub open spec fn texts(items: Seq<String>) -> Seq<Text> {
    items.map_values(|s: String| s@)
}

/// Joins `items[from..]` with `separator` between neighbours.
pub fn join_all(items: &Vec<String>, from: usize, separator: &str) -> (out: String)
    requires
        from <= items@.len(),
    ensures
        out@ == joined(texts(items@).skip(from as int), separator@),
{
    let mut out = String::new();
    let ghost all = texts(items@).skip(from as int);
    let mut i: usize = from;
    assert(all.take(0) =~= Seq::<Text>::empty());
    while i < items.len()
        invariant
            from <= i <= items@.len(),
            all == texts(items@).skip(from as int),
            out@ == joined(all.take(i - from), separator@),
        decreases items@.len() - i,
    {
        let ghost before = all.take(i - from);
        assert(all.take(i + 1 - from).drop_last() =~= before);
        assert(all.take(i + 1 - from).last() == items@[i as int]@);
        if i > from {
            out.append(separator);
        } else {
            assert(out@ =~= Seq::<char>::empty());
        }
        out.append(items[i].as_str());
        i += 1;
        assert(out@ =~= joined(all.take(i - from), separator@));
    }
    assert(all.take(items@.len() - from) =~= all);
    out
}

/// The first position at or behind `from` that holds `c`, or the length of
/// `text` where none does.
pub open spec fn find_from(text: Text, c: char, from: int) -> int
    decreases text.len() - from,
{
    if from >= text.len() {
        text.len() as int
    } else if text[from] == c {
        from
    } else {
        find_from(text, c, from + 1)
    }
}

/// What `find_from` says of the position that it gives.
pub proof fn lemma_find_from(text: Text, c: char, from: int)
    requires
        0 <= from <= text.len(),
    ensures
        from <= find_from(text, c, from) <= text.len(),
        forall|i: int| from <= i < find_from(text, c, from) ==> text[i] != c,
        find_from(text, c, from) < text.len() ==> text[find_from(text, c, from)] == c,
    decreases text.len() - from,
{
    if from < text.len() && text[from] != c {
        lemma_find_from(text, c, from + 1);
    }
}

/// Finds `c` in `text`, from `from` on.
pub fn find_char(text: &Vec<char>, c: char, from: usize) -> (at: usize)
    requires
        from <= text@.len(),
    ensures
        at == find_from(text@, c, from as int),
        from <= at <= text@.len(),
{
    let mut i: usize = from;
    while i < text.len()
        invariant
            from <= i <= text@.len(),
            find_from(text@, c, from as int) == find_from(text@, c, i as int),
        decreases text@.len() - i,
    {
        if text[i] == c {
            return i;
        }
        i += 1;
    }
    i
}

/// A line without the carriage return that may end it.
pub open spec fn without_return(line: Text) -> Text {
    if line.len() > 0 && line.last() == '\r' {
        line.drop_last()
    } else {
        line
    }
}

/// The lines of `text` from position `from` on. A line ends at a line feed, or
/// at a carriage return and a line feed; the last line need not end so.
pub open spec fn lines_from(text: Text, from: int) -> Seq<Text>
    decreases text.len() - from,
{
    if from < 0 || from >= text.len() {
        Seq::empty()
    } else {
        let end = find_from(text, '\n', from);
        if end < from || end >= text.len() {
            seq![text.subrange(from, text.len() as int)]
        } else {
            seq![without_return(text.subrange(from, end))] + lines_from(text, end + 1)
        }
    }
}

/// The lines of `text`.
pub open spec fn lines_of(text: Text) -> Seq<Text> {
    lines_from(text, 0)
}

/// Splits `text` into its lines.
pub fn lines(text: &str) -> (out: Vec<String>)
    ensures
        texts(out@) == lines_of(text@),
{
    let chars = chars_of(text);
    let mut out: Vec<String> = Vec::new();
    let mut from: usize = 0;
    assert(texts(out@) =~= Seq::<Text>::empty());
    while from < chars.len()
        invariant
            from <= chars@.len(),
            chars@ == text@,
            texts(out@) + lines_from(text@, from as int) =~= lines_of(text@),
        decreases chars@.len() - from,
    {
        proof {
            lemma_find_from(text@, '\n', from as int);
        }
        let end = find_char(&chars, '\n', from);
        let ghost before = texts(out@);
        if end >= chars.len() {
            out.push(string_of(&chars, from, end));
            assert(texts(out@) =~= before.push(text@.subrange(from as int, end as int)));
            from = end;
        } else {
            let stop: usize = if end > from && chars[end - 1] == '\r' {
                end - 1
            } else {
                end
            };
            let line = string_of(&chars, from, stop);
            assert(line@ =~= without_return(text@.subrange(from as int, end as int)));
            out.push(line);
            assert(texts(out@) =~= before.push(line@));
            from = end + 1;
        }
    }
    assert(lines_from(text@, from as int) =~= Seq::<Text>::empty());
    assert(texts(out@) =~= lines_of(text@));
    out
}

/// The characters that Unicode gives the property White_Space.
pub open spec fn is_blank(c: char) -> bool {
    ||| '\u{9}' <= c <= '\u{d}'
    ||| c == ' '
    ||| c == '\u{85}'
    ||| c == '\u{a0}'
    ||| c == '\u{1680}'
    ||| '\u{2000}' <= c <= '\u{200a}'
    ||| c == '\u{2028}'
    ||| c == '\u{2029}'
    ||| c == '\u{202f}'
    ||| c == '\u{205f}'
    ||| c == '\u{3000}'
}

/// A set of characters to cut off the ends of a text.
#[derive(Clone, Copy)]
pub enum Trimmed {
    /// Whitespace.
    Blank,
    /// The double quote.
    Quote,
    /// The line feed.
    LineFeed,
}

impl Trimmed {
    /// Whether `c` is in the set.
    pub open spec fn holds(self, c: char) -> bool {
        match self {
            Trimmed::Blank => is_blank(c),
            Trimmed::Quote => c == '"',
            Trimmed::LineFeed => c == '\n',
        }
    }

    /// Tests whether `c` is in the set.
    pub fn has(self, c: char) -> (b: bool)
        ensures
            b == self.holds(c),
    {
        match self {
            Trimmed::Blank => {
                ('\u{9}' <= c && c <= '\u{d}') || c == ' ' || c == '\u{85}' || c == '\u{a0}' || c
                    == '\u{1680}' || ('\u{2000}' <= c && c <= '\u{200a}') || c == '\u{2028}' || c
                    == '\u{2029}' || c == '\u{202f}' || c == '\u{205f}' || c == '\u{3000}'
            },
            Trimmed::Quote => c == '"',
            Trimmed::LineFeed => c == '\n',
        }
    }
}

/// `text` without the characters of `set` that begin it.
pub open spec fn without_head(text: Text, set: Trimmed) -> Text
    decreases text.len(),
{
    if text.len() > 0 && set.holds(text[0]) {
        without_head(text.drop_first(), set)
    } else {
        text
    }
}

/// `text` without the characters of `set` that end it.
pub open spec fn without_tail(text: Text, set: Trimmed) -> Text
    decreases text.len(),
{
    if text.len() > 0 && set.holds(text.last()) {
        without_tail(text.drop_last(), set)
    } else {
        text
    }
}

/// `text` without the characters of `set` at either end.
pub open spec fn trimmed(text: Text, set: Trimmed) -> Text {
    without_tail(without_head(text, set), set)
}

/// Cuts the characters of `set` off the end of `text`.
pub fn trim_end(text: &str, set: Trimmed) -> (out: String)
    ensures
        out@ == without_tail(text@, set),
{
    let chars = chars_of(text);
    let mut to: usize = chars.len();
    assert(text@.take(to as int) =~= text@);
    while to > 0 && set.has(chars[to - 1])
        invariant
            to <= chars@.len(),
            chars@ == text@,
            without_tail(text@, set) == without_tail(text@.take(to as int), set),
        decreases to,
    {
        assert(text@.take(to as int).drop_last() =~= text@.take(to - 1));
        to -= 1;
    }
    string_of(&chars, 0, to)
}

/// Cuts the characters of `set` off both ends of `text`.
pub fn trim(text: &str, set: Trimmed) -> (out: String)
    ensures
        out@ == trimmed(text@, set),
{
    let chars = chars_of(text);
    let mut from: usize = 0;
    assert(text@.skip(0) =~= text@);
    while from < chars.len() && set.has(chars[from])
        invariant
            from <= chars@.len(),
            chars@ == text@,
            without_head(text@, set) == without_head(text@.skip(from as int), set),
        decreases chars@.len() - from,
    {
        assert(text@.skip(from as int).drop_first() =~= text@.skip(from + 1));
        from += 1;
    }
    let rest = string_of(&chars, from, chars.len());
    assert(rest@ =~= text@.skip(from as int));
    trim_end(rest.as_str(), set)
}

/// How many words `text` has from position `from` on: a word begins at each
/// character that is not blank and has no other such character before it.
pub open spec fn words_from(text: Text, from: int) -> nat
    decreases text.len() - from,
{
    if from < 0 || from >= text.len() {
        0
    } else {
        let begins = !is_blank(text[from]) && (from == 0 || is_blank(text[from - 1]));
        (if begins { 1nat } else { 0nat }) + words_from(text, from + 1)
    }
}

/// Counts the words of `text`.
pub fn count_words(text: &str) -> (n: usize)
    ensures
        n == words_from(text@, 0),
{
    let chars = chars_of(text);
    let mut i: usize = 0;
    let mut n: usize = 0;
    while i < chars.len()
        invariant
            i <= chars@.len(),
            chars@ == text@,
            n <= i,
            n + words_from(text@, i as int) == words_from(text@, 0),
        decreases chars@.len() - i,
    {
        if !Trimmed::Blank.has(chars[i]) && (i == 0 || Trimmed::Blank.has(chars[i - 1])) {
            n += 1;
        }
        i += 1;
    }
    n
}

/// The characters of `text` in front of the first blank one.
pub open spec fn until_blank(text: Text) -> Text
    decreases text.len(),
{
    if text.len() == 0 || is_blank(text[0]) {
        Seq::empty()
    } else {
        seq![text[0]] + until_blank(text.drop_first())
    }
}

/// The first word of `text`, where it has one.
pub open spec fn first_word_of(text: Text) -> Option<Text> {
    let rest = without_head(text, Trimmed::Blank);
    if rest.len() == 0 {
        None
    } else {
        Some(until_blank(rest))
    }
}

/// The text that an optional string holds.
pub open spec fn opt_text(s: Option<String>) -> Option<Text> {
    match s {
        Some(s) => Some(s@),
        None => None,
    }
}

/// Finds the first word of `text`.
pub fn first_word(text: &str) -> (word: Option<String>)
    ensures
        opt_text(word) == first_word_of(text@),
{
    let chars = chars_of(text);
    let mut from: usize = 0;
    assert(text@.skip(0) =~= text@);
    while from < chars.len() && Trimmed::Blank.has(chars[from])
        invariant
            from <= chars@.len(),
            chars@ == text@,
            without_head(text@, Trimmed::Blank) == without_head(
                text@.skip(from as int),
                Trimmed::Blank,
            ),
        decreases chars@.len() - from,
    {
        assert(text@.skip(from as int).drop_first() =~= text@.skip(from + 1));
        from += 1;
    }
    if from >= chars.len() {
        return None;
    }
    let mut to: usize = from;
    let ghost rest = text@.skip(from as int);
    assert(rest.take(0) + rest.skip(0) =~= rest);
    assert(rest.skip(0) =~= rest);
    while to < chars.len() && !Trimmed::Blank.has(chars[to])
        invariant
            from <= to <= chars@.len(),
            chars@ == text@,
            rest == text@.skip(from as int),
            until_blank(rest) =~= rest.take(to - from) + until_blank(rest.skip(to - from)),
        decreases chars@.len() - to,
    {
        assert(rest.skip(to - from).drop_first() =~= rest.skip(to + 1 - from));
        assert(rest.take(to + 1 - from) =~= rest.take(to - from).push(rest[to - from]));
        to += 1;
    }
    let word = string_of(&chars, from, to);
    assert(word@ =~= until_blank(rest));
    Some(word)
}

/// `text` before and behind its first `c`, where it holds one.
pub open spec fn split_once_at(text: Text, c: char) -> Option<(Text, Text)> {
    let at = find_from(text, c, 0);
    if at >= text.len() {
        None
    } else {
        Some((text.subrange(0, at), text.subrange(at + 1, text.len() as int)))
    }
}

/// Splits `text` at its first `c`.
pub fn split_once(text: &str, c: char) -> (parts: Option<(String, String)>)
    ensures
        match parts {
            Some((head, tail)) => split_once_at(text@, c) == Some((head@, tail@)),
            None => split_once_at(text@, c) is None,
        },
{
    let chars = chars_of(text);
    let at = find_char(&chars, c, 0);
    if at >= chars.len() {
        None
    } else {
        Some((string_of(&chars, 0, at), string_of(&chars, at + 1, chars.len())))
    }
}

/// Whether `text` begins with `head`.
pub open spec fn begins_with(text: Text, head: Text) -> bool {
    head.len() <= text.len() && text.subrange(0, head.len() as int) == head
}

/// Whether `text` ends with `tail`.
pub open spec fn ends_with(text: Text, tail: Text) -> bool {
    tail.len() <= text.len() && text.subrange(text.len() - tail.len(), text.len() as int) == tail
}

/// Whether `needle` stands in `text` at position `at`.
pub open spec fn stands_at(text: Text, needle: Text, at: int) -> bool {
    0 <= at && at + needle.len() <= text.len() && text.subrange(at, at + needle.len()) == needle
}

/// Whether `needle` stands somewhere in `text`.
pub open spec fn has_text(text: Text, needle: Text) -> bool {
    exists|at: int| stands_at(text, needle, at)
}

/// Compares `needle` with the characters of `text` from `at` on.
fn matches_at(text: &Vec<char>, needle: &Vec<char>, at: usize) -> (found: bool)
    requires
        at + needle@.len() <= text@.len(),
    ensures
        found == stands_at(text@, needle@, at as int),
{
    let total: usize = text.len();
    let mut i: usize = 0;
    while i < needle.len()
        invariant
            i <= needle@.len(),
            total == text@.len(),
            at + needle@.len() <= total,
            forall|j: int| 0 <= j < i ==> text@[at + j] == needle@[j],
        decreases needle@.len() - i,
    {
        if text[at + i] != needle[i] {
            assert(text@.subrange(at as int, at + needle@.len())[i as int] != needle@[i as int]);
            return false;
        }
        i += 1;
    }
    assert(text@.subrange(at as int, at + needle@.len()) =~= needle@);
    true
}

/// Tests whether `needle` stands somewhere in `text`.
pub fn contains(text: &str, needle: &str) -> (found: bool)
    ensures
        found == has_text(text@, needle@),
{
    let haystack = chars_of(text);
    let sought = chars_of(needle);
    if sought.len() > haystack.len() {
        return false;
    }
    let last: usize = haystack.len() - sought.len();
    let mut at: usize = 0;
    while at <= last
        invariant
            haystack@ == text@,
            sought@ == needle@,
            last == haystack@.len() - sought@.len(),
            at <= last + 1,
            forall|i: int| 0 <= i < at ==> !stands_at(text@, needle@, i),
        decreases last + 1 - at,
    {
        if matches_at(&haystack, &sought, at) {
            return true;
        }
        if at == last {
            return false;
        }
        at += 1;
    }
    false
}

/// Tests whether `text` ends with `tail`.
pub fn has_tail(text: &str, tail: &str) -> (found: bool)
    ensures
        found == ends_with(text@, tail@),
{
    let chars = chars_of(text);
    let sought = chars_of(tail);
    sought.len() <= chars.len() && matches_at(&chars, &sought, chars.len() - sought.len())
}

/// What follows `head` in `text`, where `text` begins with it.
pub fn strip_head(text: &str, head: &str) -> (rest: Option<String>)
    ensures
        opt_text(rest) == (if begins_with(text@, head@) {
            Some(text@.skip(head@.len() as int))
        } else {
            None
        }),
{
    let chars = chars_of(text);
    let sought = chars_of(head);
    if sought.len() <= chars.len() && matches_at(&chars, &sought, 0) {
        let rest = string_of(&chars, sought.len(), chars.len());
        assert(rest@ =~= text@.skip(head@.len() as int));
        Some(rest)
    } else {
        None
    }
}

/// The lower-case form of a text, as `str::to_lowercase` gives it.
pub uninterp spec fn lowercase_text(text: Seq<char>) -> Seq<char>;

/// An ASCII letter in lower case; any other character as it is.
pub open spec fn ascii_lower(c: char) -> char {
    if 'A' <= c <= 'Z' {
        ((c as u32) + 32) as char
    } else {
        c
    }
}

/// `str::to_lowercase`: the result is named, and of an ASCII text it is the
/// text with each letter in lower case.
#[verifier::external_body]
pub(crate) fn lowercase(text: &str) -> (out: String)
    ensures
        out@ == lowercase_text(text@),
        is_ascii_chars(text@) ==> out@ == text@.map_values(|c: char| ascii_lower(c)),
{
    text.to_lowercase()
}

/// The text that `String::from_utf8_lossy` makes of some bytes.
pub uninterp spec fn lossy_text(bytes: Seq<u8>) -> Seq<char>;

/// `String::from_utf8_lossy`: the result is named, and of valid UTF-8 it is the
/// text that the bytes encode.
#[verifier::external_body]
pub(crate) fn lossy(bytes: &[u8]) -> (out: String)
    ensures
        out@ == lossy_text(bytes@),
        valid_utf8(bytes@) ==> out@ == decode_utf8(bytes@),
{
    String::from_utf8_lossy(bytes).into_owned()
}

/// `String::from_utf8`: a string where the bytes are valid UTF-8, and then the
/// text that they encode; nothing where they are not.
#[verifier::external_body]
pub(crate) fn utf8_text(bytes: Vec<u8>) -> (out: Option<String>)
    ensures
        opt_text(out) == (if valid_utf8(bytes@) {
            Some(decode_utf8(bytes@))
        } else {
            None
        }),
{
    String::from_utf8(bytes).ok()
}

/// The order of texts: by the first character in which they differ, and a text
/// before those that it begins.
pub open spec fn text_le(a: Text, b: Text) -> bool
    decreases a.len(),
{
    if a.len() == 0 {
        true
    } else if b.len() == 0 {
        false
    } else if a[0] != b[0] {
        a[0] < b[0]
    } else {
        text_le(a.drop_first(), b.drop_first())
    }
}

/// Compares two strings in that order.
pub fn in_order(a: &str, b: &str) -> (le: bool)
    ensures
        le == text_le(a@, b@),
{
    let x = chars_of(a);
    let y = chars_of(b);
    let mut i: usize = 0;
    assert(x@.skip(0) =~= x@);
    assert(y@.skip(0) =~= y@);
    while i < x.len() && i < y.len() && x[i] == y[i]
        invariant
            i <= x@.len(),
            i <= y@.len(),
            x@ == a@,
            y@ == b@,
            text_le(a@, b@) == text_le(x@.skip(i as int), y@.skip(i as int)),
        decreases x@.len() - i,
    {
        assert(x@.skip(i as int).drop_first() =~= x@.skip(i + 1));
        assert(y@.skip(i as int).drop_first() =~= y@.skip(i + 1));
        i += 1;
    }
    if i >= x.len() {
        true
    } else if i >= y.len() {
        false
    } else {
        x[i] < y[i]
    }
}

/// Where a text goes in a sorted list: in front of the first text that it does
/// not follow.
pub open spec fn inserted(sorted: Seq<Text>, text: Text) -> Seq<Text>
    decreases sorted.len(),
{
    if sorted.len() == 0 {
        seq![text]
    } else if text_le(sorted.last(), text) {
        sorted.push(text)
    } else {
        inserted(sorted.drop_last(), text).push(sorted.last())
    }
}

/// A list of texts in order.
pub open spec fn sorted_texts(items: Seq<Text>) -> Seq<Text>
    decreases items.len(),
{
    if items.len() == 0 {
        items
    } else {
        inserted(sorted_texts(items.drop_last()), items.last())
    }
}

/// Puts `text` into its place in `sorted`.
fn insert_sorted(sorted: &mut Vec<String>, text: String)
    ensures
        texts(final(sorted)@) == inserted(texts(old(sorted)@), text@),
{
    let mut at: usize = sorted.len();
    let ghost all = texts(sorted@);
    assert(all.take(at as int) =~= all);
    assert(all.skip(at as int) =~= Seq::<Text>::empty());
    assert(inserted(all, text@) =~= inserted(all.take(at as int), text@) + all.skip(at as int));
    while at > 0 && !in_order(sorted[at - 1].as_str(), text.as_str())
        invariant
            at <= sorted@.len(),
            sorted@ == old(sorted)@,
            all == texts(sorted@),
            inserted(all, text@) =~= inserted(all.take(at as int), text@) + all.skip(at as int),
        decreases at,
    {
        let ghost head = all.take(at as int);
        assert(head.last() == sorted@[at - 1]@);
        assert(head.drop_last() =~= all.take(at - 1));
        assert(seq![head.last()] + all.skip(at as int) =~= all.skip(at - 1));
        assert(inserted(head, text@) + all.skip(at as int) =~= inserted(all.take(at - 1), text@)
            + all.skip(at - 1));
        at -= 1;
    }
    proof {
        if at > 0 {
            assert(all.take(at as int).last() == sorted@[at - 1]@);
        }
    }
    sorted.insert(at, text);
    assert(texts(sorted@) =~= inserted(all, text@));
}

/// Puts the strings of a list in order.
pub fn sort_texts(items: &Vec<String>) -> (out: Vec<String>)
    ensures
        texts(out@) == sorted_texts(texts(items@)),
{
    let mut out: Vec<String> = Vec::new();
    let mut i: usize = 0;
    let ghost all = texts(items@);
    assert(all.take(0) =~= Seq::<Text>::empty());
    assert(texts(out@) =~= Seq::<Text>::empty());
    while i < items.len()
        invariant
            i <= items@.len(),
            all == texts(items@),
            texts(out@) == sorted_texts(all.take(i as int)),
        decreases items@.len() - i,
    {
        assert(all.take(i + 1).drop_last() =~= all.take(i as int));
        assert(all.take(i + 1).last() == items@[i as int]@);
        insert_sorted(&mut out, items[i].clone());
        i += 1;
    }
    assert(all.take(items@.len() as int) =~= all);
    out
}

/// Any two texts are in order one way or the other, and both ways only where they
/// are the same.
proof fn lemma_order(a: Text, b: Text)
    ensures
        text_le(a, b) || text_le(b, a),
        text_le(a, b) && text_le(b, a) ==> a == b,
    decreases a.len(),
{
    if a.len() > 0 && b.len() > 0 && a[0] == b[0] {
        lemma_order(a.drop_first(), b.drop_first());
        if text_le(a, b) && text_le(b, a) {
            assert(a =~= seq![a[0]] + a.drop_first());
            assert(b =~= seq![b[0]] + b.drop_first());
        }
    } else if a.len() == 0 && b.len() == 0 {
        assert(a =~= b);
    }
}

/// What is in order with a text is in order with what that text is in order with.
proof fn lemma_order_trans(a: Text, b: Text, c: Text)
    requires
        text_le(a, b),
        text_le(b, c),
    ensures
        text_le(a, c),
    decreases a.len(),
{
    if a.len() > 0 && b.len() > 0 && c.len() > 0 && a[0] == b[0] && b[0] == c[0] {
        lemma_order_trans(a.drop_first(), b.drop_first(), c.drop_first());
    }
}

/// Whether a list of texts is in order.
pub open spec fn is_sorted(items: Seq<Text>) -> bool {
    forall|i: int, j: int|
        0 <= i < j < items.len() ==> text_le(#[trigger] items[i], #[trigger] items[j])
}

/// A list stays in order when a text is put into its place.
proof fn lemma_inserted(sorted: Seq<Text>, text: Text)
    requires
        is_sorted(sorted),
    ensures
        is_sorted(inserted(sorted, text)),
        inserted(sorted, text).to_multiset() == sorted.to_multiset().insert(text),
        forall|i: int|
            0 <= i < inserted(sorted, text).len() ==> #[trigger] inserted(sorted, text)[i] == text
                || sorted.contains(inserted(sorted, text)[i]),
    decreases sorted.len(),
{
    sorted.to_multiset_ensures();
    if sorted.len() == 0 {
        assert(seq![text] =~= sorted.push(text));
    } else {
        let last = sorted.last();
        let head = sorted.drop_last();
        if text_le(last, text) {
            assert forall|i: int| 0 <= i < sorted.len() implies text_le(
                #[trigger] sorted[i],
                text,
            ) by {
                if i < sorted.len() - 1 {
                    lemma_order_trans(sorted[i], last, text);
                }
            }
            assert forall|i: int|
                0 <= i < inserted(sorted, text).len() implies #[trigger] inserted(sorted, text)[i]
                == text || sorted.contains(inserted(sorted, text)[i]) by {
                if i < sorted.len() {
                    assert(sorted.contains(sorted[i]));
                }
            }
        } else {
            lemma_inserted(head, text);
            lemma_order(last, text);
            let front = inserted(head, text);
            front.to_multiset_ensures();
            head.to_multiset_ensures();
            assert(sorted =~= head.push(last));
            assert forall|i: int| 0 <= i < front.len() implies text_le(
                #[trigger] front[i],
                last,
            ) by {
                if front[i] != text {
                    let k = choose|k: int| 0 <= k < head.len() && head[k] == front[i];
                    assert(sorted[k] == front[i]);
                }
            }
            assert(front.push(last).to_multiset() =~= sorted.to_multiset().insert(text));
            assert forall|i: int|
                0 <= i < inserted(sorted, text).len() implies #[trigger] inserted(sorted, text)[i]
                == text || sorted.contains(inserted(sorted, text)[i]) by {
                if i < front.len() {
                    assert(front[i] == inserted(sorted, text)[i]);
                    if front[i] != text {
                        let k = choose|k: int| 0 <= k < head.len() && head[k] == front[i];
                        assert(sorted[k] == front[i]);
                    }
                } else {
                    assert(sorted[sorted.len() - 1] == last);
                }
            }
        }
    }
}

/// A sorted list is in order, and has the same texts as before, each as often.
pub proof fn sorting_puts_in_order(items: Seq<Text>)
    ensures
        is_sorted(sorted_texts(items)),
        sorted_texts(items).to_multiset() == items.to_multiset(),
    decreases items.len(),
{
    items.to_multiset_ensures();
    if items.len() > 0 {
        let head = items.drop_last();
        sorting_puts_in_order(head);
        lemma_inserted(sorted_texts(head), items.last());
        head.to_multiset_ensures();
        assert(items =~= head.push(items.last()));
    }
}

/// The order in which texts come does not matter to the sorted list.
pub proof fn sorting_forgets_the_order(a: Seq<Text>, b: Seq<Text>)
    requires
        a.to_multiset() == b.to_multiset(),
    ensures
        sorted_texts(a) == sorted_texts(b),
{
    sorting_puts_in_order(a);
    sorting_puts_in_order(b);
    let le = |x: Text, y: Text| text_le(x, y);
    assert forall|x: Text| #[trigger] le(x, x) by {
        lemma_order(x, x);
    }
    assert forall|x: Text, y: Text| #[trigger] le(x, y) && #[trigger] le(y, x) implies x == y by {
        lemma_order(x, y);
    }
    assert forall|x: Text, y: Text, z: Text| #[trigger] le(x, y) && #[trigger] le(
        y,
        z,
    ) implies le(x, z) by {
        lemma_order_trans(x, y, z);
    }
    assert forall|x: Text, y: Text| #[trigger] le(x, y) || le(y, x) by {
        lemma_order(x, y);
    }
    vstd::seq_lib::lemma_sorted_unique(sorted_texts(a), sorted_texts(b), le);
}

/// Of a list without repetitions, the set of its texts is all that matters to the
/// sorted list.
pub proof fn sorting_sees_the_set_alone(a: Seq<Text>, b: Seq<Text>)
    requires
        a.no_duplicates(),
        b.no_duplicates(),
        a.to_set() == b.to_set(),
    ensures
        sorted_texts(a) == sorted_texts(b),
        a.len() == b.len(),
{
    a.to_multiset_ensures();
    b.to_multiset_ensures();
    a.lemma_multiset_has_no_duplicates();
    b.lemma_multiset_has_no_duplicates();
    assert forall|x: Text| a.to_multiset().count(x) == b.to_multiset().count(x) by {
        assert(a.to_set().contains(x) == a.contains(x));
        assert(b.to_set().contains(x) == b.contains(x));
        assert(a.to_multiset().contains(x) == a.contains(x));
        assert(b.to_multiset().contains(x) == b.contains(x));
    }
    assert(a.to_multiset() =~= b.to_multiset());
    sorting_forgets_the_order(a, b);
}

} // verus!
