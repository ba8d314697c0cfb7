//! Plain text: searching, trimming and splitting, stated over the characters of
//! a string.

use vstd::prelude::*;

verus! {

/// Appending a character to a `String` (`String::push`) adds it behind the
/// characters that are there.
pub assume_specification[ String::push ](s: &mut String, c: char)
    ensures
        final(s)@ == old(s)@.push(c),
;

/// Comparing two string slices (`str::eq`) tells whether they hold the same
/// characters.
pub assume_specification[ <str as PartialEq>::eq ](a: &str, b: &str) -> (same: bool)
    ensures
        same == (a@ == b@),
;

/// Whether two strings hold the same characters.
pub fn same_text(a: &str, b: &str) -> (same: bool)
    ensures
        same == (a@ == b@),
{
    *a == *b
}

/// Whether `needle` stands somewhere in `hay`, character by character.
pub open spec fn occurs(hay: Seq<char>, needle: Seq<char>) -> bool {
    exists|at: int| occurs_at(hay, needle, at)
}

/// Whether `needle` stands in `hay` from position `at` on.
pub open spec fn occurs_at(hay: Seq<char>, needle: Seq<char>, at: int) -> bool {
    &&& 0 <= at
    &&& at + needle.len() <= hay.len()
    &&& hay.subrange(at, at + needle.len()) == needle
}

/// The characters that Unicode calls white space.
pub open spec fn is_white_space(c: char) -> bool {
    ||| '\u{9}' <= c <= '\u{d}'
    ||| c == '\u{20}'
    ||| c == '\u{85}'
    ||| c == '\u{a0}'
    ||| c == '\u{1680}'
    ||| '\u{2000}' <= c <= '\u{200a}'
    ||| c == '\u{2028}'
    ||| c == '\u{2029}'
    ||| c == '\u{202f}'
    ||| c == '\u{205f}'
    ||| c == '\u{3000}'
}

/// `text` without the white space in front.
pub open spec fn trimmed_front(text: Seq<char>) -> Seq<char>
    decreases text.len(),
{
    if text.len() > 0 && is_white_space(text[0]) {
        trimmed_front(text.drop_first())
    } else {
        text
    }
}

/// `text` without the white space behind.
pub open spec fn trimmed_back(text: Seq<char>) -> Seq<char>
    decreases text.len(),
{
    if text.len() > 0 && is_white_space(text.last()) {
        trimmed_back(text.drop_last())
    } else {
        text
    }
}

/// `text` without the white space at either end.
pub open spec fn trimmed(text: Seq<char>) -> Seq<char> {
    trimmed_back(trimmed_front(text))
}

/// Trimmed text is empty, or has something else than white space at either end.
pub proof fn lemma_trimmed(text: Seq<char>)
    ensures
        trimmed(text).len() > 0 ==> !is_white_space(trimmed(text)[0]) && !is_white_space(
            trimmed(text).last(),
        ),
{
    lemma_trimmed_front(text);
    lemma_trimmed_back(trimmed_front(text));
}

proof fn lemma_trimmed_front(text: Seq<char>)
    ensures
        trimmed_front(text).len() > 0 ==> !is_white_space(trimmed_front(text)[0]),
    decreases text.len(),
{
    if text.len() > 0 && is_white_space(text[0]) {
        lemma_trimmed_front(text.drop_first());
    }
}

proof fn lemma_trimmed_back(text: Seq<char>)
    ensures
        trimmed_back(text).len() > 0 ==> trimmed_back(text)[0] == text[0] && !is_white_space(
            trimmed_back(text).last(),
        ),
    decreases text.len(),
{
    if text.len() > 0 && is_white_space(text.last()) {
        lemma_trimmed_back(text.drop_last());
    }
}

/// Text that begins with something else than white space is not blank.
pub proof fn lemma_not_blank(text: Seq<char>)
    requires
        text.len() > 0,
        !is_white_space(text[0]),
    ensures
        trimmed(text).len() > 0,
{
    assert(trimmed_front(text) == text);
    lemma_back_not_blank(text);
}

proof fn lemma_back_not_blank(text: Seq<char>)
    requires
        text.len() > 0,
        !is_white_space(text[0]),
    ensures
        trimmed_back(text).len() > 0,
    decreases text.len(),
{
    if is_white_space(text.last()) {
        lemma_back_not_blank(text.drop_last());
    }
}

/// The position of the first line feed, or the length where there is none.
pub open spec fn line_end(text: Seq<char>) -> int
    decreases text.len(),
{
    if text.len() == 0 || text[0] == '\n' {
        0
    } else {
        1 + line_end(text.drop_first())
    }
}

/// The lines of a text: what stands before, between and behind its line feeds,
/// except that nothing behind the last line feed is no line.
pub open spec fn lines_of(text: Seq<char>) -> Seq<Seq<char>>
    decreases text.len(),
    via lines_of_shrinks
{
    if text.len() == 0 {
        seq![]
    } else if line_end(text) == text.len() {
        seq![text]
    } else {
        seq![text.take(line_end(text))] + lines_of(text.skip(line_end(text) + 1))
    }
}

#[via_fn]
proof fn lines_of_shrinks(text: Seq<char>) {
    lemma_line_end(text);
}

/// A line ends at the first line feed, or at the end of the text.
pub proof fn lemma_line_end(text: Seq<char>)
    ensures
        0 <= line_end(text) <= text.len(),
        line_end(text) < text.len() ==> text[line_end(text)] == '\n',
        forall|i: int| 0 <= i < line_end(text) ==> #[trigger] text[i] != '\n',
    decreases text.len(),
{
    if text.len() > 0 && text[0] != '\n' {
        let rest = text.drop_first();
        lemma_line_end(rest);
        assert forall|i: int| 0 <= i < line_end(text) implies #[trigger] text[i] != '\n' by {
            if i > 0 {
                assert(rest[i - 1] != '\n');
            }
        }
    }
}

/// The end of a line is the only place that is a first line feed.
proof fn lemma_line_end_is(text: Seq<char>, end: int)
    requires
        0 <= end <= text.len(),
        end < text.len() ==> text[end] == '\n',
        forall|i: int| 0 <= i < end ==> #[trigger] text[i] != '\n',
    ensures
        line_end(text) == end,
{
    lemma_line_end(text);
}

/// A first line, its line feed and the rest: the line comes first, and then the
/// lines of the rest.
proof fn lemma_first_line(line: Seq<char>, rest: Seq<char>)
    requires
        forall|i: int| 0 <= i < line.len() ==> #[trigger] line[i] != '\n',
    ensures
        lines_of(line.push('\n') + rest) == seq![line] + lines_of(rest),
{
    let text = line.push('\n') + rest;
    lemma_line_end_is(text, line.len() as int);
    assert(text.take(line.len() as int) =~= line);
    assert(text.skip(line.len() as int + 1) =~= rest);
}

/// Text that ends at a line end, followed by more text: the lines of the one
/// are followed by the lines of the other.
pub proof fn lemma_lines_concat(front: Seq<char>, back: Seq<char>)
    requires
        front.len() == 0 || front.last() == '\n',
    ensures
        lines_of(front + back) == lines_of(front) + lines_of(back),
    decreases front.len(),
{
    if front.len() == 0 {
        assert(front + back =~= back);
        assert(lines_of(front) + lines_of(back) =~= lines_of(back));
    } else {
        let end = line_end(front);
        lemma_line_end(front);
        assert(front[front.len() - 1] == '\n');
        let line = front.take(end);
        let rest = front.skip(end + 1);
        assert(front =~= line.push('\n') + rest);
        assert(front + back =~= line.push('\n') + (rest + back));
        lemma_first_line(line, rest + back);
        lemma_lines_concat(rest, back);
        assert(lines_of(front + back) =~= lines_of(front) + lines_of(back));
    }
}

/// A line feed at the end of a text ends its last line; where that was ended
/// already, or there was none, an empty line is added.
pub proof fn lemma_lines_ended(text: Seq<char>)
    ensures
        lines_of(text.push('\n')) == if text.len() == 0 || text.last() == '\n' {
            lines_of(text).push(Seq::empty())
        } else {
            lines_of(text)
        },
    decreases text.len(),
{
    if text.len() == 0 || text.last() == '\n' {
        let feed = Seq::<char>::empty().push('\n');
        assert(text.push('\n') =~= text + feed);
        lemma_lines_concat(text, feed);
        lemma_first_line(Seq::empty(), Seq::empty());
        assert(feed + Seq::<char>::empty() =~= feed);
        assert(lines_of(text.push('\n')) =~= lines_of(text).push(Seq::empty()));
    } else {
        let end = line_end(text);
        lemma_line_end(text);
        if end == text.len() {
            lemma_first_line(text, Seq::empty());
            assert(text.push('\n') + Seq::<char>::empty() =~= text.push('\n'));
            assert(lines_of(text.push('\n')) =~= lines_of(text));
        } else {
            let line = text.take(end);
            let rest = text.skip(end + 1);
            assert(text[text.len() - 1] != '\n');
            assert(rest.last() == text.last());
            assert(text.push('\n') =~= line.push('\n') + rest.push('\n'));
            lemma_first_line(line, rest.push('\n'));
            lemma_lines_ended(rest);
        }
    }
}

/// The characters of a string in a vector.
fn chars_of(text: &str) -> (chars: Vec<char>)
    ensures
        chars@ == text@,
{
    let mut chars: Vec<char> = Vec::new();
    for c in it: text.chars()
        invariant
            chars@ == text@.take(it.index() as int),
            it.seq() == text@,
    {
        chars.push(c);
    }
    chars
}

/// Whether `c` is white space.
pub fn white_space(c: char) -> (yes: bool)
    ensures
        yes == is_white_space(c),
{
    ('\u{9}' <= c && c <= '\u{d}') || c == '\u{20}' || c == '\u{85}' || c == '\u{a0}' || c
        == '\u{1680}' || ('\u{2000}' <= c && c <= '\u{200a}') || c == '\u{2028}' || c == '\u{2029}'
        || c == '\u{202f}' || c == '\u{205f}' || c == '\u{3000}'
}

/// Whether `needle` stands somewhere in `hay`.
pub fn contains(hay: &str, needle: &str) -> (found: bool)
    ensures
        found == occurs(hay@, needle@),
{
    let hay_chars = chars_of(hay);
    let needle_chars = chars_of(needle);
    let mut at: usize = 0;
    while needle_chars.len() <= hay_chars.len() - at
        invariant
            hay_chars@ == hay@,
            needle_chars@ == needle@,
            at <= hay_chars.len(),
            forall|k: int| 0 <= k < at ==> !#[trigger] occurs_at(hay@, needle@, k),
        decreases hay@.len() - at,
    {
        let mut i: usize = 0;
        while i < needle_chars.len() && hay_chars[at + i] == needle_chars[i]
            invariant
                hay_chars@ == hay@,
                needle_chars@ == needle@,
                i <= needle@.len(),
                at + needle@.len() <= hay_chars.len(),
                forall|k: int| 0 <= k < i ==> hay@[at + k] == #[trigger] needle@[k],
            decreases needle@.len() - i,
        {
            i += 1;
        }
        if i == needle_chars.len() {
            assert(hay@.subrange(at as int, at + needle@.len()) =~= needle@);
            assert(occurs_at(hay@, needle@, at as int));
            return true;
        }
        assert(hay@.subrange(at as int, at + needle@.len())[i as int] == hay@[at + i]);
        at += 1;
    }
    false
}

/// The text of some characters.
fn text_of(chars: &Vec<char>, from: usize, to: usize) -> (text: String)
    requires
        from <= to <= chars@.len(),
    ensures
        text@ == chars@.subrange(from as int, to as int),
{
    let mut text = String::new();
    let mut i: usize = from;
    while i < to
        invariant
            from <= i <= to <= chars@.len(),
            text@ == chars@.subrange(from as int, i as int),
        decreases to - i,
    {
        text.push(chars[i]);
        i += 1;
        assert(text@ =~= chars@.subrange(from as int, i as int));
    }
    text
}

/// The text without the white space at either end.
pub fn trim(text: &str) -> (res: String)
    ensures
        res@ == trimmed(text@),
{
    let chars = chars_of(text);
    let mut from: usize = 0;
    assert(text@.skip(0) =~= text@);
    while from < chars.len() && white_space(chars[from])
        invariant
            chars@ == text@,
            from <= chars@.len(),
            trimmed_front(text@) == trimmed_front(text@.skip(from as int)),
        decreases chars@.len() - from,
    {
        assert(text@.skip(from as int).drop_first() =~= text@.skip(from + 1));
        from += 1;
    }
    let ghost front = text@.skip(from as int);
    let mut to: usize = chars.len();
    assert(front =~= text@.subrange(from as int, to as int));
    while from < to && white_space(chars[to - 1])
        invariant
            chars@ == text@,
            from <= to <= chars@.len(),
            trimmed_back(front) == trimmed_back(text@.subrange(from as int, to as int)),
        decreases to - from,
    {
        assert(text@.subrange(from as int, to as int).drop_last() =~= text@.subrange(
            from as int,
            to - 1,
        ));
        to -= 1;
    }
    text_of(&chars, from, to)
}

/// The texts of a list of strings.
pub open spec fn texts(list: Seq<String>) -> Seq<Seq<char>> {
    Seq::new(list.len(), |i: int| list[i]@)
}

/// The lines of a text.
pub fn lines(text: &str) -> (list: Vec<String>)
    ensures
        texts(list@) == lines_of(text@),
{
    let mut list: Vec<String> = Vec::new();
    let mut line = String::new();
    assert(line@ + text@.skip(0) =~= text@);
    assert(texts(list@) + lines_of(text@) =~= lines_of(text@));
    for c in it: text.chars()
        invariant
            it.seq() == text@,
            forall|i: int| 0 <= i < line@.len() ==> #[trigger] line@[i] != '\n',
            lines_of(text@) == texts(list@) + lines_of(line@ + text@.skip(it.index() as int)),
    {
        let ghost at = it.index() as int;
        let ghost rest = text@.skip(at + 1);
        if c == '\n' {
            assert(line@ + text@.skip(at) =~= line@.push('\n') + rest);
            proof {
                lemma_first_line(line@, rest);
            }
            let ghost before = texts(list@);
            let ghost ended = line@;
            list.push(line);
            line = String::new();
            assert(texts(list@) =~= before.push(ended));
            assert(line@ + rest =~= rest);
            assert(lines_of(text@) =~= texts(list@) + lines_of(line@ + rest));
        } else {
            assert(line@ + text@.skip(at) =~= line@.push(c) + rest);
            line.push(c);
        }
    }
    assert(line@ + text@.skip(text@.len() as int) =~= line@);
    let ghost before = texts(list@);
    if !line.as_str().is_empty() {
        proof {
            lemma_line_end_is(line@, line@.len() as int);
        }
        let ghost ended = line@;
        list.push(line);
        assert(texts(list@) =~= before + seq![ended]);
    } else {
        assert(before + lines_of(line@) =~= before);
    }
    list
}

/// The text of an optional string.
pub open spec fn opt_text(text: Option<String>) -> Option<Seq<char>> {
    match text {
        Some(chars) => Some(chars@),
        None => None,
    }
}

/// The text of an optional string slice.
pub open spec fn opt_str(text: Option<&str>) -> Option<Seq<char>> {
    match text {
        Some(chars) => Some(chars@),
        None => None,
    }
}

// ---------------------------------------------------------------------------
// Laws
// ---------------------------------------------------------------------------

/// A needle occurs in a text if and only if the text is something, the needle, and
/// something.
pub proof fn law_occurs_between(hay: Seq<char>, needle: Seq<char>)
    ensures
        occurs(hay, needle) <==> exists|front: Seq<char>, back: Seq<char>|
            hay == #[trigger] (front + needle + back),
{
    if occurs(hay, needle) {
        let at = choose|at: int| occurs_at(hay, needle, at);
        let front = hay.take(at);
        let back = hay.skip(at + needle.len());
        assert(hay =~= front + needle + back);
    }
    if exists|front: Seq<char>, back: Seq<char>| hay == #[trigger] (front + needle + back) {
        let (front, back) = choose|front: Seq<char>, back: Seq<char>|
            hay == #[trigger] (front + needle + back);
        let at = front.len() as int;
        assert(hay.subrange(at, at + needle.len()) =~= needle);
        assert(occurs_at(hay, needle, at));
    }
}

/// Whether a text is nothing but white space.
pub open spec fn is_blank(text: Seq<char>) -> bool {
    forall|i: int| 0 <= i < text.len() ==> is_white_space(#[trigger] text[i])
}

/// Trimming takes white space off either end of a text, and nothing else; nothing is
/// left exactly where there was nothing but white space.
pub proof fn law_trimming_takes_white_space_off(text: Seq<char>) -> (cut: (Seq<char>, Seq<char>))
    ensures
        text == cut.0 + trimmed(text) + cut.1,
        is_blank(cut.0),
        is_blank(cut.1),
        trimmed(text).len() > 0 ==> !is_white_space(trimmed(text)[0]) && !is_white_space(
            trimmed(text).last(),
        ),
        trimmed(text).len() == 0 <==> is_blank(text),
{
    lemma_trimmed(text);
    let front = lemma_cut_front(text);
    let back = lemma_cut_back(trimmed_front(text));
    assert(text =~= front + trimmed(text) + back);
    if trimmed(text).len() == 0 {
        assert forall|i: int| 0 <= i < text.len() implies is_white_space(#[trigger] text[i]) by {
            if i < front.len() {
                assert(text[i] == front[i]);
            } else {
                assert(text[i] == back[i - front.len()]);
            }
        }
    } else {
        assert(text[front.len() as int] == trimmed(text)[0]);
    }
    (front, back)
}

/// What is cut off in front is white space.
proof fn lemma_cut_front(text: Seq<char>) -> (front: Seq<char>)
    ensures
        text == front + trimmed_front(text),
        is_blank(front),
    decreases text.len(),
{
    if text.len() > 0 && is_white_space(text[0]) {
        let rest = lemma_cut_front(text.drop_first());
        let front = seq![text[0]] + rest;
        assert forall|i: int| 0 <= i < front.len() implies is_white_space(#[trigger] front[i]) by {
            if i > 0 {
                assert(front[i] == rest[i - 1]);
            }
        }
        assert(text =~= seq![text[0]] + text.drop_first());
        assert(seq![text[0]] + (rest + trimmed_front(text)) =~= front + trimmed_front(text));
        front
    } else {
        assert(text =~= Seq::empty() + trimmed_front(text));
        Seq::empty()
    }
}

/// What is cut off behind is white space.
proof fn lemma_cut_back(text: Seq<char>) -> (back: Seq<char>)
    ensures
        text == trimmed_back(text) + back,
        is_blank(back),
    decreases text.len(),
{
    if text.len() > 0 && is_white_space(text.last()) {
        let rest = lemma_cut_back(text.drop_last());
        let back = rest.push(text.last());
        assert forall|i: int| 0 <= i < back.len() implies is_white_space(#[trigger] back[i]) by {
            if i < rest.len() {
                assert(back[i] == rest[i]);
            }
        }
        assert(text =~= text.drop_last().push(text.last()));
        assert((trimmed_back(text) + rest).push(text.last()) =~= trimmed_back(text) + back);
        back
    } else {
        assert(text =~= trimmed_back(text) + Seq::empty());
        Seq::empty()
    }
}

/// Some lines, each with a line feed behind it.
pub open spec fn with_line_feeds(list: Seq<Seq<char>>) -> Seq<char>
    decreases list.len(),
{
    if list.len() == 0 {
        Seq::empty()
    } else {
        list[0].push('\n') + with_line_feeds(list.drop_first())
    }
}

/// No line holds a line feed, and the lines with a line feed behind each are the
/// text, with a line feed added where its last line had none.
pub proof fn law_lines_make_the_text(text: Seq<char>)
    ensures
        forall|i: int, j: int|
            0 <= i < lines_of(text).len() && 0 <= j < lines_of(text)[i].len() ==> #[trigger] lines_of(
                text,
            )[i][j] != '\n',
        with_line_feeds(lines_of(text)) == if text.len() == 0 || text.last() == '\n' {
            text
        } else {
            text.push('\n')
        },
    decreases text.len(),
{
    lemma_line_end(text);
    if text.len() == 0 {
    } else if line_end(text) == text.len() {
        let list = lines_of(text);
        assert(list.drop_first() =~= Seq::empty());
        assert(with_line_feeds(list.drop_first()) =~= Seq::empty());
        assert(with_line_feeds(list) =~= text.push('\n'));
        assert(text[text.len() - 1] != '\n');
    } else {
        let end = line_end(text);
        let rest = text.skip(end + 1);
        let list = lines_of(text);
        law_lines_make_the_text(rest);
        assert(list.drop_first() =~= lines_of(rest));
        assert(list[0] == text.take(end));
        assert forall|i: int, j: int| 0 <= i < list.len() && 0 <= j < list[i].len() implies #[trigger] list[i][j]
            != '\n' by {
            if i > 0 {
                assert(list[i] == lines_of(rest)[i - 1]);
                assert(lines_of(rest)[i - 1][j] != '\n');
            } else {
                assert(list[0][j] == text[j]);
            }
        }
        if rest.len() > 0 {
            assert(rest.last() == text.last());
            assert(with_line_feeds(list) =~= if text.last() == '\n' {
                text
            } else {
                text.push('\n')
            });
        } else {
            assert(text.last() == '\n');
            assert(with_line_feeds(list) =~= text);
        }
    }
}

/// A list of strings, and a string that may not be there, are told by their
/// characters.
pub proof fn law_strings_are_their_characters(list: Seq<String>, string: String, slice: &str)
    ensures
        texts(list).len() == list.len(),
        forall|i: int| 0 <= i < list.len() ==> #[trigger] texts(list)[i] == list[i]@,
        opt_text(Some(string)) == Some(string@),
        opt_text(None) is None,
        opt_str(Some(slice)) == Some(slice@),
        opt_str(None) is None,
{
}

} // verus!
