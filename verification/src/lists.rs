//! Lists of resolvers and hosts: one entry per line, with comments.

use vstd::prelude::*;

use crate::text::{
    chars_of, is_white_space, text_of, trim_bounds, trimmed, without_back, without_front,
};
use crate::utils::lemma_core_is_left;

verus! {

/// The part of `text` before the first `mark`, or all of it where there is none.
pub open spec fn before(text: Seq<char>, mark: char) -> Seq<char>
    decreases text.len(),
{
    if text.len() == 0 || text[0] == mark {
        seq![]
    } else {
        seq![text[0]] + before(text.drop_first(), mark)
    }
}

/// The entries of a list: what stands on a line before the first `#`, without the
/// white space around it, where that leaves anything.
pub open spec fn entries(text: Seq<char>) -> Seq<Seq<char>>
    decreases text.len(),
{
    let line = before(text, '\n');
    let entry = trimmed(before(line, '#'));
    let rest = if line.len() < text.len() {
        entries(text.skip(line.len() as int + 1))
    } else {
        seq![]
    };
    if entry.len() == 0 {
        rest
    } else {
        seq![entry] + rest
    }
}

/// What is before a mark is a front part of the text that does not hold the mark, and
/// ends at one or with the text.
proof fn lemma_before(text: Seq<char>, mark: char)
    ensures
        before(text, mark).len() <= text.len(),
        before(text, mark) == text.take(before(text, mark).len() as int),
        forall|i: int| 0 <= i < before(text, mark).len() ==> text[i] != mark,
        before(text, mark).len() < text.len() ==> text[before(text, mark).len() as int] == mark,
    decreases text.len(),
{
    if text.len() > 0 && text[0] != mark {
        let rest = text.drop_first();
        lemma_before(rest, mark);
        let front = before(text, mark);
        assert(front =~= text.take(front.len() as int));
        assert forall|i: int| 0 <= i < front.len() implies text[i] != mark by {
            if i > 0 {
                assert(text[i] == rest[i - 1]);
            }
        }
        if front.len() < text.len() {
            assert(text[front.len() as int] == rest[front.len() - 1]);
        }
    } else {
        assert(before(text, mark) =~= text.take(0));
    }
}

/// A front part of the text that does not hold the mark, and ends at one or with the
/// text, is what is before the mark.
proof fn lemma_before_is_unique(text: Seq<char>, mark: char, len: int)
    requires
        0 <= len <= text.len(),
        forall|i: int| 0 <= i < len ==> text[i] != mark,
        len < text.len() ==> text[len] == mark,
    ensures
        before(text, mark) == text.take(len),
{
    lemma_before(text, mark);
    let n = before(text, mark).len() as int;
    if n < len {
        assert(text[n] != mark);
    }
}

/// Where the first `mark` of `chars` from `from` up to `to` stands, or `to` where there
/// is none.
fn find(chars: &Vec<char>, from: usize, to: usize, mark: char) -> (end: usize)
    requires
        from <= to <= chars@.len(),
    ensures
        from <= end <= to,
        chars@.subrange(from as int, end as int) == before(
            chars@.subrange(from as int, to as int),
            mark,
        ),
{
    let ghost text = chars@.subrange(from as int, to as int);
    let mut i: usize = from;
    while i < to && chars[i] != mark
        invariant
            from <= i <= to <= chars@.len(),
            text == chars@.subrange(from as int, to as int),
            forall|j: int| 0 <= j < i - from ==> text[j] != mark,
        decreases to - i,
    {
        assert(text[i - from] == chars@[i as int]);
        i += 1;
    }
    proof {
        if i < to {
            assert(text[i - from] == chars@[i as int]);
        }
        lemma_before_is_unique(text, mark, i - from);
        assert(text.take(i - from) =~= chars@.subrange(from as int, i as int));
    }
    i
}

/// The texts that strings hold.
pub open spec fn texts(strings: Seq<String>) -> Seq<Seq<char>> {
    strings.map_values(|string: String| string@)
}

/// The entries of a list.
pub fn list_entries(text: &str) -> (list: Vec<String>)
    ensures
        texts(list@) == entries(text@),
{
    let chars: Vec<char> = chars_of(text);
    let n: usize = chars.len();
    let mut list: Vec<String> = Vec::new();
    let mut from: usize = 0;
    assert(chars@.skip(0) =~= text@);
    assert(texts(list@) + entries(chars@.skip(0)) =~= entries(text@));
    loop
        invariant_except_break
            from <= n,
            n == chars@.len(),
            texts(list@) + entries(chars@.skip(from as int)) == entries(text@),
        ensures
            texts(list@) == entries(text@),
        decreases n - from,
    {
        let end: usize = find(&chars, from, n, '\n');
        let hash: usize = find(&chars, from, end, '#');
        let (a, b): (usize, usize) = trim_bounds(&chars, from, hash);
        let ghost listed = list@;
        let ghost remaining = chars@.skip(from as int);
        let ghost entry = chars@.subrange(a as int, b as int);
        let ghost rest = if end < n {
            entries(chars@.skip(end + 1))
        } else {
            seq![]
        };
        proof {
            assert(chars@.subrange(from as int, n as int) =~= remaining);
            if end < n {
                assert(remaining.skip(end - from + 1) =~= chars@.skip(end + 1));
            }
            assert(entries(remaining) == (if entry.len() == 0 {
                rest
            } else {
                seq![entry] + rest
            }));
        }
        if a < b {
            list.push(text_of(&chars, a, b));
            assert(texts(list@) =~= texts(listed).push(entry));
        }
        assert(texts(list@) + rest =~= entries(text@));
        if end == n {
            assert(texts(list@) + rest =~= texts(list@));
            break ;
        }
        from = end + 1;
    }
    list
}

/// What is said of a list without entries.
pub open spec fn empty_list_text(what: Seq<char>, path: Seq<char>) -> Seq<char> {
    what + " list `"@ + path + "` is empty"@
}

/// The entries of the list `text`, which was read from `path`. A list without any is
/// refused.
fn load(what: &str, text: &str, path: &str) -> (list: Result<Vec<String>, String>)
    ensures
        if entries(text@).len() == 0 {
            list matches Err(said) && said@ == empty_list_text(what@, path@)
        } else {
            list matches Ok(loaded) && texts(loaded@) == entries(text@)
        },
{
    let list: Vec<String> = list_entries(text);
    assert(list@.len() == entries(text@).len());
    if list.len() == 0 {
        let mut said: String = what.to_owned();
        said.append(" list `");
        said.append(path);
        said.append("` is empty");
        return Err(said);
    }
    Ok(list)
}

/// The resolvers in the list `text`, which was read from `path`.
pub fn load_resolvers(text: &str, path: &str) -> (resolvers: Result<Vec<String>, String>)
    ensures
        if entries(text@).len() == 0 {
            resolvers matches Err(said) && said@ == empty_list_text("resolver"@, path@)
        } else {
            resolvers matches Ok(list) && texts(list@) == entries(text@)
        },
{
    load("resolver", text, path)
}

/// The hosts in the list `text`, which was read from `path`.
pub fn load_hosts(text: &str, path: &str) -> (hosts: Result<Vec<String>, String>)
    ensures
        if entries(text@).len() == 0 {
            hosts matches Err(said) && said@ == empty_list_text("host"@, path@)
        } else {
            hosts matches Ok(list) && texts(list@) == entries(text@)
        },
{
    load("host", text, path)
}

/// Whether `entry` can be one of a list: it is not empty, holds no comment mark and no
/// line end, and has no white space at either end.
pub open spec fn is_clean(entry: Seq<char>) -> bool {
    &&& entry.len() > 0
    &&& !is_white_space(entry[0])
    &&& !is_white_space(entry.last())
    &&& forall|i: int| 0 <= i < entry.len() ==> entry[i] != '#' && entry[i] != '\n'
}

/// What is left once characters are dropped from the front is a back part of the text,
/// and does not begin with such a character.
proof fn lemma_without_front(text: Seq<char>, p: spec_fn(char) -> bool)
    ensures
        without_front(text, p).len() <= text.len(),
        without_front(text, p) == text.skip(text.len() - without_front(text, p).len()),
        without_front(text, p).len() > 0 ==> !p(without_front(text, p)[0]),
    decreases text.len(),
{
    if text.len() > 0 && p(text[0]) {
        lemma_without_front(text.drop_first(), p);
        assert(without_front(text, p) =~= text.skip(text.len() - without_front(text, p).len()));
    } else {
        assert(text =~= text.skip(0));
    }
}

/// What is left once characters are dropped from the back is a front part of the text,
/// and does not end with such a character.
proof fn lemma_without_back(text: Seq<char>, p: spec_fn(char) -> bool)
    ensures
        without_back(text, p).len() <= text.len(),
        without_back(text, p) == text.take(without_back(text, p).len() as int),
        without_back(text, p).len() > 0 ==> !p(without_back(text, p).last()),
    decreases text.len(),
{
    if text.len() > 0 && p(text.last()) {
        lemma_without_back(text.drop_last(), p);
        assert(without_back(text, p) =~= text.take(without_back(text, p).len() as int));
    } else {
        assert(text =~= text.take(text.len() as int));
    }
}

/// Every entry of a list is clean, whatever the list holds.
pub proof fn law_entries_are_clean(text: Seq<char>, i: int)
    requires
        0 <= i < entries(text).len(),
    ensures
        is_clean(entries(text)[i]),
    decreases text.len(),
{
    let line = before(text, '\n');
    let part = before(line, '#');
    let entry = trimmed(part);
    lemma_before(text, '\n');
    lemma_before(line, '#');
    let p = |c: char| is_white_space(c);
    let front = without_front(part, p);
    lemma_without_front(part, p);
    lemma_without_back(front, p);
    assert forall|j: int| 0 <= j < part.len() implies part[j] != '#' && part[j] != '\n' by {
        assert(part[j] == line[j]);
        assert(line[j] == text[j]);
    }
    if entry.len() > 0 && i == 0 {
        assert(entry[0] == front[0]);
        assert forall|j: int| 0 <= j < entry.len() implies entry[j] != '#' && entry[j] != '\n' by {
            assert(entry[j] == front[j]);
            assert(front[j] == part[part.len() - front.len() + j]);
        }
    } else if line.len() < text.len() {
        let skipped = if entry.len() > 0 {
            1int
        } else {
            0int
        };
        law_entries_are_clean(text.skip(line.len() as int + 1), i - skipped);
    }
}

/// Whether `text` is of one line.
pub open spec fn is_one_line(text: Seq<char>) -> bool {
    forall|i: int| 0 <= i < text.len() ==> text[i] != '\n'
}

/// What comes before a mark that a text without the mark is followed by.
proof fn lemma_before_joined(text: Seq<char>, mark: char, rest: Seq<char>)
    requires
        forall|i: int| 0 <= i < text.len() ==> text[i] != mark,
    ensures
        before(text + seq![mark] + rest, mark) == text,
        before(text, mark) == text,
{
    let joined = text + seq![mark] + rest;
    lemma_before_is_unique(joined, mark, text.len() as int);
    assert(joined.take(text.len() as int) =~= text);
    lemma_before_is_unique(text, mark, text.len() as int);
    assert(text.take(text.len() as int) =~= text);
}

/// No line is lost and none counts for another: the entries of a list are those of its
/// first line, then those of the rest, however many lines there are.
pub proof fn law_lines_are_taken_one_by_one(line: Seq<char>, rest: Seq<char>)
    requires
        is_one_line(line),
    ensures
        entries(line + seq!['\n'] + rest) == entries(line) + entries(rest),
        entries(line).len() <= 1,
{
    let text = line + seq!['\n'] + rest;
    lemma_before_joined(line, '\n', rest);
    assert(text.skip(line.len() as int + 1) =~= rest);
    assert(entries(text) =~= entries(line) + entries(rest));
}

/// A line gives its entry as it is: white space around it and a comment behind it do not
/// count, and nothing of it is lost.
pub proof fn law_an_entry_is_what_stands_on_its_line(
    space_before: Seq<char>,
    entry: Seq<char>,
    space_after: Seq<char>,
    comment: Seq<char>,
)
    requires
        entry.len() > 0,
        !is_white_space(entry[0]),
        !is_white_space(entry.last()),
        forall|i: int| 0 <= i < entry.len() ==> entry[i] != '#' && entry[i] != '\n',
        forall|i: int|
            0 <= i < space_before.len() ==> is_white_space(#[trigger] space_before[i])
                && space_before[i] != '\n',
        forall|i: int|
            0 <= i < space_after.len() ==> is_white_space(#[trigger] space_after[i])
                && space_after[i] != '\n',
        is_one_line(comment),
    ensures
        entries(space_before + entry + space_after) == seq![entry],
        entries(space_before + entry + space_after + seq!['#'] + comment) == seq![entry],
{
    let line = space_before + entry + space_after;
    let commented = line + seq!['#'] + comment;
    assert forall|i: int| 0 <= i < line.len() implies line[i] != '#' && line[i] != '\n' by {
        if i < space_before.len() {
            assert(line[i] == space_before[i]);
            assert(is_white_space(space_before[i]));
        } else if i < space_before.len() + entry.len() {
            assert(line[i] == entry[i - space_before.len()]);
        } else {
            assert(line[i] == space_after[i - space_before.len() - entry.len()]);
            assert(is_white_space(line[i]));
        }
    }
    assert forall|i: int| 0 <= i < commented.len() implies commented[i] != '\n' by {
        if i < line.len() {
            assert(commented[i] == line[i]);
        } else if i > line.len() {
            assert(commented[i] == comment[i - line.len() - 1]);
        }
    }
    lemma_core_is_left(space_before, entry, space_after, |c: char| is_white_space(c));
    lemma_before_joined(line, '\n', seq![]);
    lemma_before_joined(line, '#', comment);
    lemma_before_joined(commented, '\n', seq![]);
    assert(entries(line) =~= seq![entry]);
    assert(entries(commented) =~= seq![entry]);
}

/// A line that holds white space alone, or nothing, gives no entry, with or without a
/// comment behind it.
pub proof fn law_blank_lines_give_nothing(space: Seq<char>, comment: Seq<char>)
    requires
        forall|i: int|
            0 <= i < space.len() ==> is_white_space(#[trigger] space[i]) && space[i] != '\n',
        is_one_line(comment),
    ensures
        entries(space) == Seq::<Seq<char>>::empty(),
        entries(space + seq!['#'] + comment) == Seq::<Seq<char>>::empty(),
{
    let commented = space + seq!['#'] + comment;
    let p = |c: char| is_white_space(c);
    assert forall|i: int| 0 <= i < space.len() implies space[i] != '#' && space[i] != '\n' by {
        assert(is_white_space(space[i]));
    }
    assert forall|i: int| 0 <= i < commented.len() implies commented[i] != '\n' by {
        if i < space.len() {
            assert(commented[i] == space[i]);
        } else if i > space.len() {
            assert(commented[i] == comment[i - space.len() - 1]);
        }
    }
    lemma_without_front(space, p);
    let left = without_front(space, p);
    if left.len() > 0 {
        assert(left[0] == space[space.len() - left.len()]);
        assert(is_white_space(left[0]));
    }
    assert(trimmed(space).len() == 0);
    lemma_before_joined(space, '\n', seq![]);
    lemma_before_joined(space, '#', comment);
    lemma_before_joined(commented, '\n', seq![]);
    assert(entries(space) =~= Seq::<Seq<char>>::empty());
    assert(entries(commented) =~= Seq::<Seq<char>>::empty());
}

/// A list of strings holds the texts of its strings, each whole and in its place.
pub proof fn law_strings_hold_their_texts(strings: Seq<String>, i: int)
    requires
        0 <= i < strings.len(),
    ensures
        texts(strings).len() == strings.len(),
        texts(strings)[i] == strings[i]@,
{
}

/// A list that is refused is named by what it lists and by its path.
pub proof fn law_an_empty_list_is_named(what: Seq<char>, path: Seq<char>)
    ensures
        what.is_prefix_of(empty_list_text(what, path)),
        empty_list_text(what, path).skip(what.len() as int) == " list `"@ + path + "` is empty"@,
{
    assert(empty_list_text(what, path).take(what.len() as int) =~= what);
    assert(empty_list_text(what, path).skip(what.len() as int) =~= " list `"@ + path
        + "` is empty"@);
}

} // verus!
