//! Splitting texts into lines and fields, and joining them again.
use crate::text::first_index;
use crate::text::lemma_first_index;
use crate::text::lemma_first_index_is;
use crate::text::to_chars;
use vstd::prelude::*;
use vstd::string::*;

verus! {

/// The text of `chars` as a string.
pub fn to_text(chars: &Vec<char>) -> (text: String)
    ensures
        text@ == chars@,
{
    let mut text: String = String::new();
    let mut i: usize = 0;
    while i < chars.len()
        invariant
            i <= chars@.len(),
            text@ == chars@.take(i as int),
        decreases chars@.len() - i,
    {
        assert(chars@.take(i + 1) =~= chars@.take(i as int).push(chars@[i as int]));
        text.push(chars[i]);
        i = i + 1;
    }
    assert(chars@.take(i as int) =~= chars@);
    text
}

/// `line` without one carriage return at its end.
pub open spec fn without_return(line: Seq<char>) -> Seq<char> {
    if line.len() > 0 && line.last() == '\r' {
        line.drop_last()
    } else {
        line
    }
}

/// The lines of `s`. A line ends at a line feed, which is no part of it, nor is
/// a carriage return right before that line feed. What follows the last line
/// feed is a line if it is not empty.
pub open spec fn lines_of(s: Seq<char>) -> Seq<Seq<char>>
    decreases s.len(),
{
    let end = first_index(s, '\n') as int;
    if s.len() == 0 {
        seq![]
    } else if end >= s.len() {
        seq![s]
    } else {
        seq![without_return(s.take(end))] + lines_of(s.skip(end + 1))
    }
}

/// A first line that is ended by a line feed stands before the other lines.
pub proof fn lemma_lines_cons(line: Seq<char>, rest: Seq<char>)
    requires
        !line.contains('\n'),
    ensures
        lines_of(line.push('\n') + rest) == seq![without_return(line)] + lines_of(rest),
{
    let s = line.push('\n') + rest;
    let n = line.len() as int;
    assert forall|i: int| 0 <= i < n implies s[i] != '\n' by {
        assert(s[i] == line[i]);
    }
    lemma_first_index_is(s, '\n', n);
    assert(s.take(n) =~= line);
    assert(s.skip(n + 1) =~= rest);
}

/// A text without a line feed is one line, or none if it is empty.
pub proof fn lemma_lines_last(line: Seq<char>)
    requires
        !line.contains('\n'),
    ensures
        lines_of(line) == (if line.len() == 0 {
            Seq::<Seq<char>>::empty()
        } else {
            seq![line]
        }),
{
    assert forall|i: int| 0 <= i < line.len() implies line[i] != '\n' by {
        assert(line.contains(line[i]));
    }
    lemma_first_index_is(line, '\n', line.len() as int);
}

/// Splits a text into its lines.
pub fn lines(s: &str) -> (all: Vec<String>)
    ensures
        all.deep_view() == lines_of(s@),
{
    let chars: Vec<char> = to_chars(s);
    let mut all: Vec<String> = Vec::new();
    let mut line: Vec<char> = Vec::new();
    let mut i: usize = 0;
    assert(line@ + s@.skip(0) =~= s@);
    assert(all.deep_view() + lines_of(s@) =~= lines_of(s@));
    while i < chars.len()
        invariant
            chars@ == s@,
            i <= chars@.len(),
            !line@.contains('\n'),
            lines_of(s@) == all.deep_view() + lines_of(line@ + s@.skip(i as int)),
        decreases chars@.len() - i,
    {
        let ghost rest = s@.skip(i + 1);
        let ghost done = all.deep_view();
        if chars[i] == '\n' {
            assert(line@ + s@.skip(i as int) =~= line@.push('\n') + rest);
            proof {
                lemma_lines_cons(line@, rest);
            }
            let ghost whole = line@;
            if line.len() > 0 && line[line.len() - 1] == '\r' {
                line.pop();
            }
            assert(line@ =~= without_return(whole));
            all.push(to_text(&line));
            assert(all.deep_view() =~= done.push(line@));
            line = Vec::new();
            assert(line@ + rest =~= rest);
            assert(done + (seq![without_return(whole)] + lines_of(rest)) =~= all.deep_view()
                + lines_of(rest));
        } else {
            let ghost start = line@;
            line.push(chars[i]);
            assert forall|j: int| 0 <= j < line@.len() implies line@[j] != '\n' by {
                if j < start.len() {
                    assert(start.contains(start[j]));
                }
            }
            assert(start + s@.skip(i as int) =~= line@ + rest);
        }
        i = i + 1;
    }
    assert(line@ + s@.skip(i as int) =~= line@);
    proof {
        lemma_lines_last(line@);
    }
    let ghost done = all.deep_view();
    if line.len() > 0 {
        all.push(to_text(&line));
        assert(all.deep_view() =~= done + seq![line@]);
    } else {
        assert(all.deep_view() =~= done + Seq::<Seq<char>>::empty());
    }
    all
}

/// The fields of `s` between the separators `sep`: one more than there are
/// separators.
pub open spec fn fields_of(s: Seq<char>, sep: char) -> Seq<Seq<char>>
    decreases s.len(),
{
    let end = first_index(s, sep) as int;
    if end >= s.len() {
        seq![s]
    } else {
        seq![s.take(end)] + fields_of(s.skip(end + 1), sep)
    }
}

/// A first field that is ended by a separator stands before the other fields.
pub proof fn lemma_fields_cons(field: Seq<char>, rest: Seq<char>, sep: char)
    requires
        !field.contains(sep),
    ensures
        fields_of(field.push(sep) + rest, sep) == seq![field] + fields_of(rest, sep),
{
    let s = field.push(sep) + rest;
    let n = field.len() as int;
    assert forall|i: int| 0 <= i < n implies s[i] != sep by {
        assert(s[i] == field[i]);
    }
    lemma_first_index_is(s, sep, n);
    assert(s.take(n) =~= field);
    assert(s.skip(n + 1) =~= rest);
}

/// A text without a separator is one field.
pub proof fn lemma_fields_last(field: Seq<char>, sep: char)
    requires
        !field.contains(sep),
    ensures
        fields_of(field, sep) == seq![field],
{
    assert forall|i: int| 0 <= i < field.len() implies field[i] != sep by {
        assert(field.contains(field[i]));
    }
    lemma_first_index_is(field, sep, field.len() as int);
}

/// Splits a text at every `sep`.
pub fn split(s: &str, sep: char) -> (all: Vec<String>)
    ensures
        all.deep_view() == fields_of(s@, sep),
{
    let chars: Vec<char> = to_chars(s);
    let mut all: Vec<String> = Vec::new();
    let mut field: Vec<char> = Vec::new();
    let mut i: usize = 0;
    assert(field@ + s@.skip(0) =~= s@);
    assert(all.deep_view() + fields_of(s@, sep) =~= fields_of(s@, sep));
    while i < chars.len()
        invariant
            chars@ == s@,
            i <= chars@.len(),
            !field@.contains(sep),
            fields_of(s@, sep) == all.deep_view() + fields_of(field@ + s@.skip(i as int), sep),
        decreases chars@.len() - i,
    {
        let ghost rest = s@.skip(i + 1);
        let ghost done = all.deep_view();
        if chars[i] == sep {
            assert(field@ + s@.skip(i as int) =~= field@.push(sep) + rest);
            proof {
                lemma_fields_cons(field@, rest, sep);
            }
            all.push(to_text(&field));
            assert(all.deep_view() =~= done.push(field@));
            assert(done + (seq![field@] + fields_of(rest, sep)) =~= all.deep_view() + fields_of(
                rest,
                sep,
            ));
            field = Vec::new();
            assert(field@ + rest =~= rest);
        } else {
            let ghost start = field@;
            field.push(chars[i]);
            assert forall|j: int| 0 <= j < field@.len() implies field@[j] != sep by {
                if j < start.len() {
                    assert(start.contains(start[j]));
                }
            }
            assert(start + s@.skip(i as int) =~= field@ + rest);
        }
        i = i + 1;
    }
    assert(field@ + s@.skip(i as int) =~= field@);
    proof {
        lemma_fields_last(field@, sep);
    }
    let ghost done = all.deep_view();
    all.push(to_text(&field));
    assert(all.deep_view() =~= done + seq![field@]);
    all
}

/// `parts` one after the other, with `sep` between any two neighbours.
pub open spec fn joined(parts: Seq<Seq<char>>, sep: Seq<char>) -> Seq<char>
    decreases parts.len(),
{
    if parts.len() == 0 {
        seq![]
    } else if parts.len() == 1 {
        parts[0]
    } else {
        joined(parts.drop_last(), sep) + sep + parts.last()
    }
}

/// Joins texts with a separator between them.
pub fn join(parts: &Vec<String>, sep: &str) -> (text: String)
    ensures
        text@ == joined(parts.deep_view(), sep@),
{
    let mut text: String = String::new();
    let mut i: usize = 0;
    let ghost all = parts.deep_view();
    while i < parts.len()
        invariant
            all == parts.deep_view(),
            i <= parts@.len(),
            text@ == joined(all.take(i as int), sep@),
        decreases parts@.len() - i,
    {
        if i > 0 {
            text.append(sep);
        }
        text.append(parts[i].as_str());
        assert(all.take(i + 1).drop_last() =~= all.take(i as int));
        assert(all.take(i + 1).last() == parts@[i as int]@);
        assert(i == 0 ==> text@ =~= parts@[0]@);
        i = i + 1;
    }
    assert(all.take(i as int) =~= all);
    text
}

/// No line holds a line feed.
pub proof fn lemma_lines_have_no_feed(s: Seq<char>)
    ensures
        forall|i: int| 0 <= i < lines_of(s).len() ==> !(#[trigger] lines_of(s)[i]).contains('\n'),
    decreases s.len(),
{
    lemma_first_index(s, '\n');
    let end = first_index(s, '\n') as int;
    if s.len() > 0 && end < s.len() {
        let rest = s.skip(end + 1);
        lemma_lines_have_no_feed(rest);
        assert forall|i: int| 0 <= i < lines_of(s).len() implies !(#[trigger] lines_of(
            s,
        )[i]).contains('\n') by {
            if i > 0 {
                assert(lines_of(s)[i] == lines_of(rest)[i - 1]);
            } else {
                let line = without_return(s.take(end));
                assert forall|j: int| 0 <= j < line.len() implies line[j] != '\n' by {
                    assert(line[j] == s[j]);
                }
            }
        }
    }
}

/// Every character of a line stands in the text.
pub proof fn lemma_lines_are_parts(s: Seq<char>)
    ensures
        forall|i: int, j: int|
            0 <= i < lines_of(s).len() && 0 <= j < lines_of(s)[i].len() ==> s.contains(
                #[trigger] lines_of(s)[i][j],
            ),
    decreases s.len(),
{
    lemma_first_index(s, '\n');
    let end = first_index(s, '\n') as int;
    if s.len() > 0 && end < s.len() {
        let rest = s.skip(end + 1);
        lemma_lines_are_parts(rest);
        assert forall|i: int, j: int|
            0 <= i < lines_of(s).len() && 0 <= j < lines_of(s)[i].len() implies s.contains(
            #[trigger] lines_of(s)[i][j],
        ) by {
            if i > 0 {
                assert(lines_of(s)[i] == lines_of(rest)[i - 1]);
                let c = lines_of(rest)[i - 1][j];
                assert(rest.contains(c));
                let k = choose|k: int| 0 <= k < rest.len() && rest[k] == c;
                assert(s[end + 1 + k] == c);
            } else {
                assert(lines_of(s)[0] == without_return(s.take(end)));
                assert(lines_of(s)[0][j] == s[j]);
            }
        }
    }
}

/// Whether lines can be told apart again once they are joined by line feeds:
/// none holds a line feed, none but the last ends in a carriage return, and the
/// last one is not empty.
pub open spec fn separable(lines: Seq<Seq<char>>) -> bool {
    &&& forall|i: int| 0 <= i < lines.len() ==> !(#[trigger] lines[i]).contains('\n')
    &&& forall|i: int|
        0 <= i < lines.len() - 1 ==> without_return(#[trigger] lines[i]) == lines[i]
    &&& lines.len() > 0 ==> lines.last().len() > 0
}

/// Lines that were joined by line feeds are the lines of the text.
pub proof fn law_joined_lines_read_back(lines: Seq<Seq<char>>)
    requires
        separable(lines),
    ensures
        lines_of(joined(lines, "\n"@)) == lines,
{
    reveal_strlit("\n");
    if lines.len() > 0 {
        let front = lines.drop_last();
        assert(!lines[lines.len() - 1].contains('\n'));
        lemma_ended_lines(front, lines.last());
        lemma_joined_is_ended(lines);
        lemma_lines_last(lines.last());
        assert(front + seq![lines.last()] =~= lines);
    }
}

/// Lines in a row, each ended by a line feed.
spec fn ended_lines(lines: Seq<Seq<char>>) -> Seq<char>
    decreases lines.len(),
{
    if lines.len() == 0 {
        seq![]
    } else {
        ended_lines(lines.drop_last()) + lines.last().push('\n')
    }
}

/// Joining lines ends each but the last.
proof fn lemma_joined_is_ended(lines: Seq<Seq<char>>)
    requires
        lines.len() > 0,
    ensures
        joined(lines, "\n"@) == ended_lines(lines.drop_last()) + lines.last(),
    decreases lines.len(),
{
    reveal_strlit("\n");
    let front = lines.drop_last();
    if lines.len() == 1 {
        assert(ended_lines(front) + lines.last() =~= lines[0]);
    } else {
        lemma_joined_is_ended(front);
        assert(joined(lines, "\n"@) =~= ended_lines(front) + lines.last());
    }
}

/// Lines that are ended by line feeds come before the lines of what follows.
proof fn lemma_ended_lines(lines: Seq<Seq<char>>, rest: Seq<char>)
    requires
        forall|i: int| 0 <= i < lines.len() ==> !(#[trigger] lines[i]).contains('\n'),
        forall|i: int| 0 <= i < lines.len() ==> without_return(#[trigger] lines[i]) == lines[i],
    ensures
        lines_of(ended_lines(lines) + rest) == lines + lines_of(rest),
    decreases lines.len(),
{
    if lines.len() == 0 {
        assert(ended_lines(lines) + rest =~= rest);
        assert(lines + lines_of(rest) =~= lines_of(rest));
    } else {
        let front = lines.drop_last();
        let line = lines[lines.len() - 1];
        let after = line.push('\n') + rest;
        lemma_ended_lines(front, after);
        assert(ended_lines(lines) + rest =~= ended_lines(front) + after);
        lemma_lines_cons(line, rest);
        assert(front + (seq![line] + lines_of(rest)) =~= lines + lines_of(rest));
    }
}

/// A line ends at a line feed, or at a carriage return and a line feed, and is
/// otherwise kept as it is; the rest of the text makes up the other lines. What
/// no line feed ends is the last line, and an empty text has none.
pub proof fn law_lines_end_at_line_feeds(line: Seq<char>, rest: Seq<char>)
    requires
        !line.contains('\n'),
    ensures
        line.len() == 0 || line.last() != '\r' ==> lines_of(line.push('\n') + rest) == seq![line]
            + lines_of(rest),
        lines_of(line.push('\r').push('\n') + rest) == seq![line] + lines_of(rest),
        line.len() > 0 ==> lines_of(line) == seq![line],
        lines_of(Seq::<char>::empty()).len() == 0,
{
    lemma_lines_cons(line, rest);
    lemma_lines_last(line);
    let returned = line.push('\r');
    assert forall|i: int| 0 <= i < returned.len() implies returned[i] != '\n' by {
        if i < line.len() {
            assert(line.contains(line[i]));
        }
    }
    lemma_lines_cons(returned, rest);
    assert(returned.drop_last() =~= line);
}

/// Parts are joined by putting the separator between them and nothing else:
/// one part is left as it is, and two lists in a row are joined like their own
/// joined texts.
pub proof fn law_joining_puts_separators_between(
    a: Seq<Seq<char>>,
    b: Seq<Seq<char>>,
    part: Seq<char>,
    sep: Seq<char>,
)
    ensures
        joined(Seq::<Seq<char>>::empty(), sep).len() == 0,
        joined(seq![part], sep) == part,
        a.len() > 0 && b.len() > 0 ==> joined(a + b, sep) == joined(a, sep) + sep + joined(b, sep),
    decreases b.len(),
{
    if a.len() > 0 && b.len() > 0 {
        let front = b.drop_last();
        assert((a + b).drop_last() =~= a + front);
        assert((a + b).last() == b.last());
        if b.len() == 1 {
            assert(a + front =~= a);
        } else {
            law_joining_puts_separators_between(a, front, part, sep);
        }
        assert(joined(a + b, sep) =~= joined(a, sep) + sep + joined(b, sep));
    }
}

/// Fields end at the separator and are kept as they are: the last one is what
/// no separator ends.
pub proof fn law_fields_end_at_separators(field: Seq<char>, rest: Seq<char>, sep: char)
    requires
        !field.contains(sep),
    ensures
        fields_of(field.push(sep) + rest, sep) == seq![field] + fields_of(rest, sep),
        fields_of(field, sep) == seq![field],
{
    lemma_fields_cons(field, rest, sep);
    lemma_fields_last(field, sep);
}

/// Lines that are each ended by a line feed are the lines of the text, also
/// where the last of them is empty.
pub proof fn law_ended_lines_read_back(lines: Seq<Seq<char>>)
    requires
        lines.len() > 0,
        forall|i: int| 0 <= i < lines.len() ==> !(#[trigger] lines[i]).contains('\n'),
        forall|i: int| 0 <= i < lines.len() ==> without_return(#[trigger] lines[i]) == lines[i],
    ensures
        lines_of(joined(lines, "\n"@).push('\n')) == lines,
{
    let nothing = Seq::<char>::empty();
    lemma_ended_lines(lines, nothing);
    lemma_joined_is_ended(lines);
    assert(ended_lines(lines) + nothing =~= joined(lines, "\n"@).push('\n'));
    assert(lines + lines_of(nothing) =~= lines);
}

} // verus!
