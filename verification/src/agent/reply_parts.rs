//! Replies of any shape are read part by part: the action, the header with its
//! keys in any order, the lines of the body and the files among them.
use crate::agent::reading_back::fits_a_line;
use crate::agent::reply_format::Block;
use crate::agent::reply_format::is_plain;
use crate::agent::reply_format::law_reply_in_format_is_read;
use crate::agent::reply_format::lemma_plain_lines;
use crate::agent::reply_format::reply_lines;
use crate::agent::response::FileView;
use crate::agent::response::SkillAction;
use crate::agent::response::action_of;
use crate::agent::response::body_at;
use crate::agent::response::ends_file;
use crate::agent::response::file_of;
use crate::agent::response::last_value;
use crate::agent::response::lemma_body_at_is;
use crate::agent::response::line_has_key;
use crate::agent::response::opened_file;
use crate::agent::response::response_of;
use crate::agent::response::section_of;
use crate::agent::response::with_line;
use crate::lines::joined;
use crate::lines::law_ended_lines_read_back;
use crate::lines::law_joined_lines_read_back;
use crate::lines::lines_of;
use crate::lines::without_return;
use crate::text::after_colon;
use crate::text::is_white_space;
use crate::text::law_prefix_but_case;
use crate::text::law_trimming_takes_space_off;
use crate::text::lemma_trimmed_after_space;
use crate::text::lemma_trimmed_keeps;
use crate::text::lowered;
use crate::text::same_but_case;
use crate::text::trimmed;
use crate::text::trimmed_start;
use vstd::prelude::*;

verus! {

// ---------------------------------------------------------------------------
// Marks and keys
// ---------------------------------------------------------------------------
/// The first line names an action just when it is the word for it, in either
/// case and with any white space around it.
pub proof fn law_action_is_the_word(line: Seq<char>)
    ensures
        action_of(line) == Some(SkillAction::Save) <==> same_but_case(trimmed(line), "SAVE"@),
        action_of(line) == Some(SkillAction::Update) <==> same_but_case(trimmed(line), "UPDATE"@),
{
    reveal_strlit("SAVE");
    reveal_strlit("UPDATE");
    if same_but_case(trimmed(line), "SAVE"@) {
        assert(lowered(trimmed(line)).len() == 4);
    }
    if same_but_case(trimmed(line), "UPDATE"@) {
        assert(lowered(trimmed(line)).len() == 6);
    }
}

/// A header line has a key just when it begins with it, in either case and
/// after any white space, whatever follows.
pub proof fn law_key_stands_first(
    space: Seq<char>,
    word: Seq<char>,
    rest: Seq<char>,
    key: Seq<char>,
)
    requires
        forall|i: int| 0 <= i < space.len() ==> is_white_space(#[trigger] space[i]),
        word.len() > 0,
        !is_white_space(word[0]),
        word.len() == key.len(),
    ensures
        line_has_key(space + word + rest, key) <==> same_but_case(word, key),
        forall|line: Seq<char>|
            trimmed_start(line).len() < key.len() ==> !#[trigger] line_has_key(line, key),
{
    assert(space + word + rest =~= space + (word + rest));
    lemma_trimmed_after_space(space, word + rest);
    assert((word + rest)[0] == word[0]);
    law_prefix_but_case(word, rest, key);
}

/// A line opens a file block for the name between the marks, without the white
/// space around it, and does not where that name is blank.
pub proof fn law_opening_mark_names_the_file(left: Seq<char>, name: Seq<char>, right: Seq<char>)
    requires
        forall|i: int| 0 <= i < left.len() ==> is_white_space(#[trigger] left[i]),
        forall|i: int| 0 <= i < right.len() ==> is_white_space(#[trigger] right[i]),
    ensures
        opened_file(left + ("--- BEGIN FILE:"@ + name + "---"@) + right) == (if trimmed(name).len()
            > 0 {
            Some(trimmed(name))
        } else {
            None
        }),
{
    reveal_strlit("--- BEGIN FILE:");
    reveal_strlit("---");
    let mark = "--- BEGIN FILE:"@ + name + "---"@;
    let n = mark.len() as int;
    assert(mark[0] == '-' && mark.last() == '-');
    law_trimming_takes_space_off(left, mark, right);
    assert("--- BEGIN FILE:"@ =~= mark.subrange(0, 15));
    assert("---"@ =~= mark.subrange(n - 3, n));
    assert(mark.subrange(15, n - 3) =~= name);
}

/// A line that opens a file block begins and ends with the marks.
pub proof fn law_only_marks_open_files(line: Seq<char>)
    requires
        opened_file(line) is Some,
    ensures
        "--- BEGIN FILE:"@.is_prefix_of(trimmed(line)),
        "---"@.is_suffix_of(trimmed(line)),
        trimmed(line).len() > 18,
{
    reveal_strlit("--- BEGIN FILE:");
    reveal_strlit("---");
}

/// A file block ends at a line `--- END FILE ---` or `--- END ---`, with any
/// white space around it, and at no other.
pub proof fn law_end_marks(line: Seq<char>)
    ensures
        ends_file(line) <==> trimmed(line) == "--- END FILE ---"@ || trimmed(line)
            == "--- END ---"@,
{
}

// ---------------------------------------------------------------------------
// Parts
// ---------------------------------------------------------------------------
/// A part of what follows the header.
pub enum Part {
    /// A line of the body.
    Line(Seq<char>),
    /// A file block: the opening line, the lines of the file and the end line.
    File { opening: Seq<char>, lines: Seq<Seq<char>>, ending: Seq<char> },
    /// An end line where no block is open.
    Stray(Seq<char>),
}

impl Part {
    /// Whether the part is what it is meant to be.
    pub open spec fn well_formed(self) -> bool {
        match self {
            Part::Line(line) => is_plain(line),
            Part::File { opening, lines, ending } => {
                &&& opened_file(opening) is Some
                &&& forall|i: int| 0 <= i < lines.len() ==> is_plain(#[trigger] lines[i])
                &&& opened_file(ending) is None && ends_file(ending)
            },
            Part::Stray(line) => opened_file(line) is None && ends_file(line),
        }
    }

    /// The lines of the part.
    pub open spec fn lines(self) -> Seq<Seq<char>> {
        match self {
            Part::Line(line) => seq![line],
            Part::File { opening, lines, ending } => seq![opening] + lines + seq![ending],
            Part::Stray(line) => seq![line],
        }
    }
}

/// Whether every part is what it is meant to be.
pub open spec fn all_well_formed(parts: Seq<Part>) -> bool {
    forall|i: int| 0 <= i < parts.len() ==> (#[trigger] parts[i]).well_formed()
}

/// The lines of parts in a row.
pub open spec fn lines_in(parts: Seq<Part>) -> Seq<Seq<char>>
    decreases parts.len(),
{
    if parts.len() == 0 {
        seq![]
    } else {
        lines_in(parts.drop_last()) + parts.last().lines()
    }
}

/// The lines of the body among parts in a row.
pub open spec fn body_in(parts: Seq<Part>) -> Seq<Seq<char>>
    decreases parts.len(),
{
    if parts.len() == 0 {
        seq![]
    } else {
        match parts.last() {
            Part::Line(line) => body_in(parts.drop_last()).push(line),
            _ => body_in(parts.drop_last()),
        }
    }
}

/// The file blocks among parts in a row.
pub open spec fn files_in(parts: Seq<Part>) -> Seq<Part>
    decreases parts.len(),
{
    if parts.len() == 0 {
        seq![]
    } else {
        match parts.last() {
            Part::File { .. } => files_in(parts.drop_last()).push(parts.last()),
            _ => files_in(parts.drop_last()),
        }
    }
}

/// Whether a file holds these lines and nothing else: each of them as it is,
/// ended by a line feed, or one line feed where there is no line.
pub open spec fn holds_lines(content: Seq<char>, lines: Seq<Seq<char>>) -> bool {
    &&& lines.len() == 0 ==> content == seq!['\n']
    &&& lines.len() > 0 ==> content == joined(lines, "\n"@).push('\n')
    &&& lines.len() > 0 && (forall|i: int|
        0 <= i < lines.len() ==> !(#[trigger] lines[i]).contains('\n') && without_return(lines[i])
            == lines[i]) ==> lines_of(content) == lines
}

/// Whether a file is the one of a block.
pub open spec fn is_file_of(file: FileView, block: Part) -> bool {
    block matches Part::File { opening, lines, ending } && opened_file(opening) == Some(file.name)
        && holds_lines(file.content, lines)
}

/// The content that a block is given holds the lines of the block.
proof fn lemma_content_holds_lines(name: Seq<char>, lines: Seq<Seq<char>>)
    ensures
        holds_lines(file_of(name, lines).content, lines),
        file_of(name, lines).name == name,
{
    reveal_strlit("\n");
    let content = file_of(name, lines).content;
    assert(content =~= joined(lines, "\n"@).push('\n'));
    if lines.len() == 0 {
        assert(content =~= seq!['\n']);
    } else if forall|i: int|
        0 <= i < lines.len() ==> !(#[trigger] lines[i]).contains('\n') && without_return(lines[i])
            == lines[i] {
        law_ended_lines_read_back(lines);
    }
}

/// What one file block adds.
proof fn lemma_file_part(before: Seq<Seq<char>>, part: Part)
    requires
        section_of(before).open is None,
        part is File,
        part.well_formed(),
    ensures
        ({
            let after = section_of(before + part.lines());
            &&& after.open is None
            &&& after.body == section_of(before).body
            &&& after.files.len() == section_of(before).files.len() + 1
            &&& after.files.drop_last() == section_of(before).files
            &&& is_file_of(after.files.last(), part)
        }),
{
    match part {
        Part::File { opening, lines, ending } => {
            let name = opened_file(opening)->Some_0;
            let opened = before.push(opening);
            let filled = opened + lines;
            assert(opened.drop_last() =~= before);
            assert(section_of(opened) == with_line(section_of(before), opening));
            lemma_plain_lines(opened, lines);
            assert(Seq::<Seq<char>>::empty() + lines =~= lines);
            assert(before + part.lines() =~= filled.push(ending));
            assert(filled.push(ending).drop_last() =~= filled);
            assert(section_of(filled.push(ending)) == with_line(section_of(filled), ending));
            lemma_content_holds_lines(name, lines);
            assert(section_of(before + part.lines()).files.drop_last() =~= section_of(
                before,
            ).files);
        },
        _ => {},
    }
}

/// What parts in a row come to.
proof fn lemma_parts(parts: Seq<Part>)
    requires
        all_well_formed(parts),
    ensures
        ({
            let section = section_of(lines_in(parts));
            &&& section.open is None
            &&& section.body == body_in(parts)
            &&& section.files.len() == files_in(parts).len()
            &&& forall|i: int|
                0 <= i < section.files.len() ==> is_file_of(
                    #[trigger] section.files[i],
                    files_in(parts)[i],
                )
        }),
    decreases parts.len(),
{
    if parts.len() > 0 {
        let front = parts.drop_last();
        let part = parts[parts.len() - 1];
        let before = lines_in(front);
        assert(all_well_formed(front)) by {
            assert forall|i: int| 0 <= i < front.len() implies (#[trigger] front[i]).well_formed() by {
                assert(front[i] == parts[i]);
            }
        }
        lemma_parts(front);
        assert(part.well_formed());
        let section = section_of(lines_in(parts));
        match part {
            Part::File { opening, lines, ending } => {
                lemma_file_part(before, part);
                assert forall|i: int| 0 <= i < section.files.len() implies is_file_of(
                    #[trigger] section.files[i],
                    files_in(parts)[i],
                ) by {
                    if i < section.files.len() - 1 {
                        assert(section.files[i] == section.files.drop_last()[i]);
                        assert(is_file_of(section_of(before).files[i], files_in(front)[i]));
                    }
                }
            },
            Part::Line(line) => {
                assert(before + part.lines() =~= before.push(line));
                assert(before.push(line).drop_last() =~= before);
            },
            Part::Stray(line) => {
                assert(before + part.lines() =~= before.push(line));
                assert(before.push(line).drop_last() =~= before);
            },
        }
    }
}

// ---------------------------------------------------------------------------
// The header
// ---------------------------------------------------------------------------
/// Whether the header line at `i` is the last one with this key.
pub open spec fn is_last_with_key(header: Seq<Seq<char>>, key: Seq<char>, i: int) -> bool {
    &&& 0 <= i < header.len()
    &&& line_has_key(header[i], key)
    &&& forall|j: int| i < j < header.len() ==> !line_has_key(#[trigger] header[j], key)
}

/// The value of a key is that of the last line that has it.
proof fn lemma_last_value(header: Seq<Seq<char>>, key: Seq<char>, i: int)
    requires
        is_last_with_key(header, key, i),
    ensures
        last_value(header, key) == Some(after_colon(header[i])),
    decreases header.len(),
{
    if i < header.len() - 1 {
        let front = header.drop_last();
        assert(!line_has_key(header[header.len() - 1], key));
        assert forall|j: int| i < j < front.len() implies !line_has_key(#[trigger] front[j], key) by {
            assert(front[j] == header[j]);
        }
        lemma_last_value(front, key, i);
    }
}

/// A key that no line has is given no value.
proof fn lemma_no_value(header: Seq<Seq<char>>, key: Seq<char>)
    requires
        forall|j: int| 0 <= j < header.len() ==> !line_has_key(#[trigger] header[j], key),
    ensures
        last_value(header, key) is None,
    decreases header.len(),
{
    if header.len() > 0 {
        let front = header.drop_last();
        assert(!line_has_key(header[header.len() - 1], key));
        assert forall|j: int| 0 <= j < front.len() implies !line_has_key(#[trigger] front[j], key) by {
            assert(front[j] == header[j]);
        }
        lemma_no_value(front, key);
    }
}

/// Whether these lines are a header: none of them has the key `body:`.
pub open spec fn is_header(header: Seq<Seq<char>>) -> bool {
    forall|i: int| 0 <= i < header.len() ==> !line_has_key(#[trigger] header[i], "body:"@)
}

/// The header of a reply is what stands before the first line with the key
/// `body:`.
proof fn lemma_header_ends(header: Seq<Seq<char>>, tail: Seq<Seq<char>>)
    requires
        is_header(header),
        tail.len() > 0 ==> line_has_key(tail[0], "body:"@),
    ensures
        body_at(header + tail) == header.len(),
        (header + tail).take(header.len() as int) == header,
{
    let rest = header + tail;
    let n = header.len() as int;
    assert forall|i: int| 0 <= i < n implies !line_has_key(#[trigger] rest[i], "body:"@) by {
        assert(rest[i] == header[i]);
    }
    lemma_body_at_is(rest, n);
    assert(rest.take(n) =~= header);
}

// ---------------------------------------------------------------------------
// Whole replies
// ---------------------------------------------------------------------------
/// A reply is read for what it says, whatever the order of its header and
/// however its body and its files are mixed. The name and the description are
/// the values of the last lines with those keys. The body is made of all lines
/// outside the file blocks. There is a file for every block, in their order,
/// and it holds the lines of its block as they are.
pub proof fn law_reply_is_read(
    raw: Seq<char>,
    action_line: Seq<char>,
    header: Seq<Seq<char>>,
    name_at: int,
    description_at: int,
    body_line: Seq<char>,
    parts: Seq<Part>,
)
    requires
        lines_of(raw) == seq![action_line] + (header + (seq![body_line] + lines_in(parts))),
        action_of(action_line) is Some,
        is_header(header),
        is_last_with_key(header, "name:"@, name_at),
        is_last_with_key(header, "description:"@, description_at),
        line_has_key(body_line, "body:"@),
        all_well_formed(parts),
    ensures
        response_of(raw) matches Some(skill) && {
            &&& Some(skill.action) == action_of(action_line)
            &&& skill.name == after_colon(header[name_at])
            &&& skill.description == after_colon(header[description_at])
            &&& skill.body == trimmed(joined(body_in(parts), "\n"@))
            &&& skill.files.len() == files_in(parts).len()
            &&& forall|i: int|
                0 <= i < skill.files.len() ==> is_file_of(
                    #[trigger] skill.files[i],
                    files_in(parts)[i],
                )
        },
{
    let rest = lines_of(raw).drop_first();
    let tail = seq![body_line] + lines_in(parts);
    assert(rest =~= header + tail);
    lemma_header_ends(header, tail);
    lemma_last_value(header, "name:"@, name_at);
    lemma_last_value(header, "description:"@, description_at);
    assert(rest.skip(header.len() as int + 1) =~= lines_in(parts));
    lemma_parts(parts);
}

/// A reply that ends in its header has an empty body and no file.
pub proof fn law_reply_may_end_in_its_header(
    raw: Seq<char>,
    action_line: Seq<char>,
    header: Seq<Seq<char>>,
    name_at: int,
    description_at: int,
)
    requires
        lines_of(raw) == seq![action_line] + header,
        action_of(action_line) is Some,
        is_header(header),
        is_last_with_key(header, "name:"@, name_at),
        is_last_with_key(header, "description:"@, description_at),
    ensures
        response_of(raw) matches Some(skill) && {
            &&& Some(skill.action) == action_of(action_line)
            &&& skill.name == after_colon(header[name_at])
            &&& skill.description == after_colon(header[description_at])
            &&& skill.body.len() == 0
            &&& skill.files.len() == 0
        },
{
    let rest = lines_of(raw).drop_first();
    let tail = Seq::<Seq<char>>::empty();
    assert(rest =~= header + tail);
    lemma_header_ends(header, tail);
    lemma_last_value(header, "name:"@, name_at);
    lemma_last_value(header, "description:"@, description_at);
    assert(joined(tail, "\n"@).len() == 0);
}

/// A reply is not accepted without an action, a name and a description, and a
/// name or a description after the line `body:` does not count.
pub proof fn law_reply_needs_action_and_header(
    raw: Seq<char>,
    action_line: Seq<char>,
    header: Seq<Seq<char>>,
    tail: Seq<Seq<char>>,
)
    requires
        lines_of(raw) == seq![action_line] + (header + tail),
        is_header(header),
        tail.len() > 0 ==> line_has_key(tail[0], "body:"@),
        ({
            ||| action_of(action_line) is None
            ||| forall|j: int|
                0 <= j < header.len() ==> !line_has_key(#[trigger] header[j], "name:"@)
            ||| forall|j: int|
                0 <= j < header.len() ==> !line_has_key(#[trigger] header[j], "description:"@)
        }),
    ensures
        response_of(raw) is None,
{
    let rest = lines_of(raw).drop_first();
    assert(rest =~= header + tail);
    lemma_header_ends(header, tail);
    if forall|j: int| 0 <= j < header.len() ==> !line_has_key(#[trigger] header[j], "name:"@) {
        lemma_no_value(header, "name:"@);
    }
    if forall|j: int|
        0 <= j < header.len() ==> !line_has_key(#[trigger] header[j], "description:"@) {
        lemma_no_value(header, "description:"@);
    }
}

/// Lines that come to the same are the same to what follows.
proof fn lemma_same_section(a: Seq<Seq<char>>, b: Seq<Seq<char>>, after: Seq<Seq<char>>)
    requires
        section_of(a) == section_of(b),
    ensures
        section_of(a + after) == section_of(b + after),
    decreases after.len(),
{
    if after.len() == 0 {
        assert(a + after =~= a);
        assert(b + after =~= b);
    } else {
        lemma_same_section(a, b, after.drop_last());
        assert((a + after).drop_last() =~= a + after.drop_last());
        assert((b + after).drop_last() =~= b + after.drop_last());
    }
}

/// A file block that is not ended before another is opened, or before the end,
/// adds nothing to the body and the files.
proof fn lemma_unfinished(
    before: Seq<Seq<char>>,
    opening: Seq<char>,
    lines: Seq<Seq<char>>,
    after: Seq<Seq<char>>,
)
    requires
        section_of(before).open is None,
        opened_file(opening) is Some,
        forall|i: int| 0 <= i < lines.len() ==> is_plain(#[trigger] lines[i]),
        after.len() > 0 ==> opened_file(after[0]) is Some,
    ensures
        ({
            let with = section_of(before + (seq![opening] + lines + after));
            let without = section_of(before + after);
            with.body == without.body && with.files == without.files
        }),
{
    let opened = before.push(opening);
    let filled = opened + lines;
    assert(opened.drop_last() =~= before);
    assert(section_of(opened) == with_line(section_of(before), opening));
    lemma_plain_lines(opened, lines);
    assert(before + (seq![opening] + lines + after) =~= filled + after);
    if after.len() > 0 {
        lemma_reopened(filled, before, after);
    } else {
        assert(filled + after =~= filled);
        assert(before + after =~= before);
    }
}

/// An opening line leaves nothing of a block that was open.
proof fn lemma_reopened(a: Seq<Seq<char>>, b: Seq<Seq<char>>, after: Seq<Seq<char>>)
    requires
        section_of(a).body == section_of(b).body,
        section_of(a).files == section_of(b).files,
        after.len() > 0,
        opened_file(after[0]) is Some,
    ensures
        section_of(a + after) == section_of(b + after),
{
    let next = after[0];
    let rest = after.drop_first();
    assert(a.push(next).drop_last() =~= a);
    assert(b.push(next).drop_last() =~= b);
    assert(section_of(a.push(next)) == with_line(section_of(a), next));
    assert(section_of(b.push(next)) == with_line(section_of(b), next));
    lemma_same_section(a.push(next), b.push(next), rest);
    assert(a + after =~= a.push(next) + rest);
    assert(b + after =~= b.push(next) + rest);
}

/// Replies with the same header whose sections hold the same say the same.
proof fn lemma_same_response(
    raw1: Seq<char>,
    raw2: Seq<char>,
    action_line: Seq<char>,
    header: Seq<Seq<char>>,
    body_line: Seq<char>,
    tail1: Seq<Seq<char>>,
    tail2: Seq<Seq<char>>,
)
    requires
        lines_of(raw1) == seq![action_line] + (header + (seq![body_line] + tail1)),
        lines_of(raw2) == seq![action_line] + (header + (seq![body_line] + tail2)),
        is_header(header),
        line_has_key(body_line, "body:"@),
        section_of(tail1).body == section_of(tail2).body,
        section_of(tail1).files == section_of(tail2).files,
    ensures
        response_of(raw1) == response_of(raw2),
{
    let rest1 = lines_of(raw1).drop_first();
    let rest2 = lines_of(raw2).drop_first();
    assert(rest1 =~= header + (seq![body_line] + tail1));
    assert(rest2 =~= header + (seq![body_line] + tail2));
    lemma_header_ends(header, seq![body_line] + tail1);
    lemma_header_ends(header, seq![body_line] + tail2);
    assert(rest1.skip(header.len() as int + 1) =~= tail1);
    assert(rest2.skip(header.len() as int + 1) =~= tail2);
}

/// A file block that is never ended is lost, whether the reply ends there or
/// another block is opened: the reply says what it says without it.
pub proof fn law_unfinished_block_is_lost(
    raw: Seq<char>,
    without: Seq<char>,
    action_line: Seq<char>,
    header: Seq<Seq<char>>,
    body_line: Seq<char>,
    parts: Seq<Part>,
    opening: Seq<char>,
    lines: Seq<Seq<char>>,
    after: Seq<Seq<char>>,
)
    requires
        lines_of(raw) == seq![action_line] + (header + (seq![body_line] + (lines_in(parts) + (seq![
            opening,
        ] + lines + after)))),
        lines_of(without) == seq![action_line] + (header + (seq![body_line] + (lines_in(parts)
            + after))),
        is_header(header),
        line_has_key(body_line, "body:"@),
        all_well_formed(parts),
        opened_file(opening) is Some,
        forall|i: int| 0 <= i < lines.len() ==> is_plain(#[trigger] lines[i]),
        after.len() > 0 ==> opened_file(after[0]) is Some,
    ensures
        response_of(raw) == response_of(without),
{
    let before = lines_in(parts);
    lemma_parts(parts);
    lemma_unfinished(before, opening, lines, after);
    lemma_same_response(
        raw,
        without,
        action_line,
        header,
        body_line,
        before + (seq![opening] + lines + after),
        before + after,
    );
}

/// More lines leave the files that there are.
proof fn lemma_files_stay(before: Seq<Seq<char>>, after: Seq<Seq<char>>)
    ensures
        section_of(before).files.is_prefix_of(section_of(before + after).files),
    decreases after.len(),
{
    if after.len() == 0 {
        assert(before + after =~= before);
    } else {
        lemma_files_stay(before, after.drop_last());
        assert((before + after).drop_last() =~= before + after.drop_last());
    }
    assert(section_of(before).files.is_prefix_of(section_of(before + after).files));
}

/// Every file block of a reply that is read gives a file, wherever it stands and
/// whatever surrounds it: one with the name in the opening line, whose lines are
/// those between the marks as they are.
pub proof fn law_file_block_is_kept(
    raw: Seq<char>,
    action_line: Seq<char>,
    header: Seq<Seq<char>>,
    body_line: Seq<char>,
    before: Seq<Seq<char>>,
    opening: Seq<char>,
    lines: Seq<Seq<char>>,
    ending: Seq<char>,
    after: Seq<Seq<char>>,
)
    requires
        lines_of(raw) == seq![action_line] + (header + (seq![body_line] + (before + (seq![opening]
            + lines + seq![ending]) + after))),
        is_header(header),
        line_has_key(body_line, "body:"@),
        opened_file(opening) is Some,
        forall|i: int| 0 <= i < lines.len() ==> is_plain(#[trigger] lines[i]),
        ends_file(ending),
        opened_file(ending) is None,
        response_of(raw) is Some,
    ensures
        exists|k: int| 0 <= k < response_of(raw)->Some_0.files.len() && {
            let file = #[trigger] response_of(raw)->Some_0.files[k];
            &&& Some(file.name) == opened_file(opening)
            &&& lines.len() == 0 ==> file.content == seq!['\n']
            &&& lines.len() > 0 ==> file.content == joined(lines, "\n"@).push('\n')
            &&& lines.len() > 0 && (forall|i: int|
                0 <= i < lines.len() ==> !(#[trigger] lines[i]).contains('\n') && (lines[i].len()
                    > 0 ==> lines[i].last() != '\r')) ==> lines_of(file.content) == lines
        },
{
    let block = Part::File { opening, lines, ending };
    let rest = lines_of(raw).drop_first();
    let tail = before + block.lines() + after;
    assert(rest =~= header + (seq![body_line] + tail));
    lemma_header_ends(header, seq![body_line] + tail);
    assert(rest.skip(header.len() as int + 1) =~= tail);
    let name = opened_file(opening)->Some_0;
    let opened = before.push(opening);
    let filled = opened + lines;
    let done = filled.push(ending);
    assert(opened.drop_last() =~= before);
    assert(section_of(opened) == with_line(section_of(before), opening));
    lemma_plain_lines(opened, lines);
    assert(Seq::<Seq<char>>::empty() + lines =~= lines);
    assert(done.drop_last() =~= filled);
    assert(section_of(done) == with_line(section_of(filled), ending));
    lemma_content_holds_lines(name, lines);
    assert(before + block.lines() =~= done);
    lemma_files_stay(done, after);
    let k = section_of(done).files.len() - 1;
    assert(section_of(done + after).files[k] == section_of(done).files[k]);
    assert(response_of(raw)->Some_0.files[k] == file_of(name, lines));
}

/// In a reply in the format that the model is told to use there is a file for
/// every block, in its place, and its lines are the lines of the block as they
/// are. The lines of the body are those that it was written with, where there is
/// no white space around them to be taken off.
pub proof fn law_format_keeps_every_line(
    raw: Seq<char>,
    action: SkillAction,
    name: Seq<char>,
    description: Seq<char>,
    body: Seq<Seq<char>>,
    blocks: Seq<Block>,
)
    requires
        lines_of(raw) == reply_lines(action, name, description, body, blocks),
        forall|i: int| 0 <= i < body.len() ==> is_plain(#[trigger] body[i]),
        forall|i: int| 0 <= i < blocks.len() ==> (#[trigger] blocks[i]).well_formed(),
        forall|i: int| 0 <= i < body.len() ==> fits_a_line(#[trigger] body[i]),
        forall|i: int, j: int|
            0 <= i < blocks.len() && 0 <= j < blocks[i].lines.len() ==> fits_a_line(
                #[trigger] blocks[i].lines[j],
            ),
    ensures
        response_of(raw) is Some,
        response_of(raw)->Some_0.files.len() == blocks.len(),
        forall|i: int|
            #![trigger blocks[i]]
            0 <= i < blocks.len() ==> {
                let file = response_of(raw)->Some_0.files[i];
                &&& file.name == trimmed(blocks[i].name)
                &&& file.content.last() == '\n'
                &&& blocks[i].lines.len() > 0 ==> lines_of(file.content) == blocks[i].lines
                &&& blocks[i].lines.len() == 0 ==> file.content.len() == 1
            },
        body.len() > 0 && body[0].len() > 0 && body.last().len() > 0 && !is_white_space(body[0][0])
            && !is_white_space(body.last().last()) ==> lines_of(response_of(raw)->Some_0.body)
            == body,
{
    law_reply_in_format_is_read(raw, action, name, description, body, blocks);
    let skill = response_of(raw)->Some_0;
    assert forall|i: int|
        #![trigger blocks[i]]
        0 <= i < blocks.len() implies {
        let file = skill.files[i];
        &&& file.name == trimmed(blocks[i].name)
        &&& file.content.last() == '\n'
        &&& blocks[i].lines.len() > 0 ==> lines_of(file.content) == blocks[i].lines
        &&& blocks[i].lines.len() == 0 ==> file.content.len() == 1
    } by {
        let lines = blocks[i].lines;
        assert(skill.files[i] == file_of(trimmed(blocks[i].name), lines));
        lemma_content_holds_lines(trimmed(blocks[i].name), lines);
        assert forall|j: int| 0 <= j < lines.len() implies !(#[trigger] lines[j]).contains('\n')
            && without_return(lines[j]) == lines[j] by {
            assert(fits_a_line(blocks[i].lines[j]));
        }
    }
    if body.len() > 0 && body[0].len() > 0 && body.last().len() > 0 && !is_white_space(body[0][0])
        && !is_white_space(body.last().last()) {
        lemma_joined_ends(body);
        lemma_trimmed_keeps(joined(body, "\n"@));
        assert(fits_a_line(body[body.len() - 1]));
        law_joined_lines_read_back(body);
    }
}

/// Joined lines begin with the first line and end with the last one.
proof fn lemma_joined_ends(lines: Seq<Seq<char>>)
    requires
        lines.len() > 0,
        lines[0].len() > 0,
    ensures
        joined(lines, "\n"@).len() > 0,
        joined(lines, "\n"@)[0] == lines[0][0],
        lines.last().len() > 0 ==> joined(lines, "\n"@).last() == lines.last().last(),
    decreases lines.len(),
{
    if lines.len() > 1 {
        lemma_joined_ends(lines.drop_last());
    }
}

} // verus!
