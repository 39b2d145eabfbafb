//! Replies in the format that the model is told to use are read as they are
//! meant.
use crate::agent::response::action_of;
use crate::agent::response::body_at;
use crate::agent::response::cuts_at;
use crate::agent::response::ends_file;
use crate::agent::response::file_of;
use crate::agent::response::header_cuts;
use crate::agent::response::header_line_cuts;
use crate::agent::response::last_value;
use crate::agent::response::lemma_body_at;
use crate::agent::response::lemma_cuts_after;
use crate::agent::response::lemma_key_has_colon;
use crate::agent::response::line_has_key;
use crate::agent::response::opened_file;
use crate::agent::response::response_of;
use crate::agent::response::section_of;
use crate::agent::response::with_line;
use crate::agent::response::FileView;
use crate::agent::response::Section;
use crate::agent::response::SkillAction;
use crate::agent::response::SkillView;
use crate::lines::joined;
use crate::lines::lemma_lines_are_parts;
use crate::lines::lemma_lines_have_no_feed;
use crate::lines::lines_of;
use crate::text::after_colon;
use crate::text::first_index;
use crate::text::lemma_first_index_is;
use crate::text::lemma_trimmed_after_space;
use crate::text::lemma_trimmed_before_space;
use crate::text::lemma_trimmed_ends;
use crate::text::lemma_trimmed_is_part;
use crate::text::lemma_trimmed_keeps;
use crate::text::lemma_trimmed_start;
use crate::text::lowered;
use crate::text::trimmed;
use crate::text::trimmed_start;
use crate::truncate::utf8_len;
use vstd::prelude::*;
use vstd::utf8::*;

verus! {

// ---------------------------------------------------------------------------
// The format
// ---------------------------------------------------------------------------
/// Whether a line is neither the opening nor the end of a file block.
pub open spec fn is_plain(line: Seq<char>) -> bool {
    opened_file(line) is None && !ends_file(line)
}

/// The name of a file and the lines of its content.
pub struct Block {
    pub name: Seq<char>,
    pub lines: Seq<Seq<char>>,
}

impl Block {
    /// Whether the block can be written: its name is not blank, and none of its
    /// lines is a mark.
    pub open spec fn well_formed(self) -> bool {
        &&& trimmed(self.name).len() > 0
        &&& forall|i: int| 0 <= i < self.lines.len() ==> is_plain(#[trigger] self.lines[i])
    }
}

/// The lines of a file block.
pub open spec fn block_lines(block: Block) -> Seq<Seq<char>> {
    seq!["--- BEGIN FILE: "@ + block.name + " ---"@] + block.lines + seq!["--- END FILE ---"@]
}

/// The lines of file blocks in a row.
pub open spec fn blocks_lines(blocks: Seq<Block>) -> Seq<Seq<char>>
    decreases blocks.len(),
{
    if blocks.len() == 0 {
        seq![]
    } else {
        blocks_lines(blocks.drop_last()) + block_lines(blocks.last())
    }
}

/// The files that blocks in a row stand for.
pub open spec fn block_files(blocks: Seq<Block>) -> Seq<FileView> {
    Seq::new(blocks.len(), |i: int| file_of(trimmed(blocks[i].name), blocks[i].lines))
}

/// The word for an action.
pub open spec fn action_word(action: SkillAction) -> Seq<char> {
    match action {
        SkillAction::Save => "SAVE"@,
        SkillAction::Update => "UPDATE"@,
    }
}

/// The lines of a reply in the format that the model is told to use.
pub open spec fn reply_lines(
    action: SkillAction,
    name: Seq<char>,
    description: Seq<char>,
    body: Seq<Seq<char>>,
    blocks: Seq<Block>,
) -> Seq<Seq<char>> {
    seq![
        action_word(action),
        "name: "@ + name,
        "description: "@ + description,
        "body:"@,
    ] + body + blocks_lines(blocks)
}

// ---------------------------------------------------------------------------
// The section after the header
// ---------------------------------------------------------------------------
/// What lines that are no marks add to a section: lines of the open block, or
/// else of the body.
pub proof fn lemma_plain_lines(before: Seq<Seq<char>>, lines: Seq<Seq<char>>)
    requires
        forall|i: int| 0 <= i < lines.len() ==> is_plain(#[trigger] lines[i]),
    ensures
        section_of(before + lines) == (match section_of(before).open {
            Some((name, open)) => Section {
                open: Some((name, open + lines)),
                ..section_of(before)
            },
            None => Section { body: section_of(before).body + lines, ..section_of(before) },
        }),
    decreases lines.len(),
{
    if lines.len() == 0 {
        assert(before + lines =~= before);
        match section_of(before).open {
            Some((name, open)) => {
                assert(open + lines =~= open);
            },
            None => {
                assert(section_of(before).body + lines =~= section_of(before).body);
            },
        }
    } else {
        let front = lines.drop_last();
        lemma_plain_lines(before, front);
        assert((before + lines).drop_last() =~= before + front);
        assert((before + lines).last() == lines.last());
        assert(is_plain(lines[lines.len() - 1]));
        match section_of(before).open {
            Some((name, open)) => {
                assert((open + front).push(lines.last()) =~= open + lines);
            },
            None => {
                assert((section_of(before).body + front).push(lines.last()) =~= section_of(
                    before,
                ).body + lines);
            },
        }
    }
}

/// The opening line of a file block names its file.
proof fn lemma_opening_line(name: Seq<char>)
    requires
        trimmed(name).len() > 0,
    ensures
        opened_file("--- BEGIN FILE: "@ + name + " ---"@) == Some(trimmed(name)),
{
    reveal_strlit("--- BEGIN FILE: ");
    reveal_strlit("--- BEGIN FILE:");
    reveal_strlit(" ---");
    reveal_strlit("---");
    let line = "--- BEGIN FILE: "@ + name + " ---"@;
    let n = line.len() as int;
    assert(line[0] == '-' && line.last() == '-');
    lemma_trimmed_keeps(line);
    assert("--- BEGIN FILE:"@ =~= line.subrange(0, 15));
    assert("---"@ =~= line.subrange(n - 3, n));
    let inner = line.subrange(15, n - 3);
    assert(inner =~= seq![' '] + name.push(' '));
    lemma_trimmed_after_space(seq![' '], name.push(' '));
    lemma_trimmed_before_space(name, ' ');
}

/// A file block adds its file to a section that has no open block.
proof fn lemma_block(before: Seq<Seq<char>>, block: Block)
    requires
        section_of(before).open is None,
        block.well_formed(),
    ensures
        section_of(before + block_lines(block)) == (Section {
            files: section_of(before).files.push(file_of(trimmed(block.name), block.lines)),
            ..section_of(before)
        }),
{
    let opening = "--- BEGIN FILE: "@ + block.name + " ---"@;
    let end = "--- END FILE ---"@;
    let opened = before.push(opening);
    let filled = opened + block.lines;
    let all = before + block_lines(block);
    lemma_opening_line(block.name);
    assert(opened.drop_last() =~= before);
    assert(section_of(opened) == with_line(section_of(before), opening));
    lemma_plain_lines(opened, block.lines);
    assert(Seq::<Seq<char>>::empty() + block.lines =~= block.lines);
    assert(section_of(filled).open == Some((trimmed(block.name), block.lines)));
    assert(all =~= filled.push(end));
    assert(filled.push(end).drop_last() =~= filled);
    assert(opened_file(end) is None && ends_file(end)) by {
        reveal_strlit("--- END FILE ---");
        reveal_strlit("--- BEGIN FILE:");
        lemma_trimmed_keeps(end);
        if "--- BEGIN FILE:"@.is_prefix_of(end) {
            assert(end.subrange(0, 15)[4] == "--- BEGIN FILE:"@[4]);
        }
    }
    assert(section_of(all) == with_line(section_of(filled), end));
}

/// File blocks in a row add their files to a section that has no open block.
proof fn lemma_blocks(before: Seq<Seq<char>>, blocks: Seq<Block>)
    requires
        section_of(before).open is None,
        forall|i: int| 0 <= i < blocks.len() ==> (#[trigger] blocks[i]).well_formed(),
    ensures
        section_of(before + blocks_lines(blocks)) == (Section {
            files: section_of(before).files + block_files(blocks),
            ..section_of(before)
        }),
    decreases blocks.len(),
{
    if blocks.len() == 0 {
        assert(before + blocks_lines(blocks) =~= before);
        assert(section_of(before).files + block_files(blocks) =~= section_of(before).files);
    } else {
        let front = blocks.drop_last();
        let block = blocks[blocks.len() - 1];
        lemma_blocks(before, front);
        lemma_block(before + blocks_lines(front), block);
        assert(before + blocks_lines(blocks) =~= before + blocks_lines(front) + block_lines(
            block,
        ));
        assert((section_of(before).files + block_files(front)).push(
            file_of(trimmed(block.name), block.lines),
        ) =~= section_of(before).files + block_files(blocks));
    }
}

// ---------------------------------------------------------------------------
// The reply
// ---------------------------------------------------------------------------
/// A header line in the format has its own key and the value that it was
/// written with.
proof fn lemma_header_line(key: Seq<char>, value: Seq<char>)
    requires
        key.len() > 0,
        forall|i: int| 0 <= i < key.len() ==> 'a' <= #[trigger] key[i] <= 'z',
    ensures
        line_has_key(key + ": "@ + value, key + ":"@),
        forall|other: Seq<char>|
            other.len() > 0 && other[0] != key[0] && 'a' <= other[0] <= 'z'
                ==> !#[trigger] line_has_key(key + ": "@ + value, other),
        after_colon(key + ": "@ + value) == trimmed(value),
{
    reveal_strlit(": ");
    reveal_strlit(":");
    let line = key + ": "@ + value;
    let n = key.len() as int;
    assert(line[0] == key[0]);
    assert(trimmed_start(line) == line);
    assert(line.take(n + 1) =~= key + ":"@);
    assert forall|other: Seq<char>|
        other.len() > 0 && other[0] != key[0] && 'a' <= other[0]
            <= 'z' implies !#[trigger] line_has_key(line, other) by {
        if line_has_key(line, other) {
            assert(lowered(line.take(other.len() as int))[0] == lowered(other)[0]);
        }
    }
    assert forall|i: int| 0 <= i < n implies line[i] != ':' by {
        assert(line[i] == key[i]);
    }
    lemma_first_index_is(line, ':', n);
    assert(line.skip(n + 1) =~= seq![' '] + value);
    lemma_trimmed_after_space(seq![' '], value);
}

/// The header lines of a reply in the format can be cut after their keys.
proof fn lemma_header_lines_cut(name: Seq<char>, description: Seq<char>)
    ensures
        header_line_cuts("name: "@ + name),
        header_line_cuts("description: "@ + description),
        header_line_cuts("body:"@),
{
    reveal_strlit("name: ");
    reveal_strlit("name:");
    reveal_strlit("description: ");
    reveal_strlit("description:");
    reveal_strlit("body:");
    let name_line = "name: "@ + name;
    let description_line = "description: "@ + description;
    assert(trimmed_start(name_line) == name_line);
    assert(trimmed_start(description_line) == description_line);
    assert(trimmed_start("body:"@) == "body:"@);
    is_ascii_chars_encode_utf8("name:"@);
    is_ascii_chars_encode_utf8("description:"@);
    is_ascii_chars_encode_utf8("body:"@);
    // The name.
    assert(name_line =~= "name:"@ + name_line.skip(5));
    lemma_cuts_after("name:"@, name_line.skip(5));
    assert(name_line.take(5) =~= "name:"@);
    // The description.
    let start = description_line.take(5);
    is_ascii_chars_encode_utf8(start);
    assert(description_line =~= start + description_line.skip(5));
    lemma_cuts_after(start, description_line.skip(5));
    assert(description_line =~= "description:"@ + description_line.skip(12));
    lemma_cuts_after("description:"@, description_line.skip(12));
    // The body.
    lemma_ascii_cuts("body:"@, utf8_len("name:"@));
}

/// A reply in the format that the model is told to use can be read, whatever
/// alphabet it is written in, and is read as it is meant: the action, the name, the description, the lines of the body and the files
/// are those that it was written with, without white space around the names,
/// the description and the body.
#[verifier::spinoff_prover]
pub proof fn law_reply_in_format_is_read(
    raw: Seq<char>,
    action: SkillAction,
    name: Seq<char>,
    description: Seq<char>,
    body: Seq<Seq<char>>,
    blocks: Seq<Block>,
)
    requires
        lines_of(raw) == reply_lines(action, name, description, body, blocks),
        forall|i: int| 0 <= i < body.len() ==> is_plain(#[trigger] body[i]),
        forall|i: int| 0 <= i < blocks.len() ==> (#[trigger] blocks[i]).well_formed(),
    ensures
        header_cuts(raw),
        response_of(raw) == Some(
            SkillView {
                action,
                name: trimmed(name),
                description: trimmed(description),
                body: trimmed(joined(body, "\n"@)),
                files: block_files(blocks),
            },
        ),
{
    let lines = lines_of(raw);
    let rest = lines.drop_first();
    let name_line = "name: "@ + name;
    let description_line = "description: "@ + description;
    let tail = body + blocks_lines(blocks);
    reveal_strlit("SAVE");
    reveal_strlit("UPDATE");
    reveal_strlit("name: ");
    reveal_strlit("name:");
    reveal_strlit("name");
    reveal_strlit("description: ");
    reveal_strlit("description:");
    reveal_strlit("description");
    reveal_strlit("body:");
    reveal_strlit(": ");
    reveal_strlit(":");
    // The action line.
    assert(action_of(lines[0]) == Some(action)) by {
        lemma_trimmed_keeps("SAVE"@);
        lemma_trimmed_keeps("UPDATE"@);
        assert(lowered("SAVE"@).len() == 4);
        assert(lowered("UPDATE"@).len() == 6);
    }
    // The header.
    assert(name_line =~= "name"@ + ": "@ + name);
    assert(description_line =~= "description"@ + ": "@ + description);
    assert("name:"@ =~= "name"@ + ":"@);
    assert("description:"@ =~= "description"@ + ":"@);
    lemma_header_line("name"@, name);
    lemma_header_line("description"@, description);
    assert(rest =~= seq![name_line, description_line, "body:"@] + tail);
    assert(line_has_key("body:"@, "body:"@)) by {
        assert(trimmed_start("body:"@) == "body:"@);
        assert("body:"@.take(5) =~= "body:"@);
    }
    assert(body_at(rest) == 2) by {
        let second = rest.drop_first();
        let third = second.drop_first();
        assert(rest[0] == name_line && second[0] == description_line && third[0] == "body:"@);
        assert(body_at(third) == 0);
        assert(body_at(second) == 1);
    }
    lemma_header_lines_cut(name, description);
    assert(rest[0] == name_line && rest[1] == description_line && rest[2] == "body:"@);
    let header = rest.take(2);
    assert(header =~= seq![name_line, description_line]);
    assert(last_value(header, "description:"@) == Some(trimmed(description)));
    assert(last_value(header, "name:"@) == Some(trimmed(name))) by {
        let first = header.drop_last();
        assert(first =~= seq![name_line]);
        assert(last_value(first, "name:"@) == Some(trimmed(name)));
    }
    // The body and the files.
    assert(rest.skip(3) =~= tail);
    let start = Seq::<Seq<char>>::empty();
    lemma_plain_lines(start, body);
    assert(start + body =~= body);
    assert(section_of(body).body =~= body);
    lemma_blocks(body, blocks);
    assert(section_of(tail).files =~= block_files(blocks));
}

/// The name and the description of a skill that was read are each one line,
/// without white space at either end, and its body has no white space at
/// either end.
pub proof fn law_parsed_texts_are_trimmed(raw: Seq<char>)
    requires
        response_of(raw) is Some,
    ensures
        ({
            let skill = response_of(raw)->Some_0;
            &&& !skill.name.contains('\n') && trimmed(skill.name) == skill.name
            &&& !skill.description.contains('\n') && trimmed(skill.description)
                == skill.description
            &&& trimmed(skill.body) == skill.body
        }),
{
    let lines = lines_of(raw);
    let rest = lines.drop_first();
    let header = rest.take(body_at(rest) as int);
    reveal_strlit("name:");
    reveal_strlit("description:");
    lemma_lines_have_no_feed(raw);
    lemma_body_at(rest);
    assert forall|i: int| 0 <= i < header.len() implies !(#[trigger] header[i]).contains('\n') by {
        assert(header[i] == lines[i + 1]);
    }
    lemma_value_is_trimmed(header, "name:"@);
    lemma_value_is_trimmed(header, "description:"@);
    let section = section_of(
        if header.len() < rest.len() {
            rest.skip(header.len() as int + 1)
        } else {
            seq![]
        },
    );
    lemma_trimmed_ends(joined(section.body, "\n"@));
}

/// The value of a header line is part of that line, without white space at
/// either end.
proof fn lemma_value_is_trimmed(header: Seq<Seq<char>>, key: Seq<char>)
    requires
        forall|i: int| 0 <= i < header.len() ==> !(#[trigger] header[i]).contains('\n'),
        key.len() > 0,
        key.last() == ':',
    ensures
        last_value(header, key) matches Some(value) ==> !value.contains('\n') && trimmed(value)
            == value,
    decreases header.len(),
{
    if header.len() > 0 {
        let line = header[header.len() - 1];
        if line_has_key(line, key) {
            lemma_key_has_colon(line, key);
            let value = line.skip(first_index(line, ':') as int + 1);
            lemma_trimmed_ends(value);
            lemma_trimmed_is_part(value);
            assert forall|i: int| 0 <= i < trimmed(value).len() implies trimmed(value)[i]
                != '\n' by {
                assert(value.contains(trimmed(value)[i]));
                let j = choose|j: int| 0 <= j < value.len() && value[j] == trimmed(value)[i];
                assert(line.contains(value[j]));
            }
        } else {
            lemma_value_is_trimmed(header.drop_last(), key);
        }
    }
}

/// ASCII text can be cut after any number of bytes.
proof fn lemma_ascii_cuts(s: Seq<char>, n: nat)
    requires
        is_ascii_chars(s),
    ensures
        cuts_at(s, n),
{
    let bytes = encode_utf8(s);
    is_ascii_chars_encode_utf8(s);
    encode_utf8_valid_utf8(s);
    if n == bytes.len() {
        is_char_boundary_start_end_of_seq(bytes);
    } else if n < bytes.len() {
        assert('\0' <= s[n as int] <= '\u{7f}');
        assert(s[n as int] as u8 == bytes[n as int]);
        is_char_boundary_iff_not_is_continuation_byte(bytes, n as int);
    }
}

/// The header of an ASCII reply can be read.
pub proof fn law_ascii_reply_is_readable(raw: Seq<char>)
    requires
        is_ascii_chars(raw),
    ensures
        header_cuts(raw),
{
    lemma_lines_are_parts(raw);
    if lines_of(raw).len() > 0 {
        let rest = lines_of(raw).drop_first();
        assert forall|i: int| 0 <= i < rest.len() && i <= body_at(rest) implies header_line_cuts(
            #[trigger] rest[i],
        ) by {
            let line = lines_of(raw)[i + 1];
            let t = trimmed_start(line);
            assert(rest[i] == line);
            lemma_trimmed_start(line);
            assert forall|j: int| 0 <= j < t.len() implies '\0' <= #[trigger] t[j]
                <= '\u{7f}' by {
                let c = lines_of(raw)[i + 1][line.len() - t.len() + j];
                assert(c == t[j]);
                assert(raw.contains(c));
            }
            lemma_ascii_cuts(t, utf8_len("name:"@));
            lemma_ascii_cuts(t, utf8_len("description:"@));
        }
    }
}

} // verus!
