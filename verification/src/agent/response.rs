//! The reply format of the skill hook: an action line, a header with a name and
//! a description, and a body with optional file blocks.
use crate::lines::join;
use crate::lines::joined;
use crate::lines::lines;
use crate::lines::lines_of;
use crate::text::after_colon;
use crate::text::ends_with;
use crate::text::eq_ignore_case;
use crate::text::first_index;
use crate::text::has_prefix_but_case;
use crate::text::lemma_first_index;
use crate::text::lemma_trimmed_start;
use crate::text::lowered;
use crate::text::same;
use crate::text::same_but_case;
use crate::text::starts_with;
use crate::text::starts_with_ignore_case;
use crate::text::trim;
use crate::text::trim_start;
use crate::text::trimmed;
use crate::text::trimmed_start;
use crate::text::value_after_colon;
use crate::truncate::lemma_encode_concat;
use crate::truncate::lemma_utf8_len_bound;
use crate::truncate::lemma_utf8_len_but_case;
use crate::truncate::utf8_len;
use vstd::prelude::*;
use vstd::string::*;
use vstd::utf8::*;

verus! {

// ---------------------------------------------------------------------------
// Prefixes up to case
// ---------------------------------------------------------------------------
/// Whether `s` can be cut after its first `n` bytes, or is shorter than that.
pub open spec fn cuts_at(s: Seq<char>, n: nat) -> bool {
    utf8_len(s) >= n ==> is_char_boundary(encode_utf8(s), n as int)
}

/// Two beginnings of the same text that take equally many bytes are the same.
proof fn lemma_same_beginning(s: Seq<char>, i: int, j: int)
    requires
        0 <= i <= s.len(),
        0 <= j <= s.len(),
        utf8_len(s.take(i)) == utf8_len(s.take(j)),
    ensures
        i == j,
    decreases (if i > j {
        1int
    } else {
        0
    }),
{
    if i > j {
        lemma_same_beginning(s, j, i);
    } else if i < j {
        let between = s.subrange(i, j);
        assert(s.take(j) =~= s.take(i) + between);
        lemma_encode_concat(s.take(i), between);
        lemma_utf8_len_bound(between);
    }
}

/// A text can be cut after any of its beginnings.
pub proof fn lemma_cuts_after(head: Seq<char>, rest: Seq<char>)
    ensures
        cuts_at(head + rest, utf8_len(head)),
{
    let bytes = encode_utf8(head + rest);
    let n = utf8_len(head) as int;
    lemma_encode_concat(head, rest);
    encode_utf8_valid_utf8(head + rest);
    if rest.len() == 0 {
        assert(encode_utf8(rest).len() == 0);
        is_char_boundary_start_end_of_seq(bytes);
    } else {
        lemma_utf8_len_bound(rest);
        encode_utf8_valid_utf8(rest);
        is_char_boundary_start_end_of_seq(encode_utf8(rest));
        is_char_boundary_iff_not_is_continuation_byte(encode_utf8(rest), 0);
        assert(bytes[n] == encode_utf8(rest)[0]);
        is_char_boundary_iff_not_is_continuation_byte(bytes, n);
    }
}

/// The parts of a text that is cut at a byte position make up the text.
proof fn lemma_parts_make_whole(s: Seq<char>, head: Seq<char>, rest: Seq<char>, n: int)
    requires
        0 <= n <= utf8_len(s),
        encode_utf8(head) == encode_utf8(s).subrange(0, n),
        encode_utf8(rest) == encode_utf8(s).subrange(n, utf8_len(s) as int),
    ensures
        s == head + rest,
{
    lemma_encode_concat(head, rest);
    assert(encode_utf8(head + rest) =~= encode_utf8(s));
    encode_utf8_decode_utf8(head + rest);
    encode_utf8_decode_utf8(s);
}

/// What follows `prefix` in `s`, if `s` begins with it up to the case of ASCII
/// letters. `s` must be short, or its bytes must be separable after as many as
/// `prefix` has.
pub fn strip_ci_prefix<'a>(s: &'a str, prefix: &str) -> (rest: Option<&'a str>)
    requires
        cuts_at(s@, utf8_len(prefix@)),
    ensures
        match rest {
            Some(r) => has_prefix_but_case(s@, prefix@) && r@ == s@.skip(prefix@.len() as int),
            None => !has_prefix_but_case(s@, prefix@),
        },
{
    let n: usize = prefix.as_bytes().len();
    let ghost start = s@.take(prefix@.len() as int);
    proof {
        if has_prefix_but_case(s@, prefix@) {
            lemma_utf8_len_but_case(start, prefix@);
            lemma_encode_concat(start, s@.skip(prefix@.len() as int));
            assert(s@ =~= start + s@.skip(prefix@.len() as int));
        }
    }
    if s.as_bytes().len() < n {
        return None;
    }
    let (head, rest): (&'a str, &'a str) = s.split_at(n);
    proof {
        lemma_parts_make_whole(s@, head@, rest@, n as int);
        assert(s@.take(head@.len() as int) =~= head@);
        assert(s@.skip(head@.len() as int) =~= rest@);
        if has_prefix_but_case(s@, prefix@) {
            lemma_same_beginning(s@, head@.len() as int, prefix@.len() as int);
        }
        if same_but_case(head@, prefix@) {
            lemma_utf8_len_but_case(head@, prefix@);
        }
    }
    if eq_ignore_case(head, prefix) {
        Some(rest)
    } else {
        None
    }
}

// ---------------------------------------------------------------------------
// What a reply holds
// ---------------------------------------------------------------------------
/// What a reply asks for.
#[derive(Debug, Clone, Copy, PartialEq, Eq, Structural)]
pub enum SkillAction {
    Save,
    Update,
}

/// A helper file of a skill.
#[derive(Debug)]
pub struct ParsedFile {
    pub name: String,
    pub content: String,
}

/// A skill as a reply describes it.
#[derive(Debug)]
pub struct ParsedSkill {
    pub action: SkillAction,
    pub name: String,
    pub description: String,
    pub body: String,
    pub files: Vec<ParsedFile>,
}

/// The texts of a [`ParsedFile`].
pub struct FileView {
    pub name: Seq<char>,
    pub content: Seq<char>,
}

/// The texts of a [`ParsedSkill`].
#[verifier::ext_equal]
pub struct SkillView {
    pub action: SkillAction,
    pub name: Seq<char>,
    pub description: Seq<char>,
    pub body: Seq<char>,
    pub files: Seq<FileView>,
}

impl View for ParsedFile {
    type V = FileView;

    open spec fn view(&self) -> FileView {
        FileView { name: self.name@, content: self.content@ }
    }
}

/// The texts of each file in a row.
pub open spec fn file_views(files: Seq<ParsedFile>) -> Seq<FileView> {
    Seq::new(files.len(), |i: int| files[i]@)
}

impl View for ParsedSkill {
    type V = SkillView;

    open spec fn view(&self) -> SkillView {
        SkillView {
            action: self.action,
            name: self.name@,
            description: self.description@,
            body: self.body@,
            files: file_views(self.files@),
        }
    }
}

// ---------------------------------------------------------------------------
// The action line
// ---------------------------------------------------------------------------
/// The action that a first line names.
pub open spec fn action_of(line: Seq<char>) -> Option<SkillAction> {
    let word = trimmed(line);
    if same_but_case(word, "SAVE"@) {
        Some(SkillAction::Save)
    } else if same_but_case(word, "UPDATE"@) {
        Some(SkillAction::Update)
    } else {
        None
    }
}

/// Reads the action line.
fn parse_action(line: &str) -> (action: Option<SkillAction>)
    ensures
        action == action_of(line@),
{
    let word: &str = trim(line);
    if eq_ignore_case(word, "SAVE") {
        Some(SkillAction::Save)
    } else if eq_ignore_case(word, "UPDATE") {
        Some(SkillAction::Update)
    } else {
        None
    }
}

// ---------------------------------------------------------------------------
// The header
// ---------------------------------------------------------------------------
/// Whether a line begins, after white space, with `key` in either case.
pub open spec fn line_has_key(line: Seq<char>, key: Seq<char>) -> bool {
    has_prefix_but_case(trimmed_start(line), key)
}

/// The value of the last header line that has the given key.
pub open spec fn last_value(header: Seq<Seq<char>>, key: Seq<char>) -> Option<Seq<char>>
    decreases header.len(),
{
    if header.len() == 0 {
        None
    } else if line_has_key(header.last(), key) {
        Some(after_colon(header.last()))
    } else {
        last_value(header.drop_last(), key)
    }
}

/// The position of the first line with the key `body:`, or the number of lines
/// if there is none.
pub open spec fn body_at(lines: Seq<Seq<char>>) -> nat
    decreases lines.len(),
{
    if lines.len() == 0 || line_has_key(lines[0], "body:"@) {
        0
    } else {
        1 + body_at(lines.drop_first())
    }
}

/// Whether the keys `name:` and `description:` can be looked for in a header
/// line: its bytes must be separable where the key would end.
pub open spec fn header_line_cuts(line: Seq<char>) -> bool {
    let t = trimmed_start(line);
    &&& cuts_at(t, utf8_len("name:"@))
    &&& line_has_key(line, "name:"@) || cuts_at(t, utf8_len("description:"@))
}

/// Whether keys can be looked for in every header line of a reply, the line
/// with the key `body:` among them. A reply without an action has no header.
pub open spec fn header_cuts(raw: Seq<char>) -> bool {
    let lines = lines_of(raw);
    lines.len() > 0 && action_of(lines[0]) is Some ==> {
        let rest = lines.drop_first();
        forall|i: int|
            0 <= i < rest.len() && i <= body_at(rest) ==> header_line_cuts(#[trigger] rest[i])
    }
}

/// A line with no `body:` before it and that key itself is at [`body_at`].
pub proof fn lemma_body_at_is(lines: Seq<Seq<char>>, n: int)
    requires
        0 <= n <= lines.len(),
        n < lines.len() ==> line_has_key(lines[n], "body:"@),
        forall|i: int| 0 <= i < n ==> !line_has_key(#[trigger] lines[i], "body:"@),
    ensures
        body_at(lines) == n,
    decreases n,
{
    if n > 0 {
        assert(!line_has_key(lines[0], "body:"@));
        let rest = lines.drop_first();
        assert forall|i: int| 0 <= i < n - 1 implies !line_has_key(
            #[trigger] rest[i],
            "body:"@,
        ) by {
            assert(rest[i] == lines[i + 1]);
        }
        lemma_body_at_is(rest, n - 1);
    }
}

/// [`body_at`] is the position of a line with that key and none before it, or
/// the number of lines.
pub proof fn lemma_body_at(lines: Seq<Seq<char>>)
    ensures
        body_at(lines) <= lines.len(),
        body_at(lines) < lines.len() ==> line_has_key(lines[body_at(lines) as int], "body:"@),
        forall|i: int|
            0 <= i < body_at(lines) ==> !line_has_key(#[trigger] lines[i], "body:"@),
    decreases lines.len(),
{
    if lines.len() > 0 && !line_has_key(lines[0], "body:"@) {
        let rest = lines.drop_first();
        lemma_body_at(rest);
        assert forall|i: int| 0 <= i < body_at(lines) implies !line_has_key(
            #[trigger] lines[i],
            "body:"@,
        ) by {
            if i > 0 {
                assert(rest[i - 1] == lines[i]);
            }
        }
    }
}

/// A line with a key that ends in a colon holds a colon.
pub proof fn lemma_key_has_colon(line: Seq<char>, key: Seq<char>)
    requires
        key.len() > 0,
        key.last() == ':',
        line_has_key(line, key),
    ensures
        first_index(line, ':') < line.len(),
{
    let t = trimmed_start(line);
    let n = key.len() - 1;
    lemma_trimmed_start(line);
    assert(lowered(t.take(key.len() as int))[n] == lowered(key)[n]);
    assert(t[n] == ':');
    assert(line[line.len() - t.len() + n] == ':');
    lemma_first_index(line, ':');
}

/// Whether [`parse_skill_response`] can read a reply.
pub fn header_is_separable(raw: &str) -> (readable: bool)
    ensures
        readable == header_cuts(raw@),
{
    let all: Vec<String> = lines(raw);
    let ghost lines = all.deep_view();
    if all.len() == 0 || parse_action(all[0].as_str()).is_none() {
        return true;
    }
    let ghost rest = lines.drop_first();
    let mut i: usize = 1;
    while i < all.len()
        invariant
            lines == all.deep_view(),
            lines == lines_of(raw@),
            lines.len() > 0,
            action_of(lines[0]) is Some,
            rest == lines.drop_first(),
            1 <= i <= all@.len(),
            forall|j: int| 0 <= j < i - 1 ==> !line_has_key(#[trigger] rest[j], "body:"@),
            forall|j: int| 0 <= j < i - 1 ==> header_line_cuts(#[trigger] rest[j]),
        decreases all@.len() - i,
    {
        let line: &str = all[i].as_str();
        let t: &str = trim_start(line);
        assert(rest[i - 1] == line@);
        let name_cuts: bool = can_cut(t, "name:");
        let cuts: bool = name_cuts && (starts_with_ignore_case(t, "name:") || can_cut(
            t,
            "description:",
        ));
        proof {
            lemma_body_at(rest);
        }
        if !cuts {
            assert(!header_line_cuts(rest[i - 1]));
            assert(i - 1 <= body_at(rest)) by {
                if body_at(rest) < i - 1 {
                    assert(line_has_key(rest[body_at(rest) as int], "body:"@));
                }
            }
            return false;
        }
        if starts_with_ignore_case(t, "body:") {
            proof {
                lemma_body_at_is(rest, i - 1);
            }
            return true;
        }
        i = i + 1;
    }
    true
}

/// Whether `s` is shorter than `prefix` or separable after as many bytes.
fn can_cut(s: &str, prefix: &str) -> (cuts: bool)
    ensures
        cuts == cuts_at(s@, utf8_len(prefix@)),
{
    let n: usize = prefix.as_bytes().len();
    s.as_bytes().len() < n || s.is_char_boundary(n)
}

// ---------------------------------------------------------------------------
// The body and its file blocks
// ---------------------------------------------------------------------------
/// The file name that a line opens a file block for: a line
/// `--- BEGIN FILE: <name> ---` with a name that is not blank.
pub open spec fn opened_file(line: Seq<char>) -> Option<Seq<char>> {
    let t = trimmed(line);
    let opening = "--- BEGIN FILE:"@;
    let closing = "---"@;
    if opening.is_prefix_of(t) && closing.is_suffix_of(t) && t.len() > opening.len()
        + closing.len() {
        let name = trimmed(t.subrange(opening.len() as int, t.len() - closing.len()));
        if name.len() > 0 {
            Some(name)
        } else {
            None
        }
    } else {
        None
    }
}

/// Whether a line ends a file block.
pub open spec fn ends_file(line: Seq<char>) -> bool {
    trimmed(line) == "--- END FILE ---"@ || trimmed(line) == "--- END ---"@
}

/// What the lines after `body:` hold so far: the lines of the body, the
/// complete files, and the name and lines of a file block that is open.
#[verifier::ext_equal]
pub struct Section {
    pub body: Seq<Seq<char>>,
    pub files: Seq<FileView>,
    pub open: Option<(Seq<char>, Seq<Seq<char>>)>,
}

/// The file that a block with these lines stands for: every line is ended by a
/// line feed, and a block without lines is one empty line.
pub open spec fn file_of(name: Seq<char>, lines: Seq<Seq<char>>) -> FileView {
    FileView { name, content: joined(lines, "\n"@) + "\n"@ }
}

/// What one more line makes of a section. An opening line starts a new file
/// block, and a block that was still open is lost. An end line completes the
/// open block, and means nothing where none is open. Any other line belongs to
/// the open block, or else to the body.
pub open spec fn with_line(before: Section, line: Seq<char>) -> Section {
    match opened_file(line) {
        Some(name) => Section { open: Some((name, seq![])), ..before },
        None => if ends_file(line) {
            match before.open {
                Some((name, lines)) => Section {
                    files: before.files.push(file_of(name, lines)),
                    open: None,
                    ..before
                },
                None => before,
            }
        } else {
            match before.open {
                Some((name, lines)) => Section { open: Some((name, lines.push(line))), ..before },
                None => Section { body: before.body.push(line), ..before },
            }
        },
    }
}

/// What the lines after `body:` hold.
pub open spec fn section_of(lines: Seq<Seq<char>>) -> Section
    decreases lines.len(),
{
    if lines.len() == 0 {
        Section { body: seq![], files: seq![], open: None }
    } else {
        with_line(section_of(lines.drop_last()), lines.last())
    }
}

/// The skill that a reply describes. The reply has an action line first and,
/// before the line with the key `body:`, lines with the keys `name:` and
/// `description:`, of which the last counts. A file block that is never ended
/// is lost.
pub open spec fn response_of(raw: Seq<char>) -> Option<SkillView> {
    let lines = lines_of(raw);
    if lines.len() == 0 {
        None
    } else {
        let rest = lines.drop_first();
        let header = rest.take(body_at(rest) as int);
        let section = section_of(
            if header.len() < rest.len() {
                rest.skip(header.len() as int + 1)
            } else {
                seq![]
            },
        );
        match (
            action_of(lines[0]),
            last_value(header, "name:"@),
            last_value(header, "description:"@),
        ) {
            (Some(action), Some(name), Some(description)) => Some(
                SkillView {
                    action,
                    name,
                    description,
                    body: trimmed(joined(section.body, "\n"@)),
                    files: section.files,
                },
            ),
            _ => None,
        }
    }
}

/// The file name of a line that opens a file block.
pub fn strip_file_open(line: &str) -> (name: Option<String>)
    ensures
        match name {
            Some(n) => opened_file(line@) == Some(n@),
            None => opened_file(line@) is None,
        },
{
    let t: &str = trim(line);
    let opening: &str = "--- BEGIN FILE:";
    let closing: &str = "---";
    proof {
        reveal_strlit("--- BEGIN FILE:");
        reveal_strlit("---");
    }
    if !starts_with(t, opening) || !ends_with(t, closing) {
        return None;
    }
    let n: usize = t.unicode_len();
    if n <= 18 {
        return None;
    }
    let inner: &str = trim(t.substring_char(15, n - 3));
    if inner.is_empty() {
        return None;
    }
    Some(inner.to_owned())
}

/// The name and the lines of an open file block.
spec fn open_block(name: Option<String>, lines: Seq<Seq<char>>) -> Option<
    (Seq<char>, Seq<Seq<char>>),
> {
    match name {
        Some(n) => Some((n@, lines)),
        None => None,
    }
}

/// Reads the lines from position `start` on as the body and its file blocks.
fn parse_section(all: &Vec<String>, start: usize) -> (parts: (Vec<String>, Vec<ParsedFile>))
    requires
        start <= all@.len(),
    ensures
        parts.0.deep_view() == section_of(all.deep_view().skip(start as int)).body,
        file_views(parts.1@) == section_of(all.deep_view().skip(start as int)).files,
{
    let ghost lines = all.deep_view().skip(start as int);
    let mut body: Vec<String> = Vec::new();
    let mut files: Vec<ParsedFile> = Vec::new();
    let mut open_name: Option<String> = None;
    let mut open_lines: Vec<String> = Vec::new();
    let mut i: usize = start;
    proof {
        assert(lines.take(0) =~= Seq::<Seq<char>>::empty());
        assert(body.deep_view() =~= Seq::<Seq<char>>::empty());
        assert(file_views(files@) =~= Seq::<FileView>::empty());
    }
    while i < all.len()
        invariant
            start <= i <= all@.len(),
            lines == all.deep_view().skip(start as int),
            section_of(lines.take(i - start)) == (Section {
                body: body.deep_view(),
                files: file_views(files@),
                open: open_block(open_name, open_lines.deep_view()),
            }),
        decreases all@.len() - i,
    {
        let line: &String = &all[i];
        proof {
            assert(lines[i - start] == line@);
            assert(lines.take(i + 1 - start).drop_last() =~= lines.take(i - start));
        }
        match strip_file_open(line.as_str()) {
            Some(name) => {
                open_name = Some(name);
                open_lines = Vec::new();
                assert(open_lines.deep_view() =~= Seq::<Seq<char>>::empty());
            },
            None => {
                let t: &str = trim(line.as_str());
                if same(t, "--- END FILE ---") || same(t, "--- END ---") {
                    match open_name {
                        Some(name) => {
                            let mut content: String = join(&open_lines, "\n");
                            content.append("\n");
                            let ghost done = file_views(files@);
                            files.push(ParsedFile { name, content });
                            assert(file_views(files@) =~= done.push(
                                file_of(name@, open_lines.deep_view()),
                            ));
                            open_name = None;
                        },
                        None => {},
                    }
                } else if open_name.is_some() {
                    let ghost done = open_lines.deep_view();
                    open_lines.push(line.clone());
                    assert(open_lines.deep_view() =~= done.push(line@));
                } else {
                    let ghost done = body.deep_view();
                    body.push(line.clone());
                    assert(body.deep_view() =~= done.push(line@));
                }
            },
        }
        i = i + 1;
    }
    assert(lines.take(i - start) =~= lines);
    (body, files)
}

/// Reads a reply of the language model. Accepts a leading `SAVE` or `UPDATE`
/// line, then `name:`, `description:` and `body:`, followed by the body and
/// optional file blocks.
pub fn parse_skill_response(raw: &str) -> (parsed: Option<ParsedSkill>)
    requires
        header_cuts(raw@),
    ensures
        match parsed {
            Some(p) => response_of(raw@) == Some(p@),
            None => response_of(raw@) is None,
        },
{
    let all: Vec<String> = lines(raw);
    let ghost lines = all.deep_view();
    if all.len() == 0 {
        return None;
    }
    let action: SkillAction = match parse_action(all[0].as_str()) {
        Some(a) => a,
        None => return None,
    };
    let ghost rest = lines.drop_first();
    let mut name: Option<String> = None;
    let mut description: Option<String> = None;
    let mut i: usize = 1;
    let mut in_header: bool = true;
    proof {
        lemma_body_at(rest);
        reveal_strlit("name:");
        reveal_strlit("description:");
    }
    while in_header && i < all.len()
        invariant
            lines == all.deep_view(),
            lines.len() > 0,
            rest == lines.drop_first(),
            "name:"@.len() > 0 && "name:"@.last() == ':',
            "description:"@.len() > 0 && "description:"@.last() == ':',
            1 <= i <= all@.len(),
            in_header ==> forall|j: int|
                0 <= j < i - 1 ==> !line_has_key(#[trigger] rest[j], "body:"@),
            !in_header ==> i < all@.len() && body_at(rest) == i - 1,
            forall|j: int|
                0 <= j < rest.len() && j <= body_at(rest) ==> header_line_cuts(#[trigger] rest[j]),
            match name {
                Some(n) => last_value(rest.take(i - 1), "name:"@) == Some(n@),
                None => last_value(rest.take(i - 1), "name:"@) is None,
            },
            match description {
                Some(d) => last_value(rest.take(i - 1), "description:"@) == Some(d@),
                None => last_value(rest.take(i - 1), "description:"@) is None,
            },
        decreases all@.len() - i, in_header as int,
    {
        let line: &str = all[i].as_str();
        let t: &str = trim_start(line);
        let ghost seen = rest.take(i - 1);
        proof {
            assert(rest[i - 1] == line@);
            assert(rest.take(i as int).drop_last() =~= seen);
            assert(rest.take(i as int).last() == line@);
            lemma_body_at(rest);
            assert(i - 1 <= body_at(rest)) by {
                if body_at(rest) < i - 1 {
                    assert(line_has_key(rest[body_at(rest) as int], "body:"@));
                }
            }
            assert(header_line_cuts(rest[i - 1]));
        }
        if strip_ci_prefix(t, "name:").is_some() {
            proof {
                lemma_key_has_colon(line@, "name:"@);
                lemma_keys_differ(line@);
            }
            name = Some(value_after_colon(line));
            i = i + 1;
        } else if strip_ci_prefix(t, "description:").is_some() {
            proof {
                lemma_key_has_colon(line@, "description:"@);
                lemma_keys_differ(line@);
            }
            description = Some(value_after_colon(line));
            i = i + 1;
        } else if starts_with_ignore_case(t, "body:") {
            proof {
                lemma_body_at_is(rest, i - 1);
            }
            in_header = false;
        } else {
            i = i + 1;
        }
    }
    proof {
        if in_header {
            lemma_body_at_is(rest, i - 1);
        }
    }
    let start: usize = if in_header {
        all.len()
    } else {
        i + 1
    };
    let (body, files): (Vec<String>, Vec<ParsedFile>) = parse_section(&all, start);
    proof {
        if in_header {
            assert(lines.skip(start as int) =~= Seq::<Seq<char>>::empty());
        } else {
            assert(lines.skip(start as int) =~= rest.skip(i as int));
        }
    }
    match (name, description) {
        (Some(name), Some(description)) => {
            let text: String = join(&body, "\n");
            let parsed: ParsedSkill = ParsedSkill {
                action,
                name,
                description,
                body: trim(text.as_str()).to_owned(),
                files,
            };
            assert(response_of(raw@)->Some_0 =~= parsed@);
            Some(parsed)
        },
        _ => None,
    }
}

/// No line has two of the header's keys.
proof fn lemma_keys_differ(line: Seq<char>)
    ensures
        line_has_key(line, "name:"@) ==> !line_has_key(line, "description:"@),
        line_has_key(line, "name:"@) ==> !line_has_key(line, "body:"@),
        line_has_key(line, "description:"@) ==> !line_has_key(line, "body:"@),
{
    reveal_strlit("name:");
    reveal_strlit("description:");
    reveal_strlit("body:");
    let t = trimmed_start(line);
    if line_has_key(line, "name:"@) {
        assert(lowered(t.take("name:"@.len() as int))[0] == lowered("name:"@)[0]);
    }
    if line_has_key(line, "description:"@) {
        assert(lowered(t.take("description:"@.len() as int))[0] == lowered("description:"@)[0]);
    }
    if line_has_key(line, "body:"@) {
        assert(lowered(t.take("body:"@.len() as int))[0] == lowered("body:"@)[0]);
    }
}

/// A text can be cut after the bytes of any of its beginnings, and counts as
/// separable where it has fewer bytes.
pub proof fn law_texts_are_cut_between_characters(s: Seq<char>, k: int, n: nat)
    requires
        0 <= k <= s.len(),
    ensures
        cuts_at(s, encode_utf8(s.take(k)).len()),
        n > encode_utf8(s).len() ==> cuts_at(s, n),
{
    assert(s =~= s.take(k) + s.skip(k));
    lemma_cuts_after(s.take(k), s.skip(k));
}

/// A reply can be read where every line, after white space, can be cut where
/// the keys `name:` and `description:` would end.
pub proof fn law_separable_reply_is_readable(raw: Seq<char>)
    requires
        forall|i: int|
            0 <= i < lines_of(raw).len() ==> cuts_at(trimmed_start(#[trigger] lines_of(raw)[i]), 5)
                && cuts_at(trimmed_start(lines_of(raw)[i]), 12),
    ensures
        header_cuts(raw),
{
    reveal_strlit("name:");
    reveal_strlit("description:");
    is_ascii_chars_encode_utf8("name:"@);
    is_ascii_chars_encode_utf8("description:"@);
    let lines = lines_of(raw);
    if lines.len() > 0 {
        let rest = lines.drop_first();
        assert forall|i: int| 0 <= i < rest.len() && i <= body_at(rest) implies header_line_cuts(
            #[trigger] rest[i],
        ) by {
            assert(rest[i] == lines[i + 1]);
        }
    }
}

} // verus!
