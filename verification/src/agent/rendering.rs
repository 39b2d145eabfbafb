//! What is written for a skill: its `SKILL.md`, its helper files and the notice
//! that tells of it.
use crate::agent::naming::is_alnum;
use crate::agent::naming::is_alphanumeric;
use crate::agent::response::file_views;
use crate::agent::response::FileView;
use crate::agent::response::ParsedFile;
use crate::agent::response::ParsedSkill;
use crate::agent::response::SkillView;
use crate::lines::join;
use crate::lines::joined;
use crate::number::decimal;
use crate::number::push_decimal;
use crate::text::ends_with;
use crate::text::same;
use crate::text::to_chars;
use crate::text::trim;
use crate::text::trimmed;
use vstd::prelude::*;
use vstd::string::*;

verus! {

// ---------------------------------------------------------------------------
// Values
// ---------------------------------------------------------------------------
/// `s` with an underscore in place of every character that is no ASCII letter
/// or digit.
pub open spec fn sanitized(s: Seq<char>) -> Seq<char> {
    Seq::new(
        s.len(),
        |i: int|
            if is_alphanumeric(s[i]) {
                s[i]
            } else {
                '_'
            },
    )
}

/// Replaces every character that is no ASCII letter or digit.
pub fn sanitize_tag(s: &str) -> (tag: String)
    ensures
        tag@ == sanitized(s@),
{
    let chars: Vec<char> = to_chars(s);
    let mut tag: String = String::new();
    let mut i: usize = 0;
    while i < chars.len()
        invariant
            chars@ == s@,
            i <= chars@.len(),
            tag@ == sanitized(s@).take(i as int),
        decreases chars@.len() - i,
    {
        let c: char = chars[i];
        if is_alnum(c) {
            tag.push(c);
        } else {
            tag.push('_');
        }
        assert(sanitized(s@).take(i + 1) =~= sanitized(s@).take(i as int).push(
            sanitized(s@)[i as int],
        ));
        i = i + 1;
    }
    assert(sanitized(s@).take(i as int) =~= sanitized(s@));
    tag
}

/// A sanitized text is as long as the text, is made of ASCII letters, digits
/// and underscores, and is left as it is when sanitized again.
pub proof fn law_sanitized_is_tag(s: Seq<char>)
    ensures
        sanitized(s).len() == s.len(),
        forall|i: int|
            0 <= i < s.len() ==> is_alphanumeric(#[trigger] sanitized(s)[i]) || sanitized(s)[i]
                == '_',
        sanitized(sanitized(s)) == sanitized(s),
{
    assert(sanitized(sanitized(s)) =~= sanitized(s));
}

/// What stands for `c` between double quotes: a backslash and a double quote
/// are escaped, and a line feed becomes a space.
pub open spec fn escaped_char(c: char) -> Seq<char> {
    if c == '\\' {
        seq!['\\', '\\']
    } else if c == '"' {
        seq!['\\', '"']
    } else if c == '\n' {
        seq![' ']
    } else {
        seq![c]
    }
}

/// What stands for `s` between double quotes.
pub open spec fn escaped(s: Seq<char>) -> Seq<char>
    decreases s.len(),
{
    if s.len() == 0 {
        seq![]
    } else {
        escaped(s.drop_last()) + escaped_char(s.last())
    }
}

/// Whether `s` has to be quoted as a YAML value.
pub open spec fn needs_quotes(s: Seq<char>) -> bool {
    s.contains(':') || s.contains('"') || s.contains('\n')
}

/// `s` as a YAML value.
pub open spec fn yaml_value(s: Seq<char>) -> Seq<char> {
    if needs_quotes(s) {
        seq!['"'] + escaped(s) + seq!['"']
    } else {
        s
    }
}

/// Writes a text as a YAML value.
pub fn escape_yaml_value(s: &str) -> (value: String)
    ensures
        value@ == yaml_value(s@),
{
    let chars: Vec<char> = to_chars(s);
    let mut special: bool = false;
    let mut quoted: String = String::new();
    quoted.push('"');
    let mut i: usize = 0;
    assert(quoted@ =~= seq!['"'] + escaped(s@.take(0)));
    while i < chars.len()
        invariant
            chars@ == s@,
            i <= chars@.len(),
            special == exists|j: int|
                0 <= j < i && (#[trigger] s@[j] == ':' || s@[j] == '"' || s@[j] == '\n'),
            quoted@ == seq!['"'] + escaped(s@.take(i as int)),
        decreases chars@.len() - i,
    {
        let c: char = chars[i];
        let ghost start = quoted@;
        assert(s@.take(i + 1).drop_last() =~= s@.take(i as int));
        assert(s@[i as int] == c);
        if c == ':' || c == '"' || c == '\n' {
            special = true;
        }
        if c == '\\' {
            quoted.push('\\');
            quoted.push('\\');
        } else if c == '"' {
            quoted.push('\\');
            quoted.push('"');
        } else if c == '\n' {
            quoted.push(' ');
        } else {
            quoted.push(c);
        }
        assert(quoted@ =~= start + escaped_char(c));
        assert(quoted@ =~= seq!['"'] + escaped(s@.take(i + 1)));
        i = i + 1;
    }
    assert(s@.take(i as int) =~= s@);
    if special {
        proof {
            let j = choose|j: int|
                0 <= j < i && (#[trigger] s@[j] == ':' || s@[j] == '"' || s@[j] == '\n');
            assert(s@.contains(s@[j]));
        }
        quoted.push('"');
        assert(quoted@ =~= yaml_value(s@));
        quoted
    } else {
        assert(!needs_quotes(s@));
        s.to_owned()
    }
}

// ---------------------------------------------------------------------------
// Files
// ---------------------------------------------------------------------------
/// The text of the `SKILL.md` of a skill: the frontmatter, an empty line and
/// the body.
pub open spec fn skill_md(skill: SkillView, sender: Seq<char>, version: Seq<char>) -> Seq<char> {
    "---\nname: "@ + skill.name + "\ndescription: "@ + yaml_value(skill.description)
        + "\nversion: "@ + version + "\nauthor: auto-skill\ntags: [auto, "@ + sanitized(sender)
        + "]\n---\n\n"@ + trimmed(skill.body) + "\n"@
}

/// Writes the text of the `SKILL.md` of a skill.
pub fn render_skill_md(skill: &ParsedSkill, sender: &str, version: &str) -> (text: String)
    ensures
        text@ == skill_md(skill@, sender@, version@),
{
    let description: String = escape_yaml_value(skill.description.as_str());
    let tag: String = sanitize_tag(sender);
    let mut text: String = "---\nname: ".to_owned();
    text.append(skill.name.as_str());
    text.append("\ndescription: ");
    text.append(description.as_str());
    text.append("\nversion: ");
    text.append(version);
    text.append("\nauthor: auto-skill\ntags: [auto, ");
    text.append(tag.as_str());
    text.append("]\n---\n\n");
    text.append(trim(skill.body.as_str()));
    text.append("\n");
    text
}

/// A helper file to write, and whether it is to be made executable.
#[derive(Debug)]
pub struct FileWrite {
    pub name: String,
    pub content: String,
    pub executable: bool,
}

/// The texts of a [`FileWrite`].
pub struct FileWriteView {
    pub name: Seq<char>,
    pub content: Seq<char>,
    pub executable: bool,
}

impl View for FileWrite {
    type V = FileWriteView;

    open spec fn view(&self) -> FileWriteView {
        FileWriteView {
            name: self.name@,
            content: self.content@,
            executable: self.executable,
        }
    }
}

/// The texts of each write in a row.
pub open spec fn write_views(writes: Seq<FileWrite>) -> Seq<FileWriteView> {
    Seq::new(writes.len(), |i: int| writes[i]@)
}

/// The write for a file: a shell script is made executable.
pub open spec fn file_write(file: FileView) -> FileWriteView {
    FileWriteView {
        name: file.name,
        content: file.content,
        executable: ".sh"@.is_suffix_of(file.name),
    }
}

/// The writes for files, in their order.
pub open spec fn file_writes(files: Seq<FileView>) -> Seq<FileWriteView> {
    Seq::new(files.len(), |i: int| file_write(files[i]))
}

/// Whether one of these files is called `SKILL.md`.
pub open spec fn has_skill_md(files: Seq<FileView>) -> bool {
    exists|i: int| 0 <= i < files.len() && (#[trigger] files[i]).name == "SKILL.md"@
}

/// The files that an update writes beside the `SKILL.md`, in their order. A file
/// of that name is not among them: it would replace the `SKILL.md` with the
/// incremented version.
pub open spec fn helper_files(files: Seq<FileView>) -> Seq<FileView>
    decreases files.len(),
{
    if files.len() == 0 {
        seq![]
    } else {
        let before = helper_files(files.drop_last());
        if files.last().name == "SKILL.md"@ {
            before
        } else {
            before.push(files.last())
        }
    }
}

/// Every helper file is among the files, and none is called `SKILL.md`.
pub proof fn lemma_helper_files(files: Seq<FileView>)
    ensures
        forall|i: int|
            0 <= i < helper_files(files).len() ==> files.contains(
                #[trigger] helper_files(files)[i],
            ),
        forall|i: int|
            0 <= i < helper_files(files).len() ==> (#[trigger] helper_files(files)[i]).name
                != "SKILL.md"@,
    decreases files.len(),
{
    if files.len() > 0 {
        let front = files.drop_last();
        let before = helper_files(front);
        let all = helper_files(files);
        lemma_helper_files(front);
        assert(files.contains(files[files.len() - 1]));
        assert forall|i: int| 0 <= i < all.len() implies files.contains(#[trigger] all[i])
            && all[i].name != "SKILL.md"@ by {
            if i < before.len() {
                assert(all[i] == before[i]);
                assert(front.contains(before[i]));
                let j = choose|j: int| 0 <= j < front.len() && front[j] == before[i];
                assert(files[j] == all[i]);
            }
        }
    }
}

/// Picks the files that an update writes beside the `SKILL.md`.
pub fn pick_helpers(files: &Vec<ParsedFile>) -> (helpers: Vec<ParsedFile>)
    ensures
        file_views(helpers@) == helper_files(file_views(files@)),
{
    let mut helpers: Vec<ParsedFile> = Vec::new();
    let ghost all = file_views(files@);
    let mut i: usize = 0;
    assert(file_views(helpers@) =~= helper_files(all.take(0)));
    while i < files.len()
        invariant
            i <= files@.len(),
            all == file_views(files@),
            file_views(helpers@) == helper_files(all.take(i as int)),
        decreases files@.len() - i,
    {
        let ghost done = file_views(helpers@);
        let file: &ParsedFile = &files[i];
        assert(all.take(i + 1).drop_last() =~= all.take(i as int));
        assert(all.take(i + 1).last() == file@);
        if !same(file.name.as_str(), "SKILL.md") {
            helpers.push(
                ParsedFile { name: file.name.clone(), content: file.content.clone() },
            );
            assert(file_views(helpers@) =~= done.push(file@));
        }
        i = i + 1;
    }
    assert(all.take(i as int) =~= all);
    helpers
}

/// Plans the writes for files, in their order.
pub fn plan_files(files: &Vec<ParsedFile>) -> (writes: Vec<FileWrite>)
    ensures
        write_views(writes@) == file_writes(file_views(files@)),
{
    let mut writes: Vec<FileWrite> = Vec::new();
    let ghost all = file_writes(file_views(files@));
    let mut i: usize = 0;
    assert(write_views(writes@) =~= all.take(0));
    while i < files.len()
        invariant
            i <= files@.len(),
            all == file_writes(file_views(files@)),
            write_views(writes@) == all.take(i as int),
        decreases files@.len() - i,
    {
        let ghost done = write_views(writes@);
        let file: &ParsedFile = &files[i];
        writes.push(
            FileWrite {
                name: file.name.clone(),
                content: file.content.clone(),
                executable: ends_with(file.name.as_str(), ".sh"),
            },
        );
        assert(write_views(writes@) =~= done.push(all[i as int]));
        assert(all.take(i + 1) =~= all.take(i as int).push(all[i as int]));
        i = i + 1;
    }
    assert(all.take(i as int) =~= all);
    writes
}

// ---------------------------------------------------------------------------
// Notices
// ---------------------------------------------------------------------------
/// The names of the files in a row.
pub open spec fn file_names(files: Seq<FileView>) -> Seq<Seq<char>> {
    Seq::new(files.len(), |i: int| files[i].name)
}

/// How many files there are and what they are called; nothing where there is
/// none.
pub open spec fn file_note(files: Seq<FileView>) -> Seq<char> {
    if files.len() == 0 {
        seq![]
    } else {
        " ("@ + decimal(files.len()) + " file(s): "@ + joined(file_names(files), ", "@) + ")"@
    }
}

/// Says how many files there are and what they are called.
pub fn file_count_suffix(files: &[ParsedFile]) -> (note: String)
    ensures
        note@ == file_note(file_views(files@)),
{
    if files.len() == 0 {
        return String::new();
    }
    let mut names: Vec<String> = Vec::new();
    let ghost all = file_names(file_views(files@));
    let mut i: usize = 0;
    assert(names.deep_view() =~= all.take(0));
    while i < files.len()
        invariant
            i <= files@.len(),
            all == file_names(file_views(files@)),
            names.deep_view() == all.take(i as int),
        decreases files@.len() - i,
    {
        let ghost done = names.deep_view();
        names.push(files[i].name.clone());
        assert(names.deep_view() =~= done.push(all[i as int]));
        assert(all.take(i + 1) =~= all.take(i as int).push(all[i as int]));
        i = i + 1;
    }
    assert(all.take(i as int) =~= all);
    let list: String = join(&names, ", ");
    let mut note: String = " (".to_owned();
    push_decimal(&mut note, files.len() as u64);
    note.append(" file(s): ");
    note.append(list.as_str());
    note.append(")");
    note
}

/// The notice that a skill was created.
pub open spec fn created_notice(skill: SkillView) -> Seq<char> {
    "\u{1F4BE} Skill `"@ + skill.name + "` created"@ + file_note(skill.files) + ".\n_"@
        + skill.description + "_"@
}

/// The notice that a skill was updated to a version.
pub open spec fn updated_notice(skill: SkillView, version: Seq<char>) -> Seq<char> {
    "\u{1F527} Skill `"@ + skill.name + "` updated to v"@ + version + file_note(
        helper_files(skill.files),
    ) + ".\n_"@ + skill.description + "_"@
}

/// Tells that a skill was created.
pub fn notice_of_creation(skill: &ParsedSkill) -> (text: String)
    ensures
        text@ == created_notice(skill@),
{
    let note: String = file_count_suffix(skill.files.as_slice());
    let mut text: String = "\u{1F4BE} Skill `".to_owned();
    text.append(skill.name.as_str());
    text.append("` created");
    text.append(note.as_str());
    text.append(".\n_");
    text.append(skill.description.as_str());
    text.append("_");
    text
}

/// Tells that a skill was updated.
pub fn notice_of_update(skill: &ParsedSkill, version: &str) -> (text: String)
    ensures
        text@ == updated_notice(skill@, version@),
{
    let helpers: Vec<ParsedFile> = pick_helpers(&skill.files);
    let note: String = file_count_suffix(helpers.as_slice());
    let mut text: String = "\u{1F527} Skill `".to_owned();
    text.append(skill.name.as_str());
    text.append("` updated to v");
    text.append(version);
    text.append(note.as_str());
    text.append(".\n_");
    text.append(skill.description.as_str());
    text.append("_");
    text
}

// ---------------------------------------------------------------------------
// Laws
// ---------------------------------------------------------------------------
/// Sanitizing keeps every ASCII letter and digit in its place and puts an
/// underscore in the place of anything else.
pub proof fn law_sanitizing_keeps_letters_and_digits(s: Seq<char>, i: int)
    requires
        0 <= i < s.len(),
    ensures
        sanitized(s).len() == s.len(),
        'a' <= s[i] <= 'z' || 'A' <= s[i] <= 'Z' || '0' <= s[i] <= '9' ==> sanitized(s)[i] == s[i],
        !('a' <= s[i] <= 'z' || 'A' <= s[i] <= 'Z' || '0' <= s[i] <= '9') ==> sanitized(s)[i]
            == '_',
{
}

/// Escaping goes character by character: texts in a row are escaped one after
/// the other, a backslash and a double quote get a backslash in front, a line
/// feed becomes a space, and any other character is kept.
pub proof fn law_escaping_goes_by_character(a: Seq<char>, b: Seq<char>, c: char)
    ensures
        escaped(a + b) == escaped(a) + escaped(b),
        escaped(Seq::<char>::empty()).len() == 0,
        escaped(seq![c]) == (if c == '\\' || c == '"' {
            seq!['\\', c]
        } else if c == '\n' {
            seq![' ']
        } else {
            seq![c]
        }),
    decreases b.len(),
{
    let one = seq![c];
    assert(one.drop_last() =~= Seq::<char>::empty());
    assert(escaped(one.drop_last()).len() == 0);
    assert(escaped(one) =~= escaped_char(c));
    if b.len() == 0 {
        assert(a + b =~= a);
        assert(escaped(a) + escaped(b) =~= escaped(a));
    } else {
        law_escaping_goes_by_character(a, b.drop_last(), c);
        assert((a + b).drop_last() =~= a + b.drop_last());
        assert((a + b).last() == b.last());
        assert(escaped(a + b) =~= escaped(a) + escaped(b));
    }
}

/// A text with a colon, a double quote or a line feed is written escaped between
/// double quotes, and any other as it is.
pub proof fn law_only_special_texts_are_quoted(s: Seq<char>)
    ensures
        s.contains(':') || s.contains('"') || s.contains('\n') ==> {
            &&& yaml_value(s).len() == escaped(s).len() + 2
            &&& yaml_value(s)[0] == '"'
            &&& yaml_value(s).last() == '"'
            &&& yaml_value(s).subrange(1, yaml_value(s).len() - 1) == escaped(s)
        },
        !s.contains(':') && !s.contains('"') && !s.contains('\n') ==> yaml_value(s) == s,
{
    if needs_quotes(s) {
        assert(yaml_value(s).subrange(1, yaml_value(s).len() - 1) =~= escaped(s));
    }
}

/// Every file is written, in its place, under its own name and with its own
/// content, and it is made executable just when its name ends in `.sh`.
pub proof fn law_files_are_written_as_they_are(files: Seq<FileView>, i: int)
    requires
        0 <= i < files.len(),
    ensures
        file_writes(files).len() == files.len(),
        file_writes(files)[i].name == files[i].name,
        file_writes(files)[i].content == files[i].content,
        file_writes(files)[i].executable <==> ".sh"@.is_suffix_of(files[i].name),
{
}

/// An update leaves out the files called `SKILL.md` and keeps all others, in
/// their order.
pub proof fn law_helpers_are_all_other_files(
    a: Seq<FileView>,
    b: Seq<FileView>,
    file: FileView,
)
    ensures
        helper_files(a + b) == helper_files(a) + helper_files(b),
        file.name == "SKILL.md"@ ==> helper_files(seq![file]).len() == 0,
        file.name != "SKILL.md"@ ==> helper_files(seq![file]) == seq![file],
        !has_skill_md(a) ==> helper_files(a) == a,
    decreases a.len() + b.len(),
{
    let one = seq![file];
    assert(one.drop_last() =~= Seq::<FileView>::empty());
    assert(helper_files(one.drop_last()) =~= Seq::<FileView>::empty());
    assert(file.name != "SKILL.md"@ ==> helper_files(one) =~= one);
    if b.len() == 0 {
        assert(a + b =~= a);
        assert(helper_files(a) + helper_files(b) =~= helper_files(a));
    } else {
        law_helpers_are_all_other_files(a, b.drop_last(), file);
        assert((a + b).drop_last() =~= a + b.drop_last());
        assert((a + b).last() == b.last());
        assert(helper_files(a + b) =~= helper_files(a) + helper_files(b));
    }
    if !has_skill_md(a) && a.len() > 0 {
        let front = a.drop_last();
        assert(!has_skill_md(front)) by {
            if has_skill_md(front) {
                let i = choose|i: int|
                    0 <= i < front.len() && (#[trigger] front[i]).name == "SKILL.md"@;
                assert(a[i].name == "SKILL.md"@);
            }
        }
        law_helpers_are_all_other_files(front, Seq::empty(), file);
        assert(a[a.len() - 1].name != "SKILL.md"@);
        assert(helper_files(a) =~= a);
    }
}

/// A note on files gives their number and all their names in order; there is
/// none where there is no file.
pub proof fn law_note_names_every_file(files: Seq<FileView>, names: Seq<Seq<char>>)
    requires
        names.len() == files.len(),
        forall|i: int| 0 <= i < files.len() ==> names[i] == (#[trigger] files[i]).name,
    ensures
        files.len() == 0 ==> file_note(files).len() == 0,
        files.len() > 0 ==> file_note(files) == " ("@ + decimal(names.len()) + " file(s): "@
            + joined(names, ", "@) + ")"@,
{
    assert(file_names(files) =~= names);
}

/// The notice of a new skill begins with its name, ends with its description and
/// has the note on all its files in between.
pub proof fn law_creation_is_told_in_full(skill: SkillView)
    ensures
        ({
            let head = "\u{1F4BE} Skill `"@ + skill.name + "` created"@;
            let tail = ".\n_"@ + skill.description + "_"@;
            let notice = created_notice(skill);
            &&& notice.len() == head.len() + file_note(skill.files).len() + tail.len()
            &&& head.is_prefix_of(notice)
            &&& tail.is_suffix_of(notice)
            &&& notice.subrange(head.len() as int, notice.len() - tail.len()) == file_note(
                skill.files,
            )
        }),
{
    let head = "\u{1F4BE} Skill `"@ + skill.name + "` created"@;
    let tail = ".\n_"@ + skill.description + "_"@;
    let notice = created_notice(skill);
    assert(notice =~= head + file_note(skill.files) + tail);
    assert(notice.subrange(0, head.len() as int) =~= head);
    assert(notice.subrange(notice.len() - tail.len(), notice.len() as int) =~= tail);
    assert(notice.subrange(head.len() as int, notice.len() - tail.len()) =~= file_note(
        skill.files,
    ));
}

/// The notice of an update begins with the skill's name and its version, ends
/// with its description and has the note on the files that are written beside
/// the `SKILL.md` in between.
pub proof fn law_update_is_told_in_full(skill: SkillView, version: Seq<char>)
    ensures
        ({
            let head = "\u{1F527} Skill `"@ + skill.name + "` updated to v"@ + version;
            let tail = ".\n_"@ + skill.description + "_"@;
            let note = file_note(helper_files(skill.files));
            let notice = updated_notice(skill, version);
            &&& notice.len() == head.len() + note.len() + tail.len()
            &&& head.is_prefix_of(notice)
            &&& tail.is_suffix_of(notice)
            &&& notice.subrange(head.len() as int, notice.len() - tail.len()) == note
        }),
{
    let head = "\u{1F527} Skill `"@ + skill.name + "` updated to v"@ + version;
    let tail = ".\n_"@ + skill.description + "_"@;
    let note = file_note(helper_files(skill.files));
    let notice = updated_notice(skill, version);
    assert(notice =~= head + note + tail);
    assert(notice.subrange(0, head.len() as int) =~= head);
    assert(notice.subrange(notice.len() - tail.len(), notice.len() as int) =~= tail);
    assert(notice.subrange(head.len() as int, notice.len() - tail.len()) =~= note);
}

} // verus!
