//! What is written for a skill reads back: the name, the description and the
//! version of a `SKILL.md` are those that it was written with.
use crate::agent::auto_skill::judged;
use crate::agent::auto_skill::law_only_accepted_skills_are_written;
use crate::agent::auto_skill::leads_to;
use crate::agent::auto_skill::listed_as;
use crate::agent::auto_skill::reached;
use crate::agent::auto_skill::version_after;
use crate::agent::auto_skill::wanted;
use crate::agent::auto_skill::EntryView;
use crate::agent::auto_skill::EvalCommandView;
use crate::agent::auto_skill::EvalEventView;
use crate::agent::auto_skill::EvalStateView;
use crate::agent::frontmatter::frontmatter_value;
use crate::agent::frontmatter::gives_field;
use crate::agent::frontmatter::is_fence;
use crate::agent::frontmatter::leading_lines;
use crate::agent::frontmatter::next_version;
use crate::agent::frontmatter::stated_version;
use crate::agent::frontmatter::value_in;
use crate::agent::frontmatter::version_of;
use crate::agent::frontmatter::version_text;
use crate::agent::naming::is_name_char;
use crate::agent::naming::valid_skill_name;
use crate::agent::rendering::escaped;
use crate::agent::rendering::has_skill_md;
use crate::agent::rendering::needs_quotes;
use crate::agent::rendering::sanitized;
use crate::agent::rendering::skill_md;
use crate::agent::rendering::yaml_value;
use crate::agent::reply_format::law_parsed_texts_are_trimmed;
use crate::agent::response::SkillAction;
use crate::agent::response::SkillView;
use crate::agent::turn::turn_is_blank;
use crate::agent::turn::TurnView;
use crate::lines::fields_of;
use crate::lines::lemma_fields_cons;
use crate::lines::lemma_fields_last;
use crate::lines::lemma_lines_cons;
use crate::lines::lines_of;
use crate::lines::without_return;
use crate::number::decimal;
use crate::number::is_digit;
use crate::number::law_decimal_reads_back;
use crate::number::lemma_decimal_value;
use crate::text::after_colon;
use crate::text::is_white_space;
use crate::text::lemma_first_index_is;
use crate::text::lemma_trimmed_after_space;
use crate::text::lemma_trimmed_ends;
use crate::text::lemma_trimmed_first;
use crate::text::lemma_trimmed_keeps;
use crate::text::lemma_unquoted_inner;
use crate::text::lemma_unquoted_keeps;
use crate::text::lowered;
use crate::text::trimmed;
use crate::text::trimmed_start;
use crate::text::unquoted;
use vstd::prelude::*;

verus! {

/// A text written as a YAML value stays on one line.
pub proof fn law_yaml_value_is_one_line(s: Seq<char>)
    ensures
        !yaml_value(s).contains('\n'),
{
    lemma_escaped_is_one_line(s);
    let value = yaml_value(s);
    assert forall|i: int| 0 <= i < value.len() implies value[i] != '\n' by {
        if needs_quotes(s) {
            if 0 < i < value.len() - 1 {
                assert(value[i] == escaped(s)[i - 1]);
                assert(escaped(s).contains(escaped(s)[i - 1]));
            }
        } else {
            assert(s.contains(s[i]));
        }
    }
}

/// An escaped text has no line feed.
proof fn lemma_escaped_is_one_line(s: Seq<char>)
    ensures
        !escaped(s).contains('\n'),
    decreases s.len(),
{
    if s.len() > 0 {
        let front = escaped(s.drop_last());
        lemma_escaped_is_one_line(s.drop_last());
        assert forall|i: int| 0 <= i < escaped(s).len() implies escaped(s)[i] != '\n' by {
            if i < front.len() {
                assert(front.contains(front[i]));
            }
        }
    }
}

/// A text that needs no escape is left as it is.
proof fn lemma_escaped_keeps(s: Seq<char>)
    requires
        !s.contains('"'),
        !s.contains('\\'),
        !s.contains('\n'),
    ensures
        escaped(s) == s,
    decreases s.len(),
{
    if s.len() > 0 {
        let front = s.drop_last();
        assert forall|c: char| front.contains(c) implies s.contains(c) by {
            let i = choose|i: int| 0 <= i < front.len() && front[i] == c;
            assert(s[i] == c);
        }
        lemma_escaped_keeps(front);
        assert(s.contains(s.last()));
        assert(escaped(s) =~= s);
    } else {
        assert(escaped(s) =~= s);
    }
}

/// The text that follows the first four lines of a `SKILL.md`.
spec fn remainder(skill: SkillView, sender: Seq<char>) -> Seq<char> {
    "author: auto-skill\ntags: [auto, "@ + sanitized(sender) + "]\n---\n\n"@ + trimmed(skill.body)
        + "\n"@
}

/// Whether `s` is made of small ASCII letters and has at least one.
spec fn is_word(s: Seq<char>) -> bool {
    s.len() > 0 && forall|i: int| 0 <= i < s.len() ==> 'a' <= #[trigger] s[i] <= 'z'
}

/// A line `key: value` of the frontmatter.
spec fn keyed(key: Seq<char>, value: Seq<char>) -> Seq<char> {
    key + ": "@ + value
}

/// The first lines of a `SKILL.md`, each ended by a line feed.
proof fn lemma_skill_md_splits(skill: SkillView, sender: Seq<char>, version: Seq<char>)
    ensures
        skill_md(skill, sender, version) == "---"@.push('\n') + (keyed("name"@, skill.name).push(
            '\n',
        ) + (keyed("description"@, yaml_value(skill.description)).push('\n') + (keyed(
            "version"@,
            version,
        ).push('\n') + remainder(skill, sender)))),
{
    reveal_strlit("---\nname: ");
    reveal_strlit("\ndescription: ");
    reveal_strlit("\nversion: ");
    reveal_strlit("\nauthor: auto-skill\ntags: [auto, ");
    reveal_strlit("---");
    reveal_strlit("name");
    reveal_strlit("description");
    reveal_strlit("version");
    reveal_strlit(": ");
    reveal_strlit("author: auto-skill\ntags: [auto, ");
    let feed = seq!['\n'];
    assert("---\nname: "@ =~= "---"@.push('\n') + "name"@ + ": "@);
    assert("\ndescription: "@ =~= feed + "description"@ + ": "@);
    assert("\nversion: "@ =~= feed + "version"@ + ": "@);
    assert("\nauthor: auto-skill\ntags: [auto, "@ =~= feed
        + "author: auto-skill\ntags: [auto, "@);
    assert(skill_md(skill, sender, version) =~= "---"@.push('\n') + (keyed(
        "name"@,
        skill.name,
    ).push('\n') + (keyed("description"@, yaml_value(skill.description)).push('\n') + (keyed(
        "version"@,
        version,
    ).push('\n') + remainder(skill, sender)))));
}

/// A line `key: value` gives a value to its key and to no field with another
/// first letter, and is no mark.
proof fn lemma_keyed_line(key: Seq<char>, value: Seq<char>)
    requires
        is_word(key),
        !value.contains('\n'),
    ensures
        !keyed(key, value).contains('\n'),
        !is_fence(without_return(keyed(key, value))),
        gives_field(without_return(keyed(key, value)), key),
        forall|field: Seq<char>|
            field.len() > 0 && field[0] != key[0] ==> !#[trigger] gives_field(
                without_return(keyed(key, value)),
                field,
            ),
{
    reveal_strlit(": ");
    reveal_strlit("---");
    let whole = keyed(key, value);
    let line = without_return(whole);
    let n = key.len() as int;
    assert forall|i: int| 0 <= i < whole.len() implies whole[i] != '\n' by {
        if i < n {
            assert(whole[i] == key[i]);
        } else if i >= n + 2 {
            assert(whole[i] == value[i - n - 2]);
            assert(value.contains(value[i - n - 2]));
        }
    }
    assert(line.len() >= n + 2);
    assert(line[0] == key[0]);
    assert(!is_white_space(line[0]));
    assert(trimmed_start(line) == line);
    lemma_trimmed_first(line);
    let low = lowered(line);
    assert forall|i: int| 0 <= i < n implies low[i] == key[i] by {
        assert(line[i] == key[i]);
    }
    assert(line[n] == ':');
    assert(low.subrange(0, n + 1) =~= key.push(':'));
    assert forall|field: Seq<char>| field.len() > 0 && field[0] != key[0] implies !#[trigger] gives_field(
        line,
        field,
    ) by {
        if gives_field(line, field) {
            assert(low.subrange(0, field.len() as int + 1)[0] == field.push(':')[0]);
        }
    }
}

/// The value of a line `key: value` is what it was written with.
proof fn lemma_keyed_value(key: Seq<char>, value: Seq<char>)
    requires
        is_word(key),
        value.len() > 0 ==> !is_white_space(value[0]) && !is_white_space(value.last()),
    ensures
        after_colon(without_return(keyed(key, value))) == value,
{
    reveal_strlit(": ");
    let line = keyed(key, value);
    let n = key.len() as int;
    assert(line.last() != '\r') by {
        if value.len() > 0 {
            assert(line.last() == value.last());
        } else {
            assert(line.last() == ' ');
        }
    }
    assert forall|i: int| 0 <= i < n implies line[i] != ':' by {
        assert(line[i] == key[i]);
    }
    lemma_first_index_is(line, ':', n);
    assert(line.skip(n + 1) =~= seq![' '] + value);
    lemma_trimmed_after_space(seq![' '], value);
    lemma_trimmed_keeps(value);
}

/// The name and the description in the frontmatter of a `SKILL.md` are found on
/// its second and third lines, whatever follows.
proof fn lemma_leading_fields(md: Seq<char>, name: Seq<char>, value: Seq<char>, rest: Seq<char>)
    requires
        md == "---"@.push('\n') + (keyed("name"@, name).push('\n') + (keyed(
            "description"@,
            value,
        ).push('\n') + rest)),
        !name.contains('\n'),
        !value.contains('\n'),
    ensures
        lines_of(md) == seq![
            "---"@,
            without_return(keyed("name"@, name)),
            without_return(keyed("description"@, value)),
        ] + lines_of(rest),
        frontmatter_value(md, "name"@) == Some(
            unquoted(after_colon(without_return(keyed("name"@, name)))),
        ),
        frontmatter_value(md, "description"@) == Some(
            unquoted(after_colon(without_return(keyed("description"@, value)))),
        ),
{
    let fence = "---"@;
    let name_line = keyed("name"@, name);
    let description_line = keyed("description"@, value);
    reveal_strlit("---");
    reveal_strlit("name");
    reveal_strlit("description");
    lemma_keyed_line("name"@, name);
    lemma_keyed_line("description"@, value);
    let from_description = description_line.push('\n') + rest;
    let from_name = name_line.push('\n') + from_description;
    lemma_lines_cons(description_line, rest);
    lemma_lines_cons(name_line, from_description);
    lemma_lines_cons(fence, from_name);
    let lines = lines_of(md);
    assert(lines =~= seq![fence, without_return(name_line), without_return(description_line)]
        + lines_of(rest));
    let leading = leading_lines(md);
    assert(leading.len() >= 3);
    assert(leading[0] == lines[0] && leading[1] == lines[1] && leading[2] == lines[2]);
    lemma_trimmed_keeps(fence);
    assert(is_fence(leading[0]));
    let inner = leading.drop_first();
    assert(inner[0] == leading[1]);
    assert(inner.drop_first()[0] == leading[2]);
    assert(value_in(inner, "description"@) == value_in(inner.drop_first(), "description"@));
}

/// The name and the description in the frontmatter of a `SKILL.md`.
proof fn lemma_skill_md_fields(skill: SkillView, sender: Seq<char>, version: Seq<char>)
    requires
        !skill.name.contains('\n'),
    ensures
        frontmatter_value(skill_md(skill, sender, version), "name"@) == Some(
            unquoted(after_colon(without_return(keyed("name"@, skill.name)))),
        ),
        frontmatter_value(skill_md(skill, sender, version), "description"@) == Some(
            unquoted(
                after_colon(
                    without_return(keyed("description"@, yaml_value(skill.description))),
                ),
            ),
        ),
        lines_of(skill_md(skill, sender, version)) == seq![
            "---"@,
            without_return(keyed("name"@, skill.name)),
            without_return(keyed("description"@, yaml_value(skill.description))),
        ] + lines_of(keyed("version"@, version).push('\n') + remainder(skill, sender)),
{
    let value = yaml_value(skill.description);
    law_yaml_value_is_one_line(skill.description);
    lemma_skill_md_splits(skill, sender, version);
    lemma_leading_fields(
        skill_md(skill, sender, version),
        skill.name,
        value,
        keyed("version"@, version).push('\n') + remainder(skill, sender),
    );
}

/// The version in the frontmatter of a `SKILL.md` is found on its fourth line.
proof fn lemma_skill_md_version(skill: SkillView, sender: Seq<char>, version: Seq<char>)
    requires
        !skill.name.contains('\n'),
        !version.contains('\n'),
    ensures
        frontmatter_value(skill_md(skill, sender, version), "version"@) == Some(
            unquoted(after_colon(without_return(keyed("version"@, version)))),
        ),
{
    let md = skill_md(skill, sender, version);
    let value = yaml_value(skill.description);
    let rest = remainder(skill, sender);
    law_yaml_value_is_one_line(skill.description);
    lemma_skill_md_fields(skill, sender, version);
    reveal_strlit("---");
    reveal_strlit("name");
    reveal_strlit("description");
    reveal_strlit("version");
    lemma_keyed_line("name"@, skill.name);
    lemma_keyed_line("description"@, value);
    lemma_keyed_line("version"@, version);
    lemma_lines_cons(keyed("version"@, version), rest);
    let lines = lines_of(md);
    assert(lines[3] == without_return(keyed("version"@, version)));
    let leading = leading_lines(md);
    assert(leading.len() >= 4);
    assert(leading[0] == lines[0] && leading[1] == lines[1] && leading[2] == lines[2]
        && leading[3] == lines[3]);
    lemma_trimmed_keeps("---"@);
    assert(is_fence(leading[0]));
    let inner = leading.drop_first();
    let second = inner.drop_first();
    let third = second.drop_first();
    assert(inner[0] == leading[1] && second[0] == leading[2] && third[0] == leading[3]);
    assert(value_in(inner, "version"@) == value_in(second, "version"@));
    assert(value_in(second, "version"@) == value_in(third, "version"@));
}

/// The name of a skill reads back from its `SKILL.md`, for every name that is
/// one line with neither white space nor a double quote at either end.
pub proof fn law_name_reads_back(skill: SkillView, sender: Seq<char>, version: Seq<char>)
    requires
        !skill.name.contains('\n'),
        trimmed(skill.name) == skill.name,
        unquoted(skill.name) == skill.name,
    ensures
        frontmatter_value(skill_md(skill, sender, version), "name"@) == Some(skill.name),
{
    lemma_trimmed_ends(skill.name);
    lemma_skill_md_fields(skill, sender, version);
    reveal_strlit("name");
    lemma_keyed_value("name"@, skill.name);
}

/// The version of a skill reads back from its `SKILL.md`, for every version
/// that is one line with neither white space nor a double quote at either end.
pub proof fn law_version_reads_back(skill: SkillView, sender: Seq<char>, version: Seq<char>)
    requires
        !skill.name.contains('\n'),
        !version.contains('\n'),
        trimmed(version) == version,
        unquoted(version) == version,
    ensures
        frontmatter_value(skill_md(skill, sender, version), "version"@) == Some(version),
{
    lemma_trimmed_ends(version);
    lemma_skill_md_version(skill, sender, version);
    reveal_strlit("version");
    lemma_keyed_value("version"@, version);
}

/// The description of a skill reads back from its `SKILL.md`, for every
/// description that is one line with no white space at either end, without a
/// double quote, and without a backslash if it has a colon.
pub proof fn law_description_reads_back(
    skill: SkillView,
    sender: Seq<char>,
    version: Seq<char>,
)
    requires
        !skill.name.contains('\n'),
        !skill.description.contains('\n'),
        trimmed(skill.description) == skill.description,
        !skill.description.contains('"'),
        skill.description.contains(':') ==> !skill.description.contains('\\'),
    ensures
        frontmatter_value(skill_md(skill, sender, version), "description"@) == Some(
            skill.description,
        ),
{
    let d = skill.description;
    lemma_trimmed_ends(d);
    lemma_skill_md_fields(skill, sender, version);
    reveal_strlit("description");
    lemma_keyed_value("description"@, yaml_value(d));
    if d.len() > 0 {
        assert(d.contains(d[0]));
        assert(d.contains(d.last()));
    }
    if d.contains(':') {
        lemma_escaped_keeps(d);
        lemma_unquoted_inner(d);
    } else {
        lemma_unquoted_keeps(d);
    }
}

/// A skill whose `SKILL.md` is the text that was made for it is listed under its
/// own name and description.
pub proof fn law_written_skill_is_listed(
    skill: SkillView,
    sender: Seq<char>,
    version: Seq<char>,
    dir_name: Option<Seq<char>>,
)
    requires
        !skill.name.contains('\n'),
        skill.name.len() > 0,
        trimmed(skill.name) == skill.name,
        unquoted(skill.name) == skill.name,
        !skill.description.contains('\n'),
        trimmed(skill.description) == skill.description,
        !skill.description.contains('"'),
        skill.description.contains(':') ==> !skill.description.contains('\\'),
    ensures
        listed_as(EntryView { dir_name, skill_md: skill_md(skill, sender, version) }) == Some(
            (skill.name, skill.description),
        ),
{
    law_name_reads_back(skill, sender, version);
    law_description_reads_back(skill, sender, version);
}

/// A version as text has three numbers, which read back.
pub proof fn law_version_text_reads_back(major: u32, minor: u32, patch: u32)
    ensures
        version_of(version_text(major as nat, minor as nat, patch as nat)) == Some(
            (major, minor, patch),
        ),
{
    let a = decimal(major as nat);
    let b = decimal(minor as nat);
    let c = decimal(patch as nat);
    let text = version_text(major as nat, minor as nat, patch as nat);
    lemma_number_is_field(major as nat);
    lemma_number_is_field(minor as nat);
    lemma_number_is_field(patch as nat);
    reveal_strlit(".");
    assert(text =~= a.push('.') + (b.push('.') + c));
    lemma_fields_cons(a, b.push('.') + c, '.');
    lemma_fields_cons(b, c, '.');
    lemma_fields_last(c, '.');
    assert(fields_of(text, '.') =~= seq![a, b, c]);
    law_decimal_reads_back(major);
    law_decimal_reads_back(minor);
    law_decimal_reads_back(patch);
}

/// A decimal number has no dot.
proof fn lemma_number_is_field(n: nat)
    ensures
        !decimal(n).contains('.'),
        decimal(n).len() > 0,
        forall|i: int| 0 <= i < decimal(n).len() ==> is_digit(#[trigger] decimal(n)[i]),
{
    lemma_decimal_value(n);
}

/// A version as text is made of digits and dots.
proof fn lemma_version_is_one_line(major: nat, minor: nat, patch: nat)
    ensures
        version_text(major, minor, patch).len() > 0,
        forall|i: int|
            0 <= i < version_text(major, minor, patch).len() ==> is_digit(
                #[trigger] version_text(major, minor, patch)[i],
            ) || version_text(major, minor, patch)[i] == '.',
{
    let a = decimal(major);
    let b = decimal(minor);
    let c = decimal(patch);
    let text = version_text(major, minor, patch);
    lemma_number_is_field(major);
    lemma_number_is_field(minor);
    lemma_number_is_field(patch);
    reveal_strlit(".");
    assert forall|i: int| 0 <= i < text.len() implies is_digit(#[trigger] text[i]) || text[i]
        == '.' by {
        let n = a.len();
        let m = a.len() + 1 + b.len();
        if i < n {
            assert(text[i] == a[i]);
        } else if n < i < m {
            assert(text[i] == b[i - n - 1]);
        } else if m < i {
            assert(text[i] == c[i - m - 1]);
        }
    }
}

/// Whoever writes a skill under a version and then asks for the next one gets
/// the patch number after that: an update leads from `X.Y.Z` to `X.Y.(Z+1)`.
pub proof fn law_update_increments_version(
    skill: SkillView,
    sender: Seq<char>,
    major: u32,
    minor: u32,
    patch: u32,
)
    requires
        !skill.name.contains('\n'),
    ensures
        stated_version(
            skill_md(skill, sender, version_text(major as nat, minor as nat, patch as nat)),
        ) == Some((major, minor, patch)),
        next_version(
            skill_md(skill, sender, version_text(major as nat, minor as nat, patch as nat)),
        ) == version_text(major as nat, minor as nat, patch as nat + 1),
{
    let text = version_text(major as nat, minor as nat, patch as nat);
    lemma_version_is_one_line(major as nat, minor as nat, patch as nat);
    lemma_trimmed_keeps(text);
    lemma_unquoted_keeps(text);
    law_version_reads_back(skill, sender, text);
    law_version_text_reads_back(major, minor, patch);
}

/// A skill name has neither white space, nor a line feed, nor a double quote.
proof fn lemma_valid_name_is_clean(name: Seq<char>)
    requires
        valid_skill_name(name),
    ensures
        !name.contains('\n'),
        trimmed(name) == name,
        unquoted(name) == name,
{
    assert(is_name_char(name[0]) && is_name_char(name[name.len() - 1]));
    lemma_trimmed_keeps(name);
    lemma_unquoted_keeps(name);
}

/// The text that is made for the `SKILL.md` of a skill that was accepted from a
/// reply reads back: its name is the one in the frontmatter, its version is the one that an
/// update increments, and its description is the one in the frontmatter unless
/// it holds a double quote, or both a colon and a backslash.
pub proof fn law_accepted_skill_reads_back(
    raw: Seq<char>,
    sender: Seq<char>,
    major: u32,
    minor: u32,
    patch: u32,
)
    requires
        judged(raw) is Ok,
    ensures
        ({
            let skill = judged(raw)->Ok_0;
            let version = version_text(major as nat, minor as nat, patch as nat);
            let md = skill_md(skill, sender, version);
            &&& frontmatter_value(md, "name"@) == Some(skill.name)
            &&& stated_version(md) == Some((major, minor, patch))
            &&& next_version(md) == version_text(major as nat, minor as nat, patch as nat + 1)
            &&& !skill.description.contains('"') && (skill.description.contains(':')
                ==> !skill.description.contains('\\')) ==> frontmatter_value(md, "description"@)
                == Some(skill.description)
        }),
{
    let skill = judged(raw)->Ok_0;
    let version = version_text(major as nat, minor as nat, patch as nat);
    law_parsed_texts_are_trimmed(trimmed(raw));
    lemma_valid_name_is_clean(skill.name);
    law_update_increments_version(skill, sender, major, minor, patch);
    lemma_version_is_one_line(major as nat, minor as nat, patch as nat);
    law_name_reads_back(skill, sender, version);
    if !skill.description.contains('"') && (skill.description.contains(':')
        ==> !skill.description.contains('\\')) {
        law_description_reads_back(skill, sender, version);
    }
}

/// The text that is made for the `SKILL.md` of a new skill has version `0.1.0`,
/// and an update from that text gives the skill version `0.1.1`.
pub proof fn law_first_update_after_save(raw: Seq<char>, sender: Seq<char>)
    requires
        judged(raw) is Ok,
    ensures
        next_version(skill_md(judged(raw)->Ok_0, sender, "0.1.0"@)) == "0.1.1"@,
{
    reveal_strlit("0.1.0");
    reveal_strlit("0.1.1");
    reveal_strlit(".");
    assert(version_text(0, 1, 0) =~= "0.1.0"@);
    assert(version_text(0, 1, 1) =~= "0.1.1"@);
    law_accepted_skill_reads_back(raw, sender, 0, 1, 0);
}

/// The version under which a skill is written after these events: `0.1.0` for a
/// new skill, and the version after the present one for an update.
pub open spec fn version_due(events: Seq<EvalEventView>) -> Seq<char> {
    match events.last() {
        EvalEventView::OldSkill(old) => version_after(old),
        _ => "0.1.0"@,
    }
}

/// The version that an update gives to a skill is a version as text.
proof fn lemma_version_after(old: Option<Seq<char>>)
    ensures
        exists|major: nat, minor: nat, patch: nat|
            version_after(old) == #[trigger] version_text(major, minor, patch),
{
    if old is None || stated_version(old->Some_0) is None {
        reveal_strlit("0.1.1");
        reveal_strlit(".");
        assert(version_text(0, 1, 1) =~= "0.1.1"@);
    } else {
        let (major, minor, patch) = stated_version(old->Some_0)->Some_0;
        assert(version_after(old) == version_text(major as nat, minor as nat, patch as nat + 1));
    }
}

/// A version as text reads back from a `SKILL.md` that is written under it.
proof fn lemma_version_text_in_skill_md(
    skill: SkillView,
    sender: Seq<char>,
    major: nat,
    minor: nat,
    patch: nat,
)
    requires
        valid_skill_name(skill.name),
    ensures
        frontmatter_value(
            skill_md(skill, sender, version_text(major, minor, patch)),
            "version"@,
        ) == Some(version_text(major, minor, patch)),
{
    let version = version_text(major, minor, patch);
    lemma_valid_name_is_clean(skill.name);
    lemma_version_is_one_line(major, minor, patch);
    lemma_trimmed_keeps(version);
    lemma_unquoted_keeps(version);
    law_version_reads_back(skill, sender, version);
}

/// Whatever happens, the text that is made for a `SKILL.md` carries the version
/// that is due: `0.1.0` for a new skill, and for an update the version after the
/// one in the present `SKILL.md`, whatever that holds. After an update that text
/// stays. Where the reply for a new skill has a file called `SKILL.md`, that
/// file is written over the text, and carries what version it may.
#[verifier::spinoff_prover]
pub proof fn law_written_skill_carries_its_version(events: Seq<EvalEventView>)
    requires
        events.len() > 0,
        wanted(events) is Write,
    ensures
        frontmatter_value(wanted(events)->Write_skill_md, "version"@) == Some(
            version_due(events),
        ),
{
    law_only_accepted_skills_are_written(events);
    assert(events.last() == events[4]);
    let (sender, skill) = choose|sender: Seq<char>, skill: SkillView|
        #![trigger leads_to(events, sender, skill)]
        leads_to(events, sender, skill) && valid_skill_name(skill.name)
            && wanted(events)->Write_skill_md == skill_md(skill, sender, version_due(events));
    match events.last() {
        EvalEventView::OldSkill(old) => {
            lemma_version_after(old);
            let (major, minor, patch) = choose|major: nat, minor: nat, patch: nat|
                version_after(old) == #[trigger] version_text(major, minor, patch);
            lemma_version_text_in_skill_md(skill, sender, major, minor, patch);
        },
        _ => {
            reveal_strlit("0.1.0");
            reveal_strlit(".");
            assert(version_text(0, 1, 0) =~= "0.1.0"@);
            lemma_version_text_in_skill_md(skill, sender, 0, 1, 0);
        },
    }
}

/// A run of the skill hook up to the model's reply.
pub struct Run {
    pub turn: TurnView,
    pub entries: Seq<EntryView>,
    pub raw: Seq<char>,
}

impl Run {
    /// The skill that the reply describes.
    pub open spec fn skill(self) -> SkillView {
        judged(self.raw)->Ok_0
    }

    /// Whether the turn is not blank and the reply asks for this action on a
    /// skill that is accepted.
    pub open spec fn asks_for(self, action: SkillAction) -> bool {
        !turn_is_blank(self.turn) && judged(self.raw) is Ok && self.skill().action == action
    }

    /// The events of the run.
    pub open spec fn events(self) -> Seq<EvalEventView> {
        seq![
            EvalEventView::Turn(self.turn),
            EvalEventView::Listed(self.entries),
            EvalEventView::Replied(self.raw),
        ]
    }

    /// The events of the run where the skill is new and its directory is
    /// created.
    pub open spec fn saving(self) -> Seq<EvalEventView> {
        self.events().push(EvalEventView::DirExists(false)).push(EvalEventView::DirCreated(true))
    }

    /// The events of the run where the skill exists and has this `SKILL.md`.
    pub open spec fn updating(self, old: Seq<char>) -> Seq<EvalEventView> {
        self.events().push(EvalEventView::DirExists(true)).push(
            EvalEventView::OldSkill(Some(old)),
        )
    }
}

/// Whether these runs save a skill and then update it, one after the other. The
/// reply that saves it has no file called `SKILL.md`, which would take the place
/// of the text that is made for it.
pub open spec fn is_history(runs: Seq<Run>) -> bool {
    &&& runs.len() > 0
    &&& runs[0].asks_for(SkillAction::Save)
    &&& !has_skill_md(runs[0].skill().files)
    &&& forall|i: int|
        1 <= i < runs.len() ==> (#[trigger] runs[i]).asks_for(SkillAction::Update)
            && runs[i].skill().name == runs[0].skill().name
}

/// What the hook wants done at the end of these runs, each of which finds the
/// `SKILL.md` that the one before had written.
#[verifier::opaque]
pub open spec fn last_write(runs: Seq<Run>) -> EvalCommandView
    decreases runs.len(),
{
    if runs.len() <= 1 {
        wanted(runs[0].saving())
    } else {
        wanted(runs.last().updating(last_write(runs.drop_last())->Write_skill_md))
    }
}

/// What a run that saves writes.
proof fn lemma_saving(run: Run)
    requires
        run.asks_for(SkillAction::Save),
    ensures
        wanted(run.saving()) is Write,
        wanted(run.saving())->Write_name == run.skill().name,
        wanted(run.saving())->Write_skill_md == skill_md(run.skill(), run.turn.sender, "0.1.0"@),
{
    let located = run.events().push(EvalEventView::DirExists(false));
    lemma_located(run);
    assert(located.drop_last() =~= run.events());
    assert(run.saving().drop_last() =~= located);
}

/// What a run that updates writes.
proof fn lemma_updating(run: Run, old: Seq<char>)
    requires
        run.asks_for(SkillAction::Update),
    ensures
        wanted(run.updating(old)) is Write,
        wanted(run.updating(old))->Write_name == run.skill().name,
        wanted(run.updating(old))->Write_skill_md == skill_md(
            run.skill(),
            run.turn.sender,
            next_version(old),
        ),
{
    let located = run.events().push(EvalEventView::DirExists(true));
    lemma_located(run);
    assert(located.drop_last() =~= run.events());
    assert(run.updating(old).drop_last() =~= located);
}

/// Where a run stands after a reply that is accepted.
pub proof fn lemma_located(run: Run)
    requires
        !turn_is_blank(run.turn),
        judged(run.raw) is Ok,
    ensures
        reached(run.events()) == (EvalStateView::Locating {
            sender: run.turn.sender,
            skill: run.skill(),
        }),
{
    let events = run.events();
    let two = events.drop_last();
    let one = two.drop_last();
    let none = one.drop_last();
    assert(none.len() == 0);
    assert(one.last() == events[0] && two.last() == events[1]);
    assert(reached(none) == EvalStateView::Start);
    assert(reached(one) == EvalStateView::Listing(run.turn));
    assert(reached(two) == (EvalStateView::Asking { sender: run.turn.sender }));
}

/// A skill that is saved and then updated `k` times carries version `0.1.k`:
/// every run writes a `SKILL.md` under the skill's name, and the last one is made
/// of the last reply, with the number of updates for its patch number.
pub proof fn law_updates_are_counted(runs: Seq<Run>)
    requires
        is_history(runs),
        runs.len() - 1 <= u32::MAX,
    ensures
        last_write(runs) is Write,
        last_write(runs)->Write_name == runs[0].skill().name,
        last_write(runs)->Write_skill_md == skill_md(
            runs.last().skill(),
            runs.last().turn.sender,
            version_text(0, 1, (runs.len() - 1) as nat),
        ),
        frontmatter_value(last_write(runs)->Write_skill_md, "version"@) == Some(
            version_text(0, 1, (runs.len() - 1) as nat),
        ),
        stated_version(last_write(runs)->Write_skill_md) == Some(
            (0u32, 1u32, (runs.len() - 1) as u32),
        ),
    decreases runs.len(),
{
    let k = runs.len() - 1;
    if k == 0 {
        lemma_first_write(runs);
    } else {
        let front = runs.drop_last();
        assert(is_history(front)) by {
            assert forall|i: int| 1 <= i < front.len() implies (#[trigger] front[i]).asks_for(
                SkillAction::Update,
            ) && front[i].skill().name == front[0].skill().name by {
                assert(front[i] == runs[i]);
            }
        }
        law_updates_are_counted(front);
        assert(runs[k].asks_for(SkillAction::Update));
        lemma_next_write(runs);
    }
    lemma_version_is_stated(runs[k], k as u32);
}

/// What is written where a skill has been saved and not updated.
#[verifier::spinoff_prover]
proof fn lemma_first_write(runs: Seq<Run>)
    requires
        runs.len() == 1,
        runs[0].asks_for(SkillAction::Save),
    ensures
        last_write(runs) is Write,
        last_write(runs)->Write_name == runs[0].skill().name,
        last_write(runs)->Write_skill_md == skill_md(
            runs[0].skill(),
            runs[0].turn.sender,
            version_text(0, 1, 0),
        ),
{
    reveal(last_write);
    lemma_saving(runs[0]);
    reveal_strlit("0.1.0");
    reveal_strlit(".");
    assert(version_text(0, 1, 0) =~= "0.1.0"@);
}

/// What is written at the last of these runs, which is an update.
proof fn lemma_next_write(runs: Seq<Run>)
    requires
        runs.len() > 1,
        runs.last().asks_for(SkillAction::Update),
    ensures
        last_write(runs) is Write,
        last_write(runs)->Write_name == runs.last().skill().name,
        last_write(runs)->Write_skill_md == skill_md(
            runs.last().skill(),
            runs.last().turn.sender,
            next_version(last_write(runs.drop_last())->Write_skill_md),
        ),
{
    reveal(last_write);
    lemma_updating(runs.last(), last_write(runs.drop_last())->Write_skill_md);
}

/// The `SKILL.md` of a run that is accepted carries the version that it was
/// written under.
proof fn lemma_version_is_stated(run: Run, patch: u32)
    requires
        judged(run.raw) is Ok,
    ensures
        ({
            let version = version_text(0, 1, patch as nat);
            let md = skill_md(run.skill(), run.turn.sender, version);
            &&& frontmatter_value(md, "version"@) == Some(version)
            &&& stated_version(md) == Some((0u32, 1u32, patch))
        }),
{
    lemma_valid_name_is_clean(run.skill().name);
    law_update_increments_version(run.skill(), run.turn.sender, 0, 1, patch);
    lemma_version_text_in_skill_md(run.skill(), run.turn.sender, 0, 1, patch as nat);
}

/// The whole body stands at the end of the `SKILL.md`, after the closing mark
/// and an empty line, without the white space around it and with one line feed
/// behind it.
pub proof fn law_whole_body_is_written(skill: SkillView, sender: Seq<char>, version: Seq<char>)
    ensures
        ("\n---\n\n"@ + trimmed(skill.body) + "\n"@).is_suffix_of(
            skill_md(skill, sender, version),
        ),
{
    reveal_strlit("\n---\n\n");
    reveal_strlit("]\n---\n\n");
    let tail = "\n---\n\n"@ + trimmed(skill.body) + "\n"@;
    let md = skill_md(skill, sender, version);
    assert("]\n---\n\n"@ =~= seq![']'] + "\n---\n\n"@);
    assert(md.subrange(md.len() - tail.len(), md.len() as int) =~= tail);
}

/// Whether `s` can stand on a line: it holds no line feed and does not end in a
/// carriage return.
pub open spec fn fits_a_line(s: Seq<char>) -> bool {
    !s.contains('\n') && (s.len() > 0 ==> s.last() != '\r')
}

/// A line with a text that fits keeps it.
proof fn lemma_line_fits(head: Seq<char>, s: Seq<char>, tail: Seq<char>)
    requires
        head.len() > 0,
        fits_a_line(head),
        fits_a_line(s),
        fits_a_line(tail),
    ensures
        !(head + s + tail).contains('\n'),
        without_return(head + s + tail) == head + s + tail,
{
    let line = head + s + tail;
    assert forall|i: int| 0 <= i < line.len() implies line[i] != '\n' by {
        if i < head.len() {
            assert(head.contains(head[i]));
        } else if i < head.len() + s.len() {
            assert(s.contains(s[i - head.len()]));
        } else {
            assert(tail.contains(tail[i - head.len() - s.len()]));
        }
    }
}

/// A text written as a YAML value fits a line if the text does not end in a
/// carriage return.
proof fn lemma_yaml_value_fits(s: Seq<char>)
    requires
        s.len() > 0 ==> s.last() != '\r',
    ensures
        fits_a_line(yaml_value(s)),
{
    law_yaml_value_is_one_line(s);
}

/// The last lines of the frontmatter, and the body.
proof fn lemma_remainder_lines(skill: SkillView, sender: Seq<char>)
    ensures
        lines_of(remainder(skill, sender)) == seq![
            "author: auto-skill"@,
            "tags: [auto, "@ + sanitized(sender) + "]"@,
            "---"@,
            ""@,
        ] + lines_of(trimmed(skill.body).push('\n')),
{
    reveal_strlit("author: auto-skill\ntags: [auto, ");
    reveal_strlit("author: auto-skill");
    reveal_strlit("tags: [auto, ");
    reveal_strlit("]\n---\n\n");
    reveal_strlit("]");
    reveal_strlit("---");
    reveal_strlit("");
    reveal_strlit("\n");
    let author = "author: auto-skill"@;
    let tag = sanitized(sender);
    let tags = "tags: [auto, "@ + tag + "]"@;
    let body = trimmed(skill.body).push('\n');
    assert(fits_a_line(tag));
    lemma_line_fits("tags: [auto, "@, tag, "]"@);
    let from_body = ""@.push('\n') + body;
    let from_fence = "---"@.push('\n') + from_body;
    let from_tags = tags.push('\n') + from_fence;
    assert(remainder(skill, sender) =~= author.push('\n') + from_tags);
    lemma_lines_cons(""@, body);
    lemma_lines_cons("---"@, from_body);
    lemma_lines_cons(tags, from_fence);
    lemma_lines_cons(author, from_tags);
    assert(lines_of(remainder(skill, sender)) =~= seq![author, tags, "---"@, ""@] + lines_of(body));
}

/// A `SKILL.md` is made of these lines: the opening mark, the name, the
/// description, the version, the author, the tags with the sender, the closing
/// mark, an empty line, and then the lines of the body.
pub proof fn law_skill_md_is_these_lines(skill: SkillView, sender: Seq<char>, version: Seq<char>)
    requires
        fits_a_line(skill.name),
        skill.description.len() > 0 ==> skill.description.last() != '\r',
        fits_a_line(version),
    ensures
        lines_of(skill_md(skill, sender, version)) == seq![
            "---"@,
            "name: "@ + skill.name,
            "description: "@ + yaml_value(skill.description),
            "version: "@ + version,
            "author: auto-skill"@,
            "tags: [auto, "@ + sanitized(sender) + "]"@,
            "---"@,
            ""@,
        ] + lines_of(trimmed(skill.body).push('\n')),
{
    let value = yaml_value(skill.description);
    reveal_strlit("name");
    reveal_strlit("description");
    reveal_strlit("version");
    reveal_strlit("name: ");
    reveal_strlit("description: ");
    reveal_strlit("version: ");
    reveal_strlit(": ");
    lemma_yaml_value_fits(skill.description);
    assert(keyed("name"@, skill.name) =~= "name: "@ + skill.name);
    assert(keyed("description"@, value) =~= "description: "@ + value);
    assert(keyed("version"@, version) =~= "version: "@ + version);
    lemma_skill_md_fields(skill, sender, version);
    lemma_keyed_line("version"@, version);
    lemma_lines_cons(keyed("version"@, version), remainder(skill, sender));
    lemma_remainder_lines(skill, sender);
    assert(without_return("name: "@ + skill.name) == "name: "@ + skill.name);
    assert(without_return("description: "@ + value) == "description: "@ + value);
    assert(without_return("version: "@ + version) == "version: "@ + version);
    assert(lines_of(skill_md(skill, sender, version)) =~= seq![
        "---"@,
        "name: "@ + skill.name,
        "description: "@ + value,
        "version: "@ + version,
        "author: auto-skill"@,
        "tags: [auto, "@ + sanitized(sender) + "]"@,
        "---"@,
        ""@,
    ] + lines_of(trimmed(skill.body).push('\n')));
}

} // verus!
