//! The frontmatter of a `SKILL.md` file and the version that it carries.
use crate::lines::fields_of;
use crate::lines::lemma_fields_cons;
use crate::lines::lemma_fields_last;
use crate::lines::lines;
use crate::lines::lines_of;
use crate::lines::split;
use crate::number::decimal;
use crate::number::is_digit;
use crate::number::lemma_decimal_value;
use crate::number::parse_u32;
use crate::number::push_decimal;
use crate::number::u32_of;
use crate::text::after_colon;
use crate::text::first_index;
use crate::text::is_white_space;
use crate::text::lemma_first_index;
use crate::text::lemma_trimmed_after_space;
use crate::text::lemma_trimmed_start;
use crate::text::lower_char;
use crate::text::lowered;
use crate::text::same;
use crate::text::same_but_case;
use crate::text::to_chars;
use crate::text::trim;
use crate::text::trim_quotes;
use crate::text::trim_start;
use crate::text::trimmed;
use crate::text::trimmed_start;
use crate::text::unquoted;
use crate::text::value_after_colon;
use vstd::prelude::*;
use vstd::string::*;

verus! {

/// Whether a line gives a value to `field`: after white space and up to the
/// case of its own ASCII letters it begins with `field` and a colon.
pub open spec fn gives_field(line: Seq<char>, field: Seq<char>) -> bool {
    field.push(':').is_prefix_of(lowered(trimmed_start(line)))
}

/// Whether a line is the mark `---`.
pub open spec fn is_fence(line: Seq<char>) -> bool {
    trimmed(line) == "---"@
}

/// The value that the first of these lines before the closing mark gives to
/// `field`.
pub open spec fn value_in(lines: Seq<Seq<char>>, field: Seq<char>) -> Option<Seq<char>>
    decreases lines.len(),
{
    if lines.len() == 0 || is_fence(lines[0]) {
        None
    } else if gives_field(lines[0], field) {
        Some(unquoted(after_colon(lines[0])))
    } else {
        value_in(lines.drop_first(), field)
    }
}

/// The first thirty lines of a text.
pub open spec fn leading_lines(md: Seq<char>) -> Seq<Seq<char>> {
    let lines = lines_of(md);
    if lines.len() > 30 {
        lines.take(30)
    } else {
        lines
    }
}

/// The value of a field in the frontmatter: between a first line `---` and the
/// next such line, within the first thirty lines.
pub open spec fn frontmatter_value(md: Seq<char>, field: Seq<char>) -> Option<Seq<char>> {
    let lines = leading_lines(md);
    if lines.len() > 0 && is_fence(lines[0]) {
        value_in(lines.drop_first(), field)
    } else {
        None
    }
}

/// Whether a line gives a value to `field`.
fn line_gives_field(line: &str, field: &str) -> (gives: bool)
    ensures
        gives == gives_field(line@, field@),
{
    let t: Vec<char> = to_chars(trim_start(line));
    let key: Vec<char> = to_chars(field);
    let ghost low = lowered(trimmed_start(line@));
    let ghost prefix = field@.push(':');
    if t.len() <= key.len() {
        return false;
    }
    let mut i: usize = 0;
    while i < key.len()
        invariant
            t@ == trimmed_start(line@),
            key@ == field@,
            low == lowered(t@),
            prefix == field@.push(':'),
            key@.len() < t@.len(),
            i <= key@.len(),
            forall|j: int| 0 <= j < i ==> low[j] == #[trigger] prefix[j],
        decreases key@.len() - i,
    {
        if lower_char(t[i]) != key[i] {
            assert(low.subrange(0, prefix.len() as int)[i as int] != prefix[i as int]);
            return false;
        }
        i = i + 1;
    }
    if lower_char(t[key.len()]) != ':' {
        assert(low.subrange(0, prefix.len() as int)[key@.len() as int] != prefix[key@.len() as int]);
        return false;
    }
    assert(low.subrange(0, prefix.len() as int) =~= prefix);
    true
}

/// A line that gives a value to a field holds a colon.
pub proof fn lemma_field_has_colon(line: Seq<char>, field: Seq<char>)
    requires
        gives_field(line, field),
    ensures
        first_index(line, ':') < line.len(),
{
    let t = trimmed_start(line);
    let n = field.len() as int;
    lemma_trimmed_start(line);
    assert(lowered(t).subrange(0, n + 1)[n] == field.push(':')[n]);
    assert(t[n] == ':');
    assert(line[line.len() - t.len() + n] == ':');
    lemma_first_index(line, ':');
}

/// The value of a field in the frontmatter of a `SKILL.md`.
pub fn parse_frontmatter_field(md: &str, field: &str) -> (value: Option<String>)
    ensures
        match value {
            Some(v) => frontmatter_value(md@, field@) == Some(v@),
            None => frontmatter_value(md@, field@) is None,
        },
{
    let all: Vec<String> = lines(md);
    let n: usize = if all.len() > 30 {
        30
    } else {
        all.len()
    };
    let ghost leading = leading_lines(md@);
    assert(leading =~= all.deep_view().take(n as int));
    if n == 0 || !same(trim(all[0].as_str()), "---") {
        return None;
    }
    let mut i: usize = 1;
    assert(leading.drop_first() =~= leading.skip(1));
    while i < n
        invariant
            n <= all@.len(),
            leading == all.deep_view().take(n as int),
            1 <= i <= n,
            frontmatter_value(md@, field@) == value_in(leading.skip(i as int), field@),
        decreases n - i,
    {
        let line: &str = all[i].as_str();
        assert(leading.skip(i as int)[0] == line@);
        assert(leading.skip(i as int).drop_first() =~= leading.skip(i + 1));
        if same(trim(line), "---") {
            return None;
        }
        if line_gives_field(line, field) {
            proof {
                lemma_field_has_colon(line@, field@);
            }
            let text: String = value_after_colon(line);
            return Some(trim_quotes(text.as_str()).to_owned());
        }
        i = i + 1;
    }
    None
}

// ---------------------------------------------------------------------------
// Versions
// ---------------------------------------------------------------------------
/// The three numbers of a version `X.Y.Z`.
pub open spec fn version_of(text: Seq<char>) -> Option<(u32, u32, u32)> {
    let parts = fields_of(text, '.');
    if parts.len() == 3 {
        match (u32_of(parts[0]), u32_of(parts[1]), u32_of(parts[2])) {
            (Some(major), Some(minor), Some(patch)) => Some((major, minor, patch)),
            _ => None,
        }
    } else {
        None
    }
}

/// A version as text.
pub open spec fn version_text(major: nat, minor: nat, patch: nat) -> Seq<char> {
    decimal(major) + "."@ + decimal(minor) + "."@ + decimal(patch)
}

/// The version in the frontmatter of `md`, if there is one and it is well
/// formed.
pub open spec fn stated_version(md: Seq<char>) -> Option<(u32, u32, u32)> {
    match frontmatter_value(md, "version"@) {
        Some(text) => version_of(text),
        None => None,
    }
}

/// The version after the one in `md`, or `0.1.1` where that is missing or
/// malformed.
pub open spec fn next_version(md: Seq<char>) -> Seq<char> {
    match stated_version(md) {
        Some((major, minor, patch)) => version_text(major as nat, minor as nat, patch as nat + 1),
        None => "0.1.1"@,
    }
}

/// The version in the frontmatter of a `SKILL.md`, if there is one and it is
/// well formed.
pub fn current_version(md: &str) -> (version: Option<(u32, u32, u32)>)
    ensures
        version == stated_version(md@),
{
    let text: String = match parse_frontmatter_field(md, "version") {
        Some(t) => t,
        None => return None,
    };
    let parts: Vec<String> = split(text.as_str(), '.');
    let ghost fields = parts.deep_view();
    if parts.len() != 3 {
        return None;
    }
    assert(fields[0] == parts@[0]@ && fields[1] == parts@[1]@ && fields[2] == parts@[2]@);
    match (
        parse_u32(parts[0].as_str()),
        parse_u32(parts[1].as_str()),
        parse_u32(parts[2].as_str()),
    ) {
        (Some(major), Some(minor), Some(patch)) => Some((major, minor, patch)),
        _ => None,
    }
}

/// The version in the frontmatter of a `SKILL.md` with its patch number
/// incremented, or `0.1.1` where that version is missing or malformed.
pub fn bump_version(md: &str) -> (version: String)
    ensures
        version@ == next_version(md@),
{
    match current_version(md) {
        Some((major, minor, patch)) => {
            let mut version: String = String::new();
            push_decimal(&mut version, major as u64);
            version.append(".");
            push_decimal(&mut version, minor as u64);
            version.append(".");
            push_decimal(&mut version, patch as u64 + 1);
            assert(version@ =~= next_version(md@));
            version
        },
        None => "0.1.1".to_owned(),
    }
}

// ---------------------------------------------------------------------------
// Laws
// ---------------------------------------------------------------------------
/// A line gives a value to a field just when what stands before its first colon
/// is the name of the field, in either case and after any white space.
pub proof fn law_field_stands_before_the_colon(
    space: Seq<char>,
    word: Seq<char>,
    rest: Seq<char>,
    field: Seq<char>,
)
    requires
        forall|i: int| 0 <= i < space.len() ==> is_white_space(#[trigger] space[i]),
        word.len() > 0,
        !is_white_space(word[0]),
        !word.contains(':'),
        !field.contains(':'),
        forall|i: int| 0 <= i < field.len() ==> !('A' <= #[trigger] field[i] <= 'Z'),
    ensures
        gives_field(space + word + seq![':'] + rest, field) <==> same_but_case(word, field),
{
    let line = space + word + seq![':'] + rest;
    let t = word + seq![':'] + rest;
    assert(line =~= space + t);
    lemma_trimmed_after_space(space, t);
    assert(t[0] == word[0]);
    assert(trimmed_start(line) == t);
    let low = lowered(t);
    let n = field.len() as int;
    let prefix = field.push(':');
    assert(lowered(field) =~= field);
    assert(low[word.len() as int] == ':');
    if gives_field(line, field) {
        let start = low.subrange(0, n + 1);
        assert(prefix.len() <= low.len());
        assert(start == prefix);
        assert(prefix[n] == ':');
        assert(low[n] == start[n]);
        if word.len() < n {
            assert(start[word.len() as int] == field[word.len() as int]);
            assert(field.contains(':'));
        } else if word.len() > n {
            assert(t[n] == word[n]);
            assert(word.contains(':'));
        }
        assert(lowered(word) =~= field) by {
            assert forall|i: int| 0 <= i < n implies lowered(word)[i] == field[i] by {
                assert(start[i] == prefix[i]);
                assert(t[i] == word[i]);
            }
        }
    }
    if same_but_case(word, field) {
        assert(lowered(word).len() == field.len());
        assert forall|i: int| 0 <= i < n implies low[i] == field[i] by {
            assert(lowered(word)[i] == field[i]);
            assert(t[i] == word[i]);
        }
        assert(low.subrange(0, n + 1) =~= prefix);
    }
}

/// The value of a field in lines that follow the opening mark.
proof fn lemma_value_in(lines: Seq<Seq<char>>, field: Seq<char>, i: int)
    requires
        0 <= i < lines.len(),
        forall|j: int| 0 <= j <= i ==> !is_fence(#[trigger] lines[j]),
        forall|j: int| 0 <= j < i ==> !gives_field(#[trigger] lines[j], field),
        gives_field(lines[i], field),
    ensures
        value_in(lines, field) == Some(unquoted(after_colon(lines[i]))),
    decreases i,
{
    assert(!is_fence(lines[0]));
    if i > 0 {
        assert(!gives_field(lines[0], field));
        let rest = lines.drop_first();
        assert forall|j: int| 0 <= j <= i - 1 implies !is_fence(#[trigger] rest[j]) by {
            assert(rest[j] == lines[j + 1]);
        }
        assert forall|j: int| 0 <= j < i - 1 implies !gives_field(#[trigger] rest[j], field) by {
            assert(rest[j] == lines[j + 1]);
        }
        lemma_value_in(rest, field, i - 1);
    }
}

/// No line before the closing mark gives a value.
proof fn lemma_no_value_in(lines: Seq<Seq<char>>, field: Seq<char>, end: int)
    requires
        0 <= end <= lines.len(),
        end < lines.len() ==> is_fence(lines[end]),
        forall|j: int| 0 <= j < end ==> !gives_field(#[trigger] lines[j], field),
    ensures
        value_in(lines, field) is None,
    decreases end,
{
    if end > 0 && !is_fence(lines[0]) {
        assert(!gives_field(lines[0], field));
        let rest = lines.drop_first();
        assert forall|j: int| 0 <= j < end - 1 implies !gives_field(#[trigger] rest[j], field) by {
            assert(rest[j] == lines[j + 1]);
        }
        lemma_no_value_in(rest, field, end - 1);
    }
}

/// The value of a field is that of the first line that gives it one, where the
/// first line of the text is the mark `---`, no such mark stands in between and
/// the line is among the first thirty.
pub proof fn law_first_line_gives_the_value(md: Seq<char>, field: Seq<char>, i: int)
    requires
        1 <= i < lines_of(md).len(),
        i < 30,
        trimmed(lines_of(md)[0]) == "---"@,
        forall|j: int| 1 <= j <= i ==> trimmed(#[trigger] lines_of(md)[j]) != "---"@,
        forall|j: int| 1 <= j < i ==> !gives_field(#[trigger] lines_of(md)[j], field),
        gives_field(lines_of(md)[i], field),
    ensures
        frontmatter_value(md, field) == Some(unquoted(after_colon(lines_of(md)[i]))),
{
    let lines = lines_of(md);
    let inner = leading_lines(md).drop_first();
    assert(leading_lines(md)[0] == lines[0]);
    assert forall|j: int| 0 <= j <= i - 1 implies !is_fence(#[trigger] inner[j]) by {
        assert(inner[j] == lines[j + 1]);
    }
    assert forall|j: int| 0 <= j < i - 1 implies !gives_field(#[trigger] inner[j], field) by {
        assert(inner[j] == lines[j + 1]);
    }
    assert(inner[i - 1] == lines[i]);
    lemma_value_in(inner, field, i - 1);
}

/// A field has no value where the text does not begin with the mark `---`, or
/// where none of the lines up to the next mark, or up to the thirtieth, gives it
/// one.
pub proof fn law_field_may_be_missing(md: Seq<char>, field: Seq<char>, end: int)
    requires
        ({
            ||| lines_of(md).len() == 0
            ||| trimmed(lines_of(md)[0]) != "---"@
            ||| {
                &&& 1 <= end <= lines_of(md).len()
                &&& end == lines_of(md).len() || end >= 30 || trimmed(lines_of(md)[end])
                    == "---"@
                &&& forall|j: int|
                    1 <= j < end && j < 30 ==> !gives_field(#[trigger] lines_of(md)[j], field)
            }
        }),
    ensures
        frontmatter_value(md, field) is None,
{
    let lines = lines_of(md);
    let leading = leading_lines(md);
    if lines.len() > 0 && trimmed(lines[0]) == "---"@ {
        let inner = leading.drop_first();
        let last = if end - 1 <= inner.len() {
            end - 1
        } else {
            inner.len() as int
        };
        assert forall|j: int| 0 <= j < last implies !gives_field(#[trigger] inner[j], field) by {
            assert(inner[j] == lines[j + 1]);
        }
        if last < inner.len() {
            assert(inner[last] == lines[end]);
        }
        lemma_no_value_in(inner, field, last);
    } else if lines.len() > 0 {
        assert(leading[0] == lines[0]);
    }
}

/// A version is three numbers with dots between them, and nothing else is one.
pub proof fn law_version_is_three_numbers(a: Seq<char>, b: Seq<char>, c: Seq<char>, text: Seq<char>)
    requires
        !a.contains('.'),
        !b.contains('.'),
        !c.contains('.'),
    ensures
        version_of(a.push('.') + (b.push('.') + c)) == (match (u32_of(a), u32_of(b), u32_of(c)) {
            (Some(major), Some(minor), Some(patch)) => Some((major, minor, patch)),
            _ => None,
        }),
        fields_of(text, '.').len() != 3 ==> version_of(text) is None,
{
    lemma_fields_cons(a, b.push('.') + c, '.');
    lemma_fields_cons(b, c, '.');
    lemma_fields_last(c, '.');
    assert(fields_of(a.push('.') + (b.push('.') + c), '.') =~= seq![a, b, c]);
}

/// The next version has the major and the minor number of the one that the text
/// states and the patch number after it. A text that states no version, or one
/// that is malformed, is followed by `0.1.1`.
pub proof fn law_next_version_has_next_patch(md: Seq<char>)
    ensures
        match frontmatter_value(md, "version"@) {
            Some(text) => match version_of(text) {
                Some((major, minor, patch)) => fields_of(next_version(md), '.') == seq![
                    decimal(major as nat),
                    decimal(minor as nat),
                    decimal(patch as nat + 1),
                ],
                None => next_version(md) == "0.1.1"@,
            },
            None => next_version(md) == "0.1.1"@,
        },
{
    if stated_version(md) is Some {
        let (major, minor, patch) = stated_version(md)->Some_0;
        let a = decimal(major as nat);
        let b = decimal(minor as nat);
        let c = decimal(patch as nat + 1);
        lemma_no_dot(major as nat);
        lemma_no_dot(minor as nat);
        lemma_no_dot(patch as nat + 1);
        reveal_strlit(".");
        assert(next_version(md) =~= a.push('.') + (b.push('.') + c));
        lemma_fields_cons(a, b.push('.') + c, '.');
        lemma_fields_cons(b, c, '.');
        lemma_fields_last(c, '.');
        assert(fields_of(next_version(md), '.') =~= seq![a, b, c]);
    }
}

/// A decimal number has no dot.
proof fn lemma_no_dot(n: nat)
    ensures
        !decimal(n).contains('.'),
{
    lemma_decimal_value(n);
    assert forall|i: int| 0 <= i < decimal(n).len() implies decimal(n)[i] != '.' by {
        assert(is_digit(decimal(n)[i]));
    }
}

} // verus!
