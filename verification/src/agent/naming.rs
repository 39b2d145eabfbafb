//! Which skill names and file names are accepted.
use crate::text::ends_with;
use crate::text::to_chars;
use crate::truncate::utf8_len;
use vstd::prelude::*;
use vstd::string::*;
use vstd::utf8::*;

verus! {

/// Whether `c` is an ASCII letter or digit.
pub open spec fn is_alphanumeric(c: char) -> bool {
    'a' <= c <= 'z' || 'A' <= c <= 'Z' || '0' <= c <= '9'
}

/// Tests for an ASCII letter or digit.
pub fn is_alnum(c: char) -> (found: bool)
    ensures
        found == is_alphanumeric(c),
{
    ('a' <= c && c <= 'z') || ('A' <= c && c <= 'Z') || ('0' <= c && c <= '9')
}

/// Whether `c` may stand in a skill name.
pub open spec fn is_name_char(c: char) -> bool {
    'a' <= c <= 'z' || '0' <= c <= '9' || c == '_'
}

/// A skill name: one to forty small ASCII letters, digits and underscores, with
/// no underscore at either end.
pub open spec fn valid_skill_name(s: Seq<char>) -> bool {
    &&& 1 <= s.len() <= 40
    &&& forall|i: int| 0 <= i < s.len() ==> is_name_char(#[trigger] s[i])
    &&& s[0] != '_'
    &&& s.last() != '_'
}

/// Tests for a skill name.
pub fn is_valid_skill_name(s: &str) -> (valid: bool)
    ensures
        valid == valid_skill_name(s@),
{
    let chars: Vec<char> = to_chars(s);
    let n: usize = chars.len();
    if n == 0 || n > 40 {
        return false;
    }
    let mut i: usize = 0;
    while i < n
        invariant
            chars@ == s@,
            n == chars@.len(),
            i <= n,
            forall|j: int| 0 <= j < i ==> is_name_char(#[trigger] s@[j]),
        decreases n - i,
    {
        let c: char = chars[i];
        if !(('a' <= c && c <= 'z') || ('0' <= c && c <= '9') || c == '_') {
            assert(!is_name_char(s@[i as int]));
            return false;
        }
        i = i + 1;
    }
    chars[0] != '_' && chars[n - 1] != '_'
}

/// Whether `c` may stand in a file name.
pub open spec fn is_file_char(c: char) -> bool {
    is_alphanumeric(c) || c == '_' || c == '-' || c == '.'
}

/// Whether a file name has one of the accepted extensions.
pub open spec fn has_accepted_extension(name: Seq<char>) -> bool {
    ||| ".py"@.is_suffix_of(name)
    ||| ".sh"@.is_suffix_of(name)
    ||| ".txt"@.is_suffix_of(name)
    ||| ".md"@.is_suffix_of(name)
    ||| ".json"@.is_suffix_of(name)
    ||| ".yaml"@.is_suffix_of(name)
    ||| ".toml"@.is_suffix_of(name)
}

/// A file name that is safe to write in a skill's directory: at most 64 ASCII
/// letters, digits, underscores, hyphens and dots, with no dot in front, no two
/// dots in a row and an accepted extension.
pub open spec fn safe_filename(name: Seq<char>) -> bool {
    &&& 1 <= name.len() <= 64
    &&& name[0] != '.'
    &&& forall|i: int| 0 <= i < name.len() ==> is_file_char(#[trigger] name[i])
    &&& forall|i: int|
        0 <= i < name.len() - 1 ==> !(#[trigger] name[i] == '.' && name[i + 1] == '.')
    &&& has_accepted_extension(name)
}

/// Tests for a file name that is safe to write in a skill's directory.
pub fn is_safe_filename(name: &str) -> (safe: bool)
    ensures
        safe == safe_filename(name@),
{
    let chars: Vec<char> = to_chars(name);
    let n: usize = chars.len();
    if n == 0 || n > 64 || chars[0] == '.' {
        return false;
    }
    let mut i: usize = 0;
    while i < n
        invariant
            chars@ == name@,
            n == chars@.len(),
            i <= n,
            forall|j: int| 0 <= j < i ==> is_file_char(#[trigger] name@[j]),
            forall|j: int|
                0 <= j < i && j < n - 1 ==> !(#[trigger] name@[j] == '.' && name@[j + 1] == '.'),
        decreases n - i,
    {
        let c: char = chars[i];
        if !(is_alnum(c) || c == '_' || c == '-' || c == '.') {
            assert(!is_file_char(name@[i as int]));
            return false;
        }
        if c == '.' && i + 1 < n && chars[i + 1] == '.' {
            assert(name@[i as int] == '.' && name@[i + 1] == '.');
            return false;
        }
        i = i + 1;
    }
    ends_with(name, ".py") || ends_with(name, ".sh") || ends_with(name, ".txt") || ends_with(
        name,
        ".md",
    ) || ends_with(name, ".json") || ends_with(name, ".yaml") || ends_with(name, ".toml")
}

/// A skill name is a single component of a path: it is not empty and holds
/// neither a dot nor a separator. Each of its characters takes one byte.
pub proof fn law_skill_name_is_one_component(s: Seq<char>)
    requires
        valid_skill_name(s),
    ensures
        s.len() > 0,
        !s.contains('.'),
        !s.contains('/'),
        !s.contains('\\'),
        utf8_len(s) == s.len(),
{
    assert(is_ascii_chars(s)) by {
        assert forall|i: int| 0 <= i < s.len() implies '\0' <= #[trigger] s[i] <= '\u{7f}' by {
            assert(is_name_char(s[i]));
        }
    }
    is_ascii_chars_encode_utf8(s);
}

/// A safe file name is a single component of a path: it holds no separator and
/// is neither `.` nor `..`. Each of its characters takes one byte.
pub proof fn law_safe_filename_is_one_component(name: Seq<char>)
    requires
        safe_filename(name),
    ensures
        !name.contains('/'),
        !name.contains('\\'),
        name != "."@,
        name != ".."@,
        utf8_len(name) == name.len(),
{
    reveal_strlit(".");
    reveal_strlit("..");
    assert(is_ascii_chars(name)) by {
        assert forall|i: int| 0 <= i < name.len() implies '\0' <= #[trigger] name[i]
            <= '\u{7f}' by {
            assert(is_file_char(name[i]));
        }
    }
    is_ascii_chars_encode_utf8(name);
}

/// Every text of one to forty small ASCII letters, digits and underscores is a
/// skill name if it has no underscore at either end, and no other text is.
pub proof fn law_skill_names_are_all_such_words(first: char, middle: Seq<char>, last: char)
    requires
        'a' <= first <= 'z' || '0' <= first <= '9',
        'a' <= last <= 'z' || '0' <= last <= '9',
        forall|i: int|
            0 <= i < middle.len() ==> 'a' <= #[trigger] middle[i] <= 'z' || '0' <= middle[i] <= '9'
                || middle[i] == '_',
    ensures
        valid_skill_name(seq![first]),
        valid_skill_name(seq![first] + middle + seq![last]) <==> middle.len() <= 38,
        !valid_skill_name(seq!['_'] + middle + seq![last]),
        !valid_skill_name(seq![first] + middle + seq!['_']),
{
    let s = seq![first] + middle + seq![last];
    if middle.len() <= 38 {
        assert forall|i: int| 0 <= i < s.len() implies is_name_char(#[trigger] s[i]) by {
            if 0 < i <= middle.len() {
                assert(s[i] == middle[i - 1]);
            }
        }
    }
    assert((seq!['_'] + middle + seq![last])[0] == '_');
    assert((seq![first] + middle + seq!['_']).last() == '_');
}

/// A text with any other character is no skill name, nor is an empty text.
pub proof fn law_skill_names_hold_nothing_else(s: Seq<char>, i: int)
    requires
        0 <= i < s.len(),
        !('a' <= s[i] <= 'z' || '0' <= s[i] <= '9' || s[i] == '_'),
    ensures
        !valid_skill_name(s),
        !valid_skill_name(Seq::<char>::empty()),
{
    assert(!is_name_char(s[i]));
}

/// Every stem of ASCII letters, digits, underscores, hyphens and single dots,
/// with no dot at either end, makes a safe file name with each of the accepted
/// extensions, as long as the name has at most 64 characters.
pub proof fn law_plain_names_are_safe(stem: Seq<char>, extension: Seq<char>)
    requires
        stem.len() > 0,
        stem[0] != '.',
        stem.last() != '.',
        forall|i: int|
            0 <= i < stem.len() ==> 'a' <= #[trigger] stem[i] <= 'z' || 'A' <= stem[i] <= 'Z'
                || '0' <= stem[i] <= '9' || stem[i] == '_' || stem[i] == '-' || stem[i] == '.',
        forall|i: int|
            0 <= i < stem.len() - 1 ==> !(#[trigger] stem[i] == '.' && stem[i + 1] == '.'),
        extension == ".py"@ || extension == ".sh"@ || extension == ".txt"@ || extension == ".md"@
            || extension == ".json"@ || extension == ".yaml"@ || extension == ".toml"@,
    ensures
        safe_filename(stem + extension) <==> stem.len() + extension.len() <= 64,
{
    reveal_strlit(".py");
    reveal_strlit(".sh");
    reveal_strlit(".txt");
    reveal_strlit(".md");
    reveal_strlit(".json");
    reveal_strlit(".yaml");
    reveal_strlit(".toml");
    let name = stem + extension;
    let n = stem.len() as int;
    assert forall|i: int| 0 <= i < name.len() implies is_file_char(#[trigger] name[i]) by {
        if i < n {
            assert(name[i] == stem[i]);
        } else {
            assert(name[i] == extension[i - n]);
        }
    }
    assert forall|i: int| 0 <= i < name.len() - 1 implies !(#[trigger] name[i] == '.' && name[i + 1]
        == '.') by {
        if i < n - 1 {
            assert(name[i] == stem[i] && name[i + 1] == stem[i + 1]);
        } else if i == n - 1 {
            assert(name[i] == stem.last());
        } else {
            assert(name[i + 1] == extension[i + 1 - n]);
        }
    }
    assert(name.subrange(n, name.len() as int) =~= extension);
    assert(extension.is_suffix_of(name));
}

/// A safe file name has at most 64 characters, all of them ASCII letters,
/// digits, underscores, hyphens or dots, has no dot in front and no two in a
/// row, and ends in an accepted extension.
pub proof fn law_safe_names_are_plain(name: Seq<char>)
    requires
        safe_filename(name),
    ensures
        1 <= name.len() <= 64,
        name[0] != '.',
        forall|i: int|
            0 <= i < name.len() ==> 'a' <= #[trigger] name[i] <= 'z' || 'A' <= name[i] <= 'Z'
                || '0' <= name[i] <= '9' || name[i] == '_' || name[i] == '-' || name[i] == '.',
        forall|i: int|
            0 <= i < name.len() - 1 ==> !(#[trigger] name[i] == '.' && name[i + 1] == '.'),
        ".py"@.is_suffix_of(name) || ".sh"@.is_suffix_of(name) || ".txt"@.is_suffix_of(name)
            || ".md"@.is_suffix_of(name) || ".json"@.is_suffix_of(name) || ".yaml"@.is_suffix_of(
            name,
        ) || ".toml"@.is_suffix_of(name),
{
    assert forall|i: int| 0 <= i < name.len() implies 'a' <= #[trigger] name[i] <= 'z' || 'A'
        <= name[i] <= 'Z' || '0' <= name[i] <= '9' || name[i] == '_' || name[i] == '-' || name[i]
        == '.' by {
        assert(is_file_char(name[i]));
    }
}

} // verus!
