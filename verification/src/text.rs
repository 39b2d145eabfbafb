//! Text primitives over character sequences: trimming, comparing, ASCII case
//! folding and searching.
use vstd::prelude::*;
use vstd::string::*;

verus! {

// ---------------------------------------------------------------------------
// Characters
// ---------------------------------------------------------------------------
/// The characters with the Unicode property `White_Space`.
pub open spec fn is_white_space(c: char) -> bool {
    ||| '\u{9}' <= c <= '\u{d}'
    ||| c == ' '
    ||| c == '\u{85}'
    ||| c == '\u{a0}'
    ||| c == '\u{1680}'
    ||| '\u{2000}' <= c <= '\u{200a}'
    ||| c == '\u{2028}'
    ||| c == '\u{2029}'
    ||| c == '\u{202f}'
    ||| c == '\u{205f}'
    ||| c == '\u{3000}'
}

/// `char::is_whitespace` of the standard library, trusted to test for exactly
/// the characters that Unicode's `PropList.txt` lists under `White_Space`.
pub assume_specification[ char::is_whitespace ](c: char) -> (white: bool)
    ensures
        white == is_white_space(c),
;

/// `String::push` of the standard library, trusted to append one character and
/// to leave the rest of the string as it was.
pub assume_specification[ String::push ](s: &mut String, c: char)
    ensures
        final(s)@ == old(s)@.push(c),
;

/// `c` with an ASCII capital letter replaced by its small counterpart.
pub open spec fn ascii_lower(c: char) -> char {
    if 'A' <= c <= 'Z' {
        (c as u32 + 32) as char
    } else {
        c
    }
}

/// Executable form of [`ascii_lower`].
pub fn lower_char(c: char) -> (lower: char)
    ensures
        lower == ascii_lower(c),
{
    if 'A' <= c && c <= 'Z' {
        (c as u8 + 32) as char
    } else {
        c
    }
}

/// The characters of `s` as a vector.
pub fn to_chars(s: &str) -> (chars: Vec<char>)
    ensures
        chars@ == s@,
{
    let mut chars: Vec<char> = Vec::new();
    for c in it: s.chars()
        invariant
            chars@ == it.seq().take(it.index() as int),
            it.seq() == s@,
    {
        chars.push(c);
    }
    chars
}

// ---------------------------------------------------------------------------
// Trimming
// ---------------------------------------------------------------------------
/// `s` without its leading white space.
pub open spec fn trimmed_start(s: Seq<char>) -> Seq<char>
    decreases s.len(),
{
    if s.len() > 0 && is_white_space(s[0]) {
        trimmed_start(s.drop_first())
    } else {
        s
    }
}

/// `s` without its trailing white space.
pub open spec fn trimmed_end(s: Seq<char>) -> Seq<char>
    decreases s.len(),
{
    if s.len() > 0 && is_white_space(s.last()) {
        trimmed_end(s.drop_last())
    } else {
        s
    }
}

/// `s` without leading and trailing white space.
pub open spec fn trimmed(s: Seq<char>) -> Seq<char> {
    trimmed_end(trimmed_start(s))
}

/// Removes leading white space.
pub fn trim_start<'a>(s: &'a str) -> (rest: &'a str)
    ensures
        rest@ == trimmed_start(s@),
{
    let chars: Vec<char> = to_chars(s);
    let n: usize = chars.len();
    let mut i: usize = 0;
    assert(s@.skip(0) =~= s@);
    while i < n && chars[i].is_whitespace()
        invariant
            n == chars@.len(),
            chars@ == s@,
            i <= n,
            trimmed_start(s@) == trimmed_start(s@.skip(i as int)),
        decreases n - i,
    {
        assert(s@.skip(i as int).drop_first() =~= s@.skip(i + 1));
        i = i + 1;
    }
    assert(s@.skip(i as int) =~= s@.subrange(i as int, n as int));
    s.substring_char(i, n)
}

/// Removes leading and trailing white space.
pub fn trim<'a>(s: &'a str) -> (rest: &'a str)
    ensures
        rest@ == trimmed(s@),
{
    let rest: &'a str = trim_start(s);
    let chars: Vec<char> = to_chars(rest);
    let mut n: usize = chars.len();
    assert(rest@.take(n as int) =~= rest@);
    while n > 0 && chars[n - 1].is_whitespace()
        invariant
            chars@ == rest@,
            n <= chars@.len(),
            trimmed_end(rest@) == trimmed_end(rest@.take(n as int)),
        decreases n,
    {
        assert(rest@.take(n as int).drop_last() =~= rest@.take(n - 1));
        n = n - 1;
    }
    assert(rest@.take(n as int) =~= rest@.subrange(0, n as int));
    rest.substring_char(0, n)
}

/// `s` without its leading double quotes.
pub open spec fn unquoted_start(s: Seq<char>) -> Seq<char>
    decreases s.len(),
{
    if s.len() > 0 && s[0] == '"' {
        unquoted_start(s.drop_first())
    } else {
        s
    }
}

/// `s` without its trailing double quotes.
pub open spec fn unquoted_end(s: Seq<char>) -> Seq<char>
    decreases s.len(),
{
    if s.len() > 0 && s.last() == '"' {
        unquoted_end(s.drop_last())
    } else {
        s
    }
}

/// `s` without the double quotes at either end.
pub open spec fn unquoted(s: Seq<char>) -> Seq<char> {
    unquoted_end(unquoted_start(s))
}

/// Removes every double quote at either end.
pub fn trim_quotes<'a>(s: &'a str) -> (rest: &'a str)
    ensures
        rest@ == unquoted(s@),
{
    let chars: Vec<char> = to_chars(s);
    let mut n: usize = chars.len();
    let mut i: usize = 0;
    assert(s@.skip(0) =~= s@);
    while i < n && chars[i] == '"'
        invariant
            n == chars@.len(),
            chars@ == s@,
            i <= n,
            unquoted_start(s@) == unquoted_start(s@.skip(i as int)),
        decreases n - i,
    {
        assert(s@.skip(i as int).drop_first() =~= s@.skip(i + 1));
        i = i + 1;
    }
    assert(s@.skip(i as int) =~= s@.subrange(i as int, n as int));
    while n > i && chars[n - 1] == '"'
        invariant
            chars@ == s@,
            i <= n <= chars@.len(),
            unquoted(s@) == unquoted_end(s@.subrange(i as int, n as int)),
        decreases n,
    {
        assert(s@.subrange(i as int, n as int).drop_last() =~= s@.subrange(i as int, n - 1));
        n = n - 1;
    }
    s.substring_char(i, n)
}

// ---------------------------------------------------------------------------
// Comparing
// ---------------------------------------------------------------------------
/// Whether `part` stands in `whole` from position `at` on.
fn stands_at(whole: &Vec<char>, at: usize, part: &Vec<char>) -> (found: bool)
    requires
        at + part@.len() <= whole@.len(),
    ensures
        found == (whole@.subrange(at as int, at + part@.len()) == part@),
{
    let end: usize = whole.len();
    let mut i: usize = 0;
    while i < part.len()
        invariant
            at + part@.len() <= end,
            end == whole@.len(),
            i <= part@.len(),
            forall|j: int| 0 <= j < i ==> whole@[at + j] == #[trigger] part@[j],
        decreases part@.len() - i,
    {
        if whole[at + i] != part[i] {
            assert(whole@.subrange(at as int, at + part@.len())[i as int] != part@[i as int]);
            return false;
        }
        i = i + 1;
    }
    assert(whole@.subrange(at as int, at + part@.len()) =~= part@);
    true
}

/// Whether two texts are the same.
pub fn same(a: &str, b: &str) -> (equal: bool)
    ensures
        equal == (a@ == b@),
{
    let left: Vec<char> = to_chars(a);
    let right: Vec<char> = to_chars(b);
    if left.len() != right.len() {
        return false;
    }
    assert(left@.subrange(0, right@.len() as int) =~= left@);
    stands_at(&left, 0, &right)
}

/// Whether `s` begins with `prefix`.
pub fn starts_with(s: &str, prefix: &str) -> (found: bool)
    ensures
        found == prefix@.is_prefix_of(s@),
{
    let whole: Vec<char> = to_chars(s);
    let part: Vec<char> = to_chars(prefix);
    part.len() <= whole.len() && stands_at(&whole, 0, &part)
}

/// Whether `s` ends with `suffix`.
pub fn ends_with(s: &str, suffix: &str) -> (found: bool)
    ensures
        found == suffix@.is_suffix_of(s@),
{
    let whole: Vec<char> = to_chars(s);
    let part: Vec<char> = to_chars(suffix);
    part.len() <= whole.len() && stands_at(&whole, whole.len() - part.len(), &part)
}

/// `s` with every ASCII capital letter replaced by its small counterpart.
pub open spec fn lowered(s: Seq<char>) -> Seq<char> {
    Seq::new(s.len(), |i: int| ascii_lower(s[i]))
}

/// Whether two texts are the same up to the case of ASCII letters.
pub open spec fn same_but_case(a: Seq<char>, b: Seq<char>) -> bool {
    lowered(a) == lowered(b)
}

/// Whether `s` begins with `prefix`, up to the case of ASCII letters.
pub open spec fn has_prefix_but_case(s: Seq<char>, prefix: Seq<char>) -> bool {
    prefix.len() <= s.len() && same_but_case(s.take(prefix.len() as int), prefix)
}

/// Compares two texts up to the case of ASCII letters.
pub fn eq_ignore_case(a: &str, b: &str) -> (equal: bool)
    ensures
        equal == same_but_case(a@, b@),
{
    let left: Vec<char> = to_chars(a);
    let right: Vec<char> = to_chars(b);
    if left.len() != right.len() {
        assert(lowered(a@).len() != lowered(b@).len());
        return false;
    }
    let mut i: usize = 0;
    while i < left.len()
        invariant
            left@ == a@,
            right@ == b@,
            left@.len() == right@.len(),
            i <= left@.len(),
            forall|j: int| 0 <= j < i ==> ascii_lower(#[trigger] left@[j]) == ascii_lower(right@[j]),
        decreases left@.len() - i,
    {
        if lower_char(left[i]) != lower_char(right[i]) {
            assert(lowered(a@)[i as int] != lowered(b@)[i as int]);
            return false;
        }
        i = i + 1;
    }
    assert(lowered(a@) =~= lowered(b@));
    true
}

/// Tests for a prefix up to the case of ASCII letters.
pub fn starts_with_ignore_case(s: &str, prefix: &str) -> (found: bool)
    ensures
        found == has_prefix_but_case(s@, prefix@),
{
    let n: usize = prefix.unicode_len();
    if s.unicode_len() < n {
        return false;
    }
    assert(s@.subrange(0, n as int) =~= s@.take(n as int));
    eq_ignore_case(s.substring_char(0, n), prefix)
}

// ---------------------------------------------------------------------------
// Searching and cutting
// ---------------------------------------------------------------------------
/// The position of the first `c` in `s`, or the length of `s` if there is none.
pub open spec fn first_index(s: Seq<char>, c: char) -> nat
    decreases s.len(),
{
    if s.len() == 0 || s[0] == c {
        0
    } else {
        1 + first_index(s.drop_first(), c)
    }
}

/// [`first_index`] is the position of a `c` with none before it, or the length.
pub proof fn lemma_first_index(s: Seq<char>, c: char)
    ensures
        first_index(s, c) <= s.len(),
        first_index(s, c) < s.len() ==> s[first_index(s, c) as int] == c,
        forall|i: int| 0 <= i < first_index(s, c) ==> s[i] != c,
    decreases s.len(),
{
    if s.len() > 0 && s[0] != c {
        let rest = s.drop_first();
        lemma_first_index(rest, c);
        assert forall|i: int| 0 <= i < first_index(s, c) implies s[i] != c by {
            if i > 0 {
                assert(rest[i - 1] == s[i]);
            }
        }
    }
}

/// A `c` with none before it is at [`first_index`].
pub proof fn lemma_first_index_is(s: Seq<char>, c: char, n: int)
    requires
        0 <= n <= s.len(),
        n < s.len() ==> s[n] == c,
        forall|i: int| 0 <= i < n ==> s[i] != c,
    ensures
        first_index(s, c) == n,
{
    lemma_first_index(s, c);
    let k = first_index(s, c) as int;
    if k < n {
        assert(s[k] != c);
    }
}

/// The position of the first `c` in `s`, if there is one.
pub fn index_of(s: &str, c: char) -> (index: Option<usize>)
    ensures
        match index {
            Some(i) => i == first_index(s@, c) && i < s@.len() && i < usize::MAX,
            None => first_index(s@, c) == s@.len(),
        },
{
    let chars: Vec<char> = to_chars(s);
    let mut i: usize = 0;
    while i < chars.len()
        invariant
            chars@ == s@,
            i <= chars@.len(),
            forall|j: int| 0 <= j < i ==> s@[j] != c,
        decreases chars@.len() - i,
    {
        if chars[i] == c {
            proof {
                lemma_first_index_is(s@, c, i as int);
            }
            return Some(i);
        }
        i = i + 1;
    }
    proof {
        lemma_first_index_is(s@, c, i as int);
    }
    None
}

/// The text before position `n`.
pub fn before<'a>(s: &'a str, n: usize) -> (part: &'a str)
    requires
        n <= s@.len(),
    ensures
        part@ == s@.take(n as int),
{
    assert(s@.subrange(0, n as int) =~= s@.take(n as int));
    s.substring_char(0, n)
}

/// The text from position `n` on.
pub fn from<'a>(s: &'a str, n: usize) -> (part: &'a str)
    requires
        n <= s@.len(),
    ensures
        part@ == s@.skip(n as int),
{
    let end: usize = s.unicode_len();
    assert(s@.subrange(n as int, end as int) =~= s@.skip(n as int));
    s.substring_char(n, end)
}

/// What follows the first colon of `line`, without white space at either end.
pub open spec fn after_colon(line: Seq<char>) -> Seq<char> {
    trimmed(line.skip(first_index(line, ':') as int + 1))
}

/// What follows the first colon of a line, without white space at either end.
pub fn value_after_colon(line: &str) -> (value: String)
    requires
        first_index(line@, ':') < line@.len(),
    ensures
        value@ == after_colon(line@),
{
    match index_of(line, ':') {
        Some(i) => trim(from(line, i + 1)).to_owned(),
        None => String::new(),
    }
}

// ---------------------------------------------------------------------------
// Facts about trimming
// ---------------------------------------------------------------------------
/// What is left after leading white space is the end of the text.
pub proof fn lemma_trimmed_start(s: Seq<char>)
    ensures
        trimmed_start(s).len() <= s.len(),
        trimmed_start(s) == s.skip(s.len() - trimmed_start(s).len()),
        forall|i: int|
            0 <= i < s.len() - trimmed_start(s).len() ==> is_white_space(#[trigger] s[i]),
        trimmed_start(s).len() > 0 ==> !is_white_space(trimmed_start(s)[0]),
    decreases s.len(),
{
    if s.len() > 0 && is_white_space(s[0]) {
        let rest = s.drop_first();
        lemma_trimmed_start(rest);
        let gone = s.len() - trimmed_start(s).len();
        assert(rest.skip(gone - 1) =~= s.skip(gone));
        assert forall|i: int| 0 <= i < gone implies is_white_space(#[trigger] s[i]) by {
            if i > 0 {
                assert(rest[i - 1] == s[i]);
            }
        }
    } else {
        assert(s.skip(0) =~= s);
    }
}

/// What is left before trailing white space is the beginning of the text.
pub proof fn lemma_trimmed_end(s: Seq<char>)
    ensures
        trimmed_end(s).len() <= s.len(),
        trimmed_end(s) == s.take(trimmed_end(s).len() as int),
        trimmed_end(s).len() > 0 ==> !is_white_space(trimmed_end(s).last()),
        forall|i: int| trimmed_end(s).len() <= i < s.len() ==> is_white_space(#[trigger] s[i]),
    decreases s.len(),
{
    if s.len() > 0 && is_white_space(s.last()) {
        let front = s.drop_last();
        lemma_trimmed_end(front);
        let kept = trimmed_end(s).len() as int;
        assert(front.take(kept) =~= s.take(kept));
        assert forall|i: int| kept <= i < s.len() implies is_white_space(#[trigger] s[i]) by {
            if i < front.len() {
                assert(front[i] == s[i]);
            }
        }
    } else {
        assert(s.take(s.len() as int) =~= s);
    }
}

/// A text with no white space at either end is its own trimmed form.
pub proof fn lemma_trimmed_keeps(s: Seq<char>)
    requires
        s.len() > 0 ==> !is_white_space(s[0]) && !is_white_space(s.last()),
    ensures
        trimmed(s) == s,
        trimmed_start(s) == s,
{
}

/// A trimmed text has no white space at either end.
pub proof fn lemma_trimmed_ends(s: Seq<char>)
    ensures
        trimmed(s).len() > 0 ==> !is_white_space(trimmed(s)[0]) && !is_white_space(
            trimmed(s).last(),
        ),
        trimmed(trimmed(s)) == trimmed(s),
{
    let t = trimmed_start(s);
    lemma_trimmed_start(s);
    lemma_trimmed_end(t);
    if trimmed(s).len() > 0 {
        assert(trimmed(s)[0] == t[0]);
    }
    lemma_trimmed_keeps(trimmed(s));
}

/// White space in front does not change the trimmed form.
pub proof fn lemma_trimmed_after_space(space: Seq<char>, s: Seq<char>)
    requires
        forall|i: int| 0 <= i < space.len() ==> is_white_space(#[trigger] space[i]),
    ensures
        trimmed_start(space + s) == trimmed_start(s),
        trimmed(space + s) == trimmed(s),
    decreases space.len(),
{
    if space.len() == 0 {
        assert(space + s =~= s);
    } else {
        assert(is_white_space(space[0]));
        assert((space + s).drop_first() =~= space.drop_first() + s);
        lemma_trimmed_after_space(space.drop_first(), s);
    }
}

/// A white space character at the end does not change the trimmed form.
pub proof fn lemma_trimmed_before_space(s: Seq<char>, space: char)
    requires
        is_white_space(space),
    ensures
        trimmed(s.push(space)) == trimmed(s),
    decreases s.len(),
{
    let t = s.push(space);
    if s.len() > 0 && is_white_space(s[0]) {
        assert(t.drop_first() =~= s.drop_first().push(space));
        lemma_trimmed_before_space(s.drop_first(), space);
    } else if s.len() > 0 {
        assert(trimmed_start(t) == t);
        assert(t.drop_last() =~= s);
    } else {
        assert(t.drop_first() =~= s);
    }
}

/// White space at the end does not change the trimmed form.
pub proof fn lemma_trimmed_before_spaces(s: Seq<char>, spaces: Seq<char>)
    requires
        forall|i: int| 0 <= i < spaces.len() ==> is_white_space(#[trigger] spaces[i]),
    ensures
        trimmed(s + spaces) == trimmed(s),
    decreases spaces.len(),
{
    if spaces.len() == 0 {
        assert(s + spaces =~= s);
    } else {
        let last = spaces[spaces.len() - 1];
        assert(is_white_space(last));
        lemma_trimmed_before_spaces(s, spaces.drop_last());
        lemma_trimmed_before_space(s + spaces.drop_last(), last);
        assert(s + spaces =~= (s + spaces.drop_last()).push(last));
    }
}

/// A text that begins with a character that is no white space keeps that
/// beginning when trimmed.
pub proof fn lemma_trimmed_first(s: Seq<char>)
    requires
        s.len() > 0,
        !is_white_space(s[0]),
    ensures
        trimmed(s).len() > 0,
        trimmed(s)[0] == s[0],
{
    lemma_trimmed_end(s);
    if trimmed_end(s).len() == 0 {
        assert(is_white_space(s[0]));
    }
}

/// A text without double quotes at either end is left as it is.
pub proof fn lemma_unquoted_keeps(s: Seq<char>)
    requires
        s.len() > 0 ==> s[0] != '"' && s.last() != '"',
    ensures
        unquoted(s) == s,
{
}

/// Double quotes around a text that has none at either end are removed.
pub proof fn lemma_unquoted_inner(s: Seq<char>)
    requires
        s.len() > 0,
        s[0] != '"',
        s.last() != '"',
    ensures
        unquoted(seq!['"'] + s + seq!['"']) == s,
{
    let q = seq!['"'] + s + seq!['"'];
    assert(q.drop_first() =~= s + seq!['"']);
    let t = s + seq!['"'];
    assert(unquoted_start(t) == t);
    assert(unquoted_start(q) == t);
    assert(t.drop_last() =~= s);
    assert(unquoted_end(s) == s);
}

/// Trimming leaves a part of the text.
pub proof fn lemma_trimmed_is_part(s: Seq<char>)
    ensures
        forall|i: int| 0 <= i < trimmed(s).len() ==> s.contains(#[trigger] trimmed(s)[i]),
{
    let t = trimmed_start(s);
    lemma_trimmed_start(s);
    lemma_trimmed_end(t);
    assert forall|i: int| 0 <= i < trimmed(s).len() implies s.contains(
        #[trigger] trimmed(s)[i],
    ) by {
        assert(trimmed(s)[i] == t[i]);
        assert(s[s.len() - t.len() + i] == t[i]);
    }
}

// ---------------------------------------------------------------------------
// Laws
// ---------------------------------------------------------------------------
/// Trimming takes off the white space around a text, all of it and nothing
/// else.
pub proof fn law_trimming_takes_space_off(left: Seq<char>, s: Seq<char>, right: Seq<char>)
    requires
        forall|i: int| 0 <= i < left.len() ==> is_white_space(#[trigger] left[i]),
        forall|i: int| 0 <= i < right.len() ==> is_white_space(#[trigger] right[i]),
        s.len() > 0 ==> !is_white_space(s[0]) && !is_white_space(s.last()),
    ensures
        trimmed(left + s + right) == s,
        s.len() > 0 ==> trimmed_start(left + s + right) == s + right,
{
    lemma_trimmed_before_spaces(left + s, right);
    lemma_trimmed_after_space(left, s);
    lemma_trimmed_keeps(s);
    if s.len() > 0 {
        assert(left + s + right =~= left + (s + right));
        lemma_trimmed_after_space(left, s + right);
        assert((s + right)[0] == s[0]);
    }
}

/// Double quotes around a text are taken off, all of them and nothing else.
pub proof fn law_quotes_are_taken_off(left: Seq<char>, s: Seq<char>, right: Seq<char>)
    requires
        forall|i: int| 0 <= i < left.len() ==> #[trigger] left[i] == '"',
        forall|i: int| 0 <= i < right.len() ==> #[trigger] right[i] == '"',
        s.len() > 0 ==> s[0] != '"' && s.last() != '"',
    ensures
        unquoted(left + s + right) == s,
    decreases left.len() + right.len(),
{
    let whole = left + s + right;
    if left.len() > 0 {
        assert(left[0] == '"');
        assert(whole[0] == '"');
        assert(whole.drop_first() =~= left.drop_first() + s + right);
        law_quotes_are_taken_off(left.drop_first(), s, right);
    } else if right.len() > 0 {
        assert(right[right.len() - 1] == '"');
        assert(whole.last() == '"');
        let front = s + right.drop_last();
        assert(whole =~= front.push('"'));
        assert(left + s + right.drop_last() =~= front);
        law_quotes_are_taken_off(left, s, right.drop_last());
        lemma_unquoted_push(front);
    } else {
        assert(whole =~= s);
    }
}

/// A double quote at the end makes no difference.
proof fn lemma_unquoted_push(s: Seq<char>)
    ensures
        unquoted(s.push('"')) == unquoted(s),
    decreases s.len(),
{
    let t = s.push('"');
    if s.len() > 0 && s[0] == '"' {
        assert(t.drop_first() =~= s.drop_first().push('"'));
        lemma_unquoted_push(s.drop_first());
    } else if s.len() > 0 {
        assert(unquoted_start(t) == t);
        assert(t.drop_last() =~= s);
    } else {
        assert(t.drop_first() =~= s);
    }
}

/// Whether `a` and `b` are the same ASCII letter, one small and one capital.
pub open spec fn differ_in_case(a: char, b: char) -> bool {
    ||| 'a' <= a <= 'z' && a as u32 == b as u32 + 32
    ||| 'a' <= b <= 'z' && b as u32 == a as u32 + 32
}

/// Two texts are the same up to case just when they are equally long and agree
/// at every position, or differ there in the case of an ASCII letter only.
pub proof fn law_case_is_all_that_differs(a: Seq<char>, b: Seq<char>)
    ensures
        same_but_case(a, b) <==> a.len() == b.len() && forall|i: int|
            0 <= i < a.len() ==> a[i] == #[trigger] b[i] || differ_in_case(a[i], b[i]),
{
    if same_but_case(a, b) {
        assert(lowered(a).len() == lowered(b).len());
        assert forall|i: int| 0 <= i < a.len() implies a[i] == #[trigger] b[i] || differ_in_case(
            a[i],
            b[i],
        ) by {
            assert(lowered(a)[i] == lowered(b)[i]);
        }
    }
    if a.len() == b.len() && forall|i: int|
        0 <= i < a.len() ==> a[i] == #[trigger] b[i] || differ_in_case(a[i], b[i]) {
        assert forall|i: int| 0 <= i < a.len() implies lowered(a)[i] == lowered(b)[i] by {
            assert(a[i] == b[i] || differ_in_case(a[i], b[i]));
        }
        assert(lowered(a) =~= lowered(b));
    }
}

/// A text begins with another up to case just when its first part is the same
/// up to case.
pub proof fn law_prefix_but_case(head: Seq<char>, rest: Seq<char>, prefix: Seq<char>)
    requires
        head.len() == prefix.len(),
    ensures
        has_prefix_but_case(head + rest, prefix) <==> same_but_case(head, prefix),
{
    assert((head + rest).take(prefix.len() as int) =~= head);
}

/// What follows the first colon is the value, without the white space around
/// it, whatever stands before the colon and whatever the value holds.
pub proof fn law_value_follows_first_colon(head: Seq<char>, value: Seq<char>)
    requires
        !head.contains(':'),
    ensures
        after_colon(head.push(':') + value) == trimmed(value),
{
    let line = head.push(':') + value;
    assert forall|i: int| 0 <= i < head.len() implies line[i] != ':' by {
        assert(head.contains(head[i]));
    }
    lemma_first_index_is(line, ':', head.len() as int);
    assert(line.skip(head.len() as int + 1) =~= value);
}

} // verus!
