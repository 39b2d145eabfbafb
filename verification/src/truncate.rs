//! Truncation of a text to a number of bytes in UTF-8.
use crate::text::ascii_lower;
use crate::text::lowered;
use crate::text::same_but_case;
use crate::text::to_chars;
use vstd::prelude::*;
use vstd::string::*;
use vstd::utf8::*;

verus! {

/// The number of bytes that `c` takes in UTF-8.
pub open spec fn char_width(c: char) -> nat {
    encode_scalar(c as u32).len()
}

/// The number of bytes that `s` takes in UTF-8.
pub open spec fn utf8_len(s: Seq<char>) -> nat {
    encode_utf8(s).len()
}

/// The number of leading characters of `s` that fit in `budget` bytes.
pub open spec fn fitting(s: Seq<char>, budget: int) -> nat
    decreases s.len(),
{
    if s.len() == 0 || char_width(s[0]) > budget {
        0
    } else {
        1 + fitting(s.drop_first(), budget - char_width(s[0]))
    }
}

/// `s` itself if it has at most `max` characters; otherwise as many of its
/// leading characters as fit in `max` bytes, and an ellipsis.
pub open spec fn truncated(s: Seq<char>, max: nat) -> Seq<char> {
    if s.len() <= max {
        s
    } else {
        s.take(fitting(s, max as int) as int).push('\u{2026}')
    }
}

/// The number of bytes that `c` takes in UTF-8.
pub fn width(c: char) -> (bytes: usize)
    ensures
        bytes == char_width(c),
        1 <= bytes <= 4,
{
    let code: u32 = c as u32;
    if code < 0x80 {
        1
    } else if code < 0x800 {
        2
    } else if code < 0x10000 {
        3
    } else {
        4
    }
}

/// Cuts a text that has more than `max` characters down to the characters that
/// fit in `max` bytes, and marks the cut with an ellipsis.
pub fn truncate_chars(s: &str, max: usize) -> (short: String)
    ensures
        short@ == truncated(s@, max as nat),
{
    let chars: Vec<char> = to_chars(s);
    if chars.len() <= max {
        return s.to_owned();
    }
    let mut short: String = String::new();
    let mut room: usize = max;
    let mut i: usize = 0;
    assert(s@.skip(0) =~= s@);
    while i < chars.len() && width(chars[i]) <= room
        invariant
            chars@ == s@,
            i <= chars@.len(),
            room <= max,
            short@ == s@.take(i as int),
            fitting(s@, max as int) == i + fitting(s@.skip(i as int), room as int),
        decreases chars@.len() - i,
    {
        room = room - width(chars[i]);
        short.push(chars[i]);
        assert(s@.take(i + 1) =~= s@.take(i as int).push(s@[i as int]));
        assert(s@.skip(i as int).drop_first() =~= s@.skip(i + 1));
        i = i + 1;
    }
    short.push('\u{2026}');
    short
}

/// The encoding of two texts in a row is their encodings in a row.
pub proof fn lemma_encode_concat(a: Seq<char>, b: Seq<char>)
    ensures
        encode_utf8(a + b) == encode_utf8(a) + encode_utf8(b),
    decreases a.len(),
{
    if a.len() == 0 {
        assert(a + b =~= b);
        assert(encode_utf8(a) + encode_utf8(b) =~= encode_utf8(b));
    } else {
        lemma_encode_concat(a.drop_first(), b);
        assert((a + b).drop_first() =~= a.drop_first() + b);
        assert(encode_utf8(a + b) =~= encode_utf8(a) + encode_utf8(b));
    }
}

/// A text takes at least one byte for each of its characters.
pub proof fn lemma_utf8_len_bound(s: Seq<char>)
    ensures
        s.len() <= utf8_len(s),
    decreases s.len(),
{
    if s.len() > 0 {
        lemma_utf8_len_bound(s.drop_first());
    }
}

/// Texts that differ at most in the case of ASCII letters take equally many
/// bytes.
pub proof fn lemma_utf8_len_but_case(a: Seq<char>, b: Seq<char>)
    requires
        same_but_case(a, b),
    ensures
        a.len() == b.len(),
        utf8_len(a) == utf8_len(b),
    decreases a.len(),
{
    assert(lowered(a).len() == a.len());
    assert(lowered(b).len() == b.len());
    if a.len() > 0 {
        assert(lowered(a)[0] == ascii_lower(a[0]));
        assert(lowered(b)[0] == ascii_lower(b[0]));
        assert(lowered(a).drop_first() =~= lowered(a.drop_first()));
        assert(lowered(b).drop_first() =~= lowered(b.drop_first()));
        lemma_utf8_len_but_case(a.drop_first(), b.drop_first());
    }
}

/// The cut keeps a text that has at most `max` characters. Of any other it
/// keeps the longest beginning that takes at most `max` bytes: one character
/// more would not fit.
pub proof fn law_truncation_is_longest_fit(s: Seq<char>, max: nat)
    ensures
        s.len() <= max ==> truncated(s, max) == s,
        s.len() > max ==> {
            let kept = fitting(s, max as int) as int;
            &&& kept < s.len()
            &&& truncated(s, max) == s.take(kept).push('\u{2026}')
            &&& encode_utf8(s.take(kept)).len() <= max
            &&& encode_utf8(s.take(kept + 1)).len() > max
        },
{
    if s.len() > max {
        lemma_utf8_len_bound(s);
        lemma_fitting(s, max as int);
    }
}

/// [`fitting`] counts the longest beginning that fits.
proof fn lemma_fitting(s: Seq<char>, budget: int)
    requires
        budget >= 0,
    ensures
        fitting(s, budget) <= s.len(),
        utf8_len(s.take(fitting(s, budget) as int)) <= budget,
        fitting(s, budget) < s.len() ==> utf8_len(
            s.take(fitting(s, budget) as int + 1),
        ) > budget,
        fitting(s, budget) == s.len() ==> utf8_len(s) <= budget,
    decreases s.len(),
{
    let kept = fitting(s, budget) as int;
    if s.len() == 0 {
        assert(s.take(0) =~= s);
    } else if char_width(s[0]) > budget {
        assert(s.take(0) =~= Seq::<char>::empty());
        assert(s.take(1).drop_first() =~= Seq::<char>::empty());
        assert(s.take(1)[0] == s[0]);
    } else {
        let rest = s.drop_first();
        lemma_fitting(rest, budget - char_width(s[0]));
        assert(s.take(kept).drop_first() =~= rest.take(kept - 1));
        if kept < s.len() {
            assert(s.take(kept + 1).drop_first() =~= rest.take(kept));
        } else {
            assert(s.take(kept) =~= s);
        }
    }
}

/// A text that was cut is left as it is when it is cut again.
pub proof fn law_truncating_twice_changes_nothing(s: Seq<char>, max: nat)
    ensures
        truncated(truncated(s, max), max) == truncated(s, max),
{
    if s.len() > max {
        let kept = fitting(s, max as int) as int;
        let short = truncated(s, max);
        lemma_utf8_len_bound(s);
        lemma_fitting(s, max as int);
        lemma_utf8_len_bound(s.take(kept));
        if short.len() > max {
            // The beginning takes all the room, so the ellipsis does not fit.
            lemma_fitting(short, max as int);
            let again = fitting(short, max as int) as int;
            assert(short.take(kept) =~= s.take(kept));
            assert(short.take(kept + 1) =~= s.take(kept) + seq!['\u{2026}']);
            lemma_encode_concat(s.take(kept), seq!['\u{2026}']);
            lemma_utf8_len_bound(seq!['\u{2026}']);
            if again > kept {
                assert(short.take(again) =~= short.take(kept + 1));
            } else if again < kept {
                let part = short.subrange(again + 1, kept);
                assert(s.take(kept) =~= short.take(again + 1) + part);
                lemma_encode_concat(short.take(again + 1), part);
            }
        }
    }
}

} // verus!
