//! What the memory hook does with what it hears: the question, the facts that a
//! reply states and the entries that are stored for them.
use crate::agent::dialectic::after_storing;
use crate::agent::dialectic::declines;
use crate::agent::dialectic::distill_step;
use crate::agent::dialectic::fact_of;
use crate::agent::dialectic::fact_question;
use crate::agent::dialectic::facts_in;
use crate::agent::dialectic::facts_of;
use crate::agent::dialectic::group_of;
use crate::agent::dialectic::key_of;
use crate::agent::dialectic::law_bullets_make_no_difference;
use crate::agent::dialectic::law_facts_are_stored_in_order;
use crate::agent::dialectic::memory_key_of;
use crate::agent::dialectic::successes;
use crate::agent::dialectic::without_bullet;
use crate::agent::dialectic::DistillCommandView;
use crate::agent::dialectic::DistillEventView;
use crate::agent::dialectic::DistillStateView;
use crate::agent::dialectic::EndReason;
use crate::agent::dialectic::FactView;
use crate::agent::dialectic::SYSTEM_PROMPT;
use crate::agent::turn::TurnView;
use crate::lines::lines_of;
use crate::text::is_white_space;
use crate::text::lemma_first_index_is;
use crate::text::lemma_trimmed_end;
use crate::text::lemma_trimmed_ends;
use crate::text::lemma_trimmed_before_spaces;
use crate::text::lemma_trimmed_keeps;
use crate::text::lemma_trimmed_first;
use crate::text::lemma_trimmed_after_space;
use crate::text::lemma_trimmed_is_part;
use crate::text::same_but_case;
use crate::text::trimmed;
use crate::text::trimmed_end;
use crate::truncate::truncated;
use vstd::prelude::*;
use vstd::utf8::*;

verus! {

// ---------------------------------------------------------------------------
// Facts
// ---------------------------------------------------------------------------
/// The key that is made of a text has a character for each of its characters:
/// small ASCII letters, digits and underscores stay, capital letters become
/// small, and anything else becomes an underscore.
pub proof fn law_key_keeps_letters_and_digits(s: Seq<char>, i: int)
    requires
        0 <= i < s.len(),
    ensures
        key_of(s).len() == s.len(),
        'a' <= s[i] <= 'z' || '0' <= s[i] <= '9' || s[i] == '_' ==> key_of(s)[i] == s[i],
        'A' <= s[i] <= 'Z' ==> key_of(s)[i] as u32 == s[i] as u32 + 32,
        !('a' <= s[i] <= 'z' || '0' <= s[i] <= '9' || s[i] == '_' || 'A' <= s[i] <= 'Z')
            ==> key_of(s)[i] == '_',
{
}

/// Whether a text stands at the beginning of a line that has no list mark: it is
/// not empty, does not begin with white space and is no list mark itself.
pub open spec fn starts_a_line(head: Seq<char>) -> bool {
    &&& head.len() > 0
    &&& !is_white_space(head[0])
    &&& !((head[0] == '-' || head[0] == '*') && head.len() > 1 && head[1] == ' ')
}

/// A line is cut at its first colon, wherever that is and whatever follows: what
/// stands before it gives the key, and all that stands after it is the value,
/// without the white space around it. The line states a fact just when the key
/// has at most 64 characters and the value has one to 240 bytes.
pub proof fn law_fact_is_cut_at_the_first_colon(head: Seq<char>, value: Seq<char>)
    requires
        starts_a_line(head),
        !head.contains(':'),
    ensures
        fact_of(head.push(':') + value) == (if trimmed(head).len() <= 64 && trimmed(value).len() > 0
            && encode_utf8(trimmed(value)).len() <= 240 {
            Some(FactView { key: key_of(trimmed(head)), value: trimmed(value) })
        } else {
            None
        }),
{
    let line = head.push(':') + value;
    let kept = trimmed_end(value);
    let item = head.push(':') + kept;
    let space = value.skip(kept.len() as int);
    lemma_trimmed_end(value);
    assert(value =~= kept + space);
    assert forall|i: int| 0 <= i < space.len() implies is_white_space(#[trigger] space[i]) by {
        assert(space[i] == value[kept.len() + i]);
    }
    assert(line =~= item + space);
    lemma_trimmed_before_spaces(item, space);
    lemma_trimmed_before_spaces(kept, space);
    assert(item[0] == head[0]);
    if kept.len() > 0 {
        assert(item.last() == kept.last());
    } else {
        assert(item.last() == ':');
    }
    lemma_trimmed_keeps(item);
    assert(trimmed(line) == item);
    assert(without_bullet(item) == item) by {
        reveal_strlit("- ");
        reveal_strlit("* ");
        if "- "@.is_prefix_of(item) {
            assert(item.subrange(0, 2)[0] == '-' && item.subrange(0, 2)[1] == ' ');
            assert(head.len() > 1 ==> item[1] == head[1]);
        }
        if "* "@.is_prefix_of(item) {
            assert(item.subrange(0, 2)[0] == '*' && item.subrange(0, 2)[1] == ' ');
            assert(head.len() > 1 ==> item[1] == head[1]);
        }
    }
    assert forall|i: int| 0 <= i < head.len() implies item[i] != ':' by {
        assert(head.contains(head[i]));
    }
    lemma_first_index_is(item, ':', head.len() as int);
    assert(item.take(head.len() as int) =~= head);
    assert(item.skip(head.len() as int + 1) =~= kept);
    assert(trimmed(head).len() > 0) by {
        lemma_trimmed_first(head);
    }
}

/// A line without a colon states no fact.
pub proof fn law_line_without_colon_states_nothing(line: Seq<char>)
    requires
        !line.contains(':'),
    ensures
        fact_of(line) is None,
{
    let item = without_bullet(trimmed(line));
    lemma_trimmed_is_part(line);
    assert forall|i: int| 0 <= i < item.len() implies item[i] != ':' by {
        let t = trimmed(line);
        let j = if item == t {
            i
        } else {
            i + 2
        };
        reveal_strlit("- ");
        reveal_strlit("* ");
        assert(item[i] == t[j]);
        assert(line.contains(t[j]));
    }
    lemma_first_index_is(item, ':', item.len() as int);
}

/// A line in the format that the model is told to use states the fact that it is
/// meant to state: the key and the value are those that it was written with,
/// and a list mark in front makes no difference.
pub proof fn law_fact_in_format_is_read(key: Seq<char>, value: Seq<char>)
    requires
        1 <= key.len() <= 64,
        forall|i: int|
            0 <= i < key.len() ==> 'a' <= #[trigger] key[i] <= 'z' || '0' <= key[i] <= '9'
                || key[i] == '_',
        value.len() > 0,
        trimmed(value) == value,
        encode_utf8(value).len() <= 240,
    ensures
        fact_of(key + ": "@ + value) == Some(FactView { key, value }),
        fact_of("- "@ + (key + ": "@ + value)) == Some(FactView { key, value }),
        fact_of("* "@ + (key + ": "@ + value)) == Some(FactView { key, value }),
{
    reveal_strlit(": ");
    reveal_strlit("- ");
    reveal_strlit("* ");
    let line = key + ": "@ + value;
    let rest = seq![' '] + value;
    assert(line =~= key.push(':') + rest);
    assert forall|i: int| 0 <= i < key.len() implies key[i] != ':' by {}
    law_fact_is_cut_at_the_first_colon(key, rest);
    lemma_trimmed_after_space(seq![' '], value);
    assert(!is_white_space(key[0]) && !is_white_space(key[key.len() - 1]));
    lemma_trimmed_keeps(key);
    assert(key_of(key) =~= key);
    lemma_trimmed_ends(value);
    assert(line[0] == key[0]);
    assert(line.last() == value.last());
    lemma_trimmed_keeps(line);
    assert(without_bullet(line) == line) by {
        if "- "@.is_prefix_of(line) {
            assert(line.subrange(0, 2)[0] == '-');
        }
        if "* "@.is_prefix_of(line) {
            assert(line.subrange(0, 2)[0] == '*');
        }
    }
    law_bullets_make_no_difference(line);
}

// ---------------------------------------------------------------------------
// Replies
// ---------------------------------------------------------------------------
/// The facts of lines in a row are those of the first lines followed by those of
/// the others, and the fact of one line is what it states, if it states one: no
/// line is left out, and what states no fact makes no difference.
pub proof fn law_every_line_is_read(a: Seq<Seq<char>>, b: Seq<Seq<char>>, line: Seq<char>)
    ensures
        facts_in(a + b) == facts_in(a) + facts_in(b),
        fact_of(line) matches Some(fact) ==> facts_in(seq![line]) == seq![fact],
        fact_of(line) is None ==> facts_in(seq![line]).len() == 0,
        facts_in(Seq::<Seq<char>>::empty()).len() == 0,
    decreases b.len(),
{
    let one = seq![line];
    assert(one.drop_last() =~= Seq::<Seq<char>>::empty());
    assert(facts_in(one.drop_last()).len() == 0);
    if fact_of(line) is Some {
        assert(facts_in(one) =~= seq![fact_of(line)->Some_0]);
    }
    if b.len() == 0 {
        assert(a + b =~= a);
        assert(facts_in(a) + facts_in(b) =~= facts_in(a));
    } else {
        law_every_line_is_read(a, b.drop_last(), line);
        assert((a + b).drop_last() =~= a + b.drop_last());
        assert((a + b).last() == b.last());
        assert(facts_in(a + b) =~= facts_in(a) + facts_in(b));
    }
}

/// Where every line of a reply states a fact, the reply states all of them, in
/// their order.
pub proof fn law_reply_states_all_its_facts(raw: Seq<char>)
    requires
        lines_of(trimmed(raw)).len() > 0,
        forall|i: int|
            0 <= i < lines_of(trimmed(raw)).len() ==> fact_of(
                #[trigger] lines_of(trimmed(raw))[i],
            ) is Some,
        !same_but_case(trimmed(lines_of(trimmed(raw))[0]), "NONE"@),
        !same_but_case(trimmed(raw), "NONE"@),
    ensures
        facts_of(raw).len() == lines_of(trimmed(raw)).len(),
        forall|i: int|
            0 <= i < facts_of(raw).len() ==> fact_of(lines_of(trimmed(raw))[i]) == Some(
                #[trigger] facts_of(raw)[i],
            ),
{
    assert(trimmed(raw).len() > 0);
    lemma_all_facts(lines_of(trimmed(raw)));
}

/// Where every line states a fact there is one for each of them.
proof fn lemma_all_facts(lines: Seq<Seq<char>>)
    requires
        forall|i: int| 0 <= i < lines.len() ==> fact_of(#[trigger] lines[i]) is Some,
    ensures
        facts_in(lines).len() == lines.len(),
        forall|i: int|
            0 <= i < lines.len() ==> fact_of(lines[i]) == Some(#[trigger] facts_in(lines)[i]),
    decreases lines.len(),
{
    if lines.len() > 0 {
        let front = lines.drop_last();
        assert forall|i: int| 0 <= i < front.len() implies fact_of(#[trigger] front[i]) is Some by {
            assert(front[i] == lines[i]);
        }
        lemma_all_facts(front);
        assert(fact_of(lines[lines.len() - 1]) is Some);
        assert forall|i: int| 0 <= i < lines.len() implies fact_of(lines[i]) == Some(
            #[trigger] facts_in(lines)[i],
        ) by {
            if i < front.len() {
                assert(facts_in(lines)[i] == facts_in(front)[i]);
                assert(front[i] == lines[i]);
            }
        }
    }
}

/// A reply states the facts of all its lines, unless it is blank, is the word
/// `NONE` or begins with a line that is, in either case: then it states none.
pub proof fn law_only_none_is_passed_over(raw: Seq<char>)
    ensures
        ({
            let text = trimmed(raw);
            let nothing = text.len() == 0 || same_but_case(text, "NONE"@) || (lines_of(text).len()
                > 0 && same_but_case(trimmed(lines_of(text)[0]), "NONE"@));
            &&& declines(raw) <==> nothing
            &&& nothing ==> facts_of(raw).len() == 0
            &&& !nothing ==> facts_of(raw) == facts_in(lines_of(text))
        }),
{
}

// ---------------------------------------------------------------------------
// Keys
// ---------------------------------------------------------------------------
/// The key of an entry is the sender, the key of the fact and the identifier, in
/// this order, behind `dialectic` and with underscores between them.
pub proof fn law_memory_key_names_sender_and_fact(
    sender: Seq<char>,
    key: Seq<char>,
    id: Seq<char>,
)
    ensures
        ({
            let head = "dialectic_"@ + sender + "_"@;
            let tail = key + "_"@ + id;
            &&& memory_key_of(sender, key, id).len() == head.len() + tail.len()
            &&& head.is_prefix_of(memory_key_of(sender, key, id))
            &&& tail.is_suffix_of(memory_key_of(sender, key, id))
        }),
{
    let head = "dialectic_"@ + sender + "_"@;
    let tail = key + "_"@ + id;
    let whole = memory_key_of(sender, key, id);
    assert(whole =~= head + tail);
    assert(whole.subrange(0, head.len() as int) =~= head);
    assert(whole.subrange(whole.len() - tail.len(), whole.len() as int) =~= tail);
}

/// The first group of a text is what stands before its first hyphen, and `x`
/// where it has none.
pub proof fn law_group_ends_at_the_first_hyphen(group: Seq<char>, rest: Seq<char>)
    requires
        !group.contains('-'),
    ensures
        group_of(group.push('-') + rest) == group,
        group_of(group) == "x"@,
{
    let text = group.push('-') + rest;
    assert forall|i: int| 0 <= i < group.len() implies group[i] != '-' by {
        assert(group.contains(group[i]));
    }
    assert forall|i: int| 0 <= i < group.len() implies text[i] != '-' by {
        assert(text[i] == group[i]);
    }
    lemma_first_index_is(text, '-', group.len() as int);
    lemma_first_index_is(group, '-', group.len() as int);
    assert(text.take(group.len() as int) =~= group);
}

// ---------------------------------------------------------------------------
// The course
// ---------------------------------------------------------------------------
/// The question is the message and the reply under their titles, each cut to its
/// length. A message and a reply of at most 1500 characters stand there in full.
pub proof fn law_question_holds_the_turn(user_msg: Seq<char>, reply: Seq<char>)
    ensures
        ({
            let head = "USER MESSAGE:\n"@ + truncated(user_msg, 1500);
            let tail = "\n\nASSISTANT REPLY:\n"@ + truncated(reply, 1500) + "\n\nFacts:"@;
            let question = fact_question(user_msg, reply);
            &&& question.len() == head.len() + tail.len()
            &&& head.is_prefix_of(question)
            &&& tail.is_suffix_of(question)
        }),
        user_msg.len() <= 1500 ==> truncated(user_msg, 1500) == user_msg,
        reply.len() <= 1500 ==> truncated(reply, 1500) == reply,
{
    let head = "USER MESSAGE:\n"@ + truncated(user_msg, 1500);
    let tail = "\n\nASSISTANT REPLY:\n"@ + truncated(reply, 1500) + "\n\nFacts:"@;
    let question = fact_question(user_msg, reply);
    assert(question =~= head + tail);
    assert(question.subrange(0, head.len() as int) =~= head);
    assert(question.subrange(question.len() - tail.len(), question.len() as int) =~= tail);
}

/// After a turn with a message and a reply that are not blank the model is asked
/// about it, with 30 seconds for its reply. A turn without a message or without
/// a reply is passed over.
pub proof fn law_turn_leads_to_the_question(turn: TurnView, id: Seq<char>)
    ensures
        trimmed(turn.user_msg).len() == 0 || trimmed(turn.assistant_reply).len() == 0
            ==> distill_step(DistillStateView::Start, DistillEventView::Turn(turn), id).1 == (
        DistillCommandView::Stop { reason: EndReason::BlankTurn, stored: 0 }),
        trimmed(turn.user_msg).len() > 0 && trimmed(turn.assistant_reply).len() > 0
            ==> distill_step(DistillStateView::Start, DistillEventView::Turn(turn), id) == (
            DistillStateView::Asking { sender: turn.sender },
            DistillCommandView::Ask {
                system: SYSTEM_PROMPT@,
                question: fact_question(turn.user_msg, turn.assistant_reply),
                timeout_secs: 30,
            },
        ),
{
}

/// After the reply and any outcomes of storing, the next fact is stored as long
/// as there is one and fewer than five attempts have succeeded; otherwise the
/// hook ends and tells how many have.
pub proof fn law_every_fact_is_stored_up_to_five(
    sender: Seq<char>,
    raw: Seq<char>,
    outcomes: Seq<bool>,
    ids: Seq<Seq<char>>,
)
    requires
        ids.len() > outcomes.len(),
        outcomes.len() <= facts_of(raw).len(),
        outcomes.len() > 0 ==> successes(outcomes.drop_last()) < 5,
    ensures
        ({
            let n = outcomes.len() as int;
            let command = after_storing(sender, raw, outcomes, ids).1;
            &&& n < facts_of(raw).len() && successes(outcomes) < 5 ==> command == (
            DistillCommandView::Store {
                memory_key: memory_key_of(sender, facts_of(raw)[n].key, ids[n]),
                value: facts_of(raw)[n].value,
                sender,
            })
            &&& n == facts_of(raw).len() || successes(outcomes) >= 5 ==> command == (
            DistillCommandView::Stop { reason: EndReason::Complete, stored: successes(outcomes) })
        }),
{
    law_facts_are_stored_in_order(sender, raw, outcomes, ids);
    let rest = facts_of(raw).skip(outcomes.len() as int);
    if rest.len() > 0 {
        assert(rest[0] == facts_of(raw)[outcomes.len() as int]);
    }
}

/// Attempts are counted one by one.
pub proof fn law_successes_are_counted(a: Seq<bool>, b: Seq<bool>)
    ensures
        successes(a + b) == successes(a) + successes(b),
        successes(seq![true]) == 1,
        successes(seq![false]) == 0,
    decreases b.len(),
{
    assert(successes(seq![true].drop_last()) == 0);
    assert(successes(seq![false].drop_last()) == 0);
    if b.len() == 0 {
        assert(a + b =~= a);
    } else {
        law_successes_are_counted(a, b.drop_last());
        assert((a + b).drop_last() =~= a + b.drop_last());
        assert((a + b).last() == b.last());
    }
}

} // verus!
