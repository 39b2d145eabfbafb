//! The memory hook: after a turn it has a language model distil durable facts
//! about the user, and has them stored as memory entries of the sender.
use crate::agent::naming::is_alnum;
use crate::agent::naming::is_alphanumeric;
use crate::agent::naming::is_name_char;
use crate::agent::turn::turn_is_blank;
use crate::agent::turn::Turn;
use crate::agent::turn::TurnView;
use crate::lines::lines;
use crate::lines::lines_of;
use crate::text::ascii_lower;
use crate::text::before;
use crate::text::eq_ignore_case;
use crate::text::first_index;
use crate::text::from;
use crate::text::index_of;
use crate::text::is_white_space;
use crate::text::lemma_first_index;
use crate::text::lemma_first_index_is;
use crate::text::lemma_trimmed_after_space;
use crate::text::lemma_trimmed_before_spaces;
use crate::text::lemma_trimmed_end;
use crate::text::lemma_trimmed_ends;
use crate::text::lemma_trimmed_keeps;
use crate::text::lemma_trimmed_start;
use crate::text::lower_char;
use crate::text::same_but_case;
use crate::text::starts_with;
use crate::text::to_chars;
use crate::text::trim;
use crate::text::trimmed;
use crate::text::trimmed_start;
use crate::truncate::lemma_utf8_len_bound;
use crate::truncate::truncate_chars;
use crate::truncate::truncated;
use crate::truncate::utf8_len;
use vstd::prelude::*;
use vstd::string::*;

verus! {

/// What the model is told about its task.
pub const SYSTEM_PROMPT: &'static str = "\
You are a memory-distillation system. Extract DURABLE FACTS about the user from a conversation turn so they can be recalled later.

Rules:
- Only facts about the USER's stack, projects, preferences, identities, or stable context.
- SKIP transient items (today's task, temporary errors, the assistant's own work, command output, debug noise).
- SKIP facts that would be obvious from a typical system prompt or are restatements of the user's literal request.
- Output 0–5 facts, one per line, in this exact format: `- key: value`
  - `key` is lowercase snake_case (e.g. `current_project`, `preferred_stack`, `deploys_with`).
  - `value` is ≤140 characters, factual, self-contained.
- If nothing durable, output exactly: `NONE`.
Nothing else. No preamble, no explanation.";

/// How many seconds the model has for its reply.
pub const REPLY_TIMEOUT_SECS: u64 = 30;

/// How many facts of a turn are stored at most.
pub const MAX_FACTS: usize = 5;

// ---------------------------------------------------------------------------
// The question
// ---------------------------------------------------------------------------
/// The question about a turn: the message and the reply, both truncated.
pub open spec fn fact_question(user_msg: Seq<char>, assistant_reply: Seq<char>) -> Seq<char> {
    "USER MESSAGE:\n"@ + truncated(user_msg, 1500) + "\n\nASSISTANT REPLY:\n"@ + truncated(
        assistant_reply,
        1500,
    ) + "\n\nFacts:"@
}

/// Writes the question about a turn.
pub fn build_question(user_msg: &str, assistant_reply: &str) -> (question: String)
    ensures
        question@ == fact_question(user_msg@, assistant_reply@),
{
    let user: String = truncate_chars(user_msg, 1500);
    let reply: String = truncate_chars(assistant_reply, 1500);
    let mut question: String = "USER MESSAGE:\n".to_owned();
    question.append(user.as_str());
    question.append("\n\nASSISTANT REPLY:\n");
    question.append(reply.as_str());
    question.append("\n\nFacts:");
    question
}

// ---------------------------------------------------------------------------
// Facts
// ---------------------------------------------------------------------------
/// A fact about the user.
#[derive(Debug)]
pub struct Fact {
    pub key: String,
    pub value: String,
}

/// The texts of a [`Fact`].
pub struct FactView {
    pub key: Seq<char>,
    pub value: Seq<char>,
}

impl View for Fact {
    type V = FactView;

    open spec fn view(&self) -> FactView {
        FactView { key: self.key@, value: self.value@ }
    }
}

/// The texts of each fact in a row.
pub open spec fn fact_views(facts: Seq<Fact>) -> Seq<FactView> {
    Seq::new(facts.len(), |i: int| facts[i]@)
}

/// Whether the model says that there is nothing to store: its reply is blank,
/// or its first line is `NONE`.
pub open spec fn declines(raw: Seq<char>) -> bool {
    let text = trimmed(raw);
    ||| text.len() == 0
    ||| same_but_case(text, "NONE"@)
    ||| lines_of(text).len() > 0 && same_but_case(trimmed(lines_of(text)[0]), "NONE"@)
}

/// What stands for `c` in a key: small ASCII letters, digits and underscores
/// stand for themselves, capital letters become small, and anything else
/// becomes an underscore.
pub open spec fn key_char(c: char) -> char {
    if is_alphanumeric(c) {
        ascii_lower(c)
    } else {
        '_'
    }
}

/// `s` as a key.
pub open spec fn key_of(s: Seq<char>) -> Seq<char> {
    Seq::new(s.len(), |i: int| key_char(s[i]))
}

/// A trimmed line without a list mark in front.
pub open spec fn without_bullet(line: Seq<char>) -> Seq<char> {
    if "- "@.is_prefix_of(line) || "* "@.is_prefix_of(line) {
        line.skip(2)
    } else {
        line
    }
}

/// The fact that a line `key: value` states, with or without a list mark. The
/// key has one to 64 characters and the value one to 240 bytes.
pub open spec fn fact_of(line: Seq<char>) -> Option<FactView> {
    let item = without_bullet(trimmed(line));
    let colon = first_index(item, ':') as int;
    if colon >= item.len() {
        None
    } else {
        let key = key_of(trimmed(item.take(colon)));
        let value = trimmed(item.skip(colon + 1));
        if 1 <= key.len() <= 64 && 1 <= value.len() && utf8_len(value) <= 240 {
            Some(FactView { key, value })
        } else {
            None
        }
    }
}

/// The facts that these lines state, in their order.
pub open spec fn facts_in(lines: Seq<Seq<char>>) -> Seq<FactView>
    decreases lines.len(),
{
    if lines.len() == 0 {
        seq![]
    } else {
        let before = facts_in(lines.drop_last());
        match fact_of(lines.last()) {
            Some(fact) => before.push(fact),
            None => before,
        }
    }
}

/// The facts that a reply of the model states.
pub open spec fn facts_of(raw: Seq<char>) -> Seq<FactView> {
    if declines(raw) {
        seq![]
    } else {
        facts_in(lines_of(trimmed(raw)))
    }
}

/// Tests whether the model says that there is nothing to store.
fn reply_declines(raw: &str) -> (nothing: bool)
    ensures
        nothing == declines(raw@),
{
    let text: &str = trim(raw);
    if text.is_empty() || eq_ignore_case(text, "NONE") {
        return true;
    }
    let all: Vec<String> = lines(text);
    all.len() > 0 && eq_ignore_case(trim(all[0].as_str()), "NONE")
}

/// Writes a text as a key.
fn normalize_key(s: &str) -> (key: String)
    ensures
        key@ == key_of(s@),
{
    let chars: Vec<char> = to_chars(s);
    let mut key: String = String::new();
    let mut i: usize = 0;
    while i < chars.len()
        invariant
            chars@ == s@,
            i <= chars@.len(),
            key@ == key_of(s@).take(i as int),
        decreases chars@.len() - i,
    {
        let c: char = chars[i];
        if is_alnum(c) {
            key.push(lower_char(c));
        } else {
            key.push('_');
        }
        assert(key_of(s@).take(i + 1) =~= key_of(s@).take(i as int).push(key_of(s@)[i as int]));
        i = i + 1;
    }
    assert(key_of(s@).take(i as int) =~= key_of(s@));
    key
}

/// Reads the fact that a line states. Tolerates `- key: value`,
/// `* key: value` and `key: value`.
pub fn parse_fact(line: &str) -> (fact: Option<Fact>)
    ensures
        match fact {
            Some(f) => fact_of(line@) == Some(f@),
            None => fact_of(line@) is None,
        },
{
    let text: &str = trim(line);
    proof {
        reveal_strlit("- ");
        reveal_strlit("* ");
    }
    let item: &str = if starts_with(text, "- ") || starts_with(text, "* ") {
        from(text, 2)
    } else {
        text
    };
    let colon: usize = match index_of(item, ':') {
        Some(i) => i,
        None => return None,
    };
    let key: String = normalize_key(trim(before(item, colon)));
    let value: &str = trim(from(item, colon + 1));
    let key_len: usize = key.as_str().unicode_len();
    if key_len == 0 || key_len > 64 || value.is_empty() || value.as_bytes().len() > 240 {
        return None;
    }
    Some(Fact { key, value: value.to_owned() })
}

/// Reads the facts that a reply of the model states.
pub fn parse_facts(raw: &str) -> (facts: Vec<Fact>)
    ensures
        fact_views(facts@) == facts_of(raw@),
{
    let mut facts: Vec<Fact> = Vec::new();
    if reply_declines(raw) {
        assert(fact_views(facts@) =~= Seq::<FactView>::empty());
        return facts;
    }
    let all: Vec<String> = lines(trim(raw));
    let ghost rows = all.deep_view();
    let mut i: usize = 0;
    assert(fact_views(facts@) =~= facts_in(rows.take(0)));
    while i < all.len()
        invariant
            i <= all@.len(),
            rows == all.deep_view(),
            fact_views(facts@) == facts_in(rows.take(i as int)),
        decreases all@.len() - i,
    {
        let ghost done = fact_views(facts@);
        assert(rows.take(i + 1).drop_last() =~= rows.take(i as int));
        assert(rows.take(i + 1).last() == all@[i as int]@);
        match parse_fact(all[i].as_str()) {
            Some(fact) => {
                facts.push(fact);
                assert(fact_views(facts@) =~= done.push(fact@));
            },
            None => {},
        }
        i = i + 1;
    }
    assert(rows.take(i as int) =~= rows);
    facts
}

// ---------------------------------------------------------------------------
// Memory keys
// ---------------------------------------------------------------------------
/// Whether `c` is a hexadecimal digit, with small letters.
pub open spec fn is_lower_hex(c: char) -> bool {
    '0' <= c <= '9' || 'a' <= c <= 'f'
}

/// Whether `s` is a random UUID as text: 36 characters, hyphens at the
/// positions 8, 13, 18 and 23 and small hexadecimal digits elsewhere, of which
/// one gives the version and one the variant.
pub open spec fn is_random_uuid(s: Seq<char>) -> bool {
    &&& s.len() == 36
    &&& forall|i: int|
        0 <= i < 36 ==> if i == 8 || i == 13 || i == 18 || i == 23 {
            #[trigger] s[i] == '-'
        } else {
            is_lower_hex(s[i])
        }
    &&& s[14] == '4'
    &&& s[19] == '8' || s[19] == '9' || s[19] == 'a' || s[19] == 'b'
}

/// `uuid::Uuid::new_v4`, turned into text by the crate's `Display`. Trusted to
/// give the hyphenated form of a UUID of version 4 and of the variant of
/// RFC 9562, in small letters. Its other digits are random: nothing is said of
/// them. The call panics where the operating system has no random bytes to give.
#[verifier::external_body]
fn random_uuid() -> (text: String)
    ensures
        is_random_uuid(text@),
{
    uuid::Uuid::new_v4().to_string()
}

/// What stands before the first hyphen of `s`, or `x` where there is none.
pub open spec fn group_of(s: Seq<char>) -> Seq<char> {
    let end = first_index(s, '-') as int;
    if end < s.len() {
        s.take(end)
    } else {
        "x"@
    }
}

/// What stands before the first hyphen of a text.
pub fn first_group(text: &str) -> (group: String)
    ensures
        group@ == group_of(text@),
{
    match index_of(text, '-') {
        Some(i) => before(text, i).to_owned(),
        None => "x".to_owned(),
    }
}

/// Whether `s` is made of eight small hexadecimal digits.
pub open spec fn is_short_id(s: Seq<char>) -> bool {
    s.len() == 8 && forall|i: int| 0 <= i < 8 ==> is_lower_hex(#[trigger] s[i])
}

/// Eight random hexadecimal digits.
pub fn short_id() -> (id: String)
    ensures
        is_short_id(id@),
{
    let text: String = random_uuid();
    proof {
        lemma_first_index_is(text@, '-', 8);
    }
    first_group(text.as_str())
}

/// The key of the memory entry for a fact.
pub open spec fn memory_key_of(sender: Seq<char>, key: Seq<char>, id: Seq<char>) -> Seq<char> {
    "dialectic_"@ + sender + "_"@ + key + "_"@ + id
}

/// Writes the key of the memory entry for a fact.
pub fn memory_key(sender: &str, key: &str, id: &str) -> (text: String)
    ensures
        text@ == memory_key_of(sender@, key@, id@),
{
    let mut text: String = "dialectic_".to_owned();
    text.append(sender);
    text.append("_");
    text.append(key);
    text.append("_");
    text.append(id);
    text
}

// ---------------------------------------------------------------------------
// The course of the hook
// ---------------------------------------------------------------------------
/// Why the hook ended.
#[derive(Debug, Clone, Copy, PartialEq, Eq, Structural)]
pub enum EndReason {
    /// The message or the reply of the turn was blank.
    BlankTurn,
    /// The model could not be asked.
    CallFailed,
    /// The model took too long.
    TimedOut,
    /// No further fact was to be stored.
    Complete,
    /// The event was not one that the hook was waiting for.
    OutOfTurn,
}

/// Where the hook stands between two events.
#[derive(Debug)]
pub enum DistillState {
    /// Before the turn.
    Start,
    /// Waiting for the model's reply.
    Asking { sender: String },
    /// Waiting for the first of these facts to be stored, after so many others
    /// have been.
    Storing { sender: String, facts: Vec<Fact>, stored: usize },
    /// At the end.
    Finished,
}

/// What the hook hears.
#[derive(Debug)]
pub enum DistillEvent {
    /// A turn has ended.
    Turn(Turn),
    /// The model replied.
    Replied(String),
    /// The model could not be asked.
    CallFailed,
    /// The model took too long.
    TimedOut,
    /// Whether the fact could be stored.
    Stored(bool),
}

/// What the hook wants done next.
#[derive(Debug)]
pub enum DistillCommand {
    /// Ask the model, and wait no longer than this for its reply.
    Ask { system: &'static str, question: String, timeout_secs: u64 },
    /// Store a core memory entry of this sender.
    Store { memory_key: String, value: String, sender: String },
    /// End, with so many facts stored.
    Stop { reason: EndReason, stored: usize },
}

/// The texts of a [`DistillState`].
pub enum DistillStateView {
    Start,
    Asking { sender: Seq<char> },
    Storing { sender: Seq<char>, facts: Seq<FactView>, stored: nat },
    Finished,
}

/// The texts of a [`DistillEvent`].
pub enum DistillEventView {
    Turn(TurnView),
    Replied(Seq<char>),
    CallFailed,
    TimedOut,
    Stored(bool),
}

/// The texts of a [`DistillCommand`].
pub enum DistillCommandView {
    Ask { system: Seq<char>, question: Seq<char>, timeout_secs: u64 },
    Store { memory_key: Seq<char>, value: Seq<char>, sender: Seq<char> },
    Stop { reason: EndReason, stored: nat },
}

impl View for DistillState {
    type V = DistillStateView;

    open spec fn view(&self) -> DistillStateView {
        match *self {
            DistillState::Start => DistillStateView::Start,
            DistillState::Asking { sender } => DistillStateView::Asking { sender: sender@ },
            DistillState::Storing { sender, facts, stored } => DistillStateView::Storing {
                sender: sender@,
                facts: fact_views(facts@),
                stored: stored as nat,
            },
            DistillState::Finished => DistillStateView::Finished,
        }
    }
}

impl View for DistillEvent {
    type V = DistillEventView;

    open spec fn view(&self) -> DistillEventView {
        match *self {
            DistillEvent::Turn(turn) => DistillEventView::Turn(turn@),
            DistillEvent::Replied(raw) => DistillEventView::Replied(raw@),
            DistillEvent::CallFailed => DistillEventView::CallFailed,
            DistillEvent::TimedOut => DistillEventView::TimedOut,
            DistillEvent::Stored(ok) => DistillEventView::Stored(ok),
        }
    }
}

impl View for DistillCommand {
    type V = DistillCommandView;

    open spec fn view(&self) -> DistillCommandView {
        match *self {
            DistillCommand::Ask { system, question, timeout_secs } => DistillCommandView::Ask {
                system: system@,
                question: question@,
                timeout_secs,
            },
            DistillCommand::Store { memory_key, value, sender } => DistillCommandView::Store {
                memory_key: memory_key@,
                value: value@,
                sender: sender@,
            },
            DistillCommand::Stop { reason, stored } => DistillCommandView::Stop {
                reason,
                stored: stored as nat,
            },
        }
    }
}

impl DistillStateView {
    /// While a fact is being stored, fewer than the most have been.
    pub open spec fn well_formed(self) -> bool {
        match self {
            DistillStateView::Storing { sender, facts, stored } => facts.len() > 0 && stored
                < MAX_FACTS,
            _ => true,
        }
    }
}

/// The end of the hook.
pub open spec fn ended(reason: EndReason, stored: nat) -> (DistillStateView, DistillCommandView) {
    (DistillStateView::Finished, DistillCommandView::Stop { reason, stored })
}

/// The storing of the first of these facts under an identifier, after so many
/// others have been stored, or the end where there is none or the most have
/// been stored.
pub open spec fn storing(
    sender: Seq<char>,
    facts: Seq<FactView>,
    stored: nat,
    id: Seq<char>,
) -> (DistillStateView, DistillCommandView) {
    if facts.len() == 0 || stored >= MAX_FACTS {
        ended(EndReason::Complete, stored)
    } else {
        (
            DistillStateView::Storing { sender, facts, stored },
            DistillCommandView::Store {
                memory_key: memory_key_of(sender, facts[0].key, id),
                value: facts[0].value,
                sender,
            },
        )
    }
}

/// Where the hook goes from a state on an event, and what it wants done. The
/// facts are stored in their order under the given identifiers; one that cannot
/// be stored is passed over and does not count. An event that the hook does not
/// wait for ends it.
pub open spec fn distill_step(
    state: DistillStateView,
    event: DistillEventView,
    id: Seq<char>,
) -> (DistillStateView, DistillCommandView) {
    match (state, event) {
        (DistillStateView::Start, DistillEventView::Turn(turn)) => if turn_is_blank(turn) {
            ended(EndReason::BlankTurn, 0)
        } else {
            (
                DistillStateView::Asking { sender: turn.sender },
                DistillCommandView::Ask {
                    system: SYSTEM_PROMPT@,
                    question: fact_question(turn.user_msg, turn.assistant_reply),
                    timeout_secs: REPLY_TIMEOUT_SECS,
                },
            )
        },
        (DistillStateView::Asking { sender }, DistillEventView::CallFailed) => ended(
            EndReason::CallFailed,
            0,
        ),
        (DistillStateView::Asking { sender }, DistillEventView::TimedOut) => ended(
            EndReason::TimedOut,
            0,
        ),
        (DistillStateView::Asking { sender }, DistillEventView::Replied(raw)) => storing(
            sender,
            facts_of(raw),
            0,
            id,
        ),
        (
            DistillStateView::Storing { sender, facts, stored },
            DistillEventView::Stored(ok),
        ) => storing(
            sender,
            facts.drop_first(),
            if ok {
                stored + 1
            } else {
                stored
            },
            id,
        ),
        (DistillStateView::Storing { sender, facts, stored }, _) => ended(
            EndReason::OutOfTurn,
            stored,
        ),
        _ => ended(EndReason::OutOfTurn, 0),
    }
}

/// Has the first of these facts stored.
fn store_first(sender: String, facts: Vec<Fact>, stored: usize, id: &str) -> (next: (
    DistillState,
    DistillCommand,
))
    requires
        facts@.len() > 0,
        stored < MAX_FACTS,
    ensures
        (next.0@, next.1@) == storing(sender@, fact_views(facts@), stored as nat, id@),
{
    let command: DistillCommand = DistillCommand::Store {
        memory_key: memory_key(sender.as_str(), facts[0].key.as_str(), id),
        value: facts[0].value.clone(),
        sender: sender.clone(),
    };
    (DistillState::Storing { sender, facts, stored }, command)
}

/// What an event comes to before an identifier is known.
enum Decision {
    /// The state that the hook goes to and what it wants done there.
    Go(DistillState, DistillCommand),
    /// The first of these facts is to be stored, after so many others have been.
    Store { sender: String, facts: Vec<Fact>, stored: usize },
}

/// Whether a decision is the one on this event in this state: whatever the
/// identifier, it leads to where the hook goes.
spec fn decides(decision: Decision, state: DistillStateView, event: DistillEventView) -> bool {
    match decision {
        Decision::Go(next, command) => forall|id: Seq<char>| #[trigger]
            distill_step(state, event, id) == (next@, command@),
        Decision::Store { sender, facts, stored } => {
            &&& facts@.len() > 0
            &&& stored < MAX_FACTS
            &&& forall|id: Seq<char>| #[trigger]
                distill_step(state, event, id) == storing(
                    sender@,
                    fact_views(facts@),
                    stored as nat,
                    id,
                )
        },
    }
}

/// Ends the hook.
fn give_up(reason: EndReason, stored: usize) -> (decision: Decision)
    ensures
        decision matches Decision::Go(next, command) && (next@, command@) == ended(
            reason,
            stored as nat,
        ),
{
    Decision::Go(DistillState::Finished, DistillCommand::Stop { reason, stored })
}

/// Goes on to the first of these facts, or to the end where there is none or
/// the most have been stored.
fn next_fact(sender: String, facts: Vec<Fact>, stored: usize) -> (decision: Decision)
    ensures
        match decision {
            Decision::Go(next, command) => forall|id: Seq<char>| #[trigger]
                storing(sender@, fact_views(facts@), stored as nat, id) == (next@, command@),
            Decision::Store { sender: s, facts: f, stored: n } => {
                &&& s == sender && f == facts && n == stored
                &&& facts@.len() > 0
                &&& stored < MAX_FACTS
            },
        },
{
    if facts.len() == 0 || stored >= MAX_FACTS {
        give_up(EndReason::Complete, stored)
    } else {
        Decision::Store { sender, facts, stored }
    }
}

/// Decides on an event.
fn decide(state: DistillState, event: DistillEvent) -> (decision: Decision)
    requires
        state@.well_formed(),
    ensures
        decides(decision, state@, event@),
{
    match (state, event) {
        (DistillState::Start, DistillEvent::Turn(turn)) => {
            if turn.is_blank() {
                give_up(EndReason::BlankTurn, 0)
            } else {
                let question: String = build_question(
                    turn.user_msg.as_str(),
                    turn.assistant_reply.as_str(),
                );
                Decision::Go(
                    DistillState::Asking { sender: turn.sender },
                    DistillCommand::Ask {
                        system: SYSTEM_PROMPT,
                        question,
                        timeout_secs: REPLY_TIMEOUT_SECS,
                    },
                )
            }
        },
        (DistillState::Asking { sender }, DistillEvent::CallFailed) => give_up(
            EndReason::CallFailed,
            0,
        ),
        (DistillState::Asking { sender }, DistillEvent::TimedOut) => give_up(
            EndReason::TimedOut,
            0,
        ),
        (DistillState::Asking { sender }, DistillEvent::Replied(raw)) => {
            let facts: Vec<Fact> = parse_facts(raw.as_str());
            next_fact(sender, facts, 0)
        },
        (DistillState::Storing { sender, facts, stored }, DistillEvent::Stored(ok)) => {
            let mut facts: Vec<Fact> = facts;
            let ghost all = fact_views(facts@);
            facts.remove(0);
            assert(fact_views(facts@) =~= all.drop_first());
            let count: usize = if ok {
                stored + 1
            } else {
                stored
            };
            next_fact(sender, facts, count)
        },
        (DistillState::Storing { sender, facts, stored }, _) => give_up(
            EndReason::OutOfTurn,
            stored,
        ),
        _ => give_up(EndReason::OutOfTurn, 0),
    }
}

/// Takes the hook from one event to the next: gives the state that it goes to
/// and what it wants done there. A memory entry that is to be stored gets `id`
/// at the end of its key.
pub fn advance(state: DistillState, event: DistillEvent, id: &str) -> (next: (
    DistillState,
    DistillCommand,
))
    requires
        state@.well_formed(),
    ensures
        (next.0@, next.1@) == distill_step(state@, event@, id@),
        next.0@.well_formed(),
{
    proof {
        law_states_stay_well_formed(state@, event@, id@);
    }
    match decide(state, event) {
        Decision::Go(next, command) => (next, command),
        Decision::Store { sender, facts, stored } => store_first(sender, facts, stored, id),
    }
}

/// Distils durable facts about the user from one turn and has them stored as
/// memory entries of the sender. Takes the hook from one event to the next, as
/// [`advance`] does, with a random identifier at the end of each memory key. An
/// identifier is drawn only where an entry is to be stored.
pub fn distill_and_store(state: DistillState, event: DistillEvent) -> (next: (
    DistillState,
    DistillCommand,
))
    requires
        state@.well_formed(),
    ensures
        exists|id: Seq<char>| #[trigger]
            is_short_id(id) && (next.0@, next.1@) == distill_step(state@, event@, id),
        next.0@.well_formed(),
{
    match decide(state, event) {
        Decision::Go(next, command) => {
            proof {
                // Any identifier leads here.
                let id = Seq::new(8, |i: int| '0');
                assert(is_short_id(id));
                law_states_stay_well_formed(state@, event@, id);
            }
            (next, command)
        },
        Decision::Store { sender, facts, stored } => {
            let id: String = short_id();
            proof {
                law_states_stay_well_formed(state@, event@, id@);
            }
            store_first(sender, facts, stored, id.as_str())
        },
    }
}

// ---------------------------------------------------------------------------
// Laws
// ---------------------------------------------------------------------------
/// A fact has a key of one to 64 small ASCII letters, digits and underscores,
/// and a value of one to 240 bytes without white space at either end.
pub proof fn law_fact_shape(line: Seq<char>)
    requires
        fact_of(line) is Some,
    ensures
        ({
            let fact = fact_of(line)->Some_0;
            &&& 1 <= fact.key.len() <= 64
            &&& forall|i: int| 0 <= i < fact.key.len() ==> is_name_char(#[trigger] fact.key[i])
            &&& 1 <= fact.value.len() <= utf8_len(fact.value) <= 240
            &&& trimmed(fact.value) == fact.value
        }),
{
    let item = without_bullet(trimmed(line));
    let value = item.skip(first_index(item, ':') as int + 1);
    lemma_trimmed_ends(value);
    lemma_utf8_len_bound(trimmed(value));
}

/// A list mark in front of a line makes no difference: `- key: value` and
/// `* key: value` state the fact that `key: value` states. The line itself must
/// not have such a mark already.
pub proof fn law_bullets_make_no_difference(item: Seq<char>)
    requires
        without_bullet(trimmed(item)) == trimmed(item),
    ensures
        fact_of("- "@ + item) == fact_of(item),
        fact_of("* "@ + item) == fact_of(item),
{
    reveal_strlit("- ");
    reveal_strlit("* ");
    lemma_marked_line('-', item);
    lemma_marked_line('*', item);
    assert("- "@ + item =~= seq!['-', ' '] + item);
    assert("* "@ + item =~= seq!['*', ' '] + item);
}

/// A list mark in front of a line makes no difference.
proof fn lemma_marked_line(mark: char, item: Seq<char>)
    requires
        mark == '-' || mark == '*',
        without_bullet(trimmed(item)) == trimmed(item),
    ensures
        fact_of(seq![mark, ' '] + item) == fact_of(item),
{
    let line = seq![mark, ' '] + item;
    let t = trimmed(item);
    if t.len() == 0 {
        lemma_marked_blank(mark, item);
    } else {
        let space = item.take(item.len() - trimmed_start(item).len());
        lemma_trimmed_start(item);
        assert forall|i: int| 0 <= i < space.len() implies is_white_space(#[trigger] space[i]) by {
            assert(space[i] == item[i]);
        }
        lemma_marked_trimmed(mark, item);
        lemma_without_mark(mark, space + t);
        lemma_colon_after_space(space, t);
    }
}

/// A list mark in front of a blank line states no fact.
proof fn lemma_marked_blank(mark: char, item: Seq<char>)
    requires
        mark == '-' || mark == '*',
        trimmed(item).len() == 0,
    ensures
        fact_of(seq![mark, ' '] + item) is None,
        fact_of(item) is None,
{
    reveal_strlit("- ");
    reveal_strlit("* ");
    let line = seq![mark, ' '] + item;
    let rest = trimmed_start(item);
    lemma_trimmed_start(item);
    lemma_trimmed_end(rest);
    assert(rest.len() == 0) by {
        if rest.len() > 0 {
            assert(is_white_space(rest[0]));
        }
    }
    let kept = trimmed(line);
    assert(trimmed_start(line) == line);
    lemma_trimmed_end(line);
    assert(kept.len() <= 1) by {
        if kept.len() > 1 {
            let last = kept.len() - 1;
            assert(kept.last() == line[last]);
            if last > 1 {
                assert(is_white_space(item[last - 2]));
            }
        }
    }
    lemma_first_index_is(kept, ':', kept.len() as int);
}

/// A line with a list mark in front keeps, when trimmed, the mark and the white
/// space between it and its own trimmed form.
proof fn lemma_marked_trimmed(mark: char, item: Seq<char>)
    requires
        mark == '-' || mark == '*',
        trimmed(item).len() > 0,
    ensures
        trimmed(seq![mark, ' '] + item) == seq![mark, ' '] + (item.take(
            item.len() - trimmed_start(item).len(),
        ) + trimmed(item)),
{
    let start = item.take(item.len() - trimmed_start(item).len()) + trimmed(item);
    let tail = trailing_space(item);
    let whole = seq![mark, ' '] + start;
    lemma_item_splits(item);
    assert(seq![mark, ' '] + item =~= whole + tail);
    lemma_trimmed_ends(item);
    assert(whole[0] == mark);
    assert(whole.last() == trimmed(item).last());
    lemma_trimmed_keeps(whole);
    lemma_trimmed_before_spaces(whole, tail);
}

/// What follows the trimmed form in `s`.
spec fn trailing_space(s: Seq<char>) -> Seq<char> {
    trimmed_start(s).skip(trimmed(s).len() as int)
}

/// A text is made of white space, its trimmed form and white space.
proof fn lemma_item_splits(item: Seq<char>)
    ensures
        item == item.take(item.len() - trimmed_start(item).len()) + trimmed(item)
            + trailing_space(item),
        forall|i: int|
            0 <= i < trailing_space(item).len() ==> is_white_space(
                #[trigger] trailing_space(item)[i],
            ),
{
    let rest = trimmed_start(item);
    let n = trimmed(item).len() as int;
    lemma_trimmed_start(item);
    lemma_trimmed_end(rest);
    assert(rest =~= trimmed(item) + rest.skip(n));
    assert(item =~= item.take(item.len() - rest.len()) + rest);
    assert forall|i: int| 0 <= i < rest.skip(n).len() implies is_white_space(
        #[trigger] rest.skip(n)[i],
    ) by {
        assert(rest.skip(n)[i] == rest[n + i]);
    }
    assert(item =~= item.take(item.len() - rest.len()) + trimmed(item) + trailing_space(item));
}

/// A list mark in front is taken off.
proof fn lemma_without_mark(mark: char, rest: Seq<char>)
    requires
        mark == '-' || mark == '*',
    ensures
        without_bullet(seq![mark, ' '] + rest) == rest,
{
    reveal_strlit("- ");
    reveal_strlit("* ");
    let line = seq![mark, ' '] + rest;
    let start = line.subrange(0, 2);
    assert(start =~= seq![mark, ' ']);
    if mark == '-' {
        assert("- "@ =~= start);
    } else {
        assert("* "@ =~= start);
    }
    assert(line.skip(2) =~= rest);
}

/// White space in front of a line `key: value` moves its colon and changes
/// neither the key nor the value.
proof fn lemma_colon_after_space(space: Seq<char>, t: Seq<char>)
    requires
        forall|i: int| 0 <= i < space.len() ==> is_white_space(#[trigger] space[i]),
    ensures
        first_index(space + t, ':') == space.len() + first_index(t, ':'),
        ({
            let colon = first_index(t, ':') as int;
            colon < t.len() ==> {
                &&& trimmed((space + t).take(space.len() + colon)) == trimmed(t.take(colon))
                &&& (space + t).skip(space.len() + colon + 1) == t.skip(colon + 1)
            }
        }),
{
    let n = space.len() as int;
    let inner = space + t;
    let colon = first_index(t, ':') as int;
    lemma_first_index(t, ':');
    assert forall|i: int| 0 <= i < n + colon implies inner[i] != ':' by {
        if i < n {
            assert(is_white_space(space[i]));
        } else {
            assert(inner[i] == t[i - n]);
        }
    }
    lemma_first_index_is(inner, ':', n + colon);
    if colon < t.len() {
        assert(inner.take(n + colon) =~= space + t.take(colon));
        assert(inner.skip(n + colon + 1) =~= t.skip(colon + 1));
        lemma_trimmed_after_space(space, t.take(colon));
    }
}

/// A reply whose first line is `NONE`, in either case, states no fact.
pub proof fn law_none_states_no_fact(raw: Seq<char>)
    requires
        lines_of(trimmed(raw)).len() > 0,
        same_but_case(trimmed(lines_of(trimmed(raw))[0]), "NONE"@),
    ensures
        facts_of(raw).len() == 0,
{
}

/// How many of these attempts succeeded.
pub open spec fn successes(outcomes: Seq<bool>) -> nat
    decreases outcomes.len(),
{
    if outcomes.len() == 0 {
        0
    } else {
        successes(outcomes.drop_last()) + if outcomes.last() {
            1nat
        } else {
            0nat
        }
    }
}

/// The state of the hook, and what it wants done, after the model's reply and
/// these outcomes of storing, with an identifier for each step.
pub open spec fn after_storing(
    sender: Seq<char>,
    raw: Seq<char>,
    outcomes: Seq<bool>,
    ids: Seq<Seq<char>>,
) -> (DistillStateView, DistillCommandView)
    decreases outcomes.len(),
{
    let id = ids[outcomes.len() as int];
    if outcomes.len() == 0 {
        distill_step(DistillStateView::Asking { sender }, DistillEventView::Replied(raw), id)
    } else {
        distill_step(
            after_storing(sender, raw, outcomes.drop_last(), ids).0,
            DistillEventView::Stored(outcomes.last()),
            id,
        )
    }
}

/// The facts of a reply are stored one by one in their order, whatever comes of
/// each attempt. The hook ends when there is no further fact or when five
/// attempts have succeeded, and not before; so it never has more than five
/// facts stored.
pub proof fn law_facts_are_stored_in_order(
    sender: Seq<char>,
    raw: Seq<char>,
    outcomes: Seq<bool>,
    ids: Seq<Seq<char>>,
)
    requires
        ids.len() > outcomes.len(),
        outcomes.len() <= facts_of(raw).len(),
        outcomes.len() > 0 ==> successes(outcomes.drop_last()) < MAX_FACTS,
    ensures
        successes(outcomes) <= MAX_FACTS,
        after_storing(sender, raw, outcomes, ids) == storing(
            sender,
            facts_of(raw).skip(outcomes.len() as int),
            successes(outcomes),
            ids[outcomes.len() as int],
        ),
    decreases outcomes.len(),
{
    let facts = facts_of(raw);
    if outcomes.len() == 0 {
        assert(facts.skip(0) =~= facts);
    } else {
        let before = outcomes.drop_last();
        let n = before.len() as int;
        if before.len() > 0 {
            assert(successes(before.drop_last()) <= successes(before));
        }
        law_facts_are_stored_in_order(sender, raw, before, ids);
        assert(facts.skip(n).drop_first() =~= facts.skip(n + 1));
    }
}

/// No state that the hook reaches has more than the most facts stored.
pub proof fn law_states_stay_well_formed(
    state: DistillStateView,
    event: DistillEventView,
    id: Seq<char>,
)
    requires
        state.well_formed(),
    ensures
        distill_step(state, event, id).0.well_formed(),
        distill_step(state, event, id).1 matches DistillCommandView::Stop { reason, stored }
            ==> stored <= MAX_FACTS,
{
}

/// Whatever fails ends the hook or is passed over: a model that cannot be asked
/// or takes too long, a reply without a fact, and a fact that cannot be stored.
pub proof fn law_failure_is_passed_over(
    state: DistillStateView,
    sender: Seq<char>,
    raw: Seq<char>,
    facts: Seq<FactView>,
    stored: nat,
    id: Seq<char>,
)
    ensures
        distill_step(state, DistillEventView::CallFailed, id).1 is Stop,
        distill_step(state, DistillEventView::TimedOut, id).1 is Stop,
        facts_of(raw).len() == 0 ==> distill_step(
            DistillStateView::Asking { sender },
            DistillEventView::Replied(raw),
            id,
        ) == ended(EndReason::Complete, 0),
        distill_step(
            DistillStateView::Storing { sender, facts, stored },
            DistillEventView::Stored(false),
            id,
        ) == storing(sender, facts.drop_first(), stored, id),
{
}

/// Entries with different identifiers have different keys, whatever the senders
/// and the facts are.
pub proof fn law_identifiers_tell_keys_apart(
    sender1: Seq<char>,
    key1: Seq<char>,
    id1: Seq<char>,
    sender2: Seq<char>,
    key2: Seq<char>,
    id2: Seq<char>,
)
    requires
        is_short_id(id1),
        is_short_id(id2),
        id1 != id2,
    ensures
        memory_key_of(sender1, key1, id1) != memory_key_of(sender2, key2, id2),
{
    let first = memory_key_of(sender1, key1, id1);
    let second = memory_key_of(sender2, key2, id2);
    assert(first.skip(first.len() - 8) =~= id1);
    assert(second.skip(second.len() - 8) =~= id2);
}

/// The state of the hook after these events, with an identifier for each.
pub open spec fn reached(
    events: Seq<DistillEventView>,
    ids: Seq<Seq<char>>,
) -> DistillStateView
    decreases events.len(),
{
    if events.len() == 0 {
        DistillStateView::Start
    } else {
        distill_step(
            reached(events.drop_last(), ids),
            events.last(),
            ids[events.len() - 1],
        ).0
    }
}

/// What the hook wants done after these events, of which there is at least one.
pub open spec fn wanted(
    events: Seq<DistillEventView>,
    ids: Seq<Seq<char>>,
) -> DistillCommandView {
    distill_step(reached(events.drop_last(), ids), events.last(), ids[events.len() - 1]).1
}

/// The events behind a state.
proof fn lemma_reached(events: Seq<DistillEventView>, ids: Seq<Seq<char>>)
    ensures
        match reached(events, ids) {
            DistillStateView::Start => events.len() == 0,
            DistillStateView::Asking { sender } => {
                &&& events.len() == 1
                &&& events[0] matches DistillEventView::Turn(turn) && !turn_is_blank(turn)
                    && turn.sender == sender
            },
            DistillStateView::Storing { sender, facts, stored } => {
                &&& events.len() >= 2
                &&& events[0] matches DistillEventView::Turn(turn) && !turn_is_blank(turn)
                    && turn.sender == sender
                &&& events[1] matches DistillEventView::Replied(raw) && events.len() - 2
                    < facts_of(raw).len() && facts == facts_of(raw).skip(events.len() - 2)
            },
            DistillStateView::Finished => true,
        },
    decreases events.len(),
{
    if events.len() > 0 {
        let before = events.drop_last();
        lemma_reached(before, ids);
        if reached(events, ids) is Storing {
            let raw = events[1]->Replied_0;
            let facts = facts_of(raw);
            if before.len() == 1 {
                assert(facts.skip(0) =~= facts);
            } else {
                assert(before[1] == events[1]);
                let n = before.len() - 2;
                assert(facts.skip(n).drop_first() =~= facts.skip(n + 1));
            }
        }
    }
}

/// Whatever happens, an entry is stored only for a fact of the model's reply to
/// a turn that was not blank. The entry belongs to the sender of that turn, its
/// key is made of that sender, the fact's key and the identifier, and its value
/// is the fact's.
pub proof fn law_entries_come_from_the_turn(
    events: Seq<DistillEventView>,
    ids: Seq<Seq<char>>,
)
    requires
        events.len() > 0,
        wanted(events, ids) is Store,
    ensures
        events.len() >= 2,
        events[0] matches DistillEventView::Turn(turn) && !turn_is_blank(turn) && (events[1] matches
            DistillEventView::Replied(raw) && events.len() - 2 < facts_of(raw).len() && wanted(
            events,
            ids,
        ) == (DistillCommandView::Store {
            memory_key: memory_key_of(
                turn.sender,
                facts_of(raw)[events.len() - 2].key,
                ids[events.len() - 1],
            ),
            value: facts_of(raw)[events.len() - 2].value,
            sender: turn.sender,
        })),
{
    let before = events.drop_last();
    lemma_reached(before, ids);
    lemma_reached(events, ids);
}

} // verus!
