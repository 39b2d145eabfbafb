//! The skill hook: after a turn it asks a language model whether to save a new
//! skill, to update an existing one or to leave the catalogue alone, and has
//! the answer carried out.
use crate::agent::frontmatter::bump_version;
use crate::agent::frontmatter::frontmatter_value;
use crate::agent::frontmatter::next_version;
use crate::agent::frontmatter::parse_frontmatter_field;
use crate::agent::naming::is_safe_filename;
use crate::agent::naming::is_valid_skill_name;
use crate::agent::naming::safe_filename;
use crate::agent::naming::valid_skill_name;
use crate::agent::rendering::created_notice;
use crate::agent::rendering::file_writes;
use crate::agent::rendering::has_skill_md;
use crate::agent::rendering::helper_files;
use crate::agent::rendering::lemma_helper_files;
use crate::agent::rendering::notice_of_creation;
use crate::agent::rendering::notice_of_update;
use crate::agent::rendering::pick_helpers;
use crate::agent::rendering::plan_files;
use crate::agent::rendering::render_skill_md;
use crate::agent::rendering::skill_md;
use crate::agent::rendering::updated_notice;
use crate::agent::rendering::write_views;
use crate::agent::rendering::FileWrite;
use crate::agent::rendering::FileWriteView;
use crate::agent::response::file_views;
use crate::agent::response::header_cuts;
use crate::agent::response::header_is_separable;
use crate::agent::response::parse_skill_response;
use crate::agent::response::response_of;
use crate::agent::response::FileView;
use crate::agent::response::ParsedFile;
use crate::agent::response::ParsedSkill;
use crate::agent::response::SkillAction;
use crate::agent::response::SkillView;
use crate::agent::turn::turn_is_blank;
use crate::agent::turn::Turn;
use crate::agent::turn::TurnView;
use crate::lines::join;
use crate::lines::joined;
use crate::text::eq_ignore_case;
use crate::text::same_but_case;
use crate::text::trim;
use crate::text::trimmed;
use crate::truncate::truncate_chars;
use crate::truncate::truncated;
use vstd::prelude::*;
use vstd::string::*;

verus! {

/// What the model is told about its task.
pub const SYSTEM_PROMPT: &'static str = "\
You are a skill-maintenance system. Review this conversation turn and decide whether to:

  SAVE   — save a brand-new reusable workflow as a fresh skill
  UPDATE — overwrite an existing skill that just FAILED, returned wrong output, or
           that you can clearly improve based on what just happened
  NONE   — leave the skill catalog alone (most turns)

GUIDELINES

Save NEW (SAVE) only when ALL hold:
- Turn involved a procedure (≥2 actions, API calls, or transformations) that could be re-applied to a similar task later.
- No existing skill in the catalogue already covers it.
- Outcome was successful.

Examples that SHOULD be saved as a NEW skill:
- Fetching BTC price from Binance (2 API calls + parsing) → fetch_btc_price
- Checking Laravel Horizon health (supervisor + redis + psql + horizon:failed) → laravel_horizon_health_check

Update an existing skill (UPDATE) when at least one holds:
- An existing skill was invoked this turn and returned an error / non-zero exit / clearly wrong output.
- The user complained about the result.
- The agent worked around an existing skill with inline commands because the skill was incomplete or wrong.
- A schema/API the skill depends on changed and the agent had to compensate.
- You found a strictly better implementation than what the skill currently has.

Do NOT update a skill that worked correctly. Do NOT save a skill that already exists by another name.

If saving (SAVE), output EXACTLY:

SAVE
name: lowercase_snake_case_max_40_chars
description: <≤120 chars, concrete, mentions when to use it>
body:
<markdown body — instructions for invoking. Reference any FILE you emit by name. Use ${SKILL_DIR} as a placeholder for the skill directory.>

(Optional FILE blocks — see below.)

If improving an existing skill (UPDATE), output EXACTLY:

UPDATE
name: <MUST match an existing skill name exactly, lowercase_snake_case>
description: <updated ≤120-char description>
body:
<full new markdown body — overwrites the old SKILL.md body>

(Optional FILE blocks — overwrite or add helper files.)

FILE blocks (used by both SAVE and UPDATE):

--- BEGIN FILE: <relative_filename_no_subdirs> ---
<file content, exactly as it should land on disk>
--- END FILE ---

(Filenames must be plain (e.g. `fetch.py`, `parse.sh`); no slashes, no leading dots, no parent paths. Allowed extensions: .py .sh .txt .md .json .yaml .toml.)

If neither saving nor updating, output EXACTLY: NONE";

/// How many seconds the model has for its reply.
pub const REPLY_TIMEOUT_SECS: u64 = 45;

// ---------------------------------------------------------------------------
// The catalogue of existing skills
// ---------------------------------------------------------------------------
/// A skill directory that was found: its name, if that is valid text, and the
/// text of its `SKILL.md`.
#[derive(Debug)]
pub struct SkillEntry {
    pub dir_name: Option<String>,
    pub skill_md: String,
}

/// The texts of a [`SkillEntry`].
pub struct EntryView {
    pub dir_name: Option<Seq<char>>,
    pub skill_md: Seq<char>,
}

impl View for SkillEntry {
    type V = EntryView;

    open spec fn view(&self) -> EntryView {
        EntryView {
            dir_name: match self.dir_name {
                Some(name) => Some(name@),
                None => None,
            },
            skill_md: self.skill_md@,
        }
    }
}

/// The texts of each entry in a row.
pub open spec fn entry_views(entries: Seq<SkillEntry>) -> Seq<EntryView> {
    Seq::new(entries.len(), |i: int| entries[i]@)
}

/// The name and description under which an entry is listed: those of its
/// frontmatter. The directory's name stands in for a missing name. An entry
/// with an empty name is not listed.
pub open spec fn listed_as(entry: EntryView) -> Option<(Seq<char>, Seq<char>)> {
    let name = match (frontmatter_value(entry.skill_md, "name"@), entry.dir_name) {
        (Some(name), _) => name,
        (None, Some(dir_name)) => dir_name,
        (None, None) => seq![],
    };
    let description = match frontmatter_value(entry.skill_md, "description"@) {
        Some(description) => description,
        None => seq![],
    };
    if name.len() == 0 {
        None
    } else {
        Some((name, description))
    }
}

/// The names and descriptions of the entries that are listed, in their order.
pub open spec fn catalogue_of(entries: Seq<EntryView>) -> Seq<(Seq<char>, Seq<char>)>
    decreases entries.len(),
{
    if entries.len() == 0 {
        seq![]
    } else {
        let before = catalogue_of(entries.drop_last());
        match listed_as(entries.last()) {
            Some(listed) => before.push(listed),
            None => before,
        }
    }
}

/// The name and description under which an entry is listed.
fn list_entry(entry: &SkillEntry) -> (listed: Option<(String, String)>)
    ensures
        match listed {
            Some(l) => listed_as(entry@) == Some((l.0@, l.1@)),
            None => listed_as(entry@) is None,
        },
{
    let name: String = match parse_frontmatter_field(entry.skill_md.as_str(), "name") {
        Some(name) => name,
        None => match &entry.dir_name {
            Some(dir_name) => dir_name.clone(),
            None => String::new(),
        },
    };
    let description: String = match parse_frontmatter_field(
        entry.skill_md.as_str(),
        "description",
    ) {
        Some(description) => description,
        None => String::new(),
    };
    if name.as_str().is_empty() {
        None
    } else {
        Some((name, description))
    }
}

/// Lists the name and description of each skill that was found.
pub fn list_existing_skills(entries: &Vec<SkillEntry>) -> (listed: Vec<(String, String)>)
    ensures
        listed.deep_view() == catalogue_of(entry_views(entries@)),
{
    let mut listed: Vec<(String, String)> = Vec::new();
    let ghost all = entry_views(entries@);
    let mut i: usize = 0;
    assert(listed.deep_view() =~= catalogue_of(all.take(0)));
    while i < entries.len()
        invariant
            i <= entries@.len(),
            all == entry_views(entries@),
            listed.deep_view() == catalogue_of(all.take(i as int)),
        decreases entries@.len() - i,
    {
        let ghost done = listed.deep_view();
        assert(all.take(i + 1).drop_last() =~= all.take(i as int));
        assert(all.take(i + 1).last() == entries@[i as int]@);
        match list_entry(&entries[i]) {
            Some(entry) => {
                listed.push(entry);
                assert(listed.deep_view() =~= done.push((entry.0@, entry.1@)));
            },
            None => {},
        }
        i = i + 1;
    }
    assert(all.take(i as int) =~= all);
    listed
}

// ---------------------------------------------------------------------------
// The question
// ---------------------------------------------------------------------------
/// The line for each skill of the catalogue.
pub open spec fn catalogue_lines(catalogue: Seq<(Seq<char>, Seq<char>)>) -> Seq<Seq<char>> {
    Seq::new(catalogue.len(), |i: int| "- "@ + catalogue[i].0 + ": "@ + catalogue[i].1)
}

/// The catalogue as the model sees it.
pub open spec fn catalogue_block(catalogue: Seq<(Seq<char>, Seq<char>)>) -> Seq<char> {
    if catalogue.len() == 0 {
        "EXISTING SKILLS: (none)"@
    } else {
        "EXISTING SKILLS:\n"@ + joined(catalogue_lines(catalogue), "\n"@)
    }
}

/// The question about a turn: the catalogue, then the message and the reply,
/// both truncated.
pub open spec fn skill_question(
    catalogue: Seq<(Seq<char>, Seq<char>)>,
    user_msg: Seq<char>,
    assistant_reply: Seq<char>,
) -> Seq<char> {
    catalogue_block(catalogue) + "\n\nUSER MESSAGE:\n"@ + truncated(user_msg, 1500)
        + "\n\nASSISTANT REPLY:\n"@ + truncated(assistant_reply, 4000) + "\n\nDecide:"@
}

/// Writes the catalogue as the model sees it.
fn render_catalogue(catalogue: &Vec<(String, String)>) -> (block: String)
    ensures
        block@ == catalogue_block(catalogue.deep_view()),
{
    if catalogue.len() == 0 {
        return "EXISTING SKILLS: (none)".to_owned();
    }
    let mut rows: Vec<String> = Vec::new();
    let ghost all = catalogue_lines(catalogue.deep_view());
    let mut i: usize = 0;
    assert(rows.deep_view() =~= all.take(0));
    while i < catalogue.len()
        invariant
            i <= catalogue@.len(),
            all == catalogue_lines(catalogue.deep_view()),
            rows.deep_view() == all.take(i as int),
        decreases catalogue@.len() - i,
    {
        let ghost done = rows.deep_view();
        let mut row: String = "- ".to_owned();
        row.append(catalogue[i].0.as_str());
        row.append(": ");
        row.append(catalogue[i].1.as_str());
        rows.push(row);
        assert(rows.deep_view() =~= done.push(all[i as int]));
        assert(all.take(i + 1) =~= all.take(i as int).push(all[i as int]));
        i = i + 1;
    }
    assert(all.take(i as int) =~= all);
    let list: String = join(&rows, "\n");
    let mut block: String = "EXISTING SKILLS:\n".to_owned();
    block.append(list.as_str());
    block
}

/// Writes the question about a turn.
pub fn build_question(
    catalogue: &Vec<(String, String)>,
    user_msg: &str,
    assistant_reply: &str,
) -> (question: String)
    ensures
        question@ == skill_question(catalogue.deep_view(), user_msg@, assistant_reply@),
{
    let user: String = truncate_chars(user_msg, 1500);
    let reply: String = truncate_chars(assistant_reply, 4000);
    let mut question: String = render_catalogue(catalogue);
    question.append("\n\nUSER MESSAGE:\n");
    question.append(user.as_str());
    question.append("\n\nASSISTANT REPLY:\n");
    question.append(reply.as_str());
    question.append("\n\nDecide:");
    question
}

// ---------------------------------------------------------------------------
// The reply
// ---------------------------------------------------------------------------
/// Why the hook ended without writing anything.
#[derive(Debug, Clone, Copy, PartialEq, Eq, Structural)]
pub enum StopReason {
    /// The message or the reply of the turn was blank.
    BlankTurn,
    /// The model could not be asked.
    CallFailed,
    /// The model took too long.
    TimedOut,
    /// The model found nothing worth saving.
    NothingToDo,
    /// A header line of the reply could not be separated from its key.
    UnreadableReply,
    /// The reply was not in the expected format.
    UnparsedReply,
    /// The skill's name was not accepted, or its body was blank.
    InvalidSkill,
    /// The name of a helper file was not accepted.
    UnsafeFile,
    /// There was a skill of that name to be saved already.
    SkillExists,
    /// There was no skill of that name to be updated.
    NoSuchSkill,
    /// The skill's directory could not be created.
    DirectoryFailed,
    /// The event was not one that the hook was waiting for.
    OutOfTurn,
}

/// Whether a skill may be written: its name is valid, its body is not blank and
/// the names of its files are safe.
pub open spec fn acceptable(skill: SkillView) -> bool {
    &&& valid_skill_name(skill.name)
    &&& trimmed(skill.body).len() > 0
    &&& forall|i: int| 0 <= i < skill.files.len() ==> safe_filename(#[trigger] skill.files[i].name)
}

/// What a reply of the model comes to: a skill that may be written, or the
/// reason why there is none.
pub open spec fn judged(raw: Seq<char>) -> Result<SkillView, StopReason> {
    let text = trimmed(raw);
    if text.len() == 0 || same_but_case(text, "NONE"@) {
        Err(StopReason::NothingToDo)
    } else if !header_cuts(text) {
        Err(StopReason::UnreadableReply)
    } else {
        match response_of(text) {
            None => Err(StopReason::UnparsedReply),
            Some(skill) => if !valid_skill_name(skill.name) || trimmed(skill.body).len() == 0 {
                Err(StopReason::InvalidSkill)
            } else if !acceptable(skill) {
                Err(StopReason::UnsafeFile)
            } else {
                Ok(skill)
            },
        }
    }
}

/// Tests whether the name of every file is safe.
fn all_files_safe(files: &Vec<ParsedFile>) -> (safe: bool)
    ensures
        safe == forall|i: int|
            0 <= i < files@.len() ==> safe_filename(#[trigger] file_views(files@)[i].name),
{
    let mut i: usize = 0;
    while i < files.len()
        invariant
            i <= files@.len(),
            forall|j: int| 0 <= j < i ==> safe_filename(#[trigger] file_views(files@)[j].name),
        decreases files@.len() - i,
    {
        if !is_safe_filename(files[i].name.as_str()) {
            assert(!safe_filename(file_views(files@)[i as int].name));
            return false;
        }
        i = i + 1;
    }
    true
}

/// Judges a reply of the model.
pub fn judge_reply(raw: &str) -> (judgement: Result<ParsedSkill, StopReason>)
    ensures
        match judgement {
            Ok(skill) => judged(raw@) == Ok::<SkillView, StopReason>(skill@),
            Err(reason) => judged(raw@) == Err::<SkillView, StopReason>(reason),
        },
{
    let text: &str = trim(raw);
    if text.is_empty() || eq_ignore_case(text, "NONE") {
        return Err(StopReason::NothingToDo);
    }
    if !header_is_separable(text) {
        return Err(StopReason::UnreadableReply);
    }
    let skill: ParsedSkill = match parse_skill_response(text) {
        Some(skill) => skill,
        None => return Err(StopReason::UnparsedReply),
    };
    if !is_valid_skill_name(skill.name.as_str()) || trim(skill.body.as_str()).is_empty() {
        return Err(StopReason::InvalidSkill);
    }
    if !all_files_safe(&skill.files) {
        proof {
            let i = choose|i: int|
                0 <= i < skill.files@.len() && !safe_filename(
                    #[trigger] file_views(skill.files@)[i].name,
                );
            assert(!safe_filename(skill@.files[i].name));
        }
        return Err(StopReason::UnsafeFile);
    }
    Ok(skill)
}

// ---------------------------------------------------------------------------
// The course of the hook
// ---------------------------------------------------------------------------
/// Where the hook stands between two events.
#[derive(Debug)]
pub enum EvalState {
    /// Before the turn.
    Start,
    /// Waiting for the skills that exist.
    Listing(Turn),
    /// Waiting for the model's reply.
    Asking { sender: String },
    /// Waiting to hear whether the skill's directory exists.
    Locating { sender: String, skill: ParsedSkill },
    /// Waiting for the skill's directory to be created.
    Creating { sender: String, skill: ParsedSkill },
    /// Waiting for the text of the skill's present `SKILL.md`.
    Reading { sender: String, skill: ParsedSkill },
    /// Waiting for the files to be written.
    Writing { notice: String },
    /// At the end.
    Finished,
}

/// What the hook hears.
#[derive(Debug)]
pub enum EvalEvent {
    /// A turn has ended.
    Turn(Turn),
    /// These skills exist.
    Listed(Vec<SkillEntry>),
    /// The model replied.
    Replied(String),
    /// The model could not be asked.
    CallFailed,
    /// The model took too long.
    TimedOut,
    /// Whether the skill's directory exists.
    DirExists(bool),
    /// Whether the skill's directory could be created.
    DirCreated(bool),
    /// The text of the skill's present `SKILL.md`, if it could be read.
    OldSkill(Option<String>),
    /// The files have been written.
    Written,
}

/// What the hook wants done next.
#[derive(Debug)]
pub enum EvalCommand {
    /// Find the skills that exist.
    ListSkills,
    /// Ask the model, and wait no longer than this for its reply.
    Ask { system: &'static str, question: String, timeout_secs: u64 },
    /// Find out whether the directory of this skill exists.
    CheckDir { name: String },
    /// Create the directory of this skill.
    CreateDir { name: String },
    /// Read the `SKILL.md` of this skill.
    ReadSkill { name: String },
    /// Write the `SKILL.md` of this skill, then these files in order.
    Write { name: String, skill_md: String, files: Vec<FileWrite> },
    /// Send this notice, and end.
    Notify { notice: String },
    /// End.
    Stop(StopReason),
}

/// The texts of an [`EvalState`].
pub enum EvalStateView {
    Start,
    Listing(TurnView),
    Asking { sender: Seq<char> },
    Locating { sender: Seq<char>, skill: SkillView },
    Creating { sender: Seq<char>, skill: SkillView },
    Reading { sender: Seq<char>, skill: SkillView },
    Writing { notice: Seq<char> },
    Finished,
}

/// The texts of an [`EvalEvent`].
pub enum EvalEventView {
    Turn(TurnView),
    Listed(Seq<EntryView>),
    Replied(Seq<char>),
    CallFailed,
    TimedOut,
    DirExists(bool),
    DirCreated(bool),
    OldSkill(Option<Seq<char>>),
    Written,
}

/// The texts of an [`EvalCommand`].
pub enum EvalCommandView {
    ListSkills,
    Ask { system: Seq<char>, question: Seq<char>, timeout_secs: u64 },
    CheckDir { name: Seq<char> },
    CreateDir { name: Seq<char> },
    ReadSkill { name: Seq<char> },
    Write { name: Seq<char>, skill_md: Seq<char>, files: Seq<FileWriteView> },
    Notify { notice: Seq<char> },
    Stop(StopReason),
}

impl View for EvalState {
    type V = EvalStateView;

    open spec fn view(&self) -> EvalStateView {
        match *self {
            EvalState::Start => EvalStateView::Start,
            EvalState::Listing(turn) => EvalStateView::Listing(turn@),
            EvalState::Asking { sender } => EvalStateView::Asking { sender: sender@ },
            EvalState::Locating { sender, skill } => EvalStateView::Locating {
                sender: sender@,
                skill: skill@,
            },
            EvalState::Creating { sender, skill } => EvalStateView::Creating {
                sender: sender@,
                skill: skill@,
            },
            EvalState::Reading { sender, skill } => EvalStateView::Reading {
                sender: sender@,
                skill: skill@,
            },
            EvalState::Writing { notice } => EvalStateView::Writing { notice: notice@ },
            EvalState::Finished => EvalStateView::Finished,
        }
    }
}

impl View for EvalEvent {
    type V = EvalEventView;

    open spec fn view(&self) -> EvalEventView {
        match *self {
            EvalEvent::Turn(turn) => EvalEventView::Turn(turn@),
            EvalEvent::Listed(entries) => EvalEventView::Listed(entry_views(entries@)),
            EvalEvent::Replied(raw) => EvalEventView::Replied(raw@),
            EvalEvent::CallFailed => EvalEventView::CallFailed,
            EvalEvent::TimedOut => EvalEventView::TimedOut,
            EvalEvent::DirExists(present) => EvalEventView::DirExists(present),
            EvalEvent::DirCreated(created) => EvalEventView::DirCreated(created),
            EvalEvent::OldSkill(Some(text)) => EvalEventView::OldSkill(Some(text@)),
            EvalEvent::OldSkill(None) => EvalEventView::OldSkill(None),
            EvalEvent::Written => EvalEventView::Written,
        }
    }
}

impl View for EvalCommand {
    type V = EvalCommandView;

    open spec fn view(&self) -> EvalCommandView {
        match *self {
            EvalCommand::ListSkills => EvalCommandView::ListSkills,
            EvalCommand::Ask { system, question, timeout_secs } => EvalCommandView::Ask {
                system: system@,
                question: question@,
                timeout_secs,
            },
            EvalCommand::CheckDir { name } => EvalCommandView::CheckDir { name: name@ },
            EvalCommand::CreateDir { name } => EvalCommandView::CreateDir { name: name@ },
            EvalCommand::ReadSkill { name } => EvalCommandView::ReadSkill { name: name@ },
            EvalCommand::Write { name, skill_md, files } => EvalCommandView::Write {
                name: name@,
                skill_md: skill_md@,
                files: write_views(files@),
            },
            EvalCommand::Notify { notice } => EvalCommandView::Notify { notice: notice@ },
            EvalCommand::Stop(reason) => EvalCommandView::Stop(reason),
        }
    }
}

/// The end of the hook, with nothing written.
pub open spec fn stopped(reason: StopReason) -> (EvalStateView, EvalCommandView) {
    (EvalStateView::Finished, EvalCommandView::Stop(reason))
}

/// The writing of a skill with these files under a version, with a notice to
/// follow.
pub open spec fn writing(
    skill: SkillView,
    files: Seq<FileView>,
    sender: Seq<char>,
    version: Seq<char>,
    notice: Seq<char>,
) -> (EvalStateView, EvalCommandView) {
    (
        EvalStateView::Writing { notice },
        EvalCommandView::Write {
            name: skill.name,
            skill_md: skill_md(skill, sender, version),
            files: file_writes(files),
        },
    )
}

/// The version that an update gives to a skill, from the text of its present
/// `SKILL.md` if that could be read.
pub open spec fn version_after(old: Option<Seq<char>>) -> Seq<char> {
    match old {
        Some(text) => next_version(text),
        None => "0.1.1"@,
    }
}

/// Where the hook goes from a state on an event, and what it wants done. A new
/// skill is saved only where its directory does not exist, under version
/// `0.1.0` and with every file of the reply. A skill is updated only where its
/// directory exists, under the version after the present one and with every file
/// of the reply but one called `SKILL.md`. An event that the hook does not wait
/// for ends it.
pub open spec fn eval_step(state: EvalStateView, event: EvalEventView) -> (
    EvalStateView,
    EvalCommandView,
) {
    match (state, event) {
        (EvalStateView::Start, EvalEventView::Turn(turn)) => if turn_is_blank(turn) {
            stopped(StopReason::BlankTurn)
        } else {
            (EvalStateView::Listing(turn), EvalCommandView::ListSkills)
        },
        (EvalStateView::Listing(turn), EvalEventView::Listed(entries)) => (
            EvalStateView::Asking { sender: turn.sender },
            EvalCommandView::Ask {
                system: SYSTEM_PROMPT@,
                question: skill_question(
                    catalogue_of(entries),
                    turn.user_msg,
                    turn.assistant_reply,
                ),
                timeout_secs: REPLY_TIMEOUT_SECS,
            },
        ),
        (EvalStateView::Asking { sender }, EvalEventView::CallFailed) => stopped(
            StopReason::CallFailed,
        ),
        (EvalStateView::Asking { sender }, EvalEventView::TimedOut) => stopped(
            StopReason::TimedOut,
        ),
        (EvalStateView::Asking { sender }, EvalEventView::Replied(raw)) => match judged(raw) {
            Ok(skill) => (
                EvalStateView::Locating { sender, skill },
                EvalCommandView::CheckDir { name: skill.name },
            ),
            Err(reason) => stopped(reason),
        },
        (
            EvalStateView::Locating { sender, skill },
            EvalEventView::DirExists(present),
        ) => match (skill.action, present) {
            (SkillAction::Save, true) => stopped(StopReason::SkillExists),
            (SkillAction::Save, false) => (
                EvalStateView::Creating { sender, skill },
                EvalCommandView::CreateDir { name: skill.name },
            ),
            (SkillAction::Update, true) => (
                EvalStateView::Reading { sender, skill },
                EvalCommandView::ReadSkill { name: skill.name },
            ),
            (SkillAction::Update, false) => stopped(StopReason::NoSuchSkill),
        },
        (EvalStateView::Creating { sender, skill }, EvalEventView::DirCreated(created)) => if created {
            writing(skill, skill.files, sender, "0.1.0"@, created_notice(skill))
        } else {
            stopped(StopReason::DirectoryFailed)
        },
        (EvalStateView::Reading { sender, skill }, EvalEventView::OldSkill(old)) => writing(
            skill,
            helper_files(skill.files),
            sender,
            version_after(old),
            updated_notice(skill, version_after(old)),
        ),
        (EvalStateView::Writing { notice }, EvalEventView::Written) => (
            EvalStateView::Finished,
            EvalCommandView::Notify { notice },
        ),
        _ => stopped(StopReason::OutOfTurn),
    }
}

/// Plans the writing of a skill with these files under a version.
fn start_writing(
    skill: &ParsedSkill,
    files: &Vec<ParsedFile>,
    sender: &str,
    version: &str,
    notice: String,
) -> (next: (EvalState, EvalCommand))
    ensures
        (next.0@, next.1@) == writing(
            skill@,
            file_views(files@),
            sender@,
            version@,
            notice@,
        ),
{
    let skill_md: String = render_skill_md(skill, sender, version);
    let files: Vec<FileWrite> = plan_files(files);
    (
        EvalState::Writing { notice },
        EvalCommand::Write { name: skill.name.clone(), skill_md, files },
    )
}

/// The end of the hook, with nothing written.
fn stop(reason: StopReason) -> (next: (EvalState, EvalCommand))
    ensures
        (next.0@, next.1@) == stopped(reason),
{
    (EvalState::Finished, EvalCommand::Stop(reason))
}

/// Evaluates a turn and either saves a new skill, improves an existing one or
/// does nothing. Takes the hook from one event to the next: gives the state
/// that it goes to and what it wants done there. Whatever fails ends the hook
/// with nothing written.
pub fn evaluate_and_save(state: EvalState, event: EvalEvent) -> (next: (EvalState, EvalCommand))
    ensures
        (next.0@, next.1@) == eval_step(state@, event@),
{
    match (state, event) {
        (EvalState::Start, EvalEvent::Turn(turn)) => {
            if turn.is_blank() {
                stop(StopReason::BlankTurn)
            } else {
                (EvalState::Listing(turn), EvalCommand::ListSkills)
            }
        },
        (EvalState::Listing(turn), EvalEvent::Listed(entries)) => {
            let catalogue: Vec<(String, String)> = list_existing_skills(&entries);
            let question: String = build_question(
                &catalogue,
                turn.user_msg.as_str(),
                turn.assistant_reply.as_str(),
            );
            (
                EvalState::Asking { sender: turn.sender },
                EvalCommand::Ask {
                    system: SYSTEM_PROMPT,
                    question,
                    timeout_secs: REPLY_TIMEOUT_SECS,
                },
            )
        },
        (EvalState::Asking { sender }, EvalEvent::CallFailed) => stop(StopReason::CallFailed),
        (EvalState::Asking { sender }, EvalEvent::TimedOut) => stop(StopReason::TimedOut),
        (EvalState::Asking { sender }, EvalEvent::Replied(raw)) => {
            match judge_reply(raw.as_str()) {
                Ok(skill) => {
                    let name: String = skill.name.clone();
                    (EvalState::Locating { sender, skill }, EvalCommand::CheckDir { name })
                },
                Err(reason) => stop(reason),
            }
        },
        (EvalState::Locating { sender, skill }, EvalEvent::DirExists(present)) => {
            let name: String = skill.name.clone();
            match (skill.action, present) {
                (SkillAction::Save, true) => stop(StopReason::SkillExists),
                (SkillAction::Save, false) => (
                    EvalState::Creating { sender, skill },
                    EvalCommand::CreateDir { name },
                ),
                (SkillAction::Update, true) => (
                    EvalState::Reading { sender, skill },
                    EvalCommand::ReadSkill { name },
                ),
                (SkillAction::Update, false) => stop(StopReason::NoSuchSkill),
            }
        },
        (EvalState::Creating { sender, skill }, EvalEvent::DirCreated(created)) => {
            if created {
                let notice: String = notice_of_creation(&skill);
                start_writing(&skill, &skill.files, sender.as_str(), "0.1.0", notice)
            } else {
                stop(StopReason::DirectoryFailed)
            }
        },
        (EvalState::Reading { sender, skill }, EvalEvent::OldSkill(old)) => {
            let version: String = match &old {
                Some(text) => bump_version(text.as_str()),
                None => "0.1.1".to_owned(),
            };
            let notice: String = notice_of_update(&skill, version.as_str());
            let helpers: Vec<ParsedFile> = pick_helpers(&skill.files);
            start_writing(&skill, &helpers, sender.as_str(), version.as_str(), notice)
        },
        (EvalState::Writing { notice }, EvalEvent::Written) => (
            EvalState::Finished,
            EvalCommand::Notify { notice },
        ),
        _ => stop(StopReason::OutOfTurn),
    }
}

// ---------------------------------------------------------------------------
// Laws of the whole course
// ---------------------------------------------------------------------------
/// The state of the hook after these events.
pub open spec fn reached(events: Seq<EvalEventView>) -> EvalStateView
    decreases events.len(),
{
    if events.len() == 0 {
        EvalStateView::Start
    } else {
        eval_step(reached(events.drop_last()), events.last()).0
    }
}

/// What the hook wants done after these events, of which there is at least one.
pub open spec fn wanted(events: Seq<EvalEventView>) -> EvalCommandView {
    eval_step(reached(events.drop_last()), events.last()).1
}

/// Whether these events lead to a skill that may be written: a turn that is not
/// blank, the catalogue, and a reply that describes the skill.
pub open spec fn leads_to(events: Seq<EvalEventView>, sender: Seq<char>, skill: SkillView) -> bool {
    &&& events.len() >= 3
    &&& events[0] matches EvalEventView::Turn(turn) && !turn_is_blank(turn) && turn.sender == sender
    &&& events[1] is Listed
    &&& events[2] matches EvalEventView::Replied(raw) && judged(raw) == Ok::<
        SkillView,
        StopReason,
    >(skill)
}

/// The events behind a state.
proof fn lemma_reached(events: Seq<EvalEventView>)
    ensures
        match reached(events) {
            EvalStateView::Start => events.len() == 0,
            EvalStateView::Listing(turn) => events.len() == 1 && events[0]
                == EvalEventView::Turn(turn) && !turn_is_blank(turn),
            EvalStateView::Asking { sender } => {
                &&& events.len() == 2
                &&& events[0] matches EvalEventView::Turn(turn) && !turn_is_blank(turn)
                    && turn.sender == sender
                &&& events[1] is Listed
            },
            EvalStateView::Locating { sender, skill } => events.len() == 3 && leads_to(
                events,
                sender,
                skill,
            ),
            EvalStateView::Creating { sender, skill } => {
                &&& events.len() == 4
                &&& leads_to(events, sender, skill)
                &&& skill.action == SkillAction::Save
                &&& events[3] == EvalEventView::DirExists(false)
            },
            EvalStateView::Reading { sender, skill } => {
                &&& events.len() == 4
                &&& leads_to(events, sender, skill)
                &&& skill.action == SkillAction::Update
                &&& events[3] == EvalEventView::DirExists(true)
            },
            EvalStateView::Writing { notice } => events.len() == 5 && wanted(events) is Write,
            EvalStateView::Finished => true,
        },
    decreases events.len(),
{
    if events.len() > 0 {
        lemma_reached(events.drop_last());
    }
}

/// Whatever happens, a skill is written only when all this held: the turn was
/// not blank; the model's reply described the skill in the expected format; its
/// name is valid, its body not blank and the names of its files safe. A new
/// skill is written only into a directory that did not exist and was created,
/// under version `0.1.0`; an update only into a directory that existed, under
/// the version after the present one.
pub proof fn law_only_accepted_skills_are_written(events: Seq<EvalEventView>)
    requires
        events.len() > 0,
        wanted(events) is Write,
    ensures
        events.len() == 5,
        exists|sender: Seq<char>, skill: SkillView| #[trigger]
            leads_to(events, sender, skill) && acceptable(skill) && match skill.action {
                SkillAction::Save => {
                    &&& events[3] == EvalEventView::DirExists(false)
                    &&& events[4] == EvalEventView::DirCreated(true)
                    &&& wanted(events) == writing(
                        skill,
                        skill.files,
                        sender,
                        "0.1.0"@,
                        created_notice(skill),
                    ).1
                },
                SkillAction::Update => {
                    &&& events[3] == EvalEventView::DirExists(true)
                    &&& events[4] matches EvalEventView::OldSkill(old) && wanted(events) == writing(
                        skill,
                        helper_files(skill.files),
                        sender,
                        version_after(old),
                        updated_notice(skill, version_after(old)),
                    ).1
                },
            },
{
    let before = events.drop_last();
    lemma_reached(before);
    match reached(before) {
        EvalStateView::Creating { sender, skill } => {
            assert(leads_to(events, sender, skill));
        },
        EvalStateView::Reading { sender, skill } => {
            assert(leads_to(events, sender, skill));
        },
        _ => {},
    }
}

/// Every file that is written has a safe name, and the skill's directory has a
/// valid one.
pub proof fn law_written_names_are_safe(events: Seq<EvalEventView>)
    requires
        events.len() > 0,
        wanted(events) is Write,
    ensures
        valid_skill_name(wanted(events)->Write_name),
        forall|i: int|
            0 <= i < wanted(events)->Write_files.len() ==> safe_filename(
                (#[trigger] wanted(events)->Write_files[i]).name,
            ),
{
    law_only_accepted_skills_are_written(events);
    let (sender, skill) = choose|sender: Seq<char>, skill: SkillView| #[trigger]
        leads_to(events, sender, skill) && acceptable(skill) && match skill.action {
            SkillAction::Save => wanted(events) == writing(
                skill,
                skill.files,
                sender,
                "0.1.0"@,
                created_notice(skill),
            ).1,
            SkillAction::Update => events[4] matches EvalEventView::OldSkill(old) && wanted(events)
                == writing(
                skill,
                helper_files(skill.files),
                sender,
                version_after(old),
                updated_notice(skill, version_after(old)),
            ).1,
        };
    lemma_helper_files(skill.files);
    let written = match skill.action {
        SkillAction::Save => skill.files,
        SkillAction::Update => helper_files(skill.files),
    };
    let files = wanted(events)->Write_files;
    assert forall|i: int| 0 <= i < files.len() implies safe_filename((#[trigger] files[i]).name) by {
        assert(files[i].name == written[i].name);
        assert(skill.files.contains(written[i]));
        let j = choose|j: int| 0 <= j < skill.files.len() && skill.files[j] == written[i];
        assert(safe_filename(skill.files[j].name));
    }
}

/// No file called `SKILL.md` is written after the `SKILL.md` itself, which
/// therefore keeps its text and its version. That holds of every update, and of
/// a new skill whose reply has no file of that name. Where the reply for a new
/// skill has one, it is written like any other, and what it holds is what stays.
pub proof fn law_written_skill_keeps_its_skill_md(events: Seq<EvalEventView>)
    requires
        events.len() > 0,
        wanted(events) is Write,
        events.last() is OldSkill || !has_skill_md(judged(events[2]->Replied_0)->Ok_0.files),
    ensures
        forall|i: int|
            0 <= i < wanted(events)->Write_files.len() ==> (#[trigger] wanted(
                events,
            )->Write_files[i]).name != "SKILL.md"@,
{
    let before = events.drop_last();
    lemma_reached(before);
    match reached(before) {
        EvalStateView::Creating { sender, skill } => {
            let files = wanted(events)->Write_files;
            assert forall|i: int| 0 <= i < files.len() implies (#[trigger] files[i]).name
                != "SKILL.md"@ by {
                assert(files[i].name == skill.files[i].name);
            }
        },
        EvalStateView::Reading { sender, skill } => {
            lemma_helper_files(skill.files);
        },
        _ => {},
    }
}

/// A notice is sent only after the files were to be written, and it is the one
/// for that skill: the hook never announces what it did not want written.
pub proof fn law_notice_follows_writing(events: Seq<EvalEventView>)
    requires
        events.len() > 0,
        wanted(events) is Notify,
    ensures
        events.len() == 6,
        events[5] is Written,
        wanted(events.drop_last()) is Write,
        reached(events.drop_last()) == (EvalStateView::Writing {
            notice: wanted(events)->Notify_notice,
        }),
{
    lemma_reached(events.drop_last());
}

/// At its end the hook wants nothing more done.
pub proof fn law_end_is_final(event: EvalEventView)
    ensures
        eval_step(EvalStateView::Finished, event) == stopped(StopReason::OutOfTurn),
{
}

/// A reply that is blank or just `NONE`, in either case, leaves the catalogue
/// alone.
pub proof fn law_none_leaves_catalogue_alone(sender: Seq<char>, raw: Seq<char>)
    requires
        trimmed(raw).len() == 0 || same_but_case(trimmed(raw), "NONE"@),
    ensures
        eval_step(EvalStateView::Asking { sender }, EvalEventView::Replied(raw)) == stopped(
            StopReason::NothingToDo,
        ),
{
}

/// Whatever fails ends the hook with nothing more to be done.
pub proof fn law_failure_ends_the_hook(state: EvalStateView)
    ensures
        eval_step(state, EvalEventView::CallFailed).1 is Stop,
        eval_step(state, EvalEventView::TimedOut).1 is Stop,
        eval_step(state, EvalEventView::DirCreated(false)).1 is Stop,
{
}

} // verus!
