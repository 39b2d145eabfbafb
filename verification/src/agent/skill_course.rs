//! What the skill hook does with what it hears: the catalogue that the model
//! sees, the question, the judgement of the reply and what is written and told.
use crate::agent::auto_skill::catalogue_block;
use crate::agent::auto_skill::catalogue_lines;
use crate::agent::auto_skill::catalogue_of;
use crate::agent::auto_skill::eval_step;
use crate::agent::auto_skill::judged;
use crate::agent::auto_skill::listed_as;
use crate::agent::auto_skill::reached;
use crate::agent::auto_skill::skill_question;
use crate::agent::auto_skill::wanted;
use crate::agent::auto_skill::EntryView;
use crate::agent::auto_skill::EvalCommandView;
use crate::agent::auto_skill::EvalEventView;
use crate::agent::auto_skill::EvalStateView;
use crate::agent::auto_skill::StopReason;
use crate::agent::auto_skill::SYSTEM_PROMPT;
use crate::agent::frontmatter::frontmatter_value;
use crate::agent::frontmatter::next_version;
use crate::agent::naming::safe_filename;
use crate::agent::naming::valid_skill_name;
use crate::agent::reading_back::fits_a_line;
use crate::agent::reading_back::lemma_located;
use crate::agent::reading_back::Run;
use crate::agent::rendering::created_notice;
use crate::agent::rendering::helper_files;
use crate::agent::rendering::skill_md;
use crate::agent::rendering::updated_notice;
use crate::agent::rendering::FileWriteView;
use crate::agent::reply_format::block_files;
use crate::agent::reply_format::is_plain;
use crate::agent::reply_format::law_reply_in_format_is_read;
use crate::agent::reply_format::reply_lines;
use crate::agent::reply_format::Block;
use crate::agent::response::header_cuts;
use crate::agent::response::response_of;
use crate::agent::response::FileView;
use crate::agent::response::SkillAction;
use crate::agent::response::SkillView;
use crate::agent::turn::TurnView;
use crate::lines::joined;
use crate::lines::law_joined_lines_read_back;
use crate::lines::law_joining_puts_separators_between;
use crate::lines::lemma_lines_last;
use crate::lines::lines_of;
use crate::lines::without_return;
use crate::text::ascii_lower;
use crate::text::lowered;
use crate::text::same_but_case;
use crate::text::trimmed;
use crate::truncate::truncated;
use vstd::prelude::*;

verus! {

// ---------------------------------------------------------------------------
// The catalogue
// ---------------------------------------------------------------------------
/// An entry is listed under the name in its frontmatter, or under the name of
/// its directory where the frontmatter has none, and with the description in its
/// frontmatter, or an empty one. It is left out only where that name is empty.
pub proof fn law_entry_is_listed_under_its_name(entry: EntryView, name: Seq<char>)
    requires
        frontmatter_value(entry.skill_md, "name"@) == Some(name) || (frontmatter_value(
            entry.skill_md,
            "name"@,
        ) is None && entry.dir_name == Some(name)),
    ensures
        name.len() == 0 ==> listed_as(entry) is None,
        name.len() > 0 ==> {
            &&& listed_as(entry) is Some
            &&& listed_as(entry)->Some_0.0 == name
            &&& match frontmatter_value(entry.skill_md, "description"@) {
                Some(description) => listed_as(entry)->Some_0.1 == description,
                None => listed_as(entry)->Some_0.1.len() == 0,
            }
        },
{
}

/// An entry with a name neither in its frontmatter nor for its directory is left
/// out.
pub proof fn law_nameless_entry_is_left_out(entry: EntryView)
    requires
        frontmatter_value(entry.skill_md, "name"@) is None,
        entry.dir_name is None,
    ensures
        listed_as(entry) is None,
{
}

/// The catalogue leaves out no entry that is listed: the catalogue of entries in
/// a row is that of the first ones followed by that of the others, and the
/// catalogue of one entry is its row, if it has one.
pub proof fn law_catalogue_is_complete(a: Seq<EntryView>, b: Seq<EntryView>, entry: EntryView)
    ensures
        catalogue_of(a + b) == catalogue_of(a) + catalogue_of(b),
        listed_as(entry) matches Some(row) ==> catalogue_of(seq![entry]) == seq![row],
        listed_as(entry) is None ==> catalogue_of(seq![entry]).len() == 0,
        catalogue_of(Seq::<EntryView>::empty()).len() == 0,
    decreases b.len(),
{
    let one = seq![entry];
    assert(one.drop_last() =~= Seq::<EntryView>::empty());
    assert(catalogue_of(one.drop_last()).len() == 0);
    if listed_as(entry) is Some {
        assert(catalogue_of(one) =~= seq![listed_as(entry)->Some_0]);
    }
    if b.len() == 0 {
        assert(a + b =~= a);
        assert(catalogue_of(a) + catalogue_of(b) =~= catalogue_of(a));
    } else {
        law_catalogue_is_complete(a, b.drop_last(), entry);
        assert((a + b).drop_last() =~= a + b.drop_last());
        assert((a + b).last() == b.last());
        assert(catalogue_of(a + b) =~= catalogue_of(a) + catalogue_of(b));
    }
}

/// Where every entry is listed there is a row for each of them, in its place.
pub proof fn law_every_entry_has_its_row(entries: Seq<EntryView>)
    requires
        forall|i: int| 0 <= i < entries.len() ==> listed_as(#[trigger] entries[i]) is Some,
    ensures
        catalogue_of(entries).len() == entries.len(),
        forall|i: int|
            0 <= i < entries.len() ==> listed_as(entries[i]) == Some(
                #[trigger] catalogue_of(entries)[i],
            ),
    decreases entries.len(),
{
    if entries.len() > 0 {
        let front = entries.drop_last();
        assert forall|i: int| 0 <= i < front.len() implies listed_as(
            #[trigger] front[i],
        ) is Some by {
            assert(front[i] == entries[i]);
        }
        law_every_entry_has_its_row(front);
        assert(listed_as(entries[entries.len() - 1]) is Some);
        assert forall|i: int| 0 <= i < entries.len() implies listed_as(entries[i]) == Some(
            #[trigger] catalogue_of(entries)[i],
        ) by {
            if i < front.len() {
                assert(catalogue_of(entries)[i] == catalogue_of(front)[i]);
                assert(front[i] == entries[i]);
            }
        }
    }
}

// ---------------------------------------------------------------------------
// The question
// ---------------------------------------------------------------------------
/// The model is shown every skill of the catalogue on a line of its own, with
/// its name and its description, or is told that there is none.
pub proof fn law_every_skill_is_shown(
    catalogue: Seq<(Seq<char>, Seq<char>)>,
    rows: Seq<Seq<char>>,
)
    requires
        rows.len() == catalogue.len(),
        forall|i: int|
            0 <= i < catalogue.len() ==> rows[i] == "- "@ + (#[trigger] catalogue[i]).0 + ": "@
                + catalogue[i].1,
    ensures
        catalogue.len() == 0 ==> catalogue_block(catalogue) == "EXISTING SKILLS: (none)"@,
        catalogue.len() > 0 ==> catalogue_block(catalogue) == joined(
            seq!["EXISTING SKILLS:"@] + rows,
            "\n"@,
        ),
        catalogue.len() > 0 && (forall|i: int| 0 <= i < rows.len() ==> fits_a_line(#[trigger] rows[i]))
            ==> lines_of(catalogue_block(catalogue)) == seq!["EXISTING SKILLS:"@] + rows,
{
    if catalogue.len() > 0 {
        reveal_strlit("EXISTING SKILLS:\n");
        reveal_strlit("EXISTING SKILLS:");
        reveal_strlit("\n");
        reveal_strlit("- ");
        let title = seq!["EXISTING SKILLS:"@];
        let all = title + rows;
        assert(catalogue_lines(catalogue) =~= rows);
        law_joining_puts_separators_between(title, rows, "EXISTING SKILLS:"@, "\n"@);
        assert(catalogue_block(catalogue) =~= joined(all, "\n"@));
        if forall|i: int| 0 <= i < rows.len() ==> fits_a_line(#[trigger] rows[i]) {
            assert forall|i: int| 0 <= i < all.len() implies !(#[trigger] all[i]).contains('\n')
                && without_return(all[i]) == all[i] by {
                if i > 0 {
                    assert(all[i] == rows[i - 1]);
                }
            }
            assert(all.last() == rows[rows.len() - 1]);
            assert(rows[rows.len() - 1].len() > 0) by {
                assert(catalogue[catalogue.len() - 1] == catalogue.last());
            }
            law_joined_lines_read_back(all);
        }
    }
}

/// The question is the catalogue, then the message and the reply under their
/// titles, each cut to its length. A message of at most 1500 characters and a
/// reply of at most 4000 stand there in full.
pub proof fn law_question_holds_the_turn(
    catalogue: Seq<(Seq<char>, Seq<char>)>,
    user_msg: Seq<char>,
    reply: Seq<char>,
)
    ensures
        ({
            let tail = "\n\nUSER MESSAGE:\n"@ + truncated(user_msg, 1500)
                + "\n\nASSISTANT REPLY:\n"@ + truncated(reply, 4000) + "\n\nDecide:"@;
            let question = skill_question(catalogue, user_msg, reply);
            &&& question.len() == catalogue_block(catalogue).len() + tail.len()
            &&& catalogue_block(catalogue).is_prefix_of(question)
            &&& tail.is_suffix_of(question)
        }),
        user_msg.len() <= 1500 ==> truncated(user_msg, 1500) == user_msg,
        reply.len() <= 4000 ==> truncated(reply, 4000) == reply,
{
    let block = catalogue_block(catalogue);
    let tail = "\n\nUSER MESSAGE:\n"@ + truncated(user_msg, 1500) + "\n\nASSISTANT REPLY:\n"@
        + truncated(reply, 4000) + "\n\nDecide:"@;
    let question = skill_question(catalogue, user_msg, reply);
    assert(question =~= block + tail);
    assert(question.subrange(0, block.len() as int) =~= block);
    assert(question.subrange(question.len() - tail.len(), question.len() as int) =~= tail);
}

// ---------------------------------------------------------------------------
// The judgement
// ---------------------------------------------------------------------------
/// Whether the names of all files are safe.
pub open spec fn all_safe(files: Seq<FileView>) -> bool {
    forall|i: int| 0 <= i < files.len() ==> safe_filename((#[trigger] files[i]).name)
}

/// What is acceptable is accepted: a reply that is neither blank nor `NONE`, can
/// be read and describes a skill with a valid name, a body that is not blank and
/// safe file names comes to exactly that skill. Each way to fall short of it has
/// its own reason, and nothing else is a reason to reject a reply.
pub proof fn law_acceptable_reply_is_accepted(raw: Seq<char>)
    ensures
        ({
            let text = trimmed(raw);
            let nothing = text.len() == 0 || same_but_case(text, "NONE"@);
            &&& nothing ==> judged(raw) == Err::<SkillView, StopReason>(StopReason::NothingToDo)
            &&& !nothing && !header_cuts(text) ==> judged(raw) == Err::<SkillView, StopReason>(
                StopReason::UnreadableReply,
            )
            &&& !nothing && header_cuts(text) ==> match response_of(text) {
                None => judged(raw) == Err::<SkillView, StopReason>(StopReason::UnparsedReply),
                Some(skill) => {
                    let sound = valid_skill_name(skill.name) && trimmed(skill.body).len() > 0;
                    &&& sound && all_safe(skill.files) ==> judged(raw) == Ok::<
                        SkillView,
                        StopReason,
                    >(skill)
                    &&& sound && !all_safe(skill.files) ==> judged(raw) == Err::<
                        SkillView,
                        StopReason,
                    >(StopReason::UnsafeFile)
                    &&& !sound ==> judged(raw) == Err::<SkillView, StopReason>(
                        StopReason::InvalidSkill,
                    )
                },
            }
        }),
{
}

/// A reply in the format that the model is told to use is accepted, with all
/// that it says, if its name is valid, its body is not blank and the names of
/// its files are safe.
pub proof fn law_reply_in_format_is_accepted(
    raw: Seq<char>,
    action: SkillAction,
    name: Seq<char>,
    description: Seq<char>,
    body: Seq<Seq<char>>,
    blocks: Seq<Block>,
)
    requires
        lines_of(trimmed(raw)) == reply_lines(action, name, description, body, blocks),
        forall|i: int| 0 <= i < body.len() ==> is_plain(#[trigger] body[i]),
        forall|i: int| 0 <= i < blocks.len() ==> (#[trigger] blocks[i]).well_formed(),
        valid_skill_name(trimmed(name)),
        trimmed(trimmed(joined(body, "\n"@))).len() > 0,
        forall|i: int|
            0 <= i < blocks.len() ==> safe_filename(trimmed((#[trigger] blocks[i]).name)),
    ensures
        judged(raw) matches Ok(skill) && {
            &&& skill.action == action
            &&& skill.name == trimmed(name)
            &&& skill.description == trimmed(description)
            &&& skill.body == trimmed(joined(body, "\n"@))
            &&& skill.files == block_files(blocks)
        },
{
    law_reply_in_format_is_read(trimmed(raw), action, name, description, body, blocks);
    law_acceptable_reply_is_accepted(raw);
    let files = block_files(blocks);
    assert forall|i: int| 0 <= i < files.len() implies safe_filename((#[trigger] files[i]).name) by {
        assert(safe_filename(trimmed(blocks[i].name)));
    }
    // Several lines are more than one word.
    let text = trimmed(raw);
    assert(lines_of(text).len() >= 4);
    if same_but_case(text, "NONE"@) {
        reveal_strlit("NONE");
        assert(lowered(text).len() == 4);
        assert forall|i: int| 0 <= i < text.len() implies text[i] != '\n' by {
            assert(lowered("NONE"@)[i] == ascii_lower("NONE"@[i]));
            assert(lowered(text)[i] == lowered("NONE"@)[i]);
        }
        lemma_lines_last(text);
    }
}

// ---------------------------------------------------------------------------
// The course
// ---------------------------------------------------------------------------
/// After a turn with a message and a reply that are not blank the existing
/// skills are listed, and then the model is asked about the turn, with the
/// catalogue of those skills and 45 seconds for its reply. A turn without a
/// message or without a reply is passed over.
pub proof fn law_turn_leads_to_the_question(turn: TurnView, entries: Seq<EntryView>)
    ensures
        trimmed(turn.user_msg).len() == 0 || trimmed(turn.assistant_reply).len() == 0 ==> wanted(
            seq![EvalEventView::Turn(turn)],
        ) == EvalCommandView::Stop(StopReason::BlankTurn),
        trimmed(turn.user_msg).len() > 0 && trimmed(turn.assistant_reply).len() > 0 ==> {
            &&& wanted(seq![EvalEventView::Turn(turn)]) == EvalCommandView::ListSkills
            &&& wanted(seq![EvalEventView::Turn(turn), EvalEventView::Listed(entries)]) == (
            EvalCommandView::Ask {
                system: SYSTEM_PROMPT@,
                question: skill_question(
                    catalogue_of(entries),
                    turn.user_msg,
                    turn.assistant_reply,
                ),
                timeout_secs: 45,
            })
        },
{
    let one = seq![EvalEventView::Turn(turn)];
    let two = seq![EvalEventView::Turn(turn), EvalEventView::Listed(entries)];
    assert(one.drop_last().len() == 0);
    assert(reached(one.drop_last()) == EvalStateView::Start);
    assert(two.drop_last() =~= one);
}

/// Whether the writes are those for these files: one for each, in its place,
/// with its name and content, and executable just when the name ends in `.sh`.
pub open spec fn writes_all(writes: Seq<FileWriteView>, files: Seq<FileView>) -> bool {
    &&& writes.len() == files.len()
    &&& forall|i: int|
        0 <= i < files.len() ==> (#[trigger] writes[i]).name == files[i].name && writes[i].content
            == files[i].content && (writes[i].executable <==> ".sh"@.is_suffix_of(files[i].name))
}

/// A new skill that is accepted is saved: its directory is looked up, created,
/// and filled with its `SKILL.md` under version `0.1.0` and with every file of
/// the reply; then its creation is told.
pub proof fn law_accepted_skill_is_saved(run: Run)
    requires
        run.asks_for(SkillAction::Save),
    ensures
        ({
            let skill = run.skill();
            let looked = run.events();
            let found = looked.push(EvalEventView::DirExists(false));
            &&& wanted(looked) == (EvalCommandView::CheckDir { name: skill.name })
            &&& wanted(found) == (EvalCommandView::CreateDir { name: skill.name })
            &&& wanted(run.saving()) matches EvalCommandView::Write { name, skill_md: text, files }
                && name == skill.name && text == skill_md(skill, run.turn.sender, "0.1.0"@)
                && writes_all(files, skill.files)
            &&& wanted(run.saving().push(EvalEventView::Written)) == (EvalCommandView::Notify {
                notice: created_notice(skill),
            })
        }),
{
    let looked = run.events();
    let found = looked.push(EvalEventView::DirExists(false));
    let done = run.saving().push(EvalEventView::Written);
    lemma_located(run);
    lemma_looked_up(run);
    assert(found.drop_last() =~= looked);
    assert(run.saving().drop_last() =~= found);
    assert(done.drop_last() =~= run.saving());
}

/// An existing skill is updated: its directory is looked up, its present
/// `SKILL.md` is read, and the new one is written under the version after that
/// one, with every file of the reply that is not called `SKILL.md`; then the
/// update is told.
pub proof fn law_accepted_skill_is_updated(run: Run, old: Seq<char>)
    requires
        run.asks_for(SkillAction::Update),
    ensures
        ({
            let skill = run.skill();
            let looked = run.events();
            let found = looked.push(EvalEventView::DirExists(true));
            &&& wanted(looked) == (EvalCommandView::CheckDir { name: skill.name })
            &&& wanted(found) == (EvalCommandView::ReadSkill { name: skill.name })
            &&& wanted(run.updating(old)) matches EvalCommandView::Write {
                name,
                skill_md: text,
                files,
            } && name == skill.name && text == skill_md(
                skill,
                run.turn.sender,
                next_version(old),
            ) && writes_all(files, helper_files(skill.files))
            &&& wanted(run.updating(old).push(EvalEventView::Written)) == (
            EvalCommandView::Notify { notice: updated_notice(skill, next_version(old)) })
        }),
{
    let looked = run.events();
    let found = looked.push(EvalEventView::DirExists(true));
    let done = run.updating(old).push(EvalEventView::Written);
    lemma_located(run);
    lemma_looked_up(run);
    assert(found.drop_last() =~= looked);
    assert(run.updating(old).drop_last() =~= found);
    assert(done.drop_last() =~= run.updating(old));
}

/// An existing skill whose `SKILL.md` cannot be read is updated to version
/// `0.1.1`.
pub proof fn law_unreadable_skill_is_updated(run: Run)
    requires
        run.asks_for(SkillAction::Update),
    ensures
        ({
            let skill = run.skill();
            let events = run.events().push(EvalEventView::DirExists(true)).push(
                EvalEventView::OldSkill(None),
            );
            &&& wanted(events) matches EvalCommandView::Write { name, skill_md: text, files }
                && name == skill.name && text == skill_md(skill, run.turn.sender, "0.1.1"@)
                && writes_all(files, helper_files(skill.files))
            &&& wanted(events.push(EvalEventView::Written)) == (EvalCommandView::Notify {
                notice: updated_notice(skill, "0.1.1"@),
            })
        }),
{
    let looked = run.events();
    let found = looked.push(EvalEventView::DirExists(true));
    let read = found.push(EvalEventView::OldSkill(None));
    lemma_located(run);
    assert(found.drop_last() =~= looked);
    assert(read.drop_last() =~= found);
    assert(read.push(EvalEventView::Written).drop_last() =~= read);
}

/// What is wanted after a reply that is accepted.
#[verifier::spinoff_prover]
proof fn lemma_looked_up(run: Run)
    requires
        run.asks_for(SkillAction::Save) || run.asks_for(SkillAction::Update),
    ensures
        wanted(run.events()) == (EvalCommandView::CheckDir { name: run.skill().name }),
{
    let events = run.events();
    let two = events.drop_last();
    let one = two.drop_last();
    assert(one.drop_last().len() == 0);
    assert(one.last() == events[0] && two.last() == events[1]);
    assert(reached(one.drop_last()) == EvalStateView::Start);
    assert(reached(one) == EvalStateView::Listing(run.turn));
    assert(reached(two) == (EvalStateView::Asking { sender: run.turn.sender }));
}

/// What is not to be done is not done: a reply that is rejected, a new skill
/// whose directory exists or cannot be created, and an update of a skill that
/// does not exist end the hook with their reasons.
pub proof fn law_refusals_have_their_reasons(
    sender: Seq<char>,
    raw: Seq<char>,
    skill: SkillView,
)
    ensures
        judged(raw) matches Err(reason) ==> eval_step(
            EvalStateView::Asking { sender },
            EvalEventView::Replied(raw),
        ).1 == EvalCommandView::Stop(reason),
        skill.action == SkillAction::Save ==> eval_step(
            EvalStateView::Locating { sender, skill },
            EvalEventView::DirExists(true),
        ).1 == EvalCommandView::Stop(StopReason::SkillExists),
        skill.action == SkillAction::Update ==> eval_step(
            EvalStateView::Locating { sender, skill },
            EvalEventView::DirExists(false),
        ).1 == EvalCommandView::Stop(StopReason::NoSuchSkill),
        eval_step(
            EvalStateView::Creating { sender, skill },
            EvalEventView::DirCreated(false),
        ).1 == EvalCommandView::Stop(StopReason::DirectoryFailed),
        eval_step(EvalStateView::Asking { sender }, EvalEventView::CallFailed).1
            == EvalCommandView::Stop(StopReason::CallFailed),
        eval_step(EvalStateView::Asking { sender }, EvalEventView::TimedOut).1
            == EvalCommandView::Stop(StopReason::TimedOut),
{
}

} // verus!
