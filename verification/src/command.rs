//! The chat commands that moderators and members send to the bot.
//!
//! A command names its target by a mention, the text the chat service puts
//! in a message for a user. Reading a mention is left to the chat service's
//! own library; what is done with the member named is decided here.

use vstd::prelude::*;
use vstd::utf8::is_ascii_chars;
use crate::record::PunishedUser;
use crate::state::{BotState, Ledger};

verus! {

/// What the bot answers to a command.
#[derive(Clone, Copy, Debug, PartialEq, Eq, Structural)]
pub enum CommandReply {
    /// The command named nobody: nothing is answered.
    Nothing,
    /// The target given is not a mention.
    BadTarget,
    /// A strike was taken away; the record is shown as it is now.
    StrikeRemoved(PunishedUser),
    /// There was no strike to take away.
    NoPits,
    /// The member's record.
    PitStats(PunishedUser),
    /// The member has no record.
    RecordNotFound,
}

/// The id that `serenity::utils::parse_mention` reads out of a mention, or
/// `None` where it reads none.
pub uninterp spec fn mention_id(text: Seq<char>) -> Option<u64>;

/// The member that a command's target names: the id read out of the
/// mention. Text with a character outside ASCII names nobody.
pub open spec fn target_of(text: Seq<char>) -> Option<u64> {
    if is_ascii_chars(text) {
        mention_id(text)
    } else {
        None
    }
}

/// Calls `serenity::utils::parse_mention`, which reads the id out of a
/// user, role or channel mention. Not proved: the result is taken to
/// depend on the text alone. The parser cuts the text at fixed byte
/// offsets and stops the program where a cut falls inside a character, so
/// only ASCII text is handed to it.
#[verifier::external_body]
fn parse_mention(text: &str) -> (id: Option<u64>)
    requires
        text.is_ascii(),
    ensures
        id == mention_id(text@),
{
    serenity::utils::parse_mention(text)
}

/// Reads the member that a command's target names.
pub fn mention_target(text: &str) -> (target: Option<u64>)
    ensures
        target == target_of(text@),
{
    if text.is_ascii() {
        parse_mention(text)
    } else {
        None
    }
}

/// What is answered when a strike is to be taken from `id`.
pub open spec fn removal_answer(ledger: Ledger, id: u64) -> CommandReply {
    match ledger.removal_reply(id) {
        Some(left) => CommandReply::StrikeRemoved(left),
        None => CommandReply::NoPits,
    }
}

/// What is answered when `id`'s record is asked for.
pub open spec fn stats_answer(ledger: Ledger, id: u64) -> CommandReply {
    match ledger.record(id) {
        Some(user) => CommandReply::PitStats(user),
        None => CommandReply::RecordNotFound,
    }
}

/// Takes one strike from `id` and says what to answer.
pub fn removepit_for(state: &mut BotState, id: u64) -> (reply: CommandReply)
    ensures
        final(state)@ == old(state)@.after_removal(id),
        final(state)@.wf(),
        reply == removal_answer(old(state)@, id),
{
    match state.remove_one_strike(id) {
        Some(left) => CommandReply::StrikeRemoved(left),
        None => CommandReply::NoPits,
    }
}

/// Looks up `id`'s record and says what to answer.
pub fn pitcount_for(state: &BotState, id: u64) -> (reply: CommandReply)
    ensures
        reply == stats_answer(state@, id),
{
    match state.get(id) {
        Some(user) => CommandReply::PitStats(user),
        None => CommandReply::RecordNotFound,
    }
}

/// The command by which a moderator takes one strike from a member.
/// `arg` is the command's first argument, if it has one. Without an
/// argument nothing happens; with one that names nobody, nothing changes.
pub fn removepit(state: &mut BotState, arg: Option<&str>) -> (reply: CommandReply)
    ensures
        final(state)@.wf(),
        match arg {
            None => reply == CommandReply::Nothing && final(state)@ == old(state)@,
            Some(text) => match target_of(text@) {
                None => reply == CommandReply::BadTarget && final(state)@ == old(state)@,
                Some(id) => reply == removal_answer(old(state)@, id) && final(state)@ == old(
                    state,
                )@.after_removal(id),
            },
        },
{
    match arg {
        None => {
            proof {
                use_type_invariant(&*state);
            }
            CommandReply::Nothing
        },
        Some(text) => match mention_target(text) {
            None => {
                proof {
                    use_type_invariant(&*state);
                }
                CommandReply::BadTarget
            },
            Some(id) => removepit_for(state, id),
        },
    }
}

/// The command by which a moderator asks for a member's record. `arg` is
/// the command's first argument, if it has one.
pub fn pitcount(state: &BotState, arg: Option<&str>) -> (reply: CommandReply)
    ensures
        reply == match arg {
            None => CommandReply::Nothing,
            Some(text) => match target_of(text@) {
                None => CommandReply::BadTarget,
                Some(id) => stats_answer(state@, id),
            },
        },
{
    match arg {
        None => CommandReply::Nothing,
        Some(text) => match mention_target(text) {
            None => CommandReply::BadTarget,
            Some(id) => pitcount_for(state, id),
        },
    }
}

/// The command by which a member asks for the member's own record.
pub fn mypits(state: &BotState, author: u64) -> (reply: CommandReply)
    ensures
        reply == stats_answer(state@, author),
{
    pitcount_for(state, author)
}

} // verus!
