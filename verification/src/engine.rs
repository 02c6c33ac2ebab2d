//! The migration of one room: which request goes to the room next, given
//! what the room answered so far, and how the room's migration ends.
//!
//! The engine talks to no room itself. It hands out one `Request` at a time;
//! whoever holds the connection carries the request out and hands back the
//! room's `Reply`. Every request is made at most once: a failure ends the
//! migration of this room and of no other.

use vstd::prelude::*;
use crate::outcome::Outcome;
use crate::power_levels::{PowerLevels, PowerLevelsView};

verus! {

/// What is asked of the room.
#[derive(Clone, Copy, Debug, PartialEq, Eq, Structural)]
pub enum Request {
    /// Read the room's power-levels state.
    ReadPowerLevels,
    /// Tell whether the new account is a member of the room.
    CheckMembership,
    /// Invite the new account.
    Invite,
    /// Give the new account this power level.
    SetPowerLevel { level: i64 },
    /// Make the acting account leave the room.
    Leave,
}

/// What the room answered.
#[derive(Clone, Debug, PartialEq, Eq)]
pub enum Reply {
    /// The power-levels state, or `None` where the room has none.
    PowerLevels(Option<PowerLevels>),
    /// Whether the new account is a member already.
    Membership { already_member: bool },
    /// The invitation went out.
    Invited,
    /// The invitation failed; whether the room is public, and its canonical
    /// alias if it has one.
    InviteFailed { public: bool, alias: Option<String> },
    /// The new account has its power level.
    PowerLevelSet,
    /// The power level could not be set.
    PowerLevelRefused,
    /// The acting account has left.
    Left,
    /// Leaving failed.
    LeaveFailed,
}

/// What a `Reply` stands for.
pub enum ReplyView {
    PowerLevels(Option<PowerLevelsView>),
    Membership { already_member: bool },
    Invited,
    InviteFailed { public: bool, alias: Option<Seq<char>> },
    PowerLevelSet,
    PowerLevelRefused,
    Left,
    LeaveFailed,
}

impl View for Reply {
    type V = ReplyView;

    open spec fn view(&self) -> ReplyView {
        match self {
            Reply::PowerLevels(Some(levels)) => ReplyView::PowerLevels(Some(levels@)),
            Reply::PowerLevels(None) => ReplyView::PowerLevels(None),
            Reply::Membership { already_member } => ReplyView::Membership {
                already_member: *already_member,
            },
            Reply::Invited => ReplyView::Invited,
            Reply::InviteFailed { public, alias: Some(alias) } => ReplyView::InviteFailed {
                public: *public,
                alias: Some(alias@),
            },
            Reply::InviteFailed { public, alias: None } => ReplyView::InviteFailed {
                public: *public,
                alias: None,
            },
            Reply::PowerLevelSet => ReplyView::PowerLevelSet,
            Reply::PowerLevelRefused => ReplyView::PowerLevelRefused,
            Reply::Left => ReplyView::Left,
            Reply::LeaveFailed => ReplyView::LeaveFailed,
        }
    }
}

/// Why the migration of a room was given up without an outcome.
#[derive(Clone, Copy, Debug, PartialEq, Eq, Structural)]
pub enum Fatal {
    /// The room has no power-levels state, which every joined room has.
    PowerLevelUnreadable,
    /// The reply answers no request that is open.
    UnexpectedReply,
}

/// How far the migration of the room has come.
#[derive(Clone, Copy, Debug, PartialEq, Eq, Structural)]
pub enum Phase {
    /// The power levels were asked for.
    ReadingPowerLevels,
    /// The acting account's level is known; the membership was asked for.
    CheckingMembership { level: i64 },
    /// The invitation was asked for.
    Inviting { level: i64 },
    /// The new account is in the room or invited; its level was asked for.
    SettingPowerLevel,
    /// The power level is settled; leaving was asked for.
    Leaving,
    /// The room is done, with this outcome.
    Done(Outcome),
    /// The migration was given up.
    Failed(Fatal),
}

/// What happens next.
#[derive(Clone, Debug, PartialEq, Eq)]
pub enum Step {
    /// This request goes to the room.
    Ask(Request),
    /// The room is done. Where a public room with a known alias refused the
    /// invitation, `join_url` is the address under which the new account can
    /// join by itself.
    Finish { outcome: Outcome, join_url: Option<String> },
    /// The migration of this room is given up.
    Fail(Fatal),
}

/// What a `Step` stands for.
pub enum StepView {
    Ask(Request),
    Finish { outcome: Outcome, join_url: Option<Seq<char>> },
    Fail(Fatal),
}

impl View for Step {
    type V = StepView;

    open spec fn view(&self) -> StepView {
        match self {
            Step::Ask(request) => StepView::Ask(*request),
            Step::Finish { outcome, join_url: Some(url) } => StepView::Finish {
                outcome: *outcome,
                join_url: Some(url@),
            },
            Step::Finish { outcome, join_url: None } => StepView::Finish {
                outcome: *outcome,
                join_url: None,
            },
            Step::Fail(fatal) => StepView::Fail(*fatal),
        }
    }
}

/// The migration of one room in progress.
#[derive(Clone, Debug, PartialEq, Eq)]
pub struct Migration {
    acting_user: String,
    leave_after: bool,
    phase: Phase,
}

/// What a `Migration` stands for.
pub struct MigrationView {
    pub acting_user: Seq<char>,
    pub leave_after: bool,
    pub phase: Phase,
}

impl View for Migration {
    type V = MigrationView;

    closed spec fn view(&self) -> MigrationView {
        MigrationView {
            acting_user: self.acting_user@,
            leave_after: self.leave_after,
            phase: self.phase,
        }
    }
}

/// The address under which anybody can join a public room by its alias.
pub open spec fn join_url_of(alias: Seq<char>) -> Seq<char> {
    "https://matrix.to/#/"@ + alias
}

/// The outcome of a refused invitation.
pub open spec fn invite_failure(public: bool, alias_known: bool) -> Outcome {
    if public {
        if alias_known {
            Outcome::InviteErrorPublicRoomAliasKnown
        } else {
            Outcome::InviteErrorPublicRoomAliasUnknown
        }
    } else {
        Outcome::InviteError
    }
}

/// What follows once the power level is settled: leaving, if it was asked
/// for, or the end.
pub open spec fn after_power_level(leave_after: bool) -> (Phase, StepView) {
    if leave_after {
        (Phase::Leaving, StepView::Ask(Request::Leave))
    } else {
        (
            Phase::Done(Outcome::CanLeave),
            StepView::Finish { outcome: Outcome::CanLeave, join_url: None },
        )
    }
}

/// What follows once the new account is in the room or invited: its power
/// level is set to the acting account's, but only a level above 0 is handed on.
pub open spec fn after_invite(level: i64, leave_after: bool) -> (Phase, StepView) {
    if level > 0 {
        (Phase::SettingPowerLevel, StepView::Ask(Request::SetPowerLevel { level }))
    } else {
        after_power_level(leave_after)
    }
}

/// The end of a room with the given outcome.
pub open spec fn done(outcome: Outcome) -> (Phase, StepView) {
    (Phase::Done(outcome), StepView::Finish { outcome, join_url: None })
}

/// The phase after a reply, and the step that the reply leads to.
pub open spec fn react(m: MigrationView, reply: ReplyView) -> (Phase, StepView) {
    match (m.phase, reply) {
        (Phase::ReadingPowerLevels, ReplyView::PowerLevels(Some(levels))) => (
            Phase::CheckingMembership { level: levels.for_user(m.acting_user) },
            StepView::Ask(Request::CheckMembership),
        ),
        (Phase::ReadingPowerLevels, ReplyView::PowerLevels(None)) => (
            Phase::Failed(Fatal::PowerLevelUnreadable),
            StepView::Fail(Fatal::PowerLevelUnreadable),
        ),
        (Phase::CheckingMembership { level }, ReplyView::Membership { already_member }) => {
            if already_member {
                after_invite(level, m.leave_after)
            } else {
                (Phase::Inviting { level }, StepView::Ask(Request::Invite))
            }
        },
        (Phase::Inviting { level }, ReplyView::Invited) => after_invite(level, m.leave_after),
        (Phase::Inviting { level }, ReplyView::InviteFailed { public, alias }) => (
            Phase::Done(invite_failure(public, alias is Some)),
            StepView::Finish {
                outcome: invite_failure(public, alias is Some),
                join_url: if public && alias is Some {
                    Some(join_url_of(alias->0))
                } else {
                    None
                },
            },
        ),
        (Phase::SettingPowerLevel, ReplyView::PowerLevelSet) => after_power_level(m.leave_after),
        (Phase::SettingPowerLevel, ReplyView::PowerLevelRefused) => done(
            Outcome::PowerLevelError,
        ),
        (Phase::Leaving, ReplyView::Left) => done(Outcome::Left),
        (Phase::Leaving, ReplyView::LeaveFailed) => done(Outcome::LeaveError),
        (Phase::Done(outcome), _) => (Phase::Done(outcome), StepView::Fail(Fatal::UnexpectedReply)),
        (Phase::Failed(fatal), _) => (Phase::Failed(fatal), StepView::Fail(Fatal::UnexpectedReply)),
        _ => (Phase::Failed(Fatal::UnexpectedReply), StepView::Fail(Fatal::UnexpectedReply)),
    }
}

/// The migration after a reply.
pub open spec fn advanced(m: MigrationView, reply: ReplyView) -> MigrationView {
    MigrationView { acting_user: m.acting_user, leave_after: m.leave_after, phase: react(m, reply).0 }
}

/// The address under which anybody can join a public room by its alias.
pub fn join_url(alias: &str) -> (url: String)
    ensures
        url@ == join_url_of(alias@),
{
    let mut url: String = "https://matrix.to/#/".to_owned();
    url.append(alias);
    url
}

fn exec_after_power_level(leave_after: bool) -> (r: (Phase, Step))
    ensures
        (r.0, r.1@) == after_power_level(leave_after),
{
    if leave_after {
        (Phase::Leaving, Step::Ask(Request::Leave))
    } else {
        (Phase::Done(Outcome::CanLeave), Step::Finish { outcome: Outcome::CanLeave, join_url: None })
    }
}

fn exec_after_invite(level: i64, leave_after: bool) -> (r: (Phase, Step))
    ensures
        (r.0, r.1@) == after_invite(level, leave_after),
{
    if level > 0 {
        (Phase::SettingPowerLevel, Step::Ask(Request::SetPowerLevel { level }))
    } else {
        exec_after_power_level(leave_after)
    }
}

fn exec_done(outcome: Outcome) -> (r: (Phase, Step))
    ensures
        (r.0, r.1@) == done(outcome),
{
    (Phase::Done(outcome), Step::Finish { outcome, join_url: None })
}

fn unexpected(phase: Phase) -> (r: (Phase, Step))
    ensures
        r.0 == match phase {
            Phase::Done(outcome) => Phase::Done(outcome),
            Phase::Failed(fatal) => Phase::Failed(fatal),
            _ => Phase::Failed(Fatal::UnexpectedReply),
        },
        r.1@ == StepView::Fail(Fatal::UnexpectedReply),
{
    let next = match phase {
        Phase::Done(outcome) => Phase::Done(outcome),
        Phase::Failed(fatal) => Phase::Failed(fatal),
        _ => Phase::Failed(Fatal::UnexpectedReply),
    };
    (next, Step::Fail(Fatal::UnexpectedReply))
}

impl Migration {
    /// Starts the migration of a room by `acting_user`, who leaves the room
    /// at the end if `leave_after` is set. The first request is for the
    /// room's power levels.
    pub fn begin(acting_user: &str, leave_after: bool) -> (r: (Migration, Request))
        ensures
            r.0@ == (MigrationView {
                acting_user: acting_user@,
                leave_after,
                phase: Phase::ReadingPowerLevels,
            }),
            r.1 == Request::ReadPowerLevels,
    {
        (
            Migration {
                acting_user: acting_user.to_owned(),
                leave_after,
                phase: Phase::ReadingPowerLevels,
            },
            Request::ReadPowerLevels,
        )
    }

    /// How far the migration has come.
    pub fn phase(&self) -> (phase: Phase)
        ensures
            phase == self@.phase,
    {
        self.phase
    }

    /// Whether the acting account leaves the room at the end.
    pub fn leave_after(&self) -> (b: bool)
        ensures
            b == self@.leave_after,
    {
        self.leave_after
    }

    /// The outcome, once the room is done.
    pub fn outcome(&self) -> (outcome: Option<Outcome>)
        ensures
            outcome == match self@.phase {
                Phase::Done(o) => Some(o),
                _ => None::<Outcome>,
            },
    {
        match self.phase {
            Phase::Done(o) => Some(o),
            _ => None,
        }
    }

    /// Takes the room's reply to the open request and says what happens next.
    /// A reply that answers no open request ends the migration, except that a
    /// room that is done stays done.
    pub fn advance(&mut self, reply: Reply) -> (step: Step)
        ensures
            final(self)@ == advanced(old(self)@, reply@),
            step@ == react(old(self)@, reply@).1,
    {
        let leave_after = self.leave_after;
        let (phase, step) = match (self.phase, reply) {
            (Phase::ReadingPowerLevels, Reply::PowerLevels(Some(levels))) => {
                let level = levels.for_user(self.acting_user.as_str());
                (Phase::CheckingMembership { level }, Step::Ask(Request::CheckMembership))
            },
            (Phase::ReadingPowerLevels, Reply::PowerLevels(None)) => (
                Phase::Failed(Fatal::PowerLevelUnreadable),
                Step::Fail(Fatal::PowerLevelUnreadable),
            ),
            (Phase::CheckingMembership { level }, Reply::Membership { already_member }) => {
                if already_member {
                    exec_after_invite(level, leave_after)
                } else {
                    (Phase::Inviting { level }, Step::Ask(Request::Invite))
                }
            },
            (Phase::Inviting { level }, Reply::Invited) => exec_after_invite(level, leave_after),
            (Phase::Inviting { level }, Reply::InviteFailed { public, alias }) => {
                if public {
                    match alias {
                        Some(alias) => (
                            Phase::Done(Outcome::InviteErrorPublicRoomAliasKnown),
                            Step::Finish {
                                outcome: Outcome::InviteErrorPublicRoomAliasKnown,
                                join_url: Some(join_url(alias.as_str())),
                            },
                        ),
                        None => exec_done(Outcome::InviteErrorPublicRoomAliasUnknown),
                    }
                } else {
                    exec_done(Outcome::InviteError)
                }
            },
            (Phase::SettingPowerLevel, Reply::PowerLevelSet) => exec_after_power_level(
                leave_after,
            ),
            (Phase::SettingPowerLevel, Reply::PowerLevelRefused) => exec_done(
                Outcome::PowerLevelError,
            ),
            (Phase::Leaving, Reply::Left) => exec_done(Outcome::Left),
            (Phase::Leaving, Reply::LeaveFailed) => exec_done(Outcome::LeaveError),
            (phase, _) => unexpected(phase),
        };
        self.phase = phase;
        step
    }
}

} // verus!
