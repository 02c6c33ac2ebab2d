//! What the engine does to a room, from start to end.
//!
//! A room is taken here as the answers that it would give: every request is
//! made at most once, so any migration is the migration of such a room. The
//! laws below say which requests the engine makes of it, in which order, and
//! how the migration ends.

use vstd::prelude::*;
use crate::engine::{
    advanced, invite_failure, join_url_of, react, Fatal, MigrationView, Phase, ReplyView,
    Request, StepView,
};
use crate::outcome::Outcome;
use crate::power_levels::PowerLevelsView;

verus! {

/// A room, as it answers.
pub struct Room {
    /// Its power-levels state, if it has one.
    pub levels: Option<PowerLevelsView>,
    /// Whether the new account is a member already.
    pub member: bool,
    /// Whether an invitation fails.
    pub invite_fails: bool,
    /// Whether the room is public.
    pub public: bool,
    /// Its canonical alias, if it has one.
    pub alias: Option<Seq<char>>,
    /// Whether setting a power level fails.
    pub level_refused: bool,
    /// Whether leaving fails.
    pub leave_fails: bool,
}

/// The room's answer to a request.
pub open spec fn answer(room: Room, request: Request) -> ReplyView {
    match request {
        Request::ReadPowerLevels => ReplyView::PowerLevels(room.levels),
        Request::CheckMembership => ReplyView::Membership { already_member: room.member },
        Request::Invite => if room.invite_fails {
            ReplyView::InviteFailed { public: room.public, alias: room.alias }
        } else {
            ReplyView::Invited
        },
        Request::SetPowerLevel { .. } => if room.level_refused {
            ReplyView::PowerLevelRefused
        } else {
            ReplyView::PowerLevelSet
        },
        Request::Leave => if room.leave_fails {
            ReplyView::LeaveFailed
        } else {
            ReplyView::Left
        },
    }
}

/// The migration as it starts.
pub open spec fn begun(acting_user: Seq<char>, leave_after: bool) -> MigrationView {
    MigrationView { acting_user, leave_after, phase: Phase::ReadingPowerLevels }
}

/// Carries `request` to the room, hands the answer to the engine, and goes on
/// with what the engine asks next, for at most `rounds` requests. Gives the
/// requests that were made, `asked` first, and the step that ended it.
pub open spec fn play(
    m: MigrationView,
    asked: Seq<Request>,
    request: Request,
    room: Room,
    rounds: nat,
) -> (Seq<Request>, StepView)
    decreases rounds,
{
    let reply = answer(room, request);
    let step = react(m, reply).1;
    match step {
        StepView::Ask(next) => if rounds == 0 {
            (asked.push(request), step)
        } else {
            play(advanced(m, reply), asked.push(request), next, room, (rounds - 1) as nat)
        },
        _ => (asked.push(request), step),
    }
}

/// The whole migration of a room: the requests made of it, in order, and the
/// step that ends it. No migration makes more than five requests.
pub open spec fn migrate(acting_user: Seq<char>, leave_after: bool, room: Room) -> (
    Seq<Request>,
    StepView,
) {
    play(begun(acting_user, leave_after), Seq::<Request>::empty(), Request::ReadPowerLevels, room, 4)
}

/// The power level of the acting account in the room.
pub open spec fn acting_level(acting_user: Seq<char>, room: Room) -> i64
    recommends
        room.levels is Some,
{
    room.levels->0.for_user(acting_user)
}

/// Whether the new account gets into the room: it is a member already or
/// the invitation goes out.
pub open spec fn gets_in(room: Room) -> bool {
    room.member || !room.invite_fails
}

/// How the migration of a room is to end.
pub open spec fn expected_end(acting_user: Seq<char>, leave_after: bool, room: Room) -> StepView {
    if room.levels is None {
        StepView::Fail(Fatal::PowerLevelUnreadable)
    } else if !gets_in(room) {
        StepView::Finish {
            outcome: invite_failure(room.public, room.alias is Some),
            join_url: if room.public && room.alias is Some {
                Some(join_url_of(room.alias->0))
            } else {
                None
            },
        }
    } else if acting_level(acting_user, room) > 0 && room.level_refused {
        StepView::Finish { outcome: Outcome::PowerLevelError, join_url: None }
    } else if !leave_after {
        StepView::Finish { outcome: Outcome::CanLeave, join_url: None }
    } else if room.leave_fails {
        StepView::Finish { outcome: Outcome::LeaveError, join_url: None }
    } else {
        StepView::Finish { outcome: Outcome::Left, join_url: None }
    }
}

/// The requests that are to be made of a room, in order.
pub open spec fn expected_requests(acting_user: Seq<char>, leave_after: bool, room: Room) -> Seq<
    Request,
> {
    let level = acting_level(acting_user, room);
    let read = seq![Request::ReadPowerLevels];
    if room.levels is None {
        read
    } else {
        let checked = read.push(Request::CheckMembership);
        let invited = if room.member {
            checked
        } else {
            checked.push(Request::Invite)
        };
        if !gets_in(room) {
            invited
        } else {
            let levelled = if level > 0 {
                invited.push(Request::SetPowerLevel { level })
            } else {
                invited
            };
            if level > 0 && room.level_refused {
                levelled
            } else if leave_after {
                levelled.push(Request::Leave)
            } else {
                levelled
            }
        }
    }
}

/// The engine does what is expected of it: of every room it makes the
/// expected requests in the expected order, and ends as expected.
pub proof fn lemma_migrate_as_expected(acting_user: Seq<char>, leave_after: bool, room: Room)
    ensures
        migrate(acting_user, leave_after, room).0 == expected_requests(
            acting_user,
            leave_after,
            room,
        ),
        migrate(acting_user, leave_after, room).1 == expected_end(acting_user, leave_after, room),
{
    reveal_with_fuel(play, 5);
    assert(Seq::<Request>::empty().push(Request::ReadPowerLevels) =~= seq![
        Request::ReadPowerLevels,
    ]);
}

/// The new account is never invited into a room of which it is a member
/// already.
pub proof fn lemma_member_is_not_invited(acting_user: Seq<char>, leave_after: bool, room: Room)
    requires
        room.member,
    ensures
        !migrate(acting_user, leave_after, room).0.contains(Request::Invite),
{
    lemma_migrate_as_expected(acting_user, leave_after, room);
    let requests = expected_requests(acting_user, leave_after, room);
    assert forall|i: int| 0 <= i < requests.len() implies requests[i] != Request::Invite by {}
}

/// Where the acting account has a power level above 0 and the new account
/// gets into the room, the new account is given exactly that level, and no
/// request to leave is made before that one.
pub proof fn lemma_level_set_before_leave(acting_user: Seq<char>, leave_after: bool, room: Room)
    requires
        room.levels is Some,
        acting_level(acting_user, room) > 0,
        gets_in(room),
    ensures
        exists|i: int|
            0 <= i < migrate(acting_user, leave_after, room).0.len() && #[trigger] migrate(
                acting_user,
                leave_after,
                room,
            ).0[i] == (Request::SetPowerLevel { level: acting_level(acting_user, room) })
                && forall|j: int|
                0 <= j < migrate(acting_user, leave_after, room).0.len() && #[trigger] migrate(
                    acting_user,
                    leave_after,
                    room,
                ).0[j] == Request::Leave ==> i < j,
        forall|j: int|
            0 <= j < migrate(acting_user, leave_after, room).0.len() ==> (#[trigger] migrate(
                acting_user,
                leave_after,
                room,
            ).0[j] matches Request::SetPowerLevel { level } ==> level == acting_level(
                acting_user,
                room,
            )),
{
    lemma_migrate_as_expected(acting_user, leave_after, room);
    let requests = migrate(acting_user, leave_after, room).0;
    let i: int = if room.member {
        2
    } else {
        3
    };
    assert(requests[i] == (Request::SetPowerLevel { level: acting_level(acting_user, room) }));
}

/// The acting account stays in a room that it was not asked to leave: no
/// request to leave is made.
pub proof fn lemma_stays_without_leave(acting_user: Seq<char>, room: Room)
    ensures
        !migrate(acting_user, false, room).0.contains(Request::Leave),
{
    lemma_migrate_as_expected(acting_user, false, room);
    let requests = expected_requests(acting_user, false, room);
    assert forall|i: int| 0 <= i < requests.len() implies requests[i] != Request::Leave by {}
}

/// A level that is not above 0 is not handed on.
pub proof fn lemma_low_level_is_not_set(acting_user: Seq<char>, leave_after: bool, room: Room)
    requires
        room.levels is Some,
        acting_level(acting_user, room) <= 0,
    ensures
        forall|j: int|
            0 <= j < migrate(acting_user, leave_after, room).0.len() ==> !(#[trigger] migrate(
                acting_user,
                leave_after,
                room,
            ).0[j] is SetPowerLevel),
{
    lemma_migrate_as_expected(acting_user, leave_after, room);
}

} // verus!
