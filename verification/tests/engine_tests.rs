use room_migration::engine::{join_url, Fatal, Migration, Phase, Reply, Request, Step};
use room_migration::outcome::Outcome;
use room_migration::power_levels::{PowerLevels, UserLevel};

const ACTING: &str = "@old:example.org";

fn levels(level_of_acting: i64) -> Reply {
    Reply::PowerLevels(Some(PowerLevels {
        users: vec![
            UserLevel { user: "@other:example.org".to_string(), level: 100 },
            UserLevel { user: ACTING.to_string(), level: level_of_acting },
        ],
        users_default: 0,
    }))
}

fn finish(outcome: Outcome) -> Step {
    Step::Finish { outcome, join_url: None }
}

/// Feeds the replies in order and gives every step that came back.
fn steps(leave_after: bool, replies: Vec<Reply>) -> (Migration, Vec<Step>) {
    let (mut migration, first) = Migration::begin(ACTING, leave_after);
    assert_eq!(first, Request::ReadPowerLevels);
    let mut out = Vec::new();
    for reply in replies {
        out.push(migration.advance(reply));
    }
    (migration, out)
}

#[test]
fn outcome_codes() {
    assert_eq!(
        Outcome::InviteErrorPublicRoomAliasKnown.as_str(),
        "INVITE_ERROR_PUBLIC_ROOM_ALIAS_KNOWN"
    );
    assert_eq!(
        Outcome::InviteErrorPublicRoomAliasUnknown.as_str(),
        "INVITE_ERROR_PUBLIC_ROOM_ALIAS_UNKNOWN"
    );
    assert_eq!(Outcome::InviteError.as_str(), "INVITE_ERROR");
    assert_eq!(Outcome::PowerLevelError.as_str(), "POWER_LEVEL_ERROR");
    assert_eq!(Outcome::LeaveError.as_str(), "LEAVE_ERROR");
    assert_eq!(Outcome::Left.as_str(), "LEFT");
    assert_eq!(Outcome::CanLeave.as_str(), "CAN_LEAVE");
    assert_eq!(Outcome::RoomIdInvalid.as_str(), "ROOMID_INVALID");
    assert_eq!(Outcome::RoomNotFound.as_str(), "ROOM_NOT_FOUND");
}

#[test]
fn for_user_takes_the_named_level_or_the_default() {
    let levels = PowerLevels {
        users: vec![
            UserLevel { user: "@a:x.org".to_string(), level: 50 },
            UserLevel { user: "@b:x.org".to_string(), level: -3 },
            UserLevel { user: "@a:x.org".to_string(), level: 7 },
        ],
        users_default: 10,
    };
    assert_eq!(levels.for_user("@a:x.org"), 50);
    assert_eq!(levels.for_user("@b:x.org"), -3);
    assert_eq!(levels.for_user("@c:x.org"), 10);
    assert_eq!(PowerLevels { users: vec![], users_default: -1 }.for_user("@a:x.org"), -1);
}

#[test]
fn full_migration_with_leave() {
    let (migration, got) = steps(
        true,
        vec![
            levels(50),
            Reply::Membership { already_member: false },
            Reply::Invited,
            Reply::PowerLevelSet,
            Reply::Left,
        ],
    );
    assert_eq!(
        got,
        vec![
            Step::Ask(Request::CheckMembership),
            Step::Ask(Request::Invite),
            Step::Ask(Request::SetPowerLevel { level: 50 }),
            Step::Ask(Request::Leave),
            finish(Outcome::Left),
        ]
    );
    assert_eq!(migration.outcome(), Some(Outcome::Left));
    assert_eq!(migration.phase(), Phase::Done(Outcome::Left));
    assert!(migration.leave_after());
}

#[test]
fn full_migration_without_leave_never_asks_to_leave() {
    let (migration, got) = steps(
        false,
        vec![
            levels(100),
            Reply::Membership { already_member: false },
            Reply::Invited,
            Reply::PowerLevelSet,
        ],
    );
    assert_eq!(
        got,
        vec![
            Step::Ask(Request::CheckMembership),
            Step::Ask(Request::Invite),
            Step::Ask(Request::SetPowerLevel { level: 100 }),
            finish(Outcome::CanLeave),
        ]
    );
    assert!(!got.contains(&Step::Ask(Request::Leave)));
    assert_eq!(migration.outcome(), Some(Outcome::CanLeave));
}

#[test]
fn member_is_not_invited_again() {
    let (_, got) = steps(
        true,
        vec![levels(50), Reply::Membership { already_member: true }, Reply::PowerLevelSet, Reply::Left],
    );
    assert_eq!(
        got,
        vec![
            Step::Ask(Request::CheckMembership),
            Step::Ask(Request::SetPowerLevel { level: 50 }),
            Step::Ask(Request::Leave),
            finish(Outcome::Left),
        ]
    );
    assert!(!got.contains(&Step::Ask(Request::Invite)));
}

#[test]
fn level_that_is_not_positive_is_not_handed_on() {
    let (_, got) = steps(true, vec![levels(0), Reply::Membership { already_member: true }, Reply::Left]);
    assert_eq!(
        got,
        vec![Step::Ask(Request::CheckMembership), Step::Ask(Request::Leave), finish(Outcome::Left)]
    );
    let (_, got) = steps(false, vec![levels(-10), Reply::Membership { already_member: false }, Reply::Invited]);
    assert_eq!(
        got,
        vec![Step::Ask(Request::CheckMembership), Step::Ask(Request::Invite), finish(Outcome::CanLeave)]
    );
}

#[test]
fn default_level_counts_for_the_acting_account() {
    let reply = Reply::PowerLevels(Some(PowerLevels { users: vec![], users_default: 5 }));
    let (_, got) = steps(false, vec![reply, Reply::Membership { already_member: true }]);
    assert_eq!(
        got,
        vec![Step::Ask(Request::CheckMembership), Step::Ask(Request::SetPowerLevel { level: 5 })]
    );
}

#[test]
fn invite_fails_on_public_room_with_known_alias() {
    let (migration, got) = steps(
        true,
        vec![
            levels(50),
            Reply::Membership { already_member: false },
            Reply::InviteFailed { public: true, alias: Some("#lobby:example.org".to_string()) },
        ],
    );
    assert_eq!(
        got[2],
        Step::Finish {
            outcome: Outcome::InviteErrorPublicRoomAliasKnown,
            join_url: Some("https://matrix.to/#/#lobby:example.org".to_string()),
        }
    );
    assert_eq!(migration.outcome(), Some(Outcome::InviteErrorPublicRoomAliasKnown));
}

#[test]
fn invite_fails_on_public_room_without_alias() {
    let (_, got) = steps(
        true,
        vec![
            levels(50),
            Reply::Membership { already_member: false },
            Reply::InviteFailed { public: true, alias: None },
        ],
    );
    assert_eq!(got[2], finish(Outcome::InviteErrorPublicRoomAliasUnknown));
}

#[test]
fn invite_fails_on_private_room() {
    let (_, got) = steps(
        true,
        vec![
            levels(50),
            Reply::Membership { already_member: false },
            Reply::InviteFailed { public: false, alias: Some("#hidden:example.org".to_string()) },
        ],
    );
    assert_eq!(got[2], finish(Outcome::InviteError));
    let (_, got) = steps(
        true,
        vec![
            levels(50),
            Reply::Membership { already_member: false },
            Reply::InviteFailed { public: false, alias: None },
        ],
    );
    assert_eq!(got[2], finish(Outcome::InviteError));
}

#[test]
fn power_level_failure_ends_the_room_before_leaving() {
    let (migration, got) = steps(
        true,
        vec![levels(50), Reply::Membership { already_member: true }, Reply::PowerLevelRefused],
    );
    assert_eq!(got[2], finish(Outcome::PowerLevelError));
    assert_eq!(migration.outcome(), Some(Outcome::PowerLevelError));
}

#[test]
fn leave_failure() {
    let (_, got) = steps(
        true,
        vec![levels(0), Reply::Membership { already_member: true }, Reply::LeaveFailed],
    );
    assert_eq!(got[2], finish(Outcome::LeaveError));
}

#[test]
fn room_without_power_levels_is_fatal() {
    let (migration, got) = steps(true, vec![Reply::PowerLevels(None)]);
    assert_eq!(got, vec![Step::Fail(Fatal::PowerLevelUnreadable)]);
    assert_eq!(migration.phase(), Phase::Failed(Fatal::PowerLevelUnreadable));
    assert_eq!(migration.outcome(), None);
}

#[test]
fn reply_out_of_turn_ends_the_migration() {
    let (migration, got) = steps(true, vec![Reply::Invited]);
    assert_eq!(got, vec![Step::Fail(Fatal::UnexpectedReply)]);
    assert_eq!(migration.phase(), Phase::Failed(Fatal::UnexpectedReply));
    let (migration, got) = steps(true, vec![levels(1), Reply::Left, Reply::Membership { already_member: true }]);
    assert_eq!(got[1], Step::Fail(Fatal::UnexpectedReply));
    assert_eq!(got[2], Step::Fail(Fatal::UnexpectedReply));
    assert_eq!(migration.phase(), Phase::Failed(Fatal::UnexpectedReply));
}

#[test]
fn done_room_stays_done() {
    let (migration, got) = steps(
        false,
        vec![levels(0), Reply::Membership { already_member: true }, Reply::Left],
    );
    assert_eq!(got[1], finish(Outcome::CanLeave));
    assert_eq!(got[2], Step::Fail(Fatal::UnexpectedReply));
    assert_eq!(migration.outcome(), Some(Outcome::CanLeave));
}

#[test]
fn join_url_is_the_alias_behind_the_matrix_to_prefix() {
    assert_eq!(join_url("#room:example.org"), "https://matrix.to/#/#room:example.org");
    assert_eq!(join_url(""), "https://matrix.to/#/");
}
