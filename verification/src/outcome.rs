//! How the migration of one room ended.

use vstd::prelude::*;

verus! {

/// The result of handling one selected room. Exactly one is recorded per room.
#[derive(Clone, Copy, Debug, PartialEq, Eq, Structural)]
pub enum Outcome {
    /// The invitation failed; the room is public and has a canonical alias.
    InviteErrorPublicRoomAliasKnown,
    /// The invitation failed; the room is public and has no canonical alias.
    InviteErrorPublicRoomAliasUnknown,
    /// The invitation failed and the room is not public.
    InviteError,
    /// The new account is in the room, but it could not be given the power level.
    PowerLevelError,
    /// Everything before leaving was done, but leaving failed.
    LeaveError,
    /// All steps were done and the old account has left the room.
    Left,
    /// All steps were done; the old account is still a member and may leave.
    CanLeave,
    /// The selection named a room identifier that is not well formed.
    RoomIdInvalid,
    /// The selection named a well-formed identifier of no joined room.
    RoomNotFound,
}

impl Outcome {
    /// The code under which the outcome is written into a report.
    pub open spec fn code(self) -> Seq<char> {
        match self {
            Outcome::InviteErrorPublicRoomAliasKnown => "INVITE_ERROR_PUBLIC_ROOM_ALIAS_KNOWN"@,
            Outcome::InviteErrorPublicRoomAliasUnknown => "INVITE_ERROR_PUBLIC_ROOM_ALIAS_UNKNOWN"@,
            Outcome::InviteError => "INVITE_ERROR"@,
            Outcome::PowerLevelError => "POWER_LEVEL_ERROR"@,
            Outcome::LeaveError => "LEAVE_ERROR"@,
            Outcome::Left => "LEFT"@,
            Outcome::CanLeave => "CAN_LEAVE"@,
            Outcome::RoomIdInvalid => "ROOMID_INVALID"@,
            Outcome::RoomNotFound => "ROOM_NOT_FOUND"@,
        }
    }

    /// The report code of the outcome.
    pub fn as_str(self) -> (s: &'static str)
        ensures
            s@ == self.code(),
    {
        match self {
            Outcome::InviteErrorPublicRoomAliasKnown => "INVITE_ERROR_PUBLIC_ROOM_ALIAS_KNOWN",
            Outcome::InviteErrorPublicRoomAliasUnknown => "INVITE_ERROR_PUBLIC_ROOM_ALIAS_UNKNOWN",
            Outcome::InviteError => "INVITE_ERROR",
            Outcome::PowerLevelError => "POWER_LEVEL_ERROR",
            Outcome::LeaveError => "LEAVE_ERROR",
            Outcome::Left => "LEFT",
            Outcome::CanLeave => "CAN_LEAVE",
            Outcome::RoomIdInvalid => "ROOMID_INVALID",
            Outcome::RoomNotFound => "ROOM_NOT_FOUND",
        }
    }
}

/// Length and fifth character of each report code: together they tell the
/// codes apart.
proof fn lemma_code_shape(a: Outcome)
    ensures
        a.code().len() == match a {
            Outcome::InviteErrorPublicRoomAliasKnown => 36nat,
            Outcome::InviteErrorPublicRoomAliasUnknown => 38nat,
            Outcome::InviteError => 12nat,
            Outcome::PowerLevelError => 17nat,
            Outcome::LeaveError => 11nat,
            Outcome::Left => 4nat,
            Outcome::CanLeave => 9nat,
            Outcome::RoomIdInvalid => 14nat,
            Outcome::RoomNotFound => 14nat,
        },
        a == Outcome::RoomIdInvalid ==> a.code()[4] == 'I',
        a == Outcome::RoomNotFound ==> a.code()[4] == '_',
{
    reveal_strlit("INVITE_ERROR_PUBLIC_ROOM_ALIAS_KNOWN");
    reveal_strlit("INVITE_ERROR_PUBLIC_ROOM_ALIAS_UNKNOWN");
    reveal_strlit("INVITE_ERROR");
    reveal_strlit("POWER_LEVEL_ERROR");
    reveal_strlit("LEAVE_ERROR");
    reveal_strlit("LEFT");
    reveal_strlit("CAN_LEAVE");
    reveal_strlit("ROOMID_INVALID");
    reveal_strlit("ROOM_NOT_FOUND");
}

/// Two outcomes with the same report code are the same outcome: a report
/// can be read back without loss.
pub proof fn lemma_code_injective(a: Outcome, b: Outcome)
    requires
        a.code() == b.code(),
    ensures
        a == b,
{
    lemma_code_shape(a);
    lemma_code_shape(b);
}

} // verus!
