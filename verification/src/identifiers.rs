//! Room identifiers, as the Matrix identifier grammar of `ruma` accepts them.

use vstd::prelude::*;

verus! {

/// Whether `ruma` accepts the text as a room identifier. The grammar (a
/// leading `!`, a length limit, a colon and a server name that may be a DNS
/// name or an address literal with a port) belongs to `ruma`; nothing in this
/// crate says which texts it accepts.
pub uninterp spec fn room_id_wellformed(id: Seq<char>) -> bool;

/// Calls `RoomId::parse` of `ruma` and tells whether it accepted the text.
/// The contract only gives the answer its name: the same text always gets the
/// same answer.
#[verifier::external_body]
pub(crate) fn room_id_accepted(id: &str) -> (ok: bool)
    ensures
        ok == room_id_wellformed(id@),
{
    matrix_sdk::ruma::RoomId::parse(id).is_ok()
}

} // verus!
