//! The frozen listing of the joined rooms, from which an operator selects.

use vstd::prelude::*;

verus! {

/// Who may read the history of a room.
#[derive(Clone, Copy, Debug, PartialEq, Eq, Structural)]
pub enum HistoryVisibility {
    /// Members, from the moment they were invited.
    Invited,
    /// Members, from the moment they joined.
    Joined,
    /// Members, including what was sent before they joined.
    Shared,
    /// Anybody.
    WorldReadable,
    /// A setting that this library does not know.
    Other,
}

/// A new member can read what was sent before it joined exactly under the
/// settings `Shared` and `WorldReadable`.
pub open spec fn history_is_open(visibility: HistoryVisibility) -> bool {
    visibility == HistoryVisibility::Shared || visibility == HistoryVisibility::WorldReadable
}

/// A room counts as encrypted unless it is known not to be.
pub open spec fn counts_as_encrypted(encrypted: Option<bool>) -> bool {
    match encrypted {
        Some(known) => known,
        None => true,
    }
}

/// What is shown of one joined room. The position of an entry in the listing
/// is the number by which the operator selects the room.
#[derive(Clone, Debug, PartialEq, Eq)]
pub struct RoomSnapshotEntry {
    pub room_id: String,
    pub display_name: String,
    pub is_encrypted: bool,
    pub has_open_history: bool,
    pub target_already_member: bool,
}

/// What a `RoomSnapshotEntry` stands for.
pub struct RoomSnapshotView {
    pub room_id: Seq<char>,
    pub display_name: Seq<char>,
    pub is_encrypted: bool,
    pub has_open_history: bool,
    pub target_already_member: bool,
}

impl View for RoomSnapshotEntry {
    type V = RoomSnapshotView;

    open spec fn view(&self) -> RoomSnapshotView {
        RoomSnapshotView {
            room_id: self.room_id@,
            display_name: self.display_name@,
            is_encrypted: self.is_encrypted,
            has_open_history: self.has_open_history,
            target_already_member: self.target_already_member,
        }
    }
}

impl RoomSnapshotEntry {
    /// Captures a room as it is at listing time. `encrypted` is `None`
    /// where the room's encryption could not be found out.
    pub fn capture(
        room_id: &str,
        display_name: &str,
        encrypted: Option<bool>,
        visibility: HistoryVisibility,
        target_already_member: bool,
    ) -> (entry: RoomSnapshotEntry)
        ensures
            entry@ == (RoomSnapshotView {
                room_id: room_id@,
                display_name: display_name@,
                is_encrypted: counts_as_encrypted(encrypted),
                has_open_history: history_is_open(visibility),
                target_already_member,
            }),
    {
        let is_encrypted = match encrypted {
            Some(known) => known,
            None => true,
        };
        let has_open_history = match visibility {
            HistoryVisibility::Shared => true,
            HistoryVisibility::WorldReadable => true,
            _ => false,
        };
        RoomSnapshotEntry {
            room_id: room_id.to_owned(),
            display_name: display_name.to_owned(),
            is_encrypted,
            has_open_history,
            target_already_member,
        }
    }
}

/// The room identifiers of a listing, in its order.
pub open spec fn ids_of(listing: Seq<RoomSnapshotEntry>) -> Seq<Seq<char>> {
    Seq::new(listing.len(), |i: int| listing[i].room_id@)
}

/// Whether `id` stands at place `j` of the identifiers and at none before it.
pub open spec fn listed_first_at(ids: Seq<Seq<char>>, id: Seq<char>, j: int) -> bool {
    &&& 0 <= j < ids.len()
    &&& ids[j] == id
    &&& forall|k: int| 0 <= k < j ==> #[trigger] ids[k] != id
}

/// The first place at which `id` stands among the identifiers.
pub open spec fn position_of(ids: Seq<Seq<char>>, id: Seq<char>) -> Option<int> {
    if exists|j: int| listed_first_at(ids, id, j) {
        Some(choose|j: int| listed_first_at(ids, id, j))
    } else {
        None
    }
}

/// The first place of the listing at which the room with this identifier
/// stands.
pub fn find_room(listing: &Vec<RoomSnapshotEntry>, id: &String) -> (place: Option<usize>)
    ensures
        match place {
            Some(j) => position_of(ids_of(listing@), id@) == Some(j as int),
            None => position_of(ids_of(listing@), id@) is None,
        },
{
    let ghost ids = ids_of(listing@);
    let n: usize = listing.len();
    let mut j: usize = 0;
    while j < n
        invariant
            j <= n,
            n == listing@.len(),
            ids == ids_of(listing@),
            forall|k: int| 0 <= k < j ==> #[trigger] ids[k] != id@,
        decreases n - j,
    {
        if listing[j].room_id == *id {
            proof {
                assert(listed_first_at(ids, id@, j as int));
                let p = choose|p: int| listed_first_at(ids, id@, p);
                assert(listed_first_at(ids, id@, p));
                if p < j {
                    assert(ids[p] != id@);
                }
                if j < p {
                    assert(ids[j as int] != id@);
                }
            }
            return Some(j);
        }
        j = j + 1;
    }
    proof {
        assert forall|p: int| !listed_first_at(ids, id@, p) by {
            if 0 <= p < ids.len() {
                assert(ids[p] != id@);
            }
        }
    }
    None
}

} // verus!
