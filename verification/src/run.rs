//! A run: the rooms of a selection, handled one after the other in the order
//! of the selection, each with its entry in the ledger before the next room
//! is touched.
//!
//! The run touches no room itself. It says which room is next; whoever holds
//! the connection migrates that room and hands back how it ended.

use vstd::prelude::*;
use crate::ledger::{
    has_key, keys_unique, lemma_recorded_keeps_entries, lemma_recorded_unique, recorded,
    report_text, ProgressLedger,
};
use crate::outcome::Outcome;
use crate::selection::{
    entry_model, parse_selection, read_selection, read_token, split, MalformedSelection,
    MalformedView, Malformation, MigrationTask, RoomRef, RoomRefView, TaskView,
};
use crate::snapshot::{find_room, ids_of, listed_first_at, position_of, RoomSnapshotEntry};

verus! {

/// What a token of the selection comes to, held against the listing.
#[derive(Clone, Debug, PartialEq, Eq)]
pub enum Resolution {
    /// The room at place `index` of the listing is to be migrated. `key` is
    /// its identifier, under which its outcome is recorded.
    Room { index: usize, key: String, leave_after: bool },
    /// No room can be migrated for the token; `outcome` is recorded under
    /// `key` all the same.
    Unusable { key: String, outcome: Outcome },
    /// The token names no room and nothing is recorded for it.
    Skipped { error: MalformedSelection },
}

/// What a `Resolution` stands for.
pub enum ResolutionView {
    Room { index: int, key: Seq<char>, leave_after: bool },
    Unusable { key: Seq<char>, outcome: Outcome },
    Skipped { error: MalformedView },
}

impl View for Resolution {
    type V = ResolutionView;

    open spec fn view(&self) -> ResolutionView {
        match self {
            Resolution::Room { index, key, leave_after } => ResolutionView::Room {
                index: *index as int,
                key: key@,
                leave_after: *leave_after,
            },
            Resolution::Unusable { key, outcome } => ResolutionView::Unusable {
                key: key@,
                outcome: *outcome,
            },
            Resolution::Skipped { error } => ResolutionView::Skipped { error: error@ },
        }
    }
}

/// What a parsed token comes to, given the room identifiers of the listing.
/// A position names the room that stands there. An identifier names the
/// room of the listing that has it; where none has it, `RoomNotFound` is
/// recorded under the identifier. For a token that looked like an identifier
/// and is none, `RoomIdInvalid` is recorded under the token. Any other
/// malformed token is skipped.
pub open spec fn resolve(entry: Result<TaskView, MalformedView>, ids: Seq<Seq<char>>) -> ResolutionView {
    match entry {
        Ok(task) => match task.room {
            RoomRefView::Index(i) => if i < ids.len() {
                ResolutionView::Room { index: i as int, key: ids[i as int], leave_after: task.leave_after }
            } else {
                ResolutionView::Skipped {
                    error: MalformedView {
                        token: Seq::<char>::empty(),
                        reason: Malformation::IndexOutOfRange,
                    },
                }
            },
            RoomRefView::Id(id) => match position_of(ids, id) {
                Some(j) => ResolutionView::Room { index: j, key: id, leave_after: task.leave_after },
                None => ResolutionView::Unusable { key: id, outcome: Outcome::RoomNotFound },
            },
        },
        Err(bad) => if bad.reason == Malformation::InvalidRoomId {
            ResolutionView::Unusable { key: bad.token, outcome: Outcome::RoomIdInvalid }
        } else {
            ResolutionView::Skipped { error: bad }
        },
    }
}

/// What a line of selection comes to: one resolution per token, in the order
/// of the line, whatever the order of the listing.
pub open spec fn plan_of(line: Seq<char>, ids: Seq<Seq<char>>) -> Seq<ResolutionView> {
    Seq::new(
        read_selection(line, ids.len()).len(),
        |i: int| resolve(read_selection(line, ids.len())[i], ids),
    )
}

/// The key under which a resolution is recorded, if it is recorded.
pub open spec fn key_of(resolution: ResolutionView) -> Option<Seq<char>> {
    match resolution {
        ResolutionView::Room { key, .. } => Some(key),
        ResolutionView::Unusable { key, .. } => Some(key),
        ResolutionView::Skipped { .. } => None,
    }
}

/// Whether one of the first `upto` resolutions of the plan is recorded under
/// `key`.
pub open spec fn covered(plan: Seq<ResolutionView>, upto: int, key: Seq<char>) -> bool {
    exists|j: int| 0 <= j < upto && j < plan.len() && #[trigger] key_of(plan[j]) == Some(key)
}

/// What happens next in a run.
#[derive(Clone, Debug, PartialEq, Eq)]
pub enum Turn {
    /// The room at place `index` of the listing is to be migrated now, and
    /// its outcome handed to `complete`.
    Migrate { index: usize, key: String, leave_after: bool },
    /// `outcome` was recorded under `key` without touching a room;
    /// `snapshot` is the text of the ledger as it now stands.
    Recorded { key: String, outcome: Outcome, snapshot: String },
    /// A malformed token was passed over.
    Skipped { error: MalformedSelection },
    /// Every token was handled; `report` is the text of the whole ledger.
    Finished { report: String },
}

/// What a `Turn` stands for.
pub enum TurnView {
    Migrate { index: int, key: Seq<char>, leave_after: bool },
    Recorded { key: Seq<char>, outcome: Outcome, snapshot: Seq<char> },
    Skipped { error: MalformedView },
    Finished { report: Seq<char> },
}

impl View for Turn {
    type V = TurnView;

    open spec fn view(&self) -> TurnView {
        match self {
            Turn::Migrate { index, key, leave_after } => TurnView::Migrate {
                index: *index as int,
                key: key@,
                leave_after: *leave_after,
            },
            Turn::Recorded { key, outcome, snapshot } => TurnView::Recorded {
                key: key@,
                outcome: *outcome,
                snapshot: snapshot@,
            },
            Turn::Skipped { error } => TurnView::Skipped { error: error@ },
            Turn::Finished { report } => TurnView::Finished { report: report@ },
        }
    }
}

/// A run in progress: the frozen listing, the plan made from the selection,
/// how many of its tokens were handled, and the ledger.
pub struct Run {
    listing: Vec<RoomSnapshotEntry>,
    plan: Vec<Resolution>,
    cursor: usize,
    ledger: ProgressLedger,
}

/// What a `Run` stands for.
pub struct RunView {
    pub ids: Seq<Seq<char>>,
    pub plan: Seq<ResolutionView>,
    pub cursor: int,
    pub ledger: Seq<(Seq<char>, Outcome)>,
}

impl View for Run {
    type V = RunView;

    closed spec fn view(&self) -> RunView {
        RunView {
            ids: ids_of(self.listing@),
            plan: Seq::new(self.plan@.len(), |i: int| self.plan@[i]@),
            cursor: self.cursor as int,
            ledger: self.ledger@,
        }
    }
}

impl RunView {
    /// What holds of a run at every moment: the handled tokens are a prefix
    /// of the plan; every room of the plan is a room of the listing and is
    /// recorded under its identifier; no key stands twice in the ledger; and
    /// the ledger has a key exactly if a handled token is recorded under it.
    pub open spec fn wf(self) -> bool {
        &&& 0 <= self.cursor <= self.plan.len()
        &&& keys_unique(self.ledger)
        &&& forall|j: int|
            0 <= j < self.plan.len() ==> (#[trigger] self.plan[j] matches ResolutionView::Room {
                index,
                key,
                ..
            } ==> 0 <= index < self.ids.len() && self.ids[index] == key)
        &&& forall|k: Seq<char>|
            #[trigger] has_key(self.ledger, k) <==> covered(self.plan, self.cursor, k)
    }

    /// Whether every token was handled.
    pub open spec fn finished(self) -> bool {
        self.cursor >= self.plan.len()
    }

    /// The run with one more token handled.
    pub open spec fn moved_on(self) -> RunView {
        RunView { cursor: self.cursor + 1, ..self }
    }

    /// The run with `outcome` recorded under `key` and one more token handled.
    pub open spec fn moved_on_with(self, key: Seq<char>, outcome: Outcome) -> RunView {
        RunView { cursor: self.cursor + 1, ledger: recorded(self.ledger, key, outcome), ..self }
    }

    /// The turn that is due, and the run after it. A room to migrate leaves
    /// the run as it is, until its outcome comes in.
    pub open spec fn turn(self) -> (RunView, TurnView) {
        if self.finished() {
            (self, TurnView::Finished { report: report_text(self.ledger) })
        } else {
            match self.plan[self.cursor] {
                ResolutionView::Room { index, key, leave_after } => (
                    self,
                    TurnView::Migrate { index, key, leave_after },
                ),
                ResolutionView::Unusable { key, outcome } => (
                    self.moved_on_with(key, outcome),
                    TurnView::Recorded {
                        key,
                        outcome,
                        snapshot: report_text(recorded(self.ledger, key, outcome)),
                    },
                ),
                ResolutionView::Skipped { error } => (self.moved_on(), TurnView::Skipped { error }),
            }
        }
    }

    /// Whether a room is being migrated: the token that is due names one.
    pub open spec fn room_open(self) -> bool {
        !self.finished() && self.plan[self.cursor] is Room
    }

    /// The run after the room that is being migrated ended with `outcome`.
    pub open spec fn completed(self, outcome: Outcome) -> RunView {
        self.moved_on_with(self.plan[self.cursor]->Room_key, outcome)
    }
}

/// One more resolution of the plan covers its own key and the keys that were
/// covered before, and no other.
pub proof fn lemma_covered_step(plan: Seq<ResolutionView>, upto: int, key: Seq<char>)
    requires
        0 <= upto < plan.len(),
    ensures
        covered(plan, upto + 1, key) <==> covered(plan, upto, key) || key_of(plan[upto]) == Some(
            key,
        ),
{
    if covered(plan, upto + 1, key) {
        let j = choose|j: int|
            0 <= j < upto + 1 && j < plan.len() && #[trigger] key_of(plan[j]) == Some(key);
        if j < upto {
            assert(covered(plan, upto, key));
        }
    }
    if covered(plan, upto, key) {
        let j = choose|j: int|
            0 <= j < upto && j < plan.len() && #[trigger] key_of(plan[j]) == Some(key);
        assert(key_of(plan[j]) == Some(key));
    }
    if key_of(plan[upto]) == Some(key) {
        assert(covered(plan, upto + 1, key));
    }
}

/// Passing over a token keeps a run well formed.
pub proof fn lemma_moved_on_wf(run: RunView)
    requires
        run.wf(),
        !run.finished(),
        run.plan[run.cursor] is Skipped,
    ensures
        run.moved_on().wf(),
{
    let after = run.moved_on();
    assert forall|k: Seq<char>| #[trigger]
        has_key(after.ledger, k) <==> covered(after.plan, after.cursor, k) by {
        lemma_covered_step(run.plan, run.cursor, k);
    }
}

/// Recording a token under its own key keeps a run well formed.
pub proof fn lemma_moved_on_with_wf(run: RunView, outcome: Outcome)
    requires
        run.wf(),
        !run.finished(),
        key_of(run.plan[run.cursor]) is Some,
    ensures
        run.moved_on_with(key_of(run.plan[run.cursor])->0, outcome).wf(),
{
    let key = key_of(run.plan[run.cursor])->0;
    let after = run.moved_on_with(key, outcome);
    lemma_recorded_unique(run.ledger, key, outcome);
    lemma_recorded_keeps_entries(run.ledger, key, outcome);
    assert forall|k: Seq<char>| #[trigger]
        has_key(after.ledger, k) <==> covered(after.plan, after.cursor, k) by {
        lemma_covered_step(run.plan, run.cursor, k);
    }
}

/// The run after its next token was handled, where a room that is to be
/// migrated ends with `outcome`.
pub open spec fn handle_next(run: RunView, outcome: Outcome) -> RunView {
    if run.room_open() {
        run.completed(outcome)
    } else {
        run.turn().0
    }
}

/// The run after `n` more tokens were handled, where the room of the token
/// at place `j` of the plan ends with `outcomes[j]`.
pub open spec fn handle_many(run: RunView, outcomes: Seq<Outcome>, n: nat) -> RunView
    decreases n,
{
    if n == 0 {
        run
    } else {
        let before = handle_many(run, outcomes, (n - 1) as nat);
        handle_next(before, outcomes[before.cursor])
    }
}

/// The run as it starts.
pub open spec fn fresh(line: Seq<char>, ids: Seq<Seq<char>>) -> RunView {
    RunView {
        ids,
        plan: plan_of(line, ids),
        cursor: 0,
        ledger: Seq::<(Seq<char>, Outcome)>::empty(),
    }
}

/// A run as it starts is well formed.
pub proof fn lemma_fresh_wf(line: Seq<char>, ids: Seq<Seq<char>>)
    ensures
        fresh(line, ids).wf(),
{
    let run = fresh(line, ids);
    assert forall|j: int| 0 <= j < run.plan.len() implies (#[trigger] run.plan[j] matches ResolutionView::Room {
        index,
        key,
        ..
    } ==> 0 <= index < run.ids.len() && run.ids[index] == key) by {
        lemma_room_is_listed(read_selection(line, ids.len())[j], ids);
    }
    assert forall|k: Seq<char>| #[trigger]
        has_key(run.ledger, k) <==> covered(run.plan, run.cursor, k) by {}
}

/// Handling a token keeps a run well formed, moves it on by exactly one
/// token, and loses no key of the ledger.
pub proof fn lemma_handle_next(run: RunView, outcome: Outcome)
    requires
        run.wf(),
        !run.finished(),
    ensures
        handle_next(run, outcome).wf(),
        handle_next(run, outcome).cursor == run.cursor + 1,
        handle_next(run, outcome).plan == run.plan,
        handle_next(run, outcome).ids == run.ids,
        forall|k: Seq<char>|
            has_key(run.ledger, k) ==> #[trigger] has_key(handle_next(run, outcome).ledger, k),
{
    match run.plan[run.cursor] {
        ResolutionView::Room { key, .. } => {
            lemma_moved_on_with_wf(run, outcome);
            lemma_recorded_keeps_entries(run.ledger, key, outcome);
        },
        ResolutionView::Unusable { key, outcome: fixed } => {
            lemma_moved_on_with_wf(run, fixed);
            lemma_recorded_keeps_entries(run.ledger, key, fixed);
        },
        ResolutionView::Skipped { .. } => {
            lemma_moved_on_wf(run);
        },
    }
}

/// The tokens are handled in the order of the line: after `n` tokens the run
/// stands at token `n`, so the token handled next is the one at place `n` of
/// the line, wherever its room stands in the listing. The run stays well
/// formed on the way.
pub proof fn lemma_handled_in_line_order(
    line: Seq<char>,
    ids: Seq<Seq<char>>,
    outcomes: Seq<Outcome>,
    n: nat,
)
    requires
        n <= plan_of(line, ids).len(),
    ensures
        handle_many(fresh(line, ids), outcomes, n).wf(),
        handle_many(fresh(line, ids), outcomes, n).cursor == n,
        handle_many(fresh(line, ids), outcomes, n).plan == plan_of(line, ids),
        handle_many(fresh(line, ids), outcomes, n).ids == ids,
        n < plan_of(line, ids).len() ==> handle_many(fresh(line, ids), outcomes, n).plan[n as int]
            == resolve(read_token(split(line)[n as int], ids.len()), ids),
    decreases n,
{
    if n == 0 {
        lemma_fresh_wf(line, ids);
    } else {
        lemma_handled_in_line_order(line, ids, outcomes, (n - 1) as nat);
        let before = handle_many(fresh(line, ids), outcomes, (n - 1) as nat);
        lemma_handle_next(before, outcomes[before.cursor]);
    }
}

/// What the ledger of a well-formed run holds: no key twice, and a key
/// exactly if a handled token of the plan is recorded under it. Once the run
/// is finished these are all the tokens that are recorded at all.
pub proof fn lemma_ledger_keys(run: RunView, key: Seq<char>)
    requires
        run.wf(),
    ensures
        keys_unique(run.ledger),
        has_key(run.ledger, key) <==> covered(run.plan, run.cursor, key),
        run.finished() ==> (has_key(run.ledger, key) <==> exists|j: int|
            0 <= j < run.plan.len() && #[trigger] key_of(run.plan[j]) == Some(key)),
{
    if run.finished() {
        if has_key(run.ledger, key) {
            let j = choose|j: int|
                0 <= j < run.cursor && j < run.plan.len() && #[trigger] key_of(run.plan[j])
                    == Some(key);
            assert(key_of(run.plan[j]) == Some(key));
        }
        if exists|j: int| 0 <= j < run.plan.len() && #[trigger] key_of(run.plan[j]) == Some(key) {
            let j = choose|j: int|
                0 <= j < run.plan.len() && #[trigger] key_of(run.plan[j]) == Some(key);
            assert(covered(run.plan, run.cursor, key));
        }
    }
}

/// Where every recorded token of the selection names a room of the listing,
/// the keys of the finished run's ledger are exactly the identifiers of the
/// rooms that the selection resolved to, each with one outcome.
pub proof fn lemma_ledger_keys_are_resolved_rooms(run: RunView, key: Seq<char>)
    requires
        run.wf(),
        run.finished(),
        forall|j: int| 0 <= j < run.plan.len() ==> !(#[trigger] run.plan[j] is Unusable),
    ensures
        keys_unique(run.ledger),
        has_key(run.ledger, key) <==> exists|j: int|
            0 <= j < run.plan.len() && (#[trigger] run.plan[j] matches ResolutionView::Room {
                index,
                ..
            } && run.ids[index] == key),
{
    lemma_ledger_keys(run, key);
    if has_key(run.ledger, key) {
        let j = choose|j: int|
            0 <= j < run.plan.len() && #[trigger] key_of(run.plan[j]) == Some(key);
        assert(!(run.plan[j] is Unusable));
        assert(run.plan[j] matches ResolutionView::Room { index, .. } && run.ids[index] == key);
    }
    if exists|j: int|
        0 <= j < run.plan.len() && (#[trigger] run.plan[j] matches ResolutionView::Room {
            index,
            ..
        } && run.ids[index] == key) {
        let j = choose|j: int|
            0 <= j < run.plan.len() && (#[trigger] run.plan[j] matches ResolutionView::Room {
                index,
                ..
            } && run.ids[index] == key);
        assert(key_of(run.plan[j]) == Some(key));
    }
}

/// Tokens that are passed over leave the ledger as it is.
pub proof fn lemma_skipped_keep_ledger(run: RunView, outcomes: Seq<Outcome>, n: nat)
    requires
        0 <= run.cursor,
        run.cursor + n <= run.plan.len(),
        forall|j: int| run.cursor <= j < run.plan.len() ==> #[trigger] run.plan[j] is Skipped,
    ensures
        handle_many(run, outcomes, n).ledger == run.ledger,
        handle_many(run, outcomes, n).plan == run.plan,
        handle_many(run, outcomes, n).cursor == run.cursor + n,
    decreases n,
{
    if n > 0 {
        lemma_skipped_keep_ledger(run, outcomes, (n - 1) as nat);
        let before = handle_many(run, outcomes, (n - 1) as nat);
        assert(before.plan[before.cursor] is Skipped);
    }
}

/// The report at the end of a run is the text that was written out when the
/// last outcome was recorded: the same keys with the same outcomes.
pub proof fn lemma_report_is_last_snapshot(run: RunView, outcome: Outcome, outcomes: Seq<Outcome>)
    requires
        run.wf(),
        !run.finished(),
        key_of(run.plan[run.cursor]) is Some,
        forall|j: int| run.cursor < j < run.plan.len() ==> #[trigger] run.plan[j] is Skipped,
    ensures
        ({
            let recorded_now = handle_next(run, outcome);
            let end = handle_many(
                recorded_now,
                outcomes,
                (run.plan.len() - run.cursor - 1) as nat,
            );
            &&& end.finished()
            &&& end.turn().0 == end
            &&& end.turn().1 == TurnView::Finished { report: report_text(recorded_now.ledger) }
        }),
{
    lemma_handle_next(run, outcome);
    lemma_skipped_keep_ledger(
        handle_next(run, outcome),
        outcomes,
        (run.plan.len() - run.cursor - 1) as nat,
    );
}

fn copy_of(resolution: &Resolution) -> (copy: Resolution)
    ensures
        copy@ == resolution@,
{
    match resolution {
        Resolution::Room { index, key, leave_after } => Resolution::Room {
            index: *index,
            key: key.clone(),
            leave_after: *leave_after,
        },
        Resolution::Unusable { key, outcome } => Resolution::Unusable {
            key: key.clone(),
            outcome: *outcome,
        },
        Resolution::Skipped { error } => Resolution::Skipped {
            error: MalformedSelection { token: error.token.clone(), reason: error.reason },
        },
    }
}

/// Holds a parsed token against the listing.
pub fn resolve_entry(
    entry: &Result<MigrationTask, MalformedSelection>,
    listing: &Vec<RoomSnapshotEntry>,
) -> (resolution: Resolution)
    ensures
        resolution@ == resolve(entry_model(*entry), ids_of(listing@)),
{
    match entry {
        Ok(task) => match &task.room {
            RoomRef::Index(i) => {
                if *i < listing.len() {
                    Resolution::Room {
                        index: *i,
                        key: listing[*i].room_id.clone(),
                        leave_after: task.leave_after,
                    }
                } else {
                    Resolution::Skipped {
                        error: MalformedSelection {
                            token: String::new(),
                            reason: Malformation::IndexOutOfRange,
                        },
                    }
                }
            },
            RoomRef::Id(id) => match find_room(listing, id) {
                Some(j) => Resolution::Room {
                    index: j,
                    key: id.clone(),
                    leave_after: task.leave_after,
                },
                None => Resolution::Unusable { key: id.clone(), outcome: Outcome::RoomNotFound },
            },
        },
        Err(bad) => match bad.reason {
            Malformation::InvalidRoomId => Resolution::Unusable {
                key: bad.token.clone(),
                outcome: Outcome::RoomIdInvalid,
            },
            _ => Resolution::Skipped {
                error: MalformedSelection { token: bad.token.clone(), reason: bad.reason },
            },
        },
    }
}

impl Run {
    /// What holds of a run at every moment.
    pub open spec fn wf(&self) -> bool {
        self@.wf()
    }

    /// Starts a run over the frozen `listing` with the operator's `line` of
    /// selection. Nothing is handled yet and the ledger is empty.
    pub fn new(listing: Vec<RoomSnapshotEntry>, line: &str) -> (run: Run)
        ensures
            run@ == (RunView {
                ids: ids_of(listing@),
                plan: plan_of(line@, ids_of(listing@)),
                cursor: 0,
                ledger: Seq::<(Seq<char>, Outcome)>::empty(),
            }),
            run.wf(),
    {
        let entries = parse_selection(line, listing.len());
        let n: usize = entries.len();
        let ghost ids = ids_of(listing@);
        let ghost wanted = plan_of(line@, ids);
        let mut plan: Vec<Resolution> = Vec::new();
        let mut i: usize = 0;
        while i < n
            invariant
                i <= n,
                n == entries@.len(),
                n == wanted.len(),
                ids == ids_of(listing@),
                wanted == plan_of(line@, ids),
                plan@.len() == i,
                forall|j: int|
                    0 <= j < n ==> entry_model(#[trigger] entries@[j]) == read_selection(
                        line@,
                        listing@.len() as nat,
                    )[j],
                forall|j: int| 0 <= j < i ==> (#[trigger] plan@[j])@ == wanted[j],
            decreases n - i,
        {
            let resolution = resolve_entry(&entries[i], &listing);
            plan.push(resolution);
            i = i + 1;
        }
        let run = Run { listing, plan, cursor: 0, ledger: ProgressLedger::new() };
        proof {
            assert(run@.plan =~= wanted);
            assert forall|j: int| 0 <= j < run@.plan.len() implies (#[trigger] run@.plan[j] matches ResolutionView::Room {
                index,
                key,
                ..
            } ==> 0 <= index < run@.ids.len() && run@.ids[index] == key) by {
                lemma_room_is_listed(read_selection(line@, ids.len())[j], ids);
            }
            assert forall|k: Seq<char>| #[trigger]
                has_key(run@.ledger, k) <==> covered(run@.plan, run@.cursor, k) by {}
        }
        run
    }

    /// The number of tokens of the selection.
    pub fn planned(&self) -> (n: usize)
        ensures
            n == self@.plan.len(),
    {
        self.plan.len()
    }

    /// The number of tokens that were handled.
    pub fn handled(&self) -> (n: usize)
        ensures
            n == self@.cursor,
    {
        self.cursor
    }

    /// The ledger as it stands.
    pub fn ledger(&self) -> (ledger: &ProgressLedger)
        ensures
            ledger@ == self@.ledger,
    {
        &self.ledger
    }

    /// Says what is due. A token that needs no room is handled at once: its
    /// outcome is recorded or it is passed over, and the run moves on. A room
    /// to migrate is handed out, and the run waits for `complete`.
    pub fn next(&mut self) -> (turn: Turn)
        ensures
            final(self)@ == old(self)@.turn().0,
            turn@ == old(self)@.turn().1,
            old(self).wf() ==> final(self).wf(),
    {
        if self.cursor >= self.plan.len() {
            return Turn::Finished { report: self.ledger.final_report() };
        }
        let due = copy_of(&self.plan[self.cursor]);
        assert(due@ == self@.plan[self@.cursor]);
        match due {
            Resolution::Room { index, key, leave_after } => Turn::Migrate {
                index,
                key,
                leave_after,
            },
            Resolution::Unusable { key, outcome } => {
                proof {
                    if self.wf() {
                        lemma_moved_on_with_wf(self@, outcome);
                    }
                }
                let snapshot = self.ledger.record(key.as_str(), outcome);
                self.cursor = self.cursor + 1;
                Turn::Recorded { key, outcome, snapshot }
            },
            Resolution::Skipped { error } => {
                proof {
                    if self.wf() {
                        lemma_moved_on_wf(self@);
                    }
                }
                self.cursor = self.cursor + 1;
                Turn::Skipped { error }
            },
        }
    }

    /// Takes the outcome of the room that is being migrated: records it under
    /// the room's identifier, moves on, and gives the text of the ledger as
    /// it now stands. Where no room is being migrated, nothing changes and
    /// there is no text.
    pub fn complete(&mut self, outcome: Outcome) -> (snapshot: Option<String>)
        ensures
            old(self)@.room_open() ==> final(self)@ == old(self)@.completed(outcome)
                && snapshot is Some && snapshot->0@ == report_text(final(self)@.ledger),
            !old(self)@.room_open() ==> final(self)@ == old(self)@ && snapshot is None,
            old(self).wf() ==> final(self).wf(),
    {
        if self.cursor >= self.plan.len() {
            return None;
        }
        let due = copy_of(&self.plan[self.cursor]);
        assert(due@ == self@.plan[self@.cursor]);
        match due {
            Resolution::Room { index, key, leave_after } => {
                proof {
                    if self.wf() {
                        lemma_moved_on_with_wf(self@, outcome);
                    }
                }
                let snapshot = self.ledger.record(key.as_str(), outcome);
                self.cursor = self.cursor + 1;
                Some(snapshot)
            },
            _ => None,
        }
    }
}

/// A room that a token resolves to is a room of the listing, and its key is
/// that room's identifier.
pub proof fn lemma_room_is_listed(entry: Result<TaskView, MalformedView>, ids: Seq<Seq<char>>)
    ensures
        resolve(entry, ids) matches ResolutionView::Room { index, key, .. } ==> 0 <= index
            < ids.len() && ids[index] == key,
{
    if let Ok(task) = entry {
        if let RoomRefView::Id(id) = task.room {
            if let Some(j) = position_of(ids, id) {
                assert(listed_first_at(ids, id, j));
            }
        }
    }
}

} // verus!
