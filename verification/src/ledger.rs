//! The record of a run: which room ended how, in the order in which the
//! rooms were handled.

use vstd::prelude::*;
use crate::outcome::{lemma_code_injective, Outcome};
use crate::report::{members_of, pretty_document, print_document, Member};

verus! {

/// The name of the report's one section.
pub open spec fn section() -> Seq<char> {
    "rooms"@
}

/// The blanks per level of a report.
pub const INDENT: u16 = 4;

/// Whether the record has an entry for the key.
pub open spec fn has_key(entries: Seq<(Seq<char>, Outcome)>, key: Seq<char>) -> bool {
    exists|i: int| 0 <= i < entries.len() && (#[trigger] entries[i]).0 == key
}

/// No key stands twice in the record.
pub open spec fn keys_unique(entries: Seq<(Seq<char>, Outcome)>) -> bool {
    forall|i: int, j: int|
        0 <= i < j < entries.len() ==> (#[trigger] entries[i]).0 != (#[trigger] entries[j]).0
}

/// Whether the key stands at place `i` of the record and at none before it.
pub open spec fn first_at(entries: Seq<(Seq<char>, Outcome)>, key: Seq<char>, i: int) -> bool {
    &&& 0 <= i < entries.len()
    &&& entries[i].0 == key
    &&& forall|j: int| 0 <= j < i ==> (#[trigger] entries[j]).0 != key
}

/// The first place of the key in the record.
pub open spec fn place_of(entries: Seq<(Seq<char>, Outcome)>, key: Seq<char>) -> int {
    choose|i: int| first_at(entries, key, i)
}

/// The outcome that the record holds for the key.
pub open spec fn outcome_of(entries: Seq<(Seq<char>, Outcome)>, key: Seq<char>) -> Option<
    Outcome,
> {
    if has_key(entries, key) {
        Some(entries[place_of(entries, key)].1)
    } else {
        None
    }
}

/// The record after `outcome` was recorded for `key`: a new key goes to the
/// end; the outcome of a key that is there already is replaced in its place.
pub open spec fn recorded(
    entries: Seq<(Seq<char>, Outcome)>,
    key: Seq<char>,
    outcome: Outcome,
) -> Seq<(Seq<char>, Outcome)> {
    if has_key(entries, key) {
        entries.update(place_of(entries, key), (key, outcome))
    } else {
        entries.push((key, outcome))
    }
}

/// The members of the report of a record: each key with the code of its
/// outcome.
pub open spec fn report_members(entries: Seq<(Seq<char>, Outcome)>) -> Seq<
    (Seq<char>, Seq<char>),
> {
    Seq::new(entries.len(), |i: int| (entries[i].0, entries[i].1.code()))
}

/// The report of a record, as text.
pub open spec fn report_text(entries: Seq<(Seq<char>, Outcome)>) -> Seq<char> {
    pretty_document(section(), report_members(entries), INDENT)
}

/// The place that `place_of` names is the one place where the key stands
/// first.
pub proof fn lemma_first_place(entries: Seq<(Seq<char>, Outcome)>, key: Seq<char>, i: int)
    requires
        first_at(entries, key, i),
    ensures
        has_key(entries, key),
        place_of(entries, key) == i,
{
    let p = place_of(entries, key);
    assert(first_at(entries, key, p));
    if p < i {
        assert(entries[p].0 != key);
    }
    if i < p {
        assert(entries[i].0 != key);
    }
}

/// A record that has the key has a first place for it.
pub proof fn lemma_has_first_place(entries: Seq<(Seq<char>, Outcome)>, key: Seq<char>)
    requires
        has_key(entries, key),
    ensures
        first_at(entries, key, place_of(entries, key)),
    decreases entries.len(),
{
    let i = choose|i: int| 0 <= i < entries.len() && (#[trigger] entries[i]).0 == key;
    lemma_least_place(entries, key, i);
}

proof fn lemma_least_place(entries: Seq<(Seq<char>, Outcome)>, key: Seq<char>, i: int)
    requires
        0 <= i < entries.len(),
        entries[i].0 == key,
    ensures
        exists|p: int| first_at(entries, key, p),
    decreases i,
{
    if exists|j: int| 0 <= j < i && (#[trigger] entries[j]).0 == key {
        let j = choose|j: int| 0 <= j < i && (#[trigger] entries[j]).0 == key;
        lemma_least_place(entries, key, j);
    } else {
        assert(first_at(entries, key, i));
    }
}

/// Recording keeps the keys of a record apart.
pub proof fn lemma_recorded_unique(
    entries: Seq<(Seq<char>, Outcome)>,
    key: Seq<char>,
    outcome: Outcome,
)
    requires
        keys_unique(entries),
    ensures
        keys_unique(recorded(entries, key, outcome)),
{
    let after = recorded(entries, key, outcome);
    if has_key(entries, key) {
        lemma_has_first_place(entries, key);
        let p = place_of(entries, key);
        assert forall|i: int, j: int| 0 <= i < j < after.len() implies (#[trigger] after[i]).0 != (
        #[trigger] after[j]).0 by {
            assert(entries[i].0 != entries[j].0);
            assert(after[i].0 == entries[i].0);
            assert(after[j].0 == entries[j].0);
        }
    } else {
        assert forall|i: int, j: int| 0 <= i < j < after.len() implies (#[trigger] after[i]).0 != (
        #[trigger] after[j]).0 by {
            if j < entries.len() {
                assert(entries[i].0 != entries[j].0);
            } else {
                assert(entries[i].0 != key);
            }
        }
    }
}

/// Recording loses nothing: the record does not get shorter, every key stays
/// at its place, every entry under another key stays as it is, and the
/// record then has the key that was recorded and no other new one.
pub proof fn lemma_recorded_keeps_entries(
    entries: Seq<(Seq<char>, Outcome)>,
    key: Seq<char>,
    outcome: Outcome,
)
    ensures
        recorded(entries, key, outcome).len() >= entries.len(),
        forall|i: int|
            0 <= i < entries.len() ==> (#[trigger] recorded(entries, key, outcome)[i]).0
                == entries[i].0,
        forall|i: int|
            0 <= i < entries.len() && entries[i].0 != key ==> #[trigger] recorded(
                entries,
                key,
                outcome,
            )[i] == entries[i],
        forall|k: Seq<char>|
            #[trigger] has_key(recorded(entries, key, outcome), k) <==> has_key(entries, k) || k
                == key,
{
    let after = recorded(entries, key, outcome);
    if has_key(entries, key) {
        lemma_has_first_place(entries, key);
    }
    assert forall|k: Seq<char>| #[trigger] has_key(after, k) <==> has_key(entries, k) || k
        == key by {
        if has_key(after, k) {
            let i = choose|i: int| 0 <= i < after.len() && (#[trigger] after[i]).0 == k;
            if i < entries.len() {
                assert(entries[i].0 == k);
            }
        }
        if has_key(entries, k) {
            let i = choose|i: int| 0 <= i < entries.len() && (#[trigger] entries[i]).0 == k;
            assert(after[i].0 == k);
        }
        if k == key {
            if has_key(entries, key) {
                assert(after[place_of(entries, key)].0 == k);
            } else {
                assert(after[entries.len() as int].0 == k);
            }
        }
    }
}

/// After recording, the record holds the new outcome for the key and, for
/// every other key, the outcome that it held before.
pub proof fn lemma_recorded_outcomes(
    entries: Seq<(Seq<char>, Outcome)>,
    key: Seq<char>,
    outcome: Outcome,
    other: Seq<char>,
)
    ensures
        outcome_of(recorded(entries, key, outcome), key) == Some(outcome),
        other != key ==> outcome_of(recorded(entries, key, outcome), other) == outcome_of(
            entries,
            other,
        ),
{
    let after = recorded(entries, key, outcome);
    lemma_recorded_keeps_entries(entries, key, outcome);
    if has_key(entries, key) {
        lemma_has_first_place(entries, key);
        let p = place_of(entries, key);
        assert(first_at(after, key, p)) by {
            assert forall|j: int| 0 <= j < p implies (#[trigger] after[j]).0 != key by {
                assert(entries[j].0 != key);
            }
        }
        lemma_first_place(after, key, p);
    } else {
        let p = entries.len() as int;
        assert(first_at(after, key, p)) by {
            assert forall|j: int| 0 <= j < p implies (#[trigger] after[j]).0 != key by {
                assert(entries[j].0 != key);
            }
        }
        lemma_first_place(after, key, p);
    }
    if other != key {
        assert(has_key(after, other) == has_key(entries, other));
        if has_key(entries, other) {
            lemma_has_first_place(entries, other);
            let q = place_of(entries, other);
            assert(first_at(after, other, q)) by {
                assert(after[q] == entries[q]);
                assert forall|j: int| 0 <= j < q implies (#[trigger] after[j]).0 != other by {
                    assert(entries[j].0 != other);
                }
            }
            lemma_first_place(after, other, q);
        }
    }
}

/// A report tells its record: two records with the same report members, that
/// is the same keys with the same codes in the same order, are the same.
pub proof fn lemma_report_members_injective(
    a: Seq<(Seq<char>, Outcome)>,
    b: Seq<(Seq<char>, Outcome)>,
)
    requires
        report_members(a) == report_members(b),
    ensures
        a == b,
{
    assert(a.len() == report_members(a).len());
    assert(b.len() == report_members(b).len());
    assert forall|i: int| 0 <= i < a.len() implies a[i] == b[i] by {
        assert(report_members(a)[i] == report_members(b)[i]);
        lemma_code_injective(a[i].1, b[i].1);
    }
    assert(a =~= b);
}

/// One entry of the record.
#[derive(Clone, Debug, PartialEq, Eq)]
pub struct LedgerEntry {
    pub key: String,
    pub outcome: Outcome,
}

impl View for LedgerEntry {
    type V = (Seq<char>, Outcome);

    open spec fn view(&self) -> (Seq<char>, Outcome) {
        (self.key@, self.outcome)
    }
}

/// The record of a run. It starts empty and only grows: an entry is never
/// taken out, and no key comes to stand in it twice.
#[derive(Clone, Debug, PartialEq, Eq)]
pub struct ProgressLedger {
    entries: Vec<LedgerEntry>,
}

impl View for ProgressLedger {
    type V = Seq<(Seq<char>, Outcome)>;

    closed spec fn view(&self) -> Seq<(Seq<char>, Outcome)> {
        Seq::new(self.entries@.len(), |i: int| self.entries@[i]@)
    }
}

impl ProgressLedger {
    /// No key stands twice in the record. It holds of the empty record, and
    /// recording keeps it.
    pub open spec fn wf(&self) -> bool {
        keys_unique(self@)
    }

    /// The empty record.
    pub fn new() -> (ledger: ProgressLedger)
        ensures
            ledger@ == Seq::<(Seq<char>, Outcome)>::empty(),
            ledger.wf(),
    {
        ProgressLedger { entries: Vec::new() }
    }

    /// The number of entries.
    pub fn len(&self) -> (n: usize)
        ensures
            n == self@.len(),
    {
        self.entries.len()
    }

    /// Where the key stands in the record, if it does.
    fn find(&self, key: &String) -> (place: Option<usize>)
        ensures
            match place {
                Some(i) => first_at(self@, key@, i as int),
                None => !has_key(self@, key@),
            },
    {
        let n: usize = self.entries.len();
        let mut i: usize = 0;
        while i < n
            invariant
                i <= n,
                n == self.entries@.len(),
                forall|j: int| 0 <= j < i ==> (#[trigger] self@[j]).0 != key@,
            decreases n - i,
        {
            if self.entries[i].key == *key {
                return Some(i);
            }
            i = i + 1;
        }
        None
    }

    /// The outcome recorded for the key, if there is one.
    pub fn get(&self, key: &str) -> (outcome: Option<Outcome>)
        ensures
            outcome == outcome_of(self@, key@),
    {
        let wanted: String = key.to_owned();
        match self.find(&wanted) {
            Some(i) => {
                proof {
                    lemma_first_place(self@, key@, i as int);
                }
                Some(self.entries[i].outcome)
            },
            None => None,
        }
    }

    /// The key of the entry at `position`, in the order of recording.
    pub fn key_at(&self, position: usize) -> (key: Option<String>)
        ensures
            match key {
                Some(k) => position < self@.len() && k@ == self@[position as int].0,
                None => position >= self@.len(),
            },
    {
        if position < self.entries.len() {
            Some(self.entries[position].key.clone())
        } else {
            None
        }
    }

    /// Records the outcome of a room and gives the text of the whole record
    /// as it then stands, to be written out before the next room is touched.
    /// A new key goes to the end; for a key that is there already the last
    /// outcome wins.
    pub fn record(&mut self, key: &str, outcome: Outcome) -> (snapshot: String)
        ensures
            final(self)@ == recorded(old(self)@, key@, outcome),
            old(self).wf() ==> final(self).wf(),
            snapshot@ == report_text(final(self)@),
    {
        let owned: String = key.to_owned();
        proof {
            if self.wf() {
                lemma_recorded_unique(self@, key@, outcome);
            }
        }
        match self.find(&owned) {
            Some(i) => {
                proof {
                    lemma_first_place(self@, key@, i as int);
                }
                self.entries.set(i, LedgerEntry { key: owned, outcome });
                assert(self@ =~= recorded(old(self)@, key@, outcome));
            },
            None => {
                self.entries.push(LedgerEntry { key: owned, outcome });
                assert(self@ =~= recorded(old(self)@, key@, outcome));
            },
        }
        self.final_report()
    }

    /// The text of the whole record.
    pub fn final_report(&self) -> (text: String)
        ensures
            text@ == report_text(self@),
    {
        let n: usize = self.entries.len();
        let mut members: Vec<Member> = Vec::new();
        let mut i: usize = 0;
        while i < n
            invariant
                i <= n,
                n == self.entries@.len(),
                members@.len() == i,
                forall|j: int|
                    0 <= j < i ==> (#[trigger] members@[j])@ == (
                        self@[j].0,
                        self@[j].1.code(),
                    ),
            decreases n - i,
        {
            let entry = &self.entries[i];
            members.push(
                Member { key: entry.key.clone(), value: entry.outcome.as_str().to_owned() },
            );
            i = i + 1;
        }
        assert(members_of(members@) =~= report_members(self@));
        print_document("rooms", &members, INDENT)
    }
}

} // verus!
