use room_migration::ledger::ProgressLedger;
use room_migration::outcome::Outcome;
use room_migration::run::{resolve_entry, Resolution, Run, Turn};
use room_migration::selection::{MalformedSelection, Malformation, MigrationTask, RoomRef};
use room_migration::snapshot::{find_room, HistoryVisibility, RoomSnapshotEntry};

fn room(id: &str, name: &str) -> RoomSnapshotEntry {
    RoomSnapshotEntry::capture(id, name, Some(false), HistoryVisibility::Shared, false)
}

fn two_rooms() -> Vec<RoomSnapshotEntry> {
    vec![room("!a:example.org", "RoomA"), room("!b:example.org", "RoomB")]
}

#[test]
fn empty_ledger_report() {
    let ledger = ProgressLedger::new();
    assert_eq!(ledger.len(), 0);
    assert_eq!(ledger.final_report(), "{\n    \"rooms\": {}\n}");
    assert_eq!(ledger.get("!a:example.org"), None);
    assert_eq!(ledger.key_at(0), None);
}

#[test]
fn record_appends_in_order_and_gives_the_snapshot() {
    let mut ledger = ProgressLedger::new();
    let first = ledger.record("!b:example.org", Outcome::CanLeave);
    assert_eq!(first, "{\n    \"rooms\": {\n        \"!b:example.org\": \"CAN_LEAVE\"\n    }\n}");
    let second = ledger.record("!a:example.org", Outcome::Left);
    assert_eq!(
        second,
        "{\n    \"rooms\": {\n        \"!b:example.org\": \"CAN_LEAVE\",\n        \"!a:example.org\": \"LEFT\"\n    }\n}"
    );
    assert_eq!(ledger.len(), 2);
    assert_eq!(ledger.key_at(0), Some("!b:example.org".to_string()));
    assert_eq!(ledger.key_at(1), Some("!a:example.org".to_string()));
    assert_eq!(ledger.key_at(2), None);
    assert_eq!(ledger.get("!a:example.org"), Some(Outcome::Left));
    assert_eq!(ledger.get("!b:example.org"), Some(Outcome::CanLeave));
    assert_eq!(ledger.final_report(), second);
}

#[test]
fn record_twice_keeps_the_place_and_the_last_outcome() {
    let mut ledger = ProgressLedger::new();
    ledger.record("!a:example.org", Outcome::InviteError);
    ledger.record("!b:example.org", Outcome::Left);
    let text = ledger.record("!a:example.org", Outcome::CanLeave);
    assert_eq!(ledger.len(), 2);
    assert_eq!(ledger.key_at(0), Some("!a:example.org".to_string()));
    assert_eq!(ledger.get("!a:example.org"), Some(Outcome::CanLeave));
    assert_eq!(ledger.get("!b:example.org"), Some(Outcome::Left));
    assert_eq!(
        text,
        "{\n    \"rooms\": {\n        \"!a:example.org\": \"CAN_LEAVE\",\n        \"!b:example.org\": \"LEFT\"\n    }\n}"
    );
}

#[test]
fn record_never_loses_an_entry() {
    let mut ledger = ProgressLedger::new();
    let keys = ["!a:x.org", "!b:x.org", "!c:x.org", "!a:x.org", "!d:x.org"];
    let mut seen: Vec<&str> = Vec::new();
    for key in keys {
        ledger.record(key, Outcome::CanLeave);
        if !seen.contains(&key) {
            seen.push(key);
        }
        for earlier in &seen {
            assert!(ledger.get(earlier).is_some());
        }
        assert_eq!(ledger.len(), seen.len());
    }
}

#[test]
fn report_escapes_keys_as_json_does() {
    let mut ledger = ProgressLedger::new();
    let text = ledger.record("!a\"b\\c", Outcome::RoomIdInvalid);
    assert_eq!(text, "{\n    \"rooms\": {\n        \"!a\\\"b\\\\c\": \"ROOMID_INVALID\"\n    }\n}");
}

#[test]
fn capture_defaults() {
    let unknown = RoomSnapshotEntry::capture("!a:x.org", "A", None, HistoryVisibility::Joined, true);
    assert!(unknown.is_encrypted);
    assert!(!unknown.has_open_history);
    assert!(unknown.target_already_member);
    assert_eq!(unknown.room_id, "!a:x.org");
    assert_eq!(unknown.display_name, "A");
    let plain = RoomSnapshotEntry::capture("!a:x.org", "A", Some(false), HistoryVisibility::WorldReadable, false);
    assert!(!plain.is_encrypted);
    assert!(plain.has_open_history);
    assert!(RoomSnapshotEntry::capture("!a:x.org", "A", Some(true), HistoryVisibility::Shared, false).has_open_history);
    assert!(!RoomSnapshotEntry::capture("!a:x.org", "A", Some(true), HistoryVisibility::Invited, false).has_open_history);
    assert!(!RoomSnapshotEntry::capture("!a:x.org", "A", Some(true), HistoryVisibility::Other, false).has_open_history);
}

#[test]
fn find_room_gives_the_first_place() {
    let listing = vec![room("!a:x.org", "A"), room("!b:x.org", "B"), room("!b:x.org", "B2")];
    assert_eq!(find_room(&listing, &"!a:x.org".to_string()), Some(0));
    assert_eq!(find_room(&listing, &"!b:x.org".to_string()), Some(1));
    assert_eq!(find_room(&listing, &"!c:x.org".to_string()), None);
}

#[test]
fn resolve_entry_cases() {
    let listing = two_rooms();
    assert_eq!(
        resolve_entry(&Ok(MigrationTask { room: RoomRef::Index(1), leave_after: true }), &listing),
        Resolution::Room { index: 1, key: "!b:example.org".to_string(), leave_after: true }
    );
    assert_eq!(
        resolve_entry(
            &Ok(MigrationTask { room: RoomRef::Id("!a:example.org".to_string()), leave_after: false }),
            &listing
        ),
        Resolution::Room { index: 0, key: "!a:example.org".to_string(), leave_after: false }
    );
    assert_eq!(
        resolve_entry(
            &Ok(MigrationTask { room: RoomRef::Id("!z:example.org".to_string()), leave_after: false }),
            &listing
        ),
        Resolution::Unusable { key: "!z:example.org".to_string(), outcome: Outcome::RoomNotFound }
    );
    assert_eq!(
        resolve_entry(
            &Err(MalformedSelection { token: "!bad".to_string(), reason: Malformation::InvalidRoomId }),
            &listing
        ),
        Resolution::Unusable { key: "!bad".to_string(), outcome: Outcome::RoomIdInvalid }
    );
    assert_eq!(
        resolve_entry(
            &Err(MalformedSelection { token: "x".to_string(), reason: Malformation::NotAnInteger }),
            &listing
        ),
        Resolution::Skipped {
            error: MalformedSelection { token: "x".to_string(), reason: Malformation::NotAnInteger }
        }
    );
    assert_eq!(
        resolve_entry(&Ok(MigrationTask { room: RoomRef::Index(2), leave_after: true }), &listing),
        Resolution::Skipped {
            error: MalformedSelection { token: String::new(), reason: Malformation::IndexOutOfRange }
        }
    );
}

#[test]
fn run_two_rooms_second_with_leave() {
    let mut run = Run::new(two_rooms(), "0,1#");
    assert_eq!(run.planned(), 2);
    assert_eq!(run.handled(), 0);
    assert_eq!(
        run.next(),
        Turn::Migrate { index: 0, key: "!a:example.org".to_string(), leave_after: false }
    );
    let first = run.complete(Outcome::CanLeave).unwrap();
    assert_eq!(first, "{\n    \"rooms\": {\n        \"!a:example.org\": \"CAN_LEAVE\"\n    }\n}");
    assert_eq!(
        run.next(),
        Turn::Migrate { index: 1, key: "!b:example.org".to_string(), leave_after: true }
    );
    let second = run.complete(Outcome::Left).unwrap();
    assert_eq!(run.handled(), 2);
    assert_eq!(run.ledger().get("!a:example.org"), Some(Outcome::CanLeave));
    assert_eq!(run.ledger().get("!b:example.org"), Some(Outcome::Left));
    assert_eq!(run.ledger().len(), 2);
    assert_eq!(run.next(), Turn::Finished { report: second.clone() });
    assert_eq!(
        second,
        "{\n    \"rooms\": {\n        \"!a:example.org\": \"CAN_LEAVE\",\n        \"!b:example.org\": \"LEFT\"\n    }\n}"
    );
}

#[test]
fn run_records_an_invalid_room_id_and_goes_on() {
    let mut run = Run::new(two_rooms(), "!bad_id,1");
    match run.next() {
        Turn::Recorded { key, outcome, snapshot } => {
            assert_eq!(key, "!bad_id");
            assert_eq!(outcome, Outcome::RoomIdInvalid);
            assert_eq!(snapshot, "{\n    \"rooms\": {\n        \"!bad_id\": \"ROOMID_INVALID\"\n    }\n}");
        }
        other => panic!("unexpected turn {:?}", other),
    }
    assert_eq!(run.ledger().get("!bad_id"), Some(Outcome::RoomIdInvalid));
    assert_eq!(
        run.next(),
        Turn::Migrate { index: 1, key: "!b:example.org".to_string(), leave_after: false }
    );
    assert!(run.complete(Outcome::CanLeave).is_some());
    assert!(matches!(run.next(), Turn::Finished { .. }));
    assert_eq!(run.ledger().len(), 2);
}

#[test]
fn run_records_an_unknown_room() {
    let mut run = Run::new(two_rooms(), "!gone:example.org#");
    match run.next() {
        Turn::Recorded { key, outcome, .. } => {
            assert_eq!(key, "!gone:example.org");
            assert_eq!(outcome, Outcome::RoomNotFound);
        }
        other => panic!("unexpected turn {:?}", other),
    }
    assert!(matches!(run.next(), Turn::Finished { .. }));
}

#[test]
fn run_finds_rooms_by_identifier_in_selection_order() {
    let mut run = Run::new(two_rooms(), "!b:example.org#, !a:example.org");
    assert_eq!(
        run.next(),
        Turn::Migrate { index: 1, key: "!b:example.org".to_string(), leave_after: true }
    );
    run.complete(Outcome::Left);
    assert_eq!(
        run.next(),
        Turn::Migrate { index: 0, key: "!a:example.org".to_string(), leave_after: false }
    );
    run.complete(Outcome::InviteError);
    assert_eq!(run.ledger().key_at(0), Some("!b:example.org".to_string()));
    assert_eq!(run.ledger().key_at(1), Some("!a:example.org".to_string()));
}

#[test]
fn run_passes_over_malformed_tokens() {
    let mut run = Run::new(two_rooms(), "x,7,0");
    assert_eq!(
        run.next(),
        Turn::Skipped {
            error: MalformedSelection { token: "x".to_string(), reason: Malformation::NotAnInteger }
        }
    );
    assert_eq!(
        run.next(),
        Turn::Skipped {
            error: MalformedSelection { token: "7".to_string(), reason: Malformation::IndexOutOfRange }
        }
    );
    assert_eq!(run.ledger().len(), 0);
    assert!(matches!(run.next(), Turn::Migrate { index: 0, .. }));
    assert!(matches!(run.next(), Turn::Migrate { index: 0, .. }));
    assert_eq!(run.handled(), 2);
    run.complete(Outcome::PowerLevelError);
    assert_eq!(run.handled(), 3);
    assert_eq!(run.ledger().len(), 1);
}

#[test]
fn complete_without_open_room_changes_nothing() {
    let mut run = Run::new(two_rooms(), "x");
    assert_eq!(run.complete(Outcome::Left), None);
    assert_eq!(run.handled(), 0);
    run.next();
    assert_eq!(run.complete(Outcome::Left), None);
    assert_eq!(run.handled(), 1);
    assert_eq!(run.ledger().len(), 0);
    assert_eq!(run.next(), Turn::Finished { report: "{\n    \"rooms\": {}\n}".to_string() });
}

#[test]
fn final_report_is_the_last_snapshot() {
    let mut run = Run::new(two_rooms(), "1#,!nope,0,zz");
    let mut last = String::new();
    loop {
        match run.next() {
            Turn::Migrate { leave_after, .. } => {
                let outcome = if leave_after { Outcome::LeaveError } else { Outcome::CanLeave };
                last = run.complete(outcome).unwrap();
            }
            Turn::Recorded { snapshot, .. } => last = snapshot,
            Turn::Skipped { .. } => {}
            Turn::Finished { report } => {
                assert_eq!(report, last);
                break;
            }
        }
    }
    assert_eq!(
        last,
        "{\n    \"rooms\": {\n        \"!b:example.org\": \"LEAVE_ERROR\",\n        \"!nope\": \"ROOMID_INVALID\",\n        \"!a:example.org\": \"CAN_LEAVE\"\n    }\n}"
    );
}
