use x11rb::cookie::CookieTable;
use x11rb::cookie::IssueError;
use x11rb::cookie::Outcome;
use x11rb::cookie::ReplyShape;
use x11rb::cookie::SEQUENCE_WINDOW;
use x11rb::utils::RawFdContainer;

#[test]
fn new_table_starts_at_one() {
    let table = CookieTable::new();
    assert_eq!(table.next_sequence(), 1);
    assert_eq!(table.len(), 0);
    assert_eq!(SEQUENCE_WINDOW, 65536);
}

#[test]
fn issue_gives_consecutive_numbers() {
    let mut table = CookieTable::starting_at(41);
    assert_eq!(table.issue(ReplyShape::Reply), Ok(41));
    assert_eq!(table.issue(ReplyShape::NoReply), Ok(42));
    assert_eq!(table.issue(ReplyShape::ReplyWithFds), Ok(43));
    assert_eq!(table.next_sequence(), 44);
    assert_eq!(table.len(), 3);
    assert_eq!(table.awaited(41), Some(ReplyShape::Reply));
    assert_eq!(table.awaited(42), Some(ReplyShape::NoReply));
    assert_eq!(table.awaited(43), Some(ReplyShape::ReplyWithFds));
    assert_eq!(table.awaited(44), None);
}

#[test]
fn issue_errors() {
    let mut table = CookieTable::starting_at(u64::MAX);
    assert_eq!(table.issue(ReplyShape::Reply), Err(IssueError::SequenceExhausted));
    assert_eq!(table.len(), 0);
    let mut table = CookieTable::starting_at(u64::MAX - 1);
    assert_eq!(table.issue(ReplyShape::Reply), Ok(u64::MAX - 1));
    assert_eq!(table.issue(ReplyShape::Reply), Err(IssueError::SequenceExhausted));
    let mut table = CookieTable::starting_at(10);
    assert_eq!(table.issue(ReplyShape::Reply), Ok(10));
    for _ in 0..65535 {
        let sequence = table.issue(ReplyShape::NoReply).unwrap();
        table.discard(sequence);
    }
    assert_eq!(table.issue(ReplyShape::Reply), Err(IssueError::TooManyPending));
    assert_eq!(table.next_sequence(), 10 + 65536);
}

#[test]
fn echo_resolves_to_the_latest_sequence_with_those_bits() {
    let table = CookieTable::starting_at(1);
    // Nothing was sent yet.
    assert_eq!(table.resolve(0), None);
    assert_eq!(table.resolve(1), None);
    let table = CookieTable::starting_at(6);
    assert_eq!(table.resolve(5), Some(5));
    assert_eq!(table.resolve(1), Some(1));
    // Sequence number 0 is never given, and 6 was not sent yet.
    assert_eq!(table.resolve(0), None);
    assert_eq!(table.resolve(6), None);
    let table = CookieTable::starting_at(0x3_0005);
    assert_eq!(table.resolve(4), Some(0x3_0004));
    assert_eq!(table.resolve(0), Some(0x3_0000));
    assert_eq!(table.resolve(5), Some(0x2_0005));
    assert_eq!(table.resolve(0xffff), Some(0x2_ffff));
    let table = CookieTable::starting_at(0x1_0000);
    assert_eq!(table.resolve(0xffff), Some(0xffff));
    assert_eq!(table.resolve(0), None);
    let table = CookieTable::starting_at(u64::MAX);
    assert_eq!(table.resolve(0xfffe), Some(u64::MAX - 1));
    assert_eq!(table.resolve(0xffff), Some(u64::MAX - 65536));
    let table = CookieTable::starting_at(0);
    assert_eq!(table.resolve(0), None);
}

#[test]
fn complete_gives_the_outcome_to_the_waiting_entry() {
    let mut table = CookieTable::new();
    table.issue(ReplyShape::Reply).unwrap();
    table.issue(ReplyShape::Reply).unwrap();
    assert_eq!(table.take(1), None);
    table.complete(2, Outcome::Reply(vec![1, 2], vec![RawFdContainer::new(3)]));
    assert_eq!(table.awaited(2), None);
    assert_eq!(table.awaited(1), Some(ReplyShape::Reply));
    assert_eq!(table.take(1), None);
    assert_eq!(table.take(2), Some(Outcome::Reply(vec![1, 2], vec![RawFdContainer::new(3)])));
    assert_eq!(table.take(2), None);
    assert_eq!(table.len(), 1);
}

#[test]
fn complete_does_not_replace_an_outcome() {
    let mut table = CookieTable::new();
    table.issue(ReplyShape::Reply).unwrap();
    table.complete(1, Outcome::Error(vec![0]));
    table.complete(1, Outcome::Reply(vec![1], Vec::new()));
    assert_eq!(table.take(1), Some(Outcome::Error(vec![0])));
}

#[test]
fn complete_settles_earlier_requests_without_reply_only() {
    let mut table = CookieTable::new();
    table.issue(ReplyShape::NoReply).unwrap();
    table.issue(ReplyShape::Reply).unwrap();
    table.issue(ReplyShape::NoReply).unwrap();
    table.issue(ReplyShape::Reply).unwrap();
    table.issue(ReplyShape::NoReply).unwrap();
    table.complete(4, Outcome::Reply(Vec::new(), Vec::new()));
    assert_eq!(table.take(1), Some(Outcome::Succeeded));
    assert_eq!(table.take(3), Some(Outcome::Succeeded));
    // A request that expects a reply is not settled by a later one.
    assert_eq!(table.take(2), None);
    assert_eq!(table.awaited(2), Some(ReplyShape::Reply));
    // Nothing was seen after the fifth.
    assert_eq!(table.take(5), None);
    assert_eq!(table.len(), 3);
}

#[test]
fn complete_without_an_entry_still_settles() {
    let mut table = CookieTable::new();
    table.issue(ReplyShape::NoReply).unwrap();
    table.issue(ReplyShape::Reply).unwrap();
    table.discard(2);
    table.complete(2, Outcome::Reply(Vec::new(), Vec::new()));
    assert_eq!(table.len(), 1);
    assert_eq!(table.take(1), Some(Outcome::Succeeded));
}

#[test]
fn discard_marks_a_waiting_reply_and_frees_anything_else() {
    let mut table = CookieTable::new();
    table.issue(ReplyShape::Reply).unwrap();
    table.issue(ReplyShape::NoReply).unwrap();
    table.issue(ReplyShape::ReplyWithFds).unwrap();
    table.discard(2);
    assert_eq!(table.len(), 2);
    table.discard(1);
    table.discard(3);
    assert_eq!(table.len(), 2);
    // The marked entries still wait, so that their replies can be drained.
    assert_eq!(table.awaited(1), Some(ReplyShape::Reply));
    assert_eq!(table.awaited(3), Some(ReplyShape::ReplyWithFds));
    table.complete(1, Outcome::Error(Vec::new()));
    assert_eq!(table.len(), 1);
    table.complete(3, Outcome::Reply(Vec::new(), vec![RawFdContainer::new(1)]));
    assert_eq!(table.len(), 0);
    assert_eq!(table.take(1), None);
    assert_eq!(table.take(3), None);
}

#[test]
fn clear_frees_everything_and_keeps_the_counter() {
    let mut table = CookieTable::new();
    table.issue(ReplyShape::Reply).unwrap();
    table.issue(ReplyShape::NoReply).unwrap();
    table.clear();
    assert_eq!(table.len(), 0);
    assert_eq!(table.next_sequence(), 3);
    assert_eq!(table.issue(ReplyShape::Reply), Ok(3));
}

#[test]
fn descriptors_that_no_entry_takes_come_back() {
    let mut table = CookieTable::new();
    table.issue(ReplyShape::ReplyWithFds).unwrap();
    table.issue(ReplyShape::ReplyWithFds).unwrap();
    table.issue(ReplyShape::ReplyWithFds).unwrap();
    // Stored with the entry: nothing comes back.
    let dropped = table.complete(1, Outcome::Reply(vec![1], vec![RawFdContainer::new(10)]));
    assert!(dropped.is_empty());
    // A second response for the same request is dropped.
    let dropped = table.complete(1, Outcome::Reply(vec![1], vec![RawFdContainer::new(11)]));
    assert_eq!(dropped, vec![RawFdContainer::new(11)]);
    // No entry at all.
    let dropped = table.complete(9, Outcome::Reply(vec![1], vec![RawFdContainer::new(12)]));
    assert_eq!(dropped, vec![RawFdContainer::new(12)]);
    // Given up before the reply came.
    assert!(table.discard(2).is_empty());
    let dropped = table.complete(2, Outcome::Reply(vec![1], vec![RawFdContainer::new(13)]));
    assert_eq!(dropped, vec![RawFdContainer::new(13)]);
    // Given up after the reply came.
    assert_eq!(table.discard(1), vec![RawFdContainer::new(10)]);
    assert!(table.complete(3, Outcome::Error(vec![0])).is_empty());
    assert!(table.discard(3).is_empty());
    assert_eq!(table.len(), 0);
}

#[test]
fn clear_hands_back_the_descriptors_of_unread_replies_latest_first() {
    let mut table = CookieTable::new();
    for _ in 0..4 {
        table.issue(ReplyShape::ReplyWithFds).unwrap();
    }
    table.complete(1, Outcome::Reply(vec![1], vec![RawFdContainer::new(10), RawFdContainer::new(11)]));
    table.complete(2, Outcome::Error(vec![0]));
    table.complete(4, Outcome::Reply(vec![1], vec![RawFdContainer::new(12)]));
    assert_eq!(
        table.clear(),
        vec![RawFdContainer::new(12), RawFdContainer::new(10), RawFdContainer::new(11)]
    );
    assert!(table.clear().is_empty());
}

#[test]
fn an_answered_entry_does_not_count_for_the_window() {
    let mut table = CookieTable::new();
    table.issue(ReplyShape::Reply).unwrap();
    table.complete(1, Outcome::Error(vec![0]));
    for _ in 0..65536 {
        let sequence = table.issue(ReplyShape::NoReply).unwrap();
        table.discard(sequence);
    }
    assert_eq!(table.issue(ReplyShape::Reply), Ok(65538));
    assert_eq!(table.take(1), Some(Outcome::Error(vec![0])));
}
