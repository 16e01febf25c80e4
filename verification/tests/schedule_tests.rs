use shelly_web::archive_service::{ArchiveAction, ArchiveEvent, ArchivePhase, ArchiveSchedule};
use shelly_web::cancellation_token::CancellationToken;

const MINUTE: i128 = 60_000_000_000;

#[test]
fn cancellation_token_lifecycle() {
    let mut token = CancellationToken::new();
    assert!(!token.is_cancelled());
    token.cancel();
    assert!(token.is_cancelled());
    token.cancel();
    assert!(token.is_cancelled());
    assert!(!CancellationToken::default().is_cancelled());
}

#[test]
fn schedule_first_tick_archives() {
    let mut schedule = ArchiveSchedule::new(0);
    let now = 1_700_000_000 * 1_000_000_000i128;
    assert_eq!(schedule.step(ArchiveEvent::Tick { cancelled: false, now }), ArchiveAction::ArchiveData);
    assert_eq!(schedule.phase(), ArchivePhase::Archiving);
    assert_eq!(schedule.step(ArchiveEvent::Archived { succeeded: true, now }), ArchiveAction::Sleep);
    assert_eq!(schedule.last_archive(), now);
    assert_eq!(schedule.step(ArchiveEvent::Tick { cancelled: false, now: now + MINUTE - 1 }), ArchiveAction::Sleep);
    assert_eq!(schedule.step(ArchiveEvent::Tick { cancelled: false, now: now + MINUTE }), ArchiveAction::ArchiveData);
}

#[test]
fn schedule_failed_archive_retries_next_tick() {
    let mut schedule = ArchiveSchedule::new(0);
    let now = 100 * MINUTE;
    assert_eq!(schedule.step(ArchiveEvent::Tick { cancelled: false, now }), ArchiveAction::ArchiveData);
    assert_eq!(schedule.step(ArchiveEvent::Archived { succeeded: false, now }), ArchiveAction::Sleep);
    assert_eq!(schedule.last_archive(), 0);
    assert_eq!(schedule.step(ArchiveEvent::Tick { cancelled: false, now: now + 1 }), ArchiveAction::ArchiveData);
}

#[test]
fn schedule_clock_before_last_run_waits() {
    let mut schedule = ArchiveSchedule::new(0);
    assert_eq!(schedule.step(ArchiveEvent::Tick { cancelled: false, now: -5 }), ArchiveAction::Sleep);
    assert_eq!(schedule.step(ArchiveEvent::Tick { cancelled: false, now: i128::MIN }), ArchiveAction::Sleep);
}

#[test]
fn schedule_limit_trims_when_over() {
    let mut schedule = ArchiveSchedule::new(1);
    let now = 10 * MINUTE;
    assert_eq!(schedule.storage_size(), 1);
    assert_eq!(schedule.step(ArchiveEvent::Tick { cancelled: false, now }), ArchiveAction::ArchiveData);
    assert_eq!(schedule.step(ArchiveEvent::Archived { succeeded: true, now }), ArchiveAction::MeasureDbSize);
    assert_eq!(schedule.step(ArchiveEvent::DbSize { size: Some(1025) }), ArchiveAction::RemoveOldEntries);
    assert_eq!(schedule.step(ArchiveEvent::Removed), ArchiveAction::Sleep);
    assert_eq!(schedule.step(ArchiveEvent::Tick { cancelled: false, now: now + MINUTE }), ArchiveAction::ArchiveData);
    assert_eq!(schedule.step(ArchiveEvent::Archived { succeeded: false, now: now + MINUTE }), ArchiveAction::MeasureDbSize);
    assert_eq!(schedule.step(ArchiveEvent::DbSize { size: Some(1024) }), ArchiveAction::Sleep);
    // the failed run left the last successful one in place
    assert_eq!(schedule.last_archive(), now);
    assert_eq!(schedule.step(ArchiveEvent::Tick { cancelled: false, now: now + MINUTE + 1 }), ArchiveAction::ArchiveData);
}

#[test]
fn schedule_unreadable_size_skips_trim() {
    let mut schedule = ArchiveSchedule::new(4);
    let now = 10 * MINUTE;
    schedule.step(ArchiveEvent::Tick { cancelled: false, now });
    schedule.step(ArchiveEvent::Archived { succeeded: true, now });
    assert_eq!(schedule.step(ArchiveEvent::DbSize { size: None }), ArchiveAction::Sleep);
    assert_eq!(schedule.phase(), ArchivePhase::Waiting);
}

#[test]
fn schedule_cancel_stops_for_good() {
    let mut schedule = ArchiveSchedule::new(2);
    assert_eq!(schedule.step(ArchiveEvent::Tick { cancelled: true, now: 10 * MINUTE }), ArchiveAction::Stop);
    assert_eq!(schedule.phase(), ArchivePhase::Stopped);
    assert_eq!(schedule.step(ArchiveEvent::Tick { cancelled: false, now: 20 * MINUTE }), ArchiveAction::Stop);
    assert_eq!(schedule.step(ArchiveEvent::Removed), ArchiveAction::Stop);
}

#[test]
fn schedule_unexpected_event_repeats_request() {
    let mut schedule = ArchiveSchedule::new(2);
    schedule.step(ArchiveEvent::Tick { cancelled: false, now: 10 * MINUTE });
    assert_eq!(schedule.step(ArchiveEvent::Removed), ArchiveAction::ArchiveData);
    assert_eq!(schedule.phase(), ArchivePhase::Archiving);
    assert_eq!(schedule.step(ArchiveEvent::Tick { cancelled: true, now: 0 }), ArchiveAction::ArchiveData);
}

#[test]
fn cancellation_token_answers_after_calls() {
    let mut token = CancellationToken::default();
    let mut answers = Vec::new();
    for call in ["check", "check", "cancel", "check", "check"] {
        if call == "cancel" {
            token.cancel();
        } else {
            answers.push(token.is_cancelled());
        }
    }
    assert_eq!(answers, vec![false, false, true, true]);
}

#[test]
fn schedule_unlimited_never_measures() {
    let mut schedule = ArchiveSchedule::new(0);
    let mut now = 0i128;
    for _ in 0..5 {
        now += MINUTE;
        assert_eq!(schedule.step(ArchiveEvent::Tick { cancelled: false, now }), ArchiveAction::ArchiveData);
        assert_eq!(schedule.step(ArchiveEvent::Archived { succeeded: true, now }), ArchiveAction::Sleep);
    }
    assert_eq!(schedule.storage_size(), 0);
}

#[test]
fn schedule_large_limit_without_size() {
    let mut schedule = ArchiveSchedule::new(usize::MAX);
    schedule.step(ArchiveEvent::Tick { cancelled: false, now: 10 * MINUTE });
    assert_eq!(schedule.step(ArchiveEvent::Archived { succeeded: true, now: 10 * MINUTE }), ArchiveAction::MeasureDbSize);
    assert_eq!(schedule.step(ArchiveEvent::DbSize { size: None }), ArchiveAction::Sleep);
}

#[test]
fn schedule_cancel_during_round_stops_within_four_reports() {
    let mut schedule = ArchiveSchedule::new(1);
    let now = 10 * MINUTE;
    assert_eq!(schedule.step(ArchiveEvent::Tick { cancelled: false, now }), ArchiveAction::ArchiveData);
    // the token is cancelled from here on
    assert_eq!(schedule.step(ArchiveEvent::Archived { succeeded: true, now }), ArchiveAction::MeasureDbSize);
    assert_eq!(schedule.step(ArchiveEvent::DbSize { size: Some(2048) }), ArchiveAction::RemoveOldEntries);
    assert_eq!(schedule.step(ArchiveEvent::Removed), ArchiveAction::Sleep);
    assert_eq!(schedule.step(ArchiveEvent::Tick { cancelled: true, now: now + 2 * MINUTE }), ArchiveAction::Stop);
    assert_eq!(schedule.phase(), ArchivePhase::Stopped);
}
