use netom::clickhouse::receiver::{Metrics, Offer};
use netom::clickhouse::transport::Check;
use netom::clickhouse::uploader::{UploadAction, UploadEvent, UploadPhase, Uploader};

/// Answers the checks of a new uploader.
fn checked(uploader: &mut Uploader) {
    assert_eq!(uploader.step(UploadEvent::Awake), UploadAction::Query(Check::Version));
    let version = UploadEvent::Answered(Some("25.8".into()));
    assert_eq!(uploader.step(version), UploadAction::Query(Check::Columns));
    let columns = UploadEvent::Answered(Some("".into()));
    assert_eq!(uploader.step(columns), UploadAction::Query(Check::Schema));
}

#[test]
fn a_server_that_does_not_pass_is_asked_again_from_the_start() {
    let mut uploader = Uploader::new(7);
    checked(&mut uploader);
    let schema = UploadEvent::Answered(Some("{}".into()));
    assert_eq!(uploader.step(schema), UploadAction::Sleep(1000));
    assert!(!uploader.healthy);
    assert_eq!(uploader.errors, 1);
    assert_eq!(uploader.step(UploadEvent::Awake), UploadAction::Query(Check::Version));
    assert_eq!(uploader.step(UploadEvent::Answered(None)), UploadAction::Sleep(2000));
}

/// An uploader whose server has passed.
fn ready() -> Uploader {
    let mut uploader = Uploader::new(7);
    uploader.checked = true;
    uploader
}

#[test]
fn segments_are_inserted_and_removed_in_order() {
    let mut uploader = ready();
    assert_eq!(uploader.step(UploadEvent::Awake), UploadAction::List);
    let names = vec!["1.ready".to_string(), "2.ready".to_string()];
    assert_eq!(uploader.step(UploadEvent::Listed(Some(names))), UploadAction::Insert);
    assert_eq!(uploader.current().unwrap(), "1.ready");
    assert_eq!(uploader.step(UploadEvent::Inserted(Some(3))), UploadAction::Remove);
    assert_eq!(uploader.current().unwrap(), "1.ready");
    assert_eq!(uploader.step(UploadEvent::Removed(Some(5))), UploadAction::Insert);
    assert_eq!(uploader.current().unwrap(), "2.ready");
    assert_eq!((uploader.inserted, uploader.disk_bytes), (3, 5));
    assert_eq!(uploader.step(UploadEvent::Inserted(Some(4))), UploadAction::Remove);
    assert_eq!(uploader.step(UploadEvent::Removed(Some(0))), UploadAction::Sleep(250));
    assert!(uploader.healthy);
    assert_eq!(uploader.inserted, 7);
    assert!(uploader.current().is_none());
}

#[test]
fn a_segment_that_was_not_inserted_is_kept() {
    let mut uploader = ready();
    for pause in [1000, 2000, 4000, 8000, 16000, 30000, 30000] {
        assert_eq!(uploader.step(UploadEvent::Awake), UploadAction::List);
        let names = vec!["1.ready".to_string()];
        assert_eq!(uploader.step(UploadEvent::Listed(Some(names))), UploadAction::Insert);
        assert_eq!(uploader.step(UploadEvent::Inserted(None)), UploadAction::Sleep(pause));
        assert_eq!(uploader.phase, UploadPhase::Sleeping);
    }
    assert_eq!(uploader.step(UploadEvent::Awake), UploadAction::List);
    assert_eq!(uploader.step(UploadEvent::Listed(Some(Vec::new()))), UploadAction::Sleep(250));
    assert_eq!(uploader.step(UploadEvent::Awake), UploadAction::List);
    assert_eq!(uploader.step(UploadEvent::Listed(None)), UploadAction::Sleep(1000));
}

#[test]
fn the_queue_is_accounted_for() {
    let mut metrics = Metrics {
        accepted: 0,
        inserted: 0,
        errors: 0,
        unsupported: 0,
        missing_identity: 0,
        stopped: 0,
        disk_bytes: 0,
        queue_bytes: 0,
        healthy: 0,
    };
    metrics.note_offered(200, Offer::Queued);
    metrics.note_offered(300, Offer::Queued);
    assert_eq!((metrics.accepted, metrics.queue_bytes), (2, 500));
    metrics.note_taken(200);
    metrics.note_taken(300);
    assert_eq!(metrics.queue_bytes, 0);
    metrics.note_offered(0, Offer::TooLarge);
    metrics.note_offered(0, Offer::Closed);
    assert_eq!((metrics.errors, metrics.stopped), (1, 1));
}
