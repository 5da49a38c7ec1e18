use photo_library::index::PhotoLibrary;
use photo_library::maintenance::{
    first_phase, next_phase, orphaned_previews, resolve_duplicates_db_entry, AppState,
    MaintenancePhase, MaintenanceScheduler, SchedulerState, MAX_EVENT_LOG_ROWS_TO_KEEP,
};
use photo_library::photo::Photo;

fn photo(owner: Option<&str>, folder: Option<&str>, name: &str) -> Photo {
    Photo {
        id: 0,
        user_id: owner.map(|s| s.to_string()),
        name: name.to_string(),
        created_at: 0,
        file_size: 1,
        folder: folder.map(|s| s.to_string()),
        thumb_hash: None,
        trashed_on: None,
    }
}

#[test]
fn phases_run_in_fixed_order_with_retention_last() {
    let mut order = vec![first_phase(true)];
    while let Some(p) = next_phase(*order.last().unwrap()) {
        order.push(p);
    }
    assert_eq!(
        order,
        vec![
            MaintenancePhase::FileScan,
            MaintenancePhase::DuplicateRows,
            MaintenancePhase::OrphanPreviews,
            MaintenancePhase::ContentHashes,
            MaintenancePhase::TrashExpiry,
            MaintenancePhase::ThumbHashes,
            MaintenancePhase::EventLogRetention,
        ]
    );
    assert_eq!(first_phase(false), MaintenancePhase::DuplicateRows);
    assert_eq!(MAX_EVENT_LOG_ROWS_TO_KEEP, 512);
}

#[test]
fn scheduler_lifecycle() {
    let mut s = MaintenanceScheduler::new(false);
    assert_eq!(s.state, SchedulerState::Stopped);
    assert_eq!(s.tick(), None);
    s.start();
    assert_eq!(s.state, SchedulerState::Idle);
    assert_eq!(s.tick(), Some(MaintenancePhase::DuplicateRows));
    assert_eq!(s.tick(), None);
    let mut seen = 1;
    while s.phase_finished().is_some() {
        seen += 1;
    }
    assert_eq!(seen, 6);
    assert_eq!(s.state, SchedulerState::Idle);
    assert_eq!(s.cycles_completed, 1);
    s.stop();
    assert_eq!(s.state, SchedulerState::Stopped);
    assert_eq!(s.phase_finished(), None);
}

#[test]
fn app_state_starts_empty_and_stopped() {
    let state = AppState::new(true);
    assert!(state.library.rows().is_empty());
    assert_eq!(state.scheduler.state, SchedulerState::Stopped);
    assert!(state.scheduler.scan_new_files);
}

#[test]
fn orphaned_previews_are_the_unknown_ids() {
    let mut lib = PhotoLibrary::new();
    lib.insert_photo(&photo(Some("u1"), None, "a.jpg"));
    lib.insert_photo(&photo(Some("u1"), None, "b.jpg"));
    let stems: Vec<String> = ["1", "2", "3", "previews", "+4", "-5", "99999999999999999999", ""]
        .iter()
        .map(|s| s.to_string())
        .collect();
    assert_eq!(orphaned_previews(&lib, &stems), vec![2, 4, 5]);
}

#[test]
fn duplicate_path_rows_keep_the_earliest() {
    let mut lib = PhotoLibrary::new();
    lib.insert_photo(&photo(Some("u1"), Some("f"), "a.jpg"));
    lib.insert_photo(&photo(Some("u1"), Some("f"), "a.jpg"));
    lib.insert_photo(&photo(Some("u1"), None, "a.jpg"));
    lib.insert_photo(&photo(None, Some("f"), "a.jpg"));
    lib.insert_photo(&photo(Some("u1"), Some("f"), "a.jpg"));
    let dups: Vec<i64> = lib.get_photos_with_same_location().iter().map(|p| p.id).collect();
    assert_eq!(dups, vec![2, 5]);
    assert_eq!(resolve_duplicates_db_entry(&mut lib), 2);
    let left: Vec<i64> = lib.rows().iter().map(|r| r.photo.id).collect();
    assert_eq!(left, vec![1, 3, 4]);
    let tail: Vec<(i64, Option<String>)> =
        lib.events()[5..].iter().map(|e| (e.photo_id, e.user_id.clone())).collect();
    assert_eq!(tail, vec![(2, Some("u1".to_string())), (5, Some("u1".to_string()))]);
}
