use photo_library::event_log::{EventLogEntry, UserEventLogError};
use photo_library::index::{IndexRow, PhotoLibrary, Query};
use photo_library::operations::{full_photos_list, partial_photos_list, SyncResponse};
use photo_library::photo::Photo;

fn photo(owner: Option<&str>, name: &str) -> Photo {
    Photo {
        id: 0,
        user_id: owner.map(|s| s.to_string()),
        name: name.to_string(),
        created_at: 1_700_000_000,
        file_size: 10,
        folder: None,
        thumb_hash: None,
        trashed_on: None,
    }
}

#[test]
fn snapshot_of_empty_library_has_mark_zero() {
    let lib = PhotoLibrary::new();
    let full = lib.get_photos_by_user_and_public("u1");
    assert_eq!(full.event_log_id, 0);
    assert!(full.photos.is_empty());
}

#[test]
fn snapshot_mark_is_newest_event_and_photos_are_visible_ones() {
    let mut lib = PhotoLibrary::new();
    lib.insert_photo(&photo(Some("u1"), "a.jpg"));
    lib.insert_photo(&photo(None, "b.jpg"));
    lib.insert_photo(&photo(Some("u2"), "c.jpg"));
    let full = full_photos_list(&lib, "u1");
    assert_eq!(full.event_log_id, 3);
    let names: Vec<&str> = full.photos.iter().map(|p| p.name.as_str()).collect();
    assert_eq!(names, vec!["a.jpg", "b.jpg"]);
}

#[test]
fn incremental_changes_are_ordered_and_after_cursor() {
    let mut lib = PhotoLibrary::new();
    let a = lib.insert_photo(&photo(Some("u1"), "a.jpg"));
    lib.insert_photo(&photo(Some("u2"), "b.jpg"));
    lib.insert_photo(&photo(None, "c.jpg"));
    let mut moved = a.duplicate();
    moved.name = "a2.jpg".to_string();
    lib.update_photo(&moved);
    lib.delete_photo(&a);
    let changes = lib.get_events_for_user(1, "u1").unwrap();
    assert_eq!(changes.event_log_id, 5);
    let ids: Vec<i64> = changes.events.iter().map(|e| e.photo_id).collect();
    assert_eq!(ids, vec![3, 1, 1]);
    assert_eq!(changes.events[0].data.as_ref().unwrap().name, "c.jpg");
    assert_eq!(changes.events[1].data.as_ref().unwrap().name, "a2.jpg");
    assert!(changes.events[2].data.is_none());
    let event_ids: Vec<i64> = lib.events().iter().map(|e| e.event_id).collect();
    assert_eq!(event_ids, vec![1, 2, 3, 4, 5]);
}

#[test]
fn cursor_at_newest_event_gets_nothing_new() {
    let mut lib = PhotoLibrary::new();
    lib.insert_photo(&photo(Some("u1"), "a.jpg"));
    lib.insert_photo(&photo(Some("u1"), "b.jpg"));
    let changes = lib.get_events_for_user(2, "u1").unwrap();
    assert_eq!(changes.event_log_id, 2);
    assert!(changes.events.is_empty());
}

#[test]
fn empty_log_is_no_events() {
    let lib = PhotoLibrary::new();
    assert!(matches!(lib.get_events_for_user(0, "u1"), Err(UserEventLogError::NoEvents)));
    assert!(matches!(partial_photos_list(&lib, 0, "u1"), SyncResponse::Conflict));
}

#[test]
fn cursor_above_newest_is_invalid() {
    let mut lib = PhotoLibrary::new();
    lib.insert_photo(&photo(Some("u1"), "a.jpg"));
    assert!(matches!(lib.get_events_for_user(2, "u1"), Err(UserEventLogError::InvalidEventId)));
    assert!(matches!(partial_photos_list(&lib, 2, "u1"), SyncResponse::Conflict));
}

#[test]
fn cursor_below_retained_minimum_is_invalid() {
    let mut lib = PhotoLibrary::new();
    for i in 0..5 {
        lib.insert_photo(&photo(Some("u1"), &format!("{i}.jpg")));
    }
    lib.delete_old_events(2);
    let ids: Vec<i64> = lib.events().iter().map(|e| e.event_id).collect();
    assert_eq!(ids, vec![4, 5]);
    assert!(matches!(lib.get_events_for_user(3, "u1"), Err(UserEventLogError::InvalidEventId)));
    assert!(matches!(partial_photos_list(&lib, 3, "u1"), SyncResponse::Conflict));
    match partial_photos_list(&lib, 4, "u1") {
        SyncResponse::Changes(c) => {
            assert_eq!(c.event_log_id, 5);
            assert_eq!(c.events.len(), 1);
            assert_eq!(c.events[0].photo_id, 5);
        }
        SyncResponse::Conflict => panic!("a retained cursor must be served"),
    }
}

#[test]
fn retention_keeps_everything_when_under_cap() {
    let mut lib = PhotoLibrary::new();
    lib.insert_photo(&photo(Some("u1"), "a.jpg"));
    lib.delete_old_events(512);
    assert_eq!(lib.events().len(), 1);
    lib.delete_old_events(0);
    assert_eq!(lib.events().len(), 0);
}

#[test]
fn batch_insert_numbers_photos_and_logs_each() {
    let mut lib = PhotoLibrary::new();
    lib.insert_photos(&vec![photo(Some("u1"), "a.jpg"), photo(Some("u1"), "b.jpg")]);
    let rows = lib.rows();
    assert_eq!(rows.len(), 2);
    assert_eq!(rows[0].photo.id, 1);
    assert_eq!(rows[1].photo.id, 2);
    assert_eq!(lib.events().len(), 2);
    assert_eq!(lib.events()[1].photo_id, 2);
    assert_eq!(lib.events()[1].user_id.as_deref(), Some("u1"));
}

#[test]
fn batch_delete_logs_one_ownerless_entry_per_id() {
    let mut lib = PhotoLibrary::new();
    lib.insert_photos(&vec![photo(Some("u1"), "a.jpg"), photo(Some("u1"), "b.jpg")]);
    let removed = lib.delete_photos(&vec![1, 7]);
    assert_eq!(removed, 1);
    assert_eq!(lib.rows().len(), 1);
    let tail: Vec<(i64, bool, bool)> = lib.events()[2..]
        .iter()
        .map(|e| (e.photo_id, e.user_id.is_none(), e.data.is_none()))
        .collect();
    assert_eq!(tail, vec![(1, true, true), (7, true, true)]);
    assert_eq!(lib.delete_photos(&vec![]), 0);
    assert_eq!(lib.events().len(), 4);
}

#[test]
fn update_keeps_thumb_hash_and_logs_new_state() {
    let mut lib = PhotoLibrary::new();
    let p = lib.insert_photo(&photo(Some("u1"), "a.jpg"));
    assert_eq!(lib.update_thumb_hashes(&vec![(p.id, vec![9, 9])]), Ok(()));
    let mut changed = p.duplicate();
    changed.folder = Some("f".to_string());
    lib.update_photo(&changed);
    let row = &lib.rows()[0];
    assert_eq!(row.photo.folder.as_deref(), Some("f"));
    assert_eq!(row.photo.thumb_hash, Some(vec![9, 9]));
    assert_eq!(lib.events().len(), 3);
}

#[test]
fn thumb_hash_update_with_unknown_id_changes_nothing() {
    let mut lib = PhotoLibrary::new();
    lib.insert_photo(&photo(Some("u1"), "a.jpg"));
    assert_eq!(lib.update_thumb_hashes(&vec![(1, vec![1]), (5, vec![2])]), Err(5));
    assert_eq!(lib.rows()[0].photo.thumb_hash, None);
    assert_eq!(lib.events().len(), 1);
}

#[test]
fn thumb_hash_update_logs_snapshot_with_thumb() {
    let mut lib = PhotoLibrary::new();
    lib.insert_photo(&photo(Some("u1"), "a.jpg"));
    assert_eq!(lib.update_thumb_hashes(&vec![(1, vec![1]), (1, vec![2])]), Ok(()));
    assert_eq!(lib.rows()[0].photo.thumb_hash, Some(vec![2]));
    let ev = lib.events();
    assert_eq!(ev.len(), 3);
    assert_eq!(ev[1].data.as_ref().unwrap().thumb_hash, Some(vec![1]));
    assert_eq!(ev[2].data.as_ref().unwrap().thumb_hash, Some(vec![2]));
}

#[test]
fn queries_by_scope_and_folder() {
    let mut lib = PhotoLibrary::new();
    let mut a = photo(Some("u1"), "a.jpg");
    a.folder = Some("trip".to_string());
    lib.insert_photo(&a);
    lib.insert_photo(&photo(Some("u1"), "b.jpg"));
    lib.insert_photo(&photo(None, "c.jpg"));
    assert_eq!(lib.get_photos_by_user(Some("u1")).len(), 2);
    assert_eq!(lib.get_photos_by_user(None).len(), 1);
    assert_eq!(lib.get_photo_ids_in_folder(Some("u1"), "trip"), vec![1]);
    assert!(lib.get_photo(3, "u9").is_some());
    assert!(lib.get_photo(1, "u9").is_none());
    assert_eq!(lib.get_photo(1, "u1").unwrap().name, "a.jpg");
    assert_eq!(lib.select_rows(&Query::All).len(), 3);
    assert_eq!(lib.get_all_photos().len(), 3);
    assert_eq!(lib.get_photos_without_thumb_hash().len(), 3);
}

#[test]
fn rebuilding_from_parts_checks_the_invariant() {
    let mut lib = PhotoLibrary::new();
    lib.insert_photo(&photo(Some("u1"), "a.jpg"));
    lib.insert_photo(&photo(Some("u1"), "b.jpg"));
    let rows = || lib.rows().iter().map(|r| IndexRow { photo: r.photo.duplicate(), hash: r.hash.clone() }).collect::<Vec<_>>();
    let events = || {
        lib.events()
            .iter()
            .map(|e| EventLogEntry {
                event_id: e.event_id,
                photo_id: e.photo_id,
                user_id: e.user_id.clone(),
                data: e.data.as_ref().map(|p| p.duplicate()),
            })
            .collect::<Vec<_>>()
    };
    let rebuilt = PhotoLibrary::from_parts(rows(), events(), 3, 3).unwrap();
    assert_eq!(rebuilt.rows().len(), 2);
    assert_eq!(rebuilt.next_event_id(), 3);
    assert!(PhotoLibrary::from_parts(rows(), events(), 2, 3).is_none());
    assert!(PhotoLibrary::from_parts(rows(), events(), 3, 4).is_none());
    let mut dup = rows();
    dup[1].photo.id = 1;
    assert!(PhotoLibrary::from_parts(dup, events(), 3, 3).is_none());
    assert!(PhotoLibrary::from_parts(Vec::new(), Vec::new(), 1, 1).is_some());
}

#[test]
fn insert_drops_a_supplied_thumb_hash() {
    let mut lib = PhotoLibrary::new();
    let mut p = photo(Some("u1"), "a.jpg");
    p.thumb_hash = Some(vec![7, 7]);
    let stored = lib.insert_photo(&p);
    assert_eq!(stored.thumb_hash, None);
    assert_eq!(lib.rows()[0].photo.thumb_hash, None);
    assert_eq!(lib.events()[0].data.as_ref().unwrap().thumb_hash, None);
}

#[test]
fn snapshot_leaves_out_trashed_photos() {
    let mut lib = PhotoLibrary::new();
    let a = lib.insert_photo(&photo(Some("u1"), "a.jpg"));
    lib.insert_photo(&photo(Some("u1"), "b.jpg"));
    let mut t = a.duplicate();
    t.trashed_on = Some(1);
    lib.update_photo(&t);
    let full = lib.get_photos_by_user_and_public("u1");
    let names: Vec<&str> = full.photos.iter().map(|p| p.name.as_str()).collect();
    assert_eq!(names, vec!["b.jpg"]);
    assert_eq!(full.event_log_id, 3);
}

#[test]
fn update_logs_the_stored_row() {
    let mut lib = PhotoLibrary::new();
    let p = lib.insert_photo(&photo(Some("u1"), "a.jpg"));
    assert_eq!(lib.update_thumb_hashes(&vec![(p.id, vec![5])]), Ok(()));
    let mut changed = p.duplicate();
    changed.name = "b.jpg".to_string();
    changed.thumb_hash = Some(vec![1]);
    lib.update_photo(&changed);
    let logged = lib.events()[2].data.as_ref().unwrap();
    assert_eq!(logged.name, "b.jpg");
    assert_eq!(logged.thumb_hash, Some(vec![5]));
    let mut ghost = photo(Some("u1"), "x.jpg");
    ghost.id = 99;
    ghost.thumb_hash = Some(vec![3]);
    lib.update_photo(&ghost);
    assert_eq!(lib.events()[3].data.as_ref().unwrap().thumb_hash, Some(vec![3]));
}
