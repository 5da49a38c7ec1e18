use photo_library::hash::{content_hash, HashAlgorithm};
use photo_library::index::{PhotoLibrary, TRASH_RETENTION_SECONDS};
use photo_library::maintenance::{trash_step, FileRemoval, TrashAction};
use photo_library::operations::{
    collision_name, commit_upload, first_move_step, next_move_step, non_empty_folder, plan_move,
    plan_upload, rename_for_collision, restore_photo, target_owner, trash_photo, update_timestamp,
    MoveEvent, MoveOutcome, MoveStep, UploadPlan,
};
use std::collections::BTreeSet;

const DAY: i64 = 24 * 60 * 60;

/// Uploads `bytes` under `name` as `user`, keeping the stored files in `disk`.
fn upload(lib: &mut PhotoLibrary, disk: &mut BTreeSet<String>, user: &str, name: &str, bytes: &[u8]) -> (i64, bool) {
    let hash = content_hash(HashAlgorithm::Blake3, bytes);
    match plan_upload(lib, user, false, name, None, 1_700_000_000, bytes.len() as i64, &hash) {
        UploadPlan::Existing(p) => (p.id, false),
        UploadPlan::Store(p) => {
            let stored = commit_upload(lib, &p, &hash);
            disk.insert(stored.partial_path());
            (stored.id, true)
        }
    }
}

#[test]
fn identical_upload_returns_existing_photo() {
    let mut lib = PhotoLibrary::new();
    let mut disk = BTreeSet::new();
    let (a, stored_a) = upload(&mut lib, &mut disk, "u1", "A.jpg", b"bytes X");
    assert!(stored_a);
    assert_eq!(lib.rows().len(), 1);
    assert_eq!(lib.rows()[0].hash, Some(content_hash(HashAlgorithm::Blake3, b"bytes X")));
    let (b, stored_b) = upload(&mut lib, &mut disk, "u1", "B.jpg", b"bytes X");
    assert!(!stored_b);
    assert_eq!(b, a);
    assert_eq!(lib.rows().len(), 1);
    assert_eq!(disk.len(), 1);
}

#[test]
fn same_bytes_in_another_scope_are_stored() {
    let mut lib = PhotoLibrary::new();
    let mut disk = BTreeSet::new();
    upload(&mut lib, &mut disk, "u1", "A.jpg", b"bytes X");
    let (_, stored) = upload(&mut lib, &mut disk, "u2", "A.jpg", b"bytes X");
    assert!(stored);
    assert_eq!(disk.len(), 2);
    let (_, stored) = upload(&mut lib, &mut disk, "u1", "C.jpg", b"bytes Y");
    assert!(stored);
}

#[test]
fn public_upload_plan() {
    let lib = PhotoLibrary::new();
    match plan_upload(&lib, "u1", true, "p.jpg", Some("f".to_string()), 7, 3, &vec![1, 2]) {
        UploadPlan::Store(p) => {
            assert_eq!(p.user_id, None);
            assert_eq!(p.folder.as_deref(), Some("f"));
            assert_eq!(p.created_at, 7);
            assert_eq!(p.file_size, 3);
            assert_eq!(p.partial_path(), "public/f/p.jpg");
        }
        UploadPlan::Existing(_) => panic!("empty library has nothing to match"),
    }
}

#[test]
fn trash_is_kept_until_retention_elapses() {
    let mut lib = PhotoLibrary::new();
    let mut disk = BTreeSet::new();
    let (id, _) = upload(&mut lib, &mut disk, "u1", "A.jpg", b"x");
    let now = 1_700_000_000;
    let trashed = trash_photo(&mut lib, id, "u1", now).unwrap();
    assert_eq!(trashed.trashed_on, Some(now));

    let sweep = |lib: &mut PhotoLibrary, disk: &mut BTreeSet<String>, at: i64| {
        for p in lib.get_expired_trash_photos(at) {
            let removal = if disk.remove(&p.partial_path()) { FileRemoval::Removed } else { FileRemoval::Missing };
            if trash_step(removal) == TrashAction::DeleteRow {
                lib.delete_photo(&p);
            }
        }
    };

    sweep(&mut lib, &mut disk, now + 29 * DAY);
    assert_eq!(lib.rows().len(), 1);
    assert_eq!(lib.rows()[0].photo.trashed_on, Some(now));
    assert!(disk.contains("u1/A.jpg"));

    sweep(&mut lib, &mut disk, now + 30 * DAY);
    assert!(lib.rows().is_empty());
    assert!(disk.is_empty());
}

#[test]
fn expiry_boundary_is_thirty_days() {
    assert_eq!(TRASH_RETENTION_SECONDS, 30 * DAY);
    assert!(!photo_library::index::is_trash_expired(Some(100), 100 + 30 * DAY - 1));
    assert!(photo_library::index::is_trash_expired(Some(100), 100 + 30 * DAY));
    assert!(!photo_library::index::is_trash_expired(None, i64::MAX));
    assert!(!photo_library::index::is_trash_expired(Some(0), i64::MIN));
}

#[test]
fn failed_file_removal_stops_the_sweep() {
    assert_eq!(trash_step(FileRemoval::Failed), TrashAction::StopSweep);
    assert_eq!(trash_step(FileRemoval::Missing), TrashAction::DeleteRow);
    assert_eq!(trash_step(FileRemoval::Removed), TrashAction::DeleteRow);
}

#[test]
fn restore_and_timestamp_update() {
    let mut lib = PhotoLibrary::new();
    let mut disk = BTreeSet::new();
    let (id, _) = upload(&mut lib, &mut disk, "u1", "A.jpg", b"x");
    trash_photo(&mut lib, id, "u1", 5).unwrap();
    let restored = restore_photo(&mut lib, id, "u1").unwrap();
    assert_eq!(restored.trashed_on, None);
    assert_eq!(lib.rows()[0].photo.trashed_on, None);
    let p = update_timestamp(&mut lib, id, "u1", 42).unwrap();
    assert_eq!(p.created_at, 42);
    assert_eq!(lib.rows()[0].photo.created_at, 42);
    assert!(trash_photo(&mut lib, id, "u2", 5).is_none());
    assert!(restore_photo(&mut lib, 99, "u1").is_none());
    assert_eq!(lib.events().len(), 4);
}

#[test]
fn move_plans() {
    let mut lib = PhotoLibrary::new();
    let mut disk = BTreeSet::new();
    let (id, _) = upload(&mut lib, &mut disk, "u1", "A.jpg", b"x");
    let p = lib.get_photo(id, "u1").unwrap();
    let same = plan_move(&p, &Some("u1".to_string()), &None);
    assert!(same.is_none());
    let plan = plan_move(&p, &None, &non_empty_folder(Some("trip".to_string()))).unwrap();
    assert_eq!(plan.source_path, "u1/A.jpg");
    assert_eq!(plan.destination_path, "public/trip/A.jpg");
    assert_eq!(plan.moved.user_id, None);
    assert_eq!(non_empty_folder(Some(String::new())), None);
    assert_eq!(target_owner("u1", false).as_deref(), Some("u1"));
    assert_eq!(target_owner("u1", true), None);
}

#[test]
fn move_steps() {
    assert_eq!(first_move_step(), MoveStep::MoveFile);
    assert_eq!(next_move_step(MoveEvent::FileMoved), MoveStep::UpdateIndex);
    assert_eq!(next_move_step(MoveEvent::FileMoveFailed), MoveStep::Done(MoveOutcome::Skipped));
    assert_eq!(next_move_step(MoveEvent::IndexUpdated), MoveStep::Done(MoveOutcome::Moved));
    assert_eq!(next_move_step(MoveEvent::IndexUpdateFailed), MoveStep::MoveFileBack);
    assert_eq!(next_move_step(MoveEvent::FileMovedBack), MoveStep::Done(MoveOutcome::Failed));
    assert_eq!(next_move_step(MoveEvent::FileMoveBackFailed), MoveStep::Done(MoveOutcome::Failed));
}

#[test]
fn collision_names() {
    assert_eq!(collision_name("abc", Some("jpg")), "abc.jpg");
    assert_eq!(collision_name("abc", None), "abc.");
    let lib_photo = photo_library::photo::Photo {
        id: 0,
        user_id: None,
        name: "a.jpg".to_string(),
        created_at: 0,
        file_size: 0,
        folder: None,
        thumb_hash: None,
        trashed_on: None,
    };
    let r1 = rename_for_collision(&lib_photo, Some("jpg"));
    let r2 = rename_for_collision(&lib_photo, Some("jpg"));
    assert!(r1.name.ends_with(".jpg"));
    let stem = r1.name.strip_suffix(".jpg").unwrap();
    assert_eq!(stem.len(), 36);
    for (i, c) in stem.chars().enumerate() {
        if [8, 13, 18, 23].contains(&i) {
            assert_eq!(c, '-');
        } else {
            assert!(c.is_ascii_hexdigit() && !c.is_ascii_uppercase());
        }
    }
    assert_eq!(stem.chars().nth(14), Some('4'));
    assert!("89ab".contains(stem.chars().nth(19).unwrap()));
    let bare = rename_for_collision(&lib_photo, None);
    assert!(bare.name.ends_with('.'));
    assert_eq!(bare.name.len(), 37);
    assert_ne!(r1.name, "a.jpg");
    assert_ne!(r1.name, r2.name);
}
