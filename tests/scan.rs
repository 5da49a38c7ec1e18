use photo_library::index::PhotoLibrary;
use photo_library::photo::Photo;
use photo_library::scan::{
    apply_scan, chunk_ranges, disk_entry_key, get_folder_name, is_photo_file_entry, new_photos_from,
    owner_scopes, parse_image, scan_user_photos, DiskEntry, SCAN_CHUNK_SIZE,
};

fn file(depth: usize, name: &str, parent: &str) -> DiskEntry {
    let ext = name.rsplit_once('.').map(|(_, e)| e.to_string());
    DiskEntry {
        depth,
        file_name: name.to_string(),
        parent_name: Some(parent.to_string()),
        is_dir: false,
        extension: ext,
        file_size: 100,
    }
}

fn dir(depth: usize, name: &str, parent: &str) -> DiskEntry {
    DiskEntry {
        depth,
        file_name: name.to_string(),
        parent_name: Some(parent.to_string()),
        is_dir: true,
        extension: None,
        file_size: 0,
    }
}

fn tree() -> Vec<DiskEntry> {
    vec![
        dir(0, "u1", "photos"),
        file(1, "a.jpg", "u1"),
        file(1, "a.json", "u1"),
        dir(1, "trip", "u1"),
        file(2, "b.jpg", "trip"),
        file(3, "deep.jpg", "inner"),
    ]
}

/// Capture time resolution that succeeds for everything but `nots.jpg`.
fn resolve(entry: &DiskEntry) -> Option<i64> {
    if entry.file_name == "nots.jpg" {
        None
    } else {
        Some(1_600_000_000)
    }
}

fn run_scan(lib: &mut PhotoLibrary, owner: Option<&str>, entries: &Vec<DiskEntry>) -> (usize, usize) {
    let existing = lib.get_photos_by_user(owner);
    let plan = scan_user_photos(true, entries, &existing);
    let times: Vec<Option<i64>> = plan.new_entries.iter().map(resolve).collect();
    let photos = new_photos_from(owner, &plan.new_entries, &times);
    apply_scan(lib, &plan.removed_photo_ids, &photos);
    (photos.len(), plan.removed_photo_ids.len())
}

#[test]
fn entry_filtering_and_keys() {
    let t = tree();
    let kept: Vec<bool> = t.iter().map(is_photo_file_entry).collect();
    assert_eq!(kept, vec![false, true, false, false, true, false]);
    assert_eq!(disk_entry_key(&t[1]), "a.jpg");
    assert_eq!(disk_entry_key(&t[4]), "trip/b.jpg");
    assert_eq!(get_folder_name(&t[4]).as_deref(), Some("trip"));
    assert_eq!(get_folder_name(&t[1]), None);
}

#[test]
fn first_scan_imports_photo_files_only() {
    let mut lib = PhotoLibrary::new();
    let (added, removed) = run_scan(&mut lib, Some("u1"), &tree());
    assert_eq!((added, removed), (2, 0));
    let mut names: Vec<String> = lib.rows().iter().map(|r| r.photo.full_name()).collect();
    names.sort();
    assert_eq!(names, vec!["a.jpg".to_string(), "trip/b.jpg".to_string()]);
    assert!(lib.rows().iter().all(|r| r.photo.user_id.as_deref() == Some("u1")));
}

#[test]
fn second_scan_without_changes_is_a_no_op() {
    let mut lib = PhotoLibrary::new();
    let mut entries = tree();
    entries.push(file(1, "nots.jpg", "u1"));
    run_scan(&mut lib, Some("u1"), &entries);
    let events_after_first = lib.events().len();
    let (added, removed) = run_scan(&mut lib, Some("u1"), &entries);
    assert_eq!((added, removed), (0, 0));
    assert_eq!(lib.events().len(), events_after_first);
}

#[test]
fn file_deleted_on_disk_is_removed_with_one_deletion_event() {
    let mut lib = PhotoLibrary::new();
    run_scan(&mut lib, Some("u1"), &tree());
    let b_id = lib.rows().iter().find(|r| r.photo.name == "b.jpg").unwrap().photo.id;
    let before = lib.events().len();
    let mut entries = tree();
    entries.remove(4);
    let (added, removed) = run_scan(&mut lib, Some("u1"), &entries);
    assert_eq!((added, removed), (0, 1));
    assert!(lib.rows().iter().all(|r| r.photo.id != b_id));
    let new_events = &lib.events()[before..];
    assert_eq!(new_events.len(), 1);
    assert_eq!(new_events[0].photo_id, b_id);
    assert!(new_events[0].data.is_none());
}

#[test]
fn missing_directory_removes_every_photo_of_the_owner() {
    let mut lib = PhotoLibrary::new();
    run_scan(&mut lib, Some("u1"), &tree());
    let existing = lib.get_photos_by_user(Some("u1"));
    let plan = scan_user_photos(false, &tree(), &existing);
    assert!(plan.new_entries.is_empty());
    assert_eq!(plan.removed_photo_ids, vec![1, 2]);
}

#[test]
fn other_owners_are_untouched_by_a_scan() {
    let mut lib = PhotoLibrary::new();
    run_scan(&mut lib, Some("u1"), &tree());
    let (added, removed) = run_scan(&mut lib, None, &vec![file(1, "pub.jpg", "public")]);
    assert_eq!((added, removed), (1, 0));
    assert_eq!(lib.rows().len(), 3);
}

#[test]
fn untimestamped_file_is_skipped() {
    let entry = file(1, "nots.jpg", "u1");
    assert!(parse_image(Some("u1"), &entry, None).is_none());
    let p: Photo = parse_image(Some("u1"), &file(2, "x.jpg", "f"), Some(5)).unwrap();
    assert_eq!(p.created_at, 5);
    assert_eq!(p.folder.as_deref(), Some("f"));
    assert_eq!(p.file_size, 100);
}

#[test]
fn scopes_end_with_public() {
    let scopes = owner_scopes(&vec!["a".to_string(), "b".to_string()]);
    assert_eq!(scopes, vec![Some("a".to_string()), Some("b".to_string()), None]);
}

#[test]
fn chunking_covers_range() {
    assert!(chunk_ranges(0, 4).is_empty());
    assert_eq!(chunk_ranges(10, 4), vec![(0, 4), (4, 8), (8, 10)]);
    assert_eq!(chunk_ranges(3, SCAN_CHUNK_SIZE), vec![(0, 3)]);
    assert_eq!(chunk_ranges(2048, SCAN_CHUNK_SIZE), vec![(0, 1024), (1024, 2048)]);
}
