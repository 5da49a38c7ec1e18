use photo_library::index::PhotoLibrary;
use photo_library::photo::{Photo, PhotoHash};

fn photo(owner: Option<&str>, name: &str) -> Photo {
    Photo {
        id: 0,
        user_id: owner.map(|s| s.to_string()),
        name: name.to_string(),
        created_at: 0,
        file_size: 1,
        folder: None,
        thumb_hash: None,
        trashed_on: None,
    }
}

fn library() -> PhotoLibrary {
    let mut lib = PhotoLibrary::new();
    lib.insert_photo(&photo(Some("u1"), "1.jpg"));
    lib.insert_photo(&photo(Some("u1"), "2.jpg"));
    lib.insert_photo(&photo(None, "3.jpg"));
    lib.insert_photo(&photo(Some("u2"), "4.jpg"));
    lib.insert_photo(&photo(Some("u1"), "5.jpg"));
    lib.insert_photo(&photo(Some("u1"), "6.jpg"));
    lib.insert_hashes(&vec![
        PhotoHash { id: 1, hash: vec![1] },
        PhotoHash { id: 2, hash: vec![1] },
        PhotoHash { id: 3, hash: vec![1] },
        PhotoHash { id: 4, hash: vec![1] },
        PhotoHash { id: 5, hash: vec![2] },
        PhotoHash { id: 6, hash: vec![3] },
    ]);
    lib
}

fn sorted(mut groups: Vec<Vec<i64>>) -> Vec<Vec<i64>> {
    for g in groups.iter_mut() {
        g.sort();
    }
    groups.sort();
    groups
}

#[test]
fn groups_share_hash_and_have_two_or_more_members() {
    let lib = library();
    let groups = sorted(lib.get_duplicates_for_user("u1"));
    assert_eq!(groups, vec![vec![1, 2, 3]]);
}

#[test]
fn other_owner_sees_only_public_and_own() {
    let lib = library();
    let groups = sorted(lib.get_duplicates_for_user("u2"));
    assert_eq!(groups, vec![vec![3, 4]]);
}

#[test]
fn trashed_photos_are_left_out() {
    let mut lib = library();
    let mut p = lib.get_photo(2, "u1").unwrap();
    p.trashed_on = Some(10);
    lib.update_photo(&p);
    let groups = sorted(lib.get_duplicates_for_user("u1"));
    assert_eq!(groups, vec![vec![1, 3]]);
}

#[test]
fn later_hash_replaces_earlier_and_unhashed_are_listed() {
    let mut lib = library();
    lib.insert_hashes(&vec![PhotoHash { id: 6, hash: vec![2] }]);
    let groups = sorted(lib.get_duplicates_for_user("u1"));
    assert_eq!(groups, vec![vec![1, 2, 3], vec![5, 6]]);
    lib.insert_photo(&photo(Some("u1"), "7.jpg"));
    let unhashed: Vec<i64> = lib.get_photos_without_hash().iter().map(|p| p.id).collect();
    assert_eq!(unhashed, vec![7]);
}

#[test]
fn no_duplicates_gives_no_groups() {
    let mut lib = PhotoLibrary::new();
    lib.insert_photo(&photo(Some("u1"), "1.jpg"));
    assert!(lib.get_duplicates_for_user("u1").is_empty());
}
