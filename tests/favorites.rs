use photo_library::favorites::{add_favorite, delete_favorite, FavoriteError, Favorites};
use photo_library::index::PhotoLibrary;
use photo_library::photo::Photo;

fn photo(owner: Option<&str>, name: &str) -> Photo {
    Photo {
        id: 0,
        user_id: owner.map(|s| s.to_string()),
        name: name.to_string(),
        created_at: 0,
        file_size: 1,
        folder: None,
        thumb_hash: None,
        trashed_on: None,
    }
}

#[test]
fn favorites_are_per_user_and_single() {
    let mut lib = PhotoLibrary::new();
    lib.insert_photo(&photo(Some("u1"), "a.jpg"));
    lib.insert_photo(&photo(None, "b.jpg"));
    lib.insert_photo(&photo(Some("u2"), "c.jpg"));
    let mut favs = Favorites::new();
    assert_eq!(add_favorite(&lib, &mut favs, 1, "u1"), Ok(()));
    assert_eq!(add_favorite(&lib, &mut favs, 2, "u1"), Ok(()));
    assert_eq!(add_favorite(&lib, &mut favs, 1, "u1"), Ok(()));
    assert_eq!(add_favorite(&lib, &mut favs, 2, "u2"), Ok(()));
    assert_eq!(add_favorite(&lib, &mut favs, 3, "u1"), Err(FavoriteError::NotFound));
    assert_eq!(favs.get_favorite_photos("u1"), vec![1, 2]);
    assert_eq!(favs.get_favorite_photos("u2"), vec![2]);
    assert_eq!(delete_favorite(&lib, &mut favs, 1, "u1"), Ok(()));
    assert_eq!(favs.get_favorite_photos("u1"), vec![2]);
    assert_eq!(delete_favorite(&lib, &mut favs, 9, "u1"), Err(FavoriteError::NotFound));
    assert_eq!(favs.entries().len(), 2);
}

#[test]
fn favorites_rebuild_from_entries() {
    let entries = vec![(1, "u1".to_string()), (1, "u1".to_string()), (2, "u2".to_string())];
    let favs = Favorites::from_entries(&entries);
    assert_eq!(favs.entries().len(), 2);
    assert!(favs.is_favorite(1, "u1"));
    assert!(!favs.is_favorite(2, "u1"));
}
