use photo_library::photo::Photo;

#[test]
fn full_name_with_and_without_folder() {
    assert_eq!(Photo::construct_full_name("a.jpg", Some("trip")), "trip/a.jpg");
    assert_eq!(Photo::construct_full_name("a.jpg", Some("")), "a.jpg");
    assert_eq!(Photo::construct_full_name("a.jpg", None), "a.jpg");
}

#[test]
fn partial_paths_of_owned_and_public_photos() {
    let mut p = Photo {
        id: 42,
        user_id: Some("u1".to_string()),
        name: "a.jpg".to_string(),
        created_at: 0,
        file_size: 1,
        folder: Some("trip".to_string()),
        thumb_hash: None,
        trashed_on: None,
    };
    assert_eq!(p.partial_path(), "u1/trip/a.jpg");
    assert_eq!(p.full_name(), "trip/a.jpg");
    assert_eq!(p.id(), 42);
    p.user_id = None;
    p.folder = None;
    assert_eq!(p.partial_path(), "public/a.jpg");
}

#[test]
fn preview_names() {
    assert_eq!(Photo::construct_partial_preview_path(42), "42.jpg");
    assert_eq!(Photo::construct_partial_preview_path(-7), "-7.jpg");
    assert_eq!(Photo::construct_partial_preview_path(0), "0.jpg");
}

#[test]
fn duplicate_copies_every_field() {
    let p = Photo {
        id: 3,
        user_id: None,
        name: "b.png".to_string(),
        created_at: 99,
        file_size: 12,
        folder: None,
        thumb_hash: Some(vec![1, 2, 3]),
        trashed_on: Some(5),
    };
    let q = p.duplicate();
    assert_eq!(q.id, 3);
    assert_eq!(q.name, "b.png");
    assert_eq!(q.thumb_hash, Some(vec![1, 2, 3]));
    assert_eq!(q.trashed_on, Some(5));
    assert_eq!(q.created_at, 99);
}
