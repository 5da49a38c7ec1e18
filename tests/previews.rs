use photo_library::previews::{
    generate_thumb_image_hash, is_video_type, preview_kind, PreviewKind, THUMB_HASH_IMAGE_SIZE,
};

#[test]
fn preview_kinds_by_extension() {
    assert_eq!(preview_kind(Some("mp4")), PreviewKind::VideoFrame);
    assert_eq!(preview_kind(Some("MOV")), PreviewKind::VideoFrame);
    assert_eq!(preview_kind(Some("jpg")), PreviewKind::Still);
    assert_eq!(preview_kind(Some("")), PreviewKind::Unknown);
    assert_eq!(preview_kind(Some("notarealextension")), PreviewKind::Unknown);
    assert_eq!(preview_kind(None), PreviewKind::Unknown);
}

#[test]
fn video_type_prefix() {
    assert!(is_video_type("video/mp4"));
    assert!(!is_video_type("image/jpeg"));
    assert!(!is_video_type("video"));
}

#[test]
fn thumb_hash_needs_a_full_square_image() {
    assert!(generate_thumb_image_hash(&vec![0u8; 10]).is_none());
    let side = THUMB_HASH_IMAGE_SIZE;
    let mut pixels = vec![0u8; side * side * 4];
    for (i, p) in pixels.chunks_mut(4).enumerate() {
        p[0] = (i % 256) as u8;
        p[1] = 128;
        p[2] = 64;
        p[3] = 255;
    }
    let h = generate_thumb_image_hash(&pixels).unwrap();
    assert!(!h.is_empty());
    assert!(h.len() < pixels.len());
    assert_eq!(generate_thumb_image_hash(&pixels).unwrap(), h);
}
