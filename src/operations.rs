//! What the library does for a client request: synchronisation, upload with
//! duplicate detection, moves, trash and restore.
use vstd::prelude::*;
use vstd::string::StringExecFns;
use crate::event_log::{EventLogs, UserEventLogError, changes_since, cursor_is_stale, delivers, high_water_mark};
use crate::hash::{HashAlgorithm, content_hash, content_hash_of};
use crate::index::{PhotoLibrary, RowView, select, updated_row};
use crate::photo::{Photo, PhotoHash, PhotoView, FullPhotosList, opt_chars, opt_str_chars};

verus! {

/// The answer to an incremental synchronisation request.
#[derive(Debug)]
pub enum SyncResponse {
    /// The changes since the client's cursor and the new high-water mark.
    Changes(EventLogs),
    /// The cursor cannot be served: the client must fetch a full snapshot.
    Conflict,
}

/// A full snapshot for `user_id`: its active (untrashed) photos and the
/// public ones.
pub fn full_photos_list(library: &PhotoLibrary, user_id: &str) -> (r: FullPhotosList)
    ensures
        r.event_log_id == high_water_mark(library@.events),
        crate::index::photo_views(r.photos@) == select(
            library@.rows,
            |row: RowView| row.photo.visible_to(user_id@) && row.photo.trashed_on is None,
        ),
{
    library.get_photos_by_user_and_public(user_id)
}

/// The changes visible to `user_id` since `last_synced_event_id`, or the
/// conflict signal when that cursor is stale.
pub fn partial_photos_list(library: &PhotoLibrary, last_synced_event_id: i64, user_id: &str) -> (r: SyncResponse)
    ensures
        r is Conflict <==> cursor_is_stale(library@.events, last_synced_event_id),
        r matches SyncResponse::Changes(c) ==> c.event_log_id == high_water_mark(library@.events)
            && delivers(c.events@, changes_since(library@.events, last_synced_event_id, user_id@)),
{
    match library.get_events_for_user(last_synced_event_id, user_id) {
        Ok(events) => SyncResponse::Changes(events),
        Err(UserEventLogError::NoEvents) => SyncResponse::Conflict,
        Err(UserEventLogError::InvalidEventId) => SyncResponse::Conflict,
    }
}

/// The owner scope of a photo that `user_id` uploads or moves: none, the
/// public scope, when `make_public` is set.
pub fn target_owner(user_id: &str, make_public: bool) -> (r: Option<String>)
    ensures
        opt_chars(r) == if make_public { None } else { Some(user_id@) },
{
    if make_public {
        None
    } else {
        Some(String::from_str(user_id))
    }
}

/// A folder name, with the empty name meaning no folder.
pub fn non_empty_folder(folder: Option<String>) -> (r: Option<String>)
    ensures
        opt_chars(r) == match opt_chars(folder) {
            Some(f) => if f.len() > 0 { Some(f) } else { None },
            None => None,
        },
{
    match folder {
        Some(f) => if f.as_str().is_empty() {
            None
        } else {
            Some(f)
        },
        None => None,
    }
}

/// The content hash of an uploaded or scanned file's bytes.
pub fn compute_photo_hash(photo_id: i64, bytes: &[u8]) -> (r: PhotoHash)
    ensures
        r.id == photo_id,
        r.hash@ == content_hash_of(HashAlgorithm::Blake3, bytes@),
{
    PhotoHash { id: photo_id, hash: content_hash(HashAlgorithm::Blake3, bytes) }
}

/// What to do with a received upload.
#[derive(Debug)]
pub enum UploadPlan {
    /// A photo of the same owner scope has the same content: it is the
    /// answer, and the received file is discarded.
    Existing(Photo),
    /// The photo to store (its id is assigned when it is inserted).
    Store(Photo),
}

/// The photo that an upload of `file_name` stores when nothing matches.
pub open spec fn uploaded_photo(
    owner: Option<Seq<char>>,
    file_name: Seq<char>,
    folder_name: Option<Seq<char>>,
    created_at: i64,
    file_size: i64,
) -> PhotoView {
    PhotoView {
        id: 0,
        user_id: owner,
        name: file_name,
        created_at,
        file_size,
        folder: folder_name,
        thumb_hash: None,
        trashed_on: None,
    }
}

/// The photos of scope `owner` whose content hash is `hash`.
pub open spec fn same_content(rows: Seq<RowView>, owner: Option<Seq<char>>, hash: Seq<u8>) -> Seq<PhotoView> {
    select(rows, |row: RowView| row.photo.user_id == owner && row.hash == Some(hash))
}

/// Decides an upload by `user_id` whose content hash is `hash`: the first
/// photo of the target scope with that hash, when there is one, else the
/// photo to store.
pub fn plan_upload(
    library: &PhotoLibrary,
    user_id: &str,
    make_public: bool,
    file_name: &str,
    folder_name: Option<String>,
    created_at: i64,
    file_size: i64,
    hash: &Vec<u8>,
) -> (r: UploadPlan)
    ensures
        ({
            let owner = if make_public { None } else { Some(user_id@) };
            let found = same_content(library@.rows, owner, hash@);
            &&& found.len() > 0 ==> (r matches UploadPlan::Existing(p) && p@ == found[0])
            &&& found.len() == 0 ==> (r matches UploadPlan::Store(p) && p@ == uploaded_photo(
                owner,
                file_name@,
                opt_chars(folder_name),
                created_at,
                file_size,
            ))
        }),
{
    let owner = target_owner(user_id, make_public);
    let existing = match &owner {
        Some(u) => library.get_photo_with_hash(hash, Some(u.as_str())),
        None => library.get_photo_with_hash(hash, None),
    };
    proof {
        let o = if make_public { None } else { Some(user_id@) };
        assert((|row: RowView| row.photo.user_id == opt_chars(owner) && row.hash == Some(hash@)) == (|row: RowView| row.photo.user_id == o && row.hash == Some(hash@)));
    }
    match existing {
        Some(p) => UploadPlan::Existing(p),
        None => UploadPlan::Store(
            Photo {
                id: 0,
                user_id: owner,
                name: String::from_str(file_name),
                created_at,
                file_size,
                folder: folder_name,
                thumb_hash: None,
                trashed_on: None,
            },
        ),
    }
}

/// Stores a planned upload with its content hash.
pub fn commit_upload(library: &mut PhotoLibrary, photo: &Photo, hash: &Vec<u8>) -> (r: Photo)
    requires
        old(library)@.wf(),
        old(library)@.has_room(1),
    ensures
        final(library)@.wf(),
        r@ == crate::index::stored_photo(photo@, old(library)@.next_photo_id),
        r@.thumb_hash is None,
        final(library)@.rows == old(library)@.rows.push(RowView { photo: r@, hash: Some(hash@) }),
        final(library)@.events == old(library)@.events.push(
            crate::index::log_entry(old(library)@.next_event_id, r@.id, r@.user_id, Some(r@)),
        ),
{
    library.insert_uploaded_photo(photo, hash)
}

pub open spec fn with_trashed_on(p: PhotoView, t: Option<i64>) -> PhotoView {
    PhotoView { trashed_on: t, ..p }
}

pub open spec fn with_created_at(p: PhotoView, t: i64) -> PhotoView {
    PhotoView { created_at: t, ..p }
}

pub open spec fn with_name(p: PhotoView, name: Seq<char>) -> PhotoView {
    PhotoView { name, ..p }
}

/// `stem`, a dot, and the extension if any.
pub open spec fn collision_name_of(stem: Seq<char>, extension: Option<&str>) -> Seq<char> {
    stem + seq!['.'] + match extension {
        Some(e) => e@,
        None => Seq::<char>::empty(),
    }
}

/// A file name made of `stem`, a dot and `extension` (nothing after the dot
/// when there is no extension).
pub fn collision_name(stem: &str, extension: Option<&str>) -> (r: String)
    ensures
        r@ == collision_name_of(stem@, extension),
{
    let mut r = String::from_str(stem);
    r.append(".");
    match extension {
        Some(e) => r.append(e),
        None => {},
    }
    proof {
        reveal_strlit(".");
        if extension is None {
            assert(r@ =~= stem@ + seq!['.'] + Seq::<char>::empty());
        }
    }
    r
}

pub open spec fn is_lower_hex(c: char) -> bool {
    ('0' <= c <= '9') || ('a' <= c <= 'f')
}

/// The text of a version 4 UUID: 36 characters, `-` at positions 8, 13, 18
/// and 23, lowercase hexadecimal digits elsewhere, the version digit `4` at
/// position 14 and a variant digit `8`, `9`, `a` or `b` at position 19.
pub open spec fn is_uuid_v4_text(s: Seq<char>) -> bool {
    &&& s.len() == 36
    &&& forall|i: int|
        0 <= i < 36 ==> if i == 8 || i == 13 || i == 18 || i == 23 {
            #[trigger] s[i] == '-'
        } else {
            is_lower_hex(s[i])
        }
    &&& s[14] == '4'
    &&& (s[19] == '8' || s[19] == '9' || s[19] == 'a' || s[19] == 'b')
}

/// Relies on uuid's `Uuid::new_v4`, which sets the version and variant bits
/// of a random value, and its `Display`, which writes the hyphenated
/// lowercase form.
#[verifier::external_body]
fn random_stem() -> (r: String)
    ensures
        is_uuid_v4_text(r@),
{
    uuid::Uuid::new_v4().to_string()
}

/// The planned upload under a fresh random name, a version 4 UUID followed
/// by a dot and the extension, for when a file already sits at the planned
/// path.
pub fn rename_for_collision(photo: &Photo, extension: Option<&str>) -> (r: Photo)
    ensures
        exists|stem: Seq<char>|
            is_uuid_v4_text(stem) && r@ == with_name(photo@, collision_name_of(stem, extension)),
{
    let stem = random_stem();
    let mut r = photo.duplicate();
    r.name = collision_name(stem.as_str(), extension);
    proof {
        assert(r@ == with_name(photo@, collision_name_of(stem@, extension)));
    }
    r
}

/// A move of one photo: its new state and the two paths, relative to the
/// storage root.
#[derive(Debug)]
pub struct MovePlan {
    pub moved: Photo,
    pub source_path: String,
    pub destination_path: String,
}

/// `photo` in owner scope `user_id` and folder `folder`.
pub open spec fn moved_photo(photo: PhotoView, user_id: Option<Seq<char>>, folder: Option<Seq<char>>) -> PhotoView {
    PhotoView { user_id, folder, ..photo }
}

/// Plans moving `photo` to owner scope `target_user` and folder
/// `target_folder`: nothing when its path would not change.
pub fn plan_move(photo: &Photo, target_user: &Option<String>, target_folder: &Option<String>) -> (r: Option<MovePlan>)
    ensures
        ({
            let m = moved_photo(photo@, opt_chars(*target_user), opt_chars(*target_folder));
            &&& r is None <==> photo@.partial_path() == m.partial_path()
            &&& r matches Some(plan) ==> plan.moved@ == m && plan.source_path@ == photo@.partial_path()
                && plan.destination_path@ == m.partial_path()
        }),
{
    let source_path = photo.partial_path();
    let mut moved = photo.duplicate();
    moved.user_id = crate::photo::clone_opt_string(target_user);
    moved.folder = crate::photo::clone_opt_string(target_folder);
    let destination_path = moved.partial_path();
    if source_path == destination_path {
        None
    } else {
        Some(MovePlan { moved, source_path, destination_path })
    }
}

/// What happened to the last step of a move.
#[derive(Debug, Clone, Copy, PartialEq, Eq, Structural)]
pub enum MoveEvent {
    FileMoved,
    FileMoveFailed,
    IndexUpdated,
    IndexUpdateFailed,
    FileMovedBack,
    FileMoveBackFailed,
}

/// How a move ended.
#[derive(Debug, Clone, Copy, PartialEq, Eq, Structural)]
pub enum MoveOutcome {
    /// File and index both show the new location.
    Moved,
    /// The file could not be moved; nothing changed.
    Skipped,
    /// The index could not be updated; the file was moved back, or an
    /// attempt to do so failed.
    Failed,
}

/// The next step of a move: the file moves first, then the index follows;
/// when the index cannot follow, the file is moved back.
#[derive(Debug, Clone, Copy, PartialEq, Eq, Structural)]
pub enum MoveStep {
    MoveFile,
    UpdateIndex,
    MoveFileBack,
    Done(MoveOutcome),
}

/// Every move starts by moving the file.
pub fn first_move_step() -> (r: MoveStep)
    ensures
        r == MoveStep::MoveFile,
{
    MoveStep::MoveFile
}

/// The step that follows `event`.
pub fn next_move_step(event: MoveEvent) -> (r: MoveStep)
    ensures
        r == match event {
            MoveEvent::FileMoved => MoveStep::UpdateIndex,
            MoveEvent::FileMoveFailed => MoveStep::Done(MoveOutcome::Skipped),
            MoveEvent::IndexUpdated => MoveStep::Done(MoveOutcome::Moved),
            MoveEvent::IndexUpdateFailed => MoveStep::MoveFileBack,
            MoveEvent::FileMovedBack => MoveStep::Done(MoveOutcome::Failed),
            MoveEvent::FileMoveBackFailed => MoveStep::Done(MoveOutcome::Failed),
        },
{
    match event {
        MoveEvent::FileMoved => MoveStep::UpdateIndex,
        MoveEvent::FileMoveFailed => MoveStep::Done(MoveOutcome::Skipped),
        MoveEvent::IndexUpdated => MoveStep::Done(MoveOutcome::Moved),
        MoveEvent::IndexUpdateFailed => MoveStep::MoveFileBack,
        MoveEvent::FileMovedBack => MoveStep::Done(MoveOutcome::Failed),
        MoveEvent::FileMoveBackFailed => MoveStep::Done(MoveOutcome::Failed),
    }
}

/// The photo with id `photo_id` visible to `user_id`, after `trashed_on` is
/// set to `value`; the change is stored and logged. None when there is no
/// such photo, and then nothing changes.
fn set_trashed_on(library: &mut PhotoLibrary, photo_id: i64, user_id: &str, value: Option<i64>) -> (r: Option<Photo>)
    requires
        old(library)@.wf(),
        old(library)@.has_room(1),
    ensures
        final(library)@.wf(),
        r is None <==> !(exists|i: int|
            0 <= i < old(library)@.rows.len() && #[trigger] old(library)@.rows[i].photo.id == photo_id
                && old(library)@.rows[i].photo.visible_to(user_id@)),
        r is None ==> final(library)@ == old(library)@,
        r matches Some(p) ==> exists|i: int|
            0 <= i < old(library)@.rows.len() && #[trigger] old(library)@.rows[i].photo.id == photo_id
                && old(library)@.rows[i].photo.visible_to(user_id@)
                && p@ == with_trashed_on(old(library)@.rows[i].photo, value)
                && final(library)@.rows == old(library)@.rows.map_values(|row: RowView| updated_row(row, p@))
                && final(library)@.events == old(library)@.events.push(
                    crate::index::log_entry(old(library)@.next_event_id, p@.id, p@.user_id, Some(p@)),
                ),
{
    match library.get_photo(photo_id, user_id) {
        Some(mut p) => {
            p.trashed_on = value;
            library.update_photo(&p);
            Some(p)
        },
        None => None,
    }
}

/// Moves the photo to the trash at time `now`.
pub fn trash_photo(library: &mut PhotoLibrary, photo_id: i64, user_id: &str, now: i64) -> (r: Option<Photo>)
    requires
        old(library)@.wf(),
        old(library)@.has_room(1),
    ensures
        final(library)@.wf(),
        r is None <==> !(exists|i: int|
            0 <= i < old(library)@.rows.len() && #[trigger] old(library)@.rows[i].photo.id == photo_id
                && old(library)@.rows[i].photo.visible_to(user_id@)),
        r is None ==> final(library)@ == old(library)@,
        r matches Some(p) ==> exists|i: int|
            0 <= i < old(library)@.rows.len() && #[trigger] old(library)@.rows[i].photo.id == photo_id
                && old(library)@.rows[i].photo.visible_to(user_id@)
                && p@ == with_trashed_on(old(library)@.rows[i].photo, Some(now))
                && final(library)@.rows == old(library)@.rows.map_values(|row: RowView| updated_row(row, p@))
                && final(library)@.events == old(library)@.events.push(
                    crate::index::log_entry(old(library)@.next_event_id, p@.id, p@.user_id, Some(p@)),
                ),
{
    set_trashed_on(library, photo_id, user_id, Some(now))
}

/// Takes the photo out of the trash.
pub fn restore_photo(library: &mut PhotoLibrary, photo_id: i64, user_id: &str) -> (r: Option<Photo>)
    requires
        old(library)@.wf(),
        old(library)@.has_room(1),
    ensures
        final(library)@.wf(),
        r is None <==> !(exists|i: int|
            0 <= i < old(library)@.rows.len() && #[trigger] old(library)@.rows[i].photo.id == photo_id
                && old(library)@.rows[i].photo.visible_to(user_id@)),
        r is None ==> final(library)@ == old(library)@,
        r matches Some(p) ==> exists|i: int|
            0 <= i < old(library)@.rows.len() && #[trigger] old(library)@.rows[i].photo.id == photo_id
                && old(library)@.rows[i].photo.visible_to(user_id@)
                && p@ == with_trashed_on(old(library)@.rows[i].photo, None)
                && final(library)@.rows == old(library)@.rows.map_values(|row: RowView| updated_row(row, p@))
                && final(library)@.events == old(library)@.events.push(
                    crate::index::log_entry(old(library)@.next_event_id, p@.id, p@.user_id, Some(p@)),
                ),
{
    set_trashed_on(library, photo_id, user_id, None)
}

/// Sets the capture time of the photo.
pub fn update_timestamp(library: &mut PhotoLibrary, photo_id: i64, user_id: &str, time_created: i64) -> (r: Option<Photo>)
    requires
        old(library)@.wf(),
        old(library)@.has_room(1),
    ensures
        final(library)@.wf(),
        r is None <==> !(exists|i: int|
            0 <= i < old(library)@.rows.len() && #[trigger] old(library)@.rows[i].photo.id == photo_id
                && old(library)@.rows[i].photo.visible_to(user_id@)),
        r is None ==> final(library)@ == old(library)@,
        r matches Some(p) ==> exists|i: int|
            0 <= i < old(library)@.rows.len() && #[trigger] old(library)@.rows[i].photo.id == photo_id
                && old(library)@.rows[i].photo.visible_to(user_id@)
                && p@ == with_created_at(old(library)@.rows[i].photo, time_created)
                && final(library)@.rows == old(library)@.rows.map_values(|row: RowView| updated_row(row, p@))
                && final(library)@.events == old(library)@.events.push(
                    crate::index::log_entry(old(library)@.next_event_id, p@.id, p@.user_id, Some(p@)),
                ),
{
    match library.get_photo(photo_id, user_id) {
        Some(mut p) => {
            p.created_at = time_created;
            library.update_photo(&p);
            Some(p)
        },
        None => None,
    }
}

} // verus!
