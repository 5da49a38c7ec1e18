//! Filesystem reconciliation: the difference between what one owner's
//! directory holds and what the index records for that owner.
use vstd::prelude::*;
use vstd::string::StringExecFns;
use crate::photo::{Photo, PhotoView, full_name_of, opt_chars};
use crate::index::{PhotoLibrary, photo_views};

verus! {

broadcast use vstd::seq_lib::group_seq_lib_default, vstd::seq::Seq::lemma_filter_push;

/// Extension of the metadata sidecar files that sit beside photos.
pub const SIDECAR_EXTENSION: &'static str = "json";

/// Photos removed or inserted by one batch write.
pub const SCAN_CHUNK_SIZE: usize = 1024;

/// One entry met while walking an owner's directory, `depth` levels below it.
/// `parent_name` is the name of the directory that holds it.
#[derive(Debug)]
pub struct DiskEntry {
    pub depth: usize,
    pub file_name: String,
    pub parent_name: Option<String>,
    pub is_dir: bool,
    pub extension: Option<String>,
    pub file_size: i64,
}

pub struct DiskEntryView {
    pub depth: usize,
    pub file_name: Seq<char>,
    pub parent_name: Option<Seq<char>>,
    pub is_dir: bool,
    pub extension: Option<Seq<char>>,
    pub file_size: i64,
}

impl View for DiskEntry {
    type V = DiskEntryView;

    open spec fn view(&self) -> DiskEntryView {
        DiskEntryView {
            depth: self.depth,
            file_name: self.file_name@,
            parent_name: opt_chars(self.parent_name),
            is_dir: self.is_dir,
            extension: opt_chars(self.extension),
            file_size: self.file_size,
        }
    }
}

pub open spec fn disk_views(s: Seq<DiskEntry>) -> Seq<DiskEntryView> {
    s.map_values(|e: DiskEntry| e@)
}

/// A file one or two levels down that is not a sidecar.
pub open spec fn is_photo_file(e: DiskEntryView) -> bool {
    !e.is_dir && 1 <= e.depth <= 2 && e.extension != Some(SIDECAR_EXTENSION@)
}

/// The folder attribute of an entry: its directory's name two levels down,
/// none one level down.
pub open spec fn folder_of(e: DiskEntryView) -> Option<Seq<char>> {
    if e.depth == 2 {
        e.parent_name
    } else {
        None
    }
}

/// The path identity key of an entry.
pub open spec fn entry_key(e: DiskEntryView) -> Seq<char> {
    full_name_of(e.file_name, folder_of(e))
}

pub open spec fn disk_keys(entries: Seq<DiskEntryView>) -> Seq<Seq<char>> {
    entries.filter(|e: DiskEntryView| is_photo_file(e)).map_values(|e: DiskEntryView| entry_key(e))
}

pub open spec fn photo_keys(photos: Seq<PhotoView>) -> Seq<Seq<char>> {
    photos.map_values(|p: PhotoView| p.full_name())
}

/// The ids of the recorded photos whose key is not on disk.
pub open spec fn removed_photo_ids(photos: Seq<PhotoView>, entries: Seq<DiskEntryView>) -> Seq<i64> {
    photos.filter(|p: PhotoView| !disk_keys(entries).contains(p.full_name())).map_values(
        |p: PhotoView| p.id,
    )
}

/// The photo files on disk whose key is not recorded.
pub open spec fn new_disk_entries(entries: Seq<DiskEntryView>, photos: Seq<PhotoView>) -> Seq<
    DiskEntryView,
> {
    entries.filter(|e: DiskEntryView| is_photo_file(e) && !photo_keys(photos).contains(entry_key(e)))
}

/// The photo imported for entry `e` of owner `user_id`, captured at `ts`.
pub open spec fn parsed_photo(user_id: Option<Seq<char>>, e: DiskEntryView, ts: i64) -> PhotoView {
    PhotoView {
        id: 0,
        user_id,
        name: e.file_name,
        created_at: ts,
        file_size: e.file_size,
        folder: folder_of(e),
        thumb_hash: None,
        trashed_on: None,
    }
}

/// The photos imported for `entries`, the i-th captured at `ts[i]`; entries
/// without a capture time are skipped.
pub open spec fn parsed_photos(
    user_id: Option<Seq<char>>,
    entries: Seq<DiskEntryView>,
    ts: Seq<Option<i64>>,
) -> Seq<PhotoView>
    decreases entries.len(),
{
    if entries.len() == 0 || ts.len() != entries.len() {
        Seq::empty()
    } else {
        let prev = parsed_photos(user_id, entries.drop_last(), ts.drop_last());
        match ts.last() {
            Some(t) => prev.push(parsed_photo(user_id, entries.last(), t)),
            None => prev,
        }
    }
}

/// The outcome of scanning one owner: the photo files to import and the ids
/// of the recorded photos to delete.
#[derive(Debug)]
pub struct ScanPlan {
    pub new_entries: Vec<DiskEntry>,
    pub removed_photo_ids: Vec<i64>,
}

fn clone_entry(e: &DiskEntry) -> (r: DiskEntry)
    ensures
        r@ == e@,
{
    DiskEntry {
        depth: e.depth,
        file_name: e.file_name.clone(),
        parent_name: crate::photo::clone_opt_string(&e.parent_name),
        is_dir: e.is_dir,
        extension: crate::photo::clone_opt_string(&e.extension),
        file_size: e.file_size,
    }
}

/// The folder attribute of an entry.
pub fn get_folder_name(entry: &DiskEntry) -> (r: Option<String>)
    ensures
        opt_chars(r) == folder_of(entry@),
{
    if entry.depth == 2 {
        crate::photo::clone_opt_string(&entry.parent_name)
    } else {
        None
    }
}

/// Whether an entry is a photo file the scan considers.
pub fn is_photo_file_entry(entry: &DiskEntry) -> (r: bool)
    ensures
        r == is_photo_file(entry@),
{
    if entry.is_dir || entry.depth < 1 || entry.depth > 2 {
        return false;
    }
    match &entry.extension {
        Some(ext) => *ext != String::from_str(SIDECAR_EXTENSION),
        None => true,
    }
}

/// The path identity key of an entry.
pub fn disk_entry_key(entry: &DiskEntry) -> (r: String)
    ensures
        r@ == entry_key(entry@),
{
    let folder = get_folder_name(entry);
    match &folder {
        Some(f) => Photo::construct_full_name(entry.file_name.as_str(), Some(f.as_str())),
        None => Photo::construct_full_name(entry.file_name.as_str(), None),
    }
}

pub open spec fn string_views(s: Seq<String>) -> Seq<Seq<char>> {
    s.map_values(|x: String| x@)
}

fn strings_contain(v: &Vec<String>, s: &String) -> (r: bool)
    ensures
        r == string_views(v@).contains(s@),
{
    let mut i: usize = 0;
    while i < v.len()
        invariant
            i <= v@.len(),
            forall|k: int| 0 <= k < i ==> v@[k]@ != s@,
        decreases v@.len() - i,
    {
        if v[i] == *s {
            proof {
                assert(string_views(v@)[i as int] == s@);
            }
            return true;
        }
        i = i + 1;
    }
    proof {
        if string_views(v@).contains(s@) {
            let k = choose|k: int| 0 <= k < v@.len() && string_views(v@)[k] == s@;
            assert(v@[k]@ == s@);
        }
    }
    false
}

fn keys_of_disk(entries: &Vec<DiskEntry>) -> (r: Vec<String>)
    ensures
        string_views(r@) == disk_keys(disk_views(entries@)),
{
    let ghost dv = disk_views(entries@);
    let ghost pred = |e: DiskEntryView| is_photo_file(e);
    let mut keys: Vec<String> = Vec::new();
    let mut i: usize = 0;
    while i < entries.len()
        invariant
            i <= entries@.len(),
            dv == disk_views(entries@),
            pred == (|e: DiskEntryView| is_photo_file(e)),
            string_views(keys@) == dv.subrange(0, i as int).filter(pred).map_values(
                |e: DiskEntryView| entry_key(e),
            ),
        decreases entries@.len() - i,
    {
        proof {
            assert(dv.subrange(0, i + 1) == dv.subrange(0, i as int).push(dv[i as int]));
            let f = dv.subrange(0, i as int).filter(pred);
            assert(f.push(dv[i as int]).map_values(|e: DiskEntryView| entry_key(e)) =~= f.map_values(
                |e: DiskEntryView| entry_key(e),
            ).push(entry_key(dv[i as int])));
        }
        if is_photo_file_entry(&entries[i]) {
            let k = disk_entry_key(&entries[i]);
            proof {
                assert(string_views(keys@.push(k)) =~= string_views(keys@).push(k@));
            }
            keys.push(k);
        }
        i = i + 1;
    }
    proof {
        assert(dv.subrange(0, entries@.len() as int) == dv);
    }
    keys
}

fn keys_of_photos(photos: &Vec<Photo>) -> (r: Vec<String>)
    ensures
        string_views(r@) == photo_keys(photo_views(photos@)),
{
    let mut keys: Vec<String> = Vec::new();
    let mut i: usize = 0;
    while i < photos.len()
        invariant
            i <= photos@.len(),
            string_views(keys@) == photo_keys(photo_views(photos@.subrange(0, i as int))),
        decreases photos@.len() - i,
    {
        let k = photos[i].full_name();
        proof {
            assert(photo_keys(photo_views(photos@.subrange(0, i + 1))) =~= photo_keys(
                photo_views(photos@.subrange(0, i as int)),
            ).push(k@));
            assert(string_views(keys@.push(k)) =~= string_views(keys@).push(k@));
        }
        keys.push(k);
        i = i + 1;
    }
    proof {
        assert(photos@.subrange(0, photos@.len() as int) == photos@);
    }
    keys
}

/// Compares one owner's directory with the photos the index records for
/// that owner. When the directory is missing, every recorded photo counts as
/// removed and nothing is imported.
pub fn scan_user_photos(
    user_folder_exists: bool,
    entries: &Vec<DiskEntry>,
    existing_photos: &Vec<Photo>,
) -> (r: ScanPlan)
    ensures
        !user_folder_exists ==> r.new_entries@.len() == 0 && r.removed_photo_ids@ == photo_views(
            existing_photos@,
        ).map_values(|p: PhotoView| p.id),
        user_folder_exists ==> disk_views(r.new_entries@) == new_disk_entries(
            disk_views(entries@),
            photo_views(existing_photos@),
        ) && r.removed_photo_ids@ == removed_photo_ids(
            photo_views(existing_photos@),
            disk_views(entries@),
        ),
{
    let ghost ev = photo_views(existing_photos@);
    let ghost dv = disk_views(entries@);
    if !user_folder_exists {
        let mut ids: Vec<i64> = Vec::new();
        let mut i: usize = 0;
        while i < existing_photos.len()
            invariant
                i <= existing_photos@.len(),
                ev == photo_views(existing_photos@),
                ids@ == ev.subrange(0, i as int).map_values(|p: PhotoView| p.id),
            decreases existing_photos@.len() - i,
        {
            proof {
                assert(ev.subrange(0, i + 1).map_values(|p: PhotoView| p.id) =~= ev.subrange(
                    0,
                    i as int,
                ).map_values(|p: PhotoView| p.id).push(existing_photos@[i as int].id));
            }
            ids.push(existing_photos[i].id);
            i = i + 1;
        }
        proof {
            assert(ev.subrange(0, existing_photos@.len() as int) == ev);
        }
        return ScanPlan { new_entries: Vec::new(), removed_photo_ids: ids };
    }
    let disk = keys_of_disk(entries);
    let known = keys_of_photos(existing_photos);
    let ghost rpred = |p: PhotoView| !disk_keys(dv).contains(p.full_name());
    let mut removed: Vec<i64> = Vec::new();
    let mut i: usize = 0;
    while i < existing_photos.len()
        invariant
            i <= existing_photos@.len(),
            ev == photo_views(existing_photos@),
            dv == disk_views(entries@),
            string_views(disk@) == disk_keys(dv),
            rpred == (|p: PhotoView| !disk_keys(dv).contains(p.full_name())),
            removed@ == ev.subrange(0, i as int).filter(rpred).map_values(|p: PhotoView| p.id),
        decreases existing_photos@.len() - i,
    {
        proof {
            assert(ev.subrange(0, i + 1) == ev.subrange(0, i as int).push(ev[i as int]));
            let f = ev.subrange(0, i as int).filter(rpred);
            assert(f.push(ev[i as int]).map_values(|p: PhotoView| p.id) =~= f.map_values(
                |p: PhotoView| p.id,
            ).push(ev[i as int].id));
        }
        let key = existing_photos[i].full_name();
        if !strings_contain(&disk, &key) {
            removed.push(existing_photos[i].id);
        }
        i = i + 1;
    }
    proof {
        assert(ev.subrange(0, existing_photos@.len() as int) == ev);
    }
    let ghost npred = |e: DiskEntryView| is_photo_file(e) && !photo_keys(ev).contains(entry_key(e));
    let mut fresh: Vec<DiskEntry> = Vec::new();
    let mut j: usize = 0;
    while j < entries.len()
        invariant
            j <= entries@.len(),
            ev == photo_views(existing_photos@),
            dv == disk_views(entries@),
            string_views(known@) == photo_keys(ev),
            npred == (|e: DiskEntryView| is_photo_file(e) && !photo_keys(ev).contains(entry_key(e))),
            disk_views(fresh@) == dv.subrange(0, j as int).filter(npred),
        decreases entries@.len() - j,
    {
        proof {
            assert(dv.subrange(0, j + 1) == dv.subrange(0, j as int).push(dv[j as int]));
        }
        if is_photo_file_entry(&entries[j]) {
            let key = disk_entry_key(&entries[j]);
            if !strings_contain(&known, &key) {
                let c = clone_entry(&entries[j]);
                proof {
                    assert(disk_views(fresh@.push(c)) =~= disk_views(fresh@).push(c@));
                }
                fresh.push(c);
            }
        }
        j = j + 1;
    }
    proof {
        assert(dv.subrange(0, entries@.len() as int) == dv);
    }
    ScanPlan { new_entries: fresh, removed_photo_ids: removed }
}

/// The photo imported for `entry` of owner `user_id`: none when no capture
/// time could be resolved for the file.
pub fn parse_image(user_id: Option<&str>, entry: &DiskEntry, timestamp: Option<i64>) -> (r: Option<Photo>)
    ensures
        match timestamp {
            Some(t) => r is Some && r->0@ == parsed_photo(crate::photo::opt_str_chars(user_id), entry@, t),
            None => r is None,
        },
{
    match timestamp {
        Some(t) => Some(Photo {
            id: 0,
            user_id: crate::index::to_opt_string(user_id),
            name: entry.file_name.clone(),
            created_at: t,
            file_size: entry.file_size,
            folder: get_folder_name(entry),
            thumb_hash: None,
            trashed_on: None,
        }),
        None => None,
    }
}

/// The photos imported for `entries`, the i-th captured at `timestamps[i]`;
/// entries without a capture time are skipped.
pub fn new_photos_from(user_id: Option<&str>, entries: &Vec<DiskEntry>, timestamps: &Vec<Option<i64>>) -> (r: Vec<Photo>)
    requires
        timestamps@.len() == entries@.len(),
    ensures
        photo_views(r@) == parsed_photos(
            crate::photo::opt_str_chars(user_id),
            disk_views(entries@),
            timestamps@,
        ),
{
    let ghost u = crate::photo::opt_str_chars(user_id);
    let ghost dv = disk_views(entries@);
    let mut out: Vec<Photo> = Vec::new();
    let mut i: usize = 0;
    while i < entries.len()
        invariant
            i <= entries@.len(),
            timestamps@.len() == entries@.len(),
            u == crate::photo::opt_str_chars(user_id),
            dv == disk_views(entries@),
            photo_views(out@) == parsed_photos(u, dv.subrange(0, i as int), timestamps@.subrange(0, i as int)),
        decreases entries@.len() - i,
    {
        proof {
            assert(dv.subrange(0, i + 1).drop_last() == dv.subrange(0, i as int));
            assert(timestamps@.subrange(0, i + 1).drop_last() == timestamps@.subrange(0, i as int));
        }
        match parse_image(user_id, &entries[i], timestamps[i]) {
            Some(p) => {
                proof {
                    assert(photo_views(out@.push(p)) =~= photo_views(out@).push(p@));
                }
                out.push(p);
            },
            None => {},
        }
        i = i + 1;
    }
    proof {
        assert(dv.subrange(0, entries@.len() as int) == dv);
        assert(timestamps@.subrange(0, entries@.len() as int) == timestamps@);
    }
    out
}

/// Applies one owner's scan to the index: deletes the removed photos, then
/// inserts the new ones, logging each change.
pub fn apply_scan(library: &mut PhotoLibrary, removed_photo_ids: &Vec<i64>, new_photos: &Vec<Photo>)
    requires
        old(library)@.wf(),
        old(library)@.has_room(removed_photo_ids@.len() + new_photos@.len() as int),
    ensures
        final(library)@.wf(),
        final(library)@.rows == crate::index::without_ids(old(library)@.rows, removed_photo_ids@)
            + crate::index::inserted_rows(photo_views(new_photos@), old(library)@.next_photo_id),
        final(library)@.events == old(library)@.events + crate::index::deletion_events(
            removed_photo_ids@,
            old(library)@.next_event_id,
        ) + crate::index::creation_events(
            photo_views(new_photos@),
            old(library)@.next_photo_id,
            (old(library)@.next_event_id + removed_photo_ids@.len()) as i64,
        ),
        final(library)@.next_photo_id == old(library)@.next_photo_id + new_photos@.len(),
        final(library)@.next_event_id == old(library)@.next_event_id + removed_photo_ids@.len()
            + new_photos@.len(),
{
    library.delete_photos(removed_photo_ids);
    library.insert_photos(new_photos);
}

/// The owner scopes to scan: every user, then the public scope.
pub fn owner_scopes(user_ids: &Vec<String>) -> (r: Vec<Option<String>>)
    ensures
        r@.len() == user_ids@.len() + 1,
        forall|i: int| 0 <= i < user_ids@.len() ==> opt_chars(#[trigger] r@[i]) == Some(user_ids@[i]@),
        r@[user_ids@.len() as int] is None,
{
    let mut r: Vec<Option<String>> = Vec::new();
    let mut i: usize = 0;
    while i < user_ids.len()
        invariant
            i <= user_ids@.len(),
            r@.len() == i,
            forall|k: int| 0 <= k < i ==> opt_chars(#[trigger] r@[k]) == Some(user_ids@[k]@),
        decreases user_ids@.len() - i,
    {
        r.push(Some(user_ids[i].clone()));
        i = i + 1;
    }
    r.push(None);
    r
}

/// Splits `0..len` into consecutive ranges `[start, end)` of `size` items
/// each, but for the last, which may be shorter.
pub fn chunk_ranges(len: usize, size: usize) -> (r: Vec<(usize, usize)>)
    requires
        size > 0,
    ensures
        len == 0 ==> r@.len() == 0,
        len > 0 ==> r@.len() > 0 && r@[0].0 == 0 && r@.last().1 == len,
        forall|i: int| 0 <= i < r@.len() ==> #[trigger] r@[i].0 < r@[i].1 <= len
            && r@[i].1 - r@[i].0 <= size,
        forall|i: int| 0 <= i < r@.len() - 1 ==> #[trigger] r@[i].1 == r@[i + 1].0,
        forall|i: int| 0 <= i < r@.len() - 1 ==> #[trigger] r@[i].1 - r@[i].0 == size,
{
    let mut r: Vec<(usize, usize)> = Vec::new();
    let mut start: usize = 0;
    while start < len
        invariant
            start <= len,
            size > 0,
            r@.len() == 0 <==> start == 0,
            r@.len() > 0 ==> r@[0].0 == 0 && r@.last().1 == start,
            forall|i: int| 0 <= i < r@.len() ==> #[trigger] r@[i].0 < r@[i].1 <= start
                && r@[i].1 - r@[i].0 <= size,
            forall|i: int| 0 <= i < r@.len() - 1 ==> #[trigger] r@[i].1 == r@[i + 1].0,
            forall|i: int| 0 <= i < r@.len() - 1 ==> #[trigger] r@[i].1 - r@[i].0 == size,
            r@.len() > 0 && r@.last().1 - r@.last().0 < size ==> start == len,
        decreases len - start,
    {
        let end = if len - start > size { start + size } else { len };
        r.push((start, end));
        start = end;
    }
    r
}

} // verus!
