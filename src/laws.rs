//! Properties that relate several operations of the library, stated over the
//! models the operations' contracts use, and proved.
use vstd::prelude::*;
use crate::event_log::{EventLogEntryView, changes_since, high_water_mark, log_well_formed, synced_to};
use crate::index::{
    LibraryView, RowView, creation_events, deletion_events, ids_unique, inserted_rows, select,
    with_id, without_ids,
};
use crate::photo::PhotoView;
use crate::scan::{
    DiskEntryView, disk_keys, entry_key, is_photo_file, new_disk_entries, parsed_photo,
    parsed_photos, photo_keys, removed_photo_ids,
};

verus! {

broadcast use vstd::seq_lib::group_seq_lib_default;

proof fn lemma_into_filter<A>(s: Seq<A>, p: spec_fn(A) -> bool, i: int)
    requires
        0 <= i < s.len(),
        p(s[i]),
    ensures
        exists|k: int| 0 <= k < s.filter(p).len() && s.filter(p)[k] == s[i],
{
    s.lemma_filter_contains(p, i);
}

proof fn lemma_out_of_filter<A>(s: Seq<A>, p: spec_fn(A) -> bool, k: int)
    requires
        0 <= k < s.filter(p).len(),
    ensures
        p(s.filter(p)[k]),
        exists|i: int| 0 <= i < s.len() && s[i] == s.filter(p)[k],
{
    s.lemma_filter_pred(p, k);
    s.lemma_filter_contains_rev(p, s.filter(p)[k]);
}

proof fn lemma_filter_none<A>(s: Seq<A>, p: spec_fn(A) -> bool)
    requires
        forall|i: int| 0 <= i < s.len() ==> !p(#[trigger] s[i]),
    ensures
        s.filter(p).len() == 0,
{
    if s.filter(p).len() > 0 {
        lemma_out_of_filter(s, p, 0);
    }
}

/// Every photo that `parsed_photos` yields comes from an entry with a
/// capture time.
proof fn lemma_parsed_from(u: Option<Seq<char>>, es: Seq<DiskEntryView>, ts: Seq<Option<i64>>, k: int)
    requires
        0 <= k < parsed_photos(u, es, ts).len(),
    ensures
        exists|j: int|
            0 <= j < es.len() && ts.len() == es.len() && ts[j] is Some && parsed_photos(u, es, ts)[k]
                == parsed_photo(u, #[trigger] es[j], ts[j]->0),
    decreases es.len(),
{
    let prev = parsed_photos(u, es.drop_last(), ts.drop_last());
    if k < prev.len() {
        lemma_parsed_from(u, es.drop_last(), ts.drop_last(), k);
        let j = choose|j: int|
            0 <= j < es.drop_last().len() && ts.drop_last().len() == es.drop_last().len()
                && ts.drop_last()[j] is Some && prev[k] == parsed_photo(
                u,
                #[trigger] es.drop_last()[j],
                ts.drop_last()[j]->0,
            );
        assert(es[j] == es.drop_last()[j]);
    } else {
        assert(es[es.len() - 1] == es.last());
    }
}

/// An entry with a capture time yields its photo.
proof fn lemma_parsed_into(u: Option<Seq<char>>, es: Seq<DiskEntryView>, ts: Seq<Option<i64>>, j: int)
    requires
        ts.len() == es.len(),
        0 <= j < es.len(),
        ts[j] is Some,
    ensures
        exists|k: int|
            0 <= k < parsed_photos(u, es, ts).len() && #[trigger] parsed_photos(u, es, ts)[k]
                == parsed_photo(u, es[j], ts[j]->0),
    decreases es.len(),
{
    let prev = parsed_photos(u, es.drop_last(), ts.drop_last());
    if j < es.len() - 1 {
        lemma_parsed_into(u, es.drop_last(), ts.drop_last(), j);
        let k = choose|k: int|
            0 <= k < prev.len() && #[trigger] prev[k] == parsed_photo(u, es.drop_last()[j], ts.drop_last()[j]->0);
        assert(parsed_photos(u, es, ts)[k] == prev[k]);
    } else {
        assert(parsed_photos(u, es, ts)[prev.len() as int] == parsed_photo(u, es[j], ts[j]->0));
    }
}

/// Without capture times nothing is imported.
proof fn lemma_parsed_none(u: Option<Seq<char>>, es: Seq<DiskEntryView>, ts: Seq<Option<i64>>)
    requires
        forall|j: int| 0 <= j < ts.len() ==> #[trigger] ts[j] is None,
    ensures
        parsed_photos(u, es, ts).len() == 0,
    decreases es.len(),
{
    if es.len() > 0 && ts.len() == es.len() {
        lemma_parsed_none(u, es.drop_last(), ts.drop_last());
        assert(ts[ts.len() - 1] is None);
    }
}

/// The key of a photo imported for an entry is the entry's key.
proof fn lemma_parsed_key(u: Option<Seq<char>>, e: DiskEntryView, t: i64, id: i64)
    ensures
        with_id(parsed_photo(u, e, t), id).full_name() == entry_key(e),
{
}

/// Every photo file's key is among the disk keys.
proof fn lemma_key_on_disk(entries: Seq<DiskEntryView>, i: int)
    requires
        0 <= i < entries.len(),
        is_photo_file(entries[i]),
    ensures
        disk_keys(entries).contains(entry_key(entries[i])),
{
    let p = |e: DiskEntryView| is_photo_file(e);
    lemma_into_filter(entries, p, i);
    let k = choose|k: int| 0 <= k < entries.filter(p).len() && entries.filter(p)[k] == entries[i];
    assert(disk_keys(entries)[k] == entry_key(entries[i]));
}

/// The rows of the index after one owner's scan was applied: the removed
/// photos deleted, then the imported ones inserted.
pub open spec fn rows_after_scan(
    lib: LibraryView,
    user_id: Option<Seq<char>>,
    entries: Seq<DiskEntryView>,
    timestamp_of: spec_fn(DiskEntryView) -> Option<i64>,
) -> Seq<RowView> {
    let existing = select(lib.rows, |row: RowView| row.photo.user_id == user_id);
    let fresh = new_disk_entries(entries, existing);
    without_ids(lib.rows, removed_photo_ids(existing, entries)) + inserted_rows(
        parsed_photos(user_id, fresh, fresh.map_values(timestamp_of)),
        lib.next_photo_id,
    )
}

/// After one scan, every photo of the owner has its key on disk.
proof fn lemma_rescan_removes_nothing(
    lib: LibraryView,
    u: Option<Seq<char>>,
    entries: Seq<DiskEntryView>,
    tsf: spec_fn(DiskEntryView) -> Option<i64>,
)
    requires
        lib.wf(),
    ensures
        ({
            let e2 = select(rows_after_scan(lib, u, entries, tsf), |row: RowView| row.photo.user_id == u);
            forall|a: int| 0 <= a < e2.len() ==> disk_keys(entries).contains(#[trigger] e2[a].full_name())
        }),
{
    let sp = |row: RowView| row.photo.user_id == u;
    let e1 = select(lib.rows, sp);
    let removed = removed_photo_ids(e1, entries);
    let fresh = new_disk_entries(entries, e1);
    let photos = parsed_photos(u, fresh, fresh.map_values(tsf));
    let w = without_ids(lib.rows, removed);
    let ins = inserted_rows(photos, lib.next_photo_id);
    let rows2 = w + ins;
    assert(rows2 == rows_after_scan(lib, u, entries, tsf));
    let e2 = select(rows2, sp);
    let keys = disk_keys(entries);
    let rpred = |p: PhotoView| !keys.contains(p.full_name());
    assert forall|a: int| 0 <= a < e2.len() implies keys.contains(#[trigger] e2[a].full_name()) by {
        lemma_out_of_filter(rows2, sp, a);
        let r = rows2.filter(sp)[a];
        let i = choose|i: int| 0 <= i < rows2.len() && rows2[i] == r;
        if i < w.len() {
            let wp = |row: RowView| !removed.contains(row.photo.id);
            lemma_out_of_filter(lib.rows, wp, i);
            let i0 = choose|i0: int| 0 <= i0 < lib.rows.len() && lib.rows[i0] == w[i];
            if !keys.contains(r.photo.full_name()) {
                lemma_into_filter(lib.rows, sp, i0);
                let k = choose|k: int| 0 <= k < lib.rows.filter(sp).len() && lib.rows.filter(sp)[k] == lib.rows[i0];
                assert(e1[k] == r.photo);
                lemma_into_filter(e1, rpred, k);
                let m = choose|m: int| 0 <= m < e1.filter(rpred).len() && e1.filter(rpred)[m] == e1[k];
                assert(removed[m] == r.photo.id);
                assert(removed.contains(r.photo.id));
            }
        } else {
            let n = i - w.len();
            assert(ins[n] == r);
            lemma_parsed_from(u, fresh, fresh.map_values(tsf), n);
            let j = choose|j: int|
                0 <= j < fresh.len() && fresh.map_values(tsf).len() == fresh.len()
                    && fresh.map_values(tsf)[j] is Some && photos[n] == parsed_photo(
                    u,
                    #[trigger] fresh[j],
                    fresh.map_values(tsf)[j]->0,
                );
            lemma_parsed_key(u, fresh[j], fresh.map_values(tsf)[j]->0, (lib.next_photo_id + n) as i64);
            let fp = |e: DiskEntryView| is_photo_file(e) && !photo_keys(e1).contains(entry_key(e));
            lemma_out_of_filter(entries, fp, j);
            let j0 = choose|j0: int| 0 <= j0 < entries.len() && entries[j0] == fresh[j];
            lemma_key_on_disk(entries, j0);
        }
    }
}

/// After one scan, every photo file with a capture time has its key among
/// the owner's photos.
proof fn lemma_rescan_finds_all(
    lib: LibraryView,
    u: Option<Seq<char>>,
    entries: Seq<DiskEntryView>,
    tsf: spec_fn(DiskEntryView) -> Option<i64>,
    b: int,
)
    requires
        lib.wf(),
        0 <= b < entries.len(),
        is_photo_file(entries[b]),
        tsf(entries[b]) is Some,
    ensures
        photo_keys(select(rows_after_scan(lib, u, entries, tsf), |row: RowView| row.photo.user_id == u)).contains(
            entry_key(entries[b]),
        ),
{
    let sp = |row: RowView| row.photo.user_id == u;
    let e1 = select(lib.rows, sp);
    let removed = removed_photo_ids(e1, entries);
    let fresh = new_disk_entries(entries, e1);
    let ts = fresh.map_values(tsf);
    let photos = parsed_photos(u, fresh, ts);
    let w = without_ids(lib.rows, removed);
    let ins = inserted_rows(photos, lib.next_photo_id);
    let rows2 = w + ins;
    assert(rows2 == rows_after_scan(lib, u, entries, tsf));
    let e2 = select(rows2, sp);
    let keys = disk_keys(entries);
    let rpred = |p: PhotoView| !keys.contains(p.full_name());
    let e = entries[b];
    // a row of `rows2` in scope puts its key among the owner's keys
    assert forall|i: int| 0 <= i < rows2.len() && sp(rows2[i]) implies photo_keys(e2).contains(
        #[trigger] rows2[i].photo.full_name(),
    ) by {
        lemma_into_filter(rows2, sp, i);
        let k = choose|k: int| 0 <= k < rows2.filter(sp).len() && rows2.filter(sp)[k] == rows2[i];
        assert(photo_keys(e2)[k] == rows2[i].photo.full_name());
    }
    if photo_keys(e1).contains(entry_key(e)) {
        let a = choose|a: int| 0 <= a < e1.len() && photo_keys(e1)[a] == entry_key(e);
        lemma_out_of_filter(lib.rows, sp, a);
        let i0 = choose|i0: int| 0 <= i0 < lib.rows.len() && lib.rows[i0] == lib.rows.filter(sp)[a];
        let r = lib.rows[i0];
        assert(r.photo == e1[a]);
        lemma_key_on_disk(entries, b);
        if removed.contains(r.photo.id) {
            let m = choose|m: int| 0 <= m < removed.len() && removed[m] == r.photo.id;
            lemma_out_of_filter(e1, rpred, m);
            let a2 = choose|a2: int| 0 <= a2 < e1.len() && e1[a2] == e1.filter(rpred)[m];
            lemma_out_of_filter(lib.rows, sp, a2);
            let i2 = choose|i2: int| 0 <= i2 < lib.rows.len() && lib.rows[i2] == lib.rows.filter(sp)[a2];
            assert(lib.rows[i2].photo.id == r.photo.id);
            if i2 != i0 {
                assert(ids_unique(lib.rows));
                assert(lib.rows[i2].photo.id != lib.rows[i0].photo.id);
            }
            assert(false);
        }
        let wp = |row: RowView| !removed.contains(row.photo.id);
        lemma_into_filter(lib.rows, wp, i0);
        let k = choose|k: int| 0 <= k < w.len() && w[k] == lib.rows[i0];
        assert(rows2[k] == r);
    } else {
        let fp = |x: DiskEntryView| is_photo_file(x) && !photo_keys(e1).contains(entry_key(x));
        lemma_into_filter(entries, fp, b);
        let j = choose|j: int| 0 <= j < fresh.len() && fresh[j] == e;
        assert(ts[j] == tsf(e));
        lemma_parsed_into(u, fresh, ts, j);
        let n = choose|n: int| 0 <= n < photos.len() && #[trigger] photos[n] == parsed_photo(u, fresh[j], ts[j]->0);
        lemma_parsed_key(u, e, ts[j]->0, (lib.next_photo_id + n) as i64);
        assert(rows2[w.len() + n] == ins[n]);
        assert(sp(rows2[w.len() + n]));
    }
}

/// Scanning an owner's directory a second time, with nothing changed on disk
/// and the same capture times resolved, removes no photo and imports none.
pub proof fn lemma_rescan_is_idempotent(
    lib: LibraryView,
    user_id: Option<Seq<char>>,
    entries: Seq<DiskEntryView>,
    timestamp_of: spec_fn(DiskEntryView) -> Option<i64>,
)
    requires
        lib.wf(),
    ensures
        ({
            let existing = select(
                rows_after_scan(lib, user_id, entries, timestamp_of),
                |row: RowView| row.photo.user_id == user_id,
            );
            let fresh = new_disk_entries(entries, existing);
            &&& removed_photo_ids(existing, entries).len() == 0
            &&& parsed_photos(user_id, fresh, fresh.map_values(timestamp_of)).len() == 0
        }),
{
    let sp = |row: RowView| row.photo.user_id == user_id;
    let e2 = select(rows_after_scan(lib, user_id, entries, timestamp_of), sp);
    let keys = disk_keys(entries);
    lemma_rescan_removes_nothing(lib, user_id, entries, timestamp_of);
    lemma_filter_none(e2, |p: PhotoView| !keys.contains(p.full_name()));
    let fresh = new_disk_entries(entries, e2);
    let fp = |x: DiskEntryView| is_photo_file(x) && !photo_keys(e2).contains(entry_key(x));
    assert forall|j: int| 0 <= j < fresh.len() implies #[trigger] fresh.map_values(timestamp_of)[j] is None by {
        lemma_out_of_filter(entries, fp, j);
        let b = choose|b: int| 0 <= b < entries.len() && entries[b] == fresh[j];
        if timestamp_of(fresh[j]) is Some {
            lemma_rescan_finds_all(lib, user_id, entries, timestamp_of, b);
        }
    }
    lemma_parsed_none(user_id, fresh, fresh.map_values(timestamp_of));
}

proof fn lemma_filter_keeps_order(s: Seq<EventLogEntryView>, pred: spec_fn(EventLogEntryView) -> bool)
    requires
        forall|i: int, j: int| 0 <= i < j < s.len() ==> s[i].event_id < s[j].event_id,
    ensures
        forall|i: int, j: int|
            0 <= i < j < s.filter(pred).len() ==> s.filter(pred)[i].event_id < s.filter(pred)[j].event_id,
    decreases s.len(),
{
    reveal(Seq::filter);
    if s.len() > 0 {
        let d = s.drop_last();
        lemma_filter_keeps_order(d, pred);
        let f = d.filter(pred);
        if pred(s.last()) {
            assert forall|k: int| 0 <= k < f.len() implies #[trigger] f[k].event_id < s.last().event_id by {
                lemma_out_of_filter(d, pred, k);
                let i = choose|i: int| 0 <= i < d.len() && d[i] == f[k];
                assert(s[i] == d[i]);
            }
            let g = f.push(s.last());
            assert(s.filter(pred) == g);
            assert forall|i: int, j: int| 0 <= i < j < g.len() implies g[i].event_id < g[j].event_id by {
                if j < f.len() {
                    assert(g[i] == f[i] && g[j] == f[j]);
                }
            }
        }
    }
}

/// The entries an incremental synchronisation delivers come in strictly
/// increasing event id order, each after the client's cursor and visible to
/// the client's owner.
pub proof fn lemma_changes_are_ordered(
    log: Seq<EventLogEntryView>,
    next_event_id: i64,
    cursor: i64,
    owner: Seq<char>,
)
    requires
        log_well_formed(log, next_event_id),
    ensures
        ({
            let sel = changes_since(log, cursor, owner);
            &&& forall|i: int, j: int| 0 <= i < j < sel.len() ==> sel[i].event_id < sel[j].event_id
            &&& forall|i: int| 0 <= i < sel.len() ==> #[trigger] sel[i].event_id > cursor && sel[i].visible_to(owner)
        }),
{
    let pred = synced_to(cursor, owner);
    assert forall|i: int, j: int| 0 <= i < j < log.len() implies log[i].event_id < log[j].event_id by {
        assert(log[i].event_id == next_event_id - log.len() + i);
        assert(log[j].event_id == next_event_id - log.len() + j);
    }
    lemma_filter_keeps_order(log, pred);
    assert forall|i: int| 0 <= i < log.filter(pred).len() implies #[trigger] log.filter(pred)[i].event_id > cursor
        && log.filter(pred)[i].visible_to(owner) by {
        lemma_out_of_filter(log, pred, i);
    }
}

/// The high-water mark of a snapshot is the largest event id of the log, or
/// 0 when the log is empty; when the newest entry is visible to the owner,
/// it is also the largest id among the entries visible to that owner.
pub proof fn lemma_high_water_mark_is_max(
    log: Seq<EventLogEntryView>,
    next_event_id: i64,
    owner: Seq<char>,
)
    requires
        log_well_formed(log, next_event_id),
    ensures
        log.len() == 0 ==> high_water_mark(log) == 0,
        log.len() > 0 ==> exists|i: int| 0 <= i < log.len() && #[trigger] log[i].event_id == high_water_mark(log),
        forall|i: int| 0 <= i < log.len() ==> #[trigger] log[i].event_id <= high_water_mark(log),
        log.len() > 0 && log.last().visible_to(owner) ==> exists|i: int|
            0 <= i < log.len() && log[i].visible_to(owner) && #[trigger] log[i].event_id == high_water_mark(log),
{
    if log.len() > 0 {
        assert(log[log.len() - 1] == log.last());
        assert(log[log.len() - 1].event_id == high_water_mark(log));
        assert forall|i: int| 0 <= i < log.len() implies #[trigger] log[i].event_id <= high_water_mark(log) by {
            assert(log[i].event_id == next_event_id - log.len() + i);
            assert(log[log.len() - 1].event_id == next_event_id - log.len() + log.len() - 1);
        }
    }
}

/// Some row with id `id` is a hashed, non-trashed photo visible to `owner`
/// whose content hash is `h`.
pub open spec fn is_candidate_with_hash(rows: Seq<RowView>, owner: Seq<char>, h: Seq<u8>, id: i64) -> bool {
    exists|i: int|
        0 <= i < rows.len() && #[trigger] rows[i].photo.id == id && rows[i].hash == Some(h)
            && rows[i].photo.visible_to(owner) && rows[i].photo.trashed_on is None
}

/// Every member of `group` is such a row for the one hash `h`.
pub open spec fn group_shares_hash(rows: Seq<RowView>, owner: Seq<char>, group: Seq<i64>, h: Seq<u8>) -> bool {
    forall|a: int| 0 <= a < group.len() ==> is_candidate_with_hash(rows, owner, h, #[trigger] group[a])
}

/// Every duplicate group has two or more members, and all of them are
/// hashed, non-trashed photos visible to the owner that share one content hash.
pub proof fn lemma_duplicate_groups_share_hash(
    rows: Seq<RowView>,
    owner: Seq<char>,
    groups: Seq<Seq<i64>>,
)
    requires
        crate::dedup::is_duplicate_grouping(groups, crate::dedup::duplicate_candidates(rows, owner)),
    ensures
        forall|g: int| 0 <= g < groups.len() ==> (#[trigger] groups[g]).len() >= 2 && exists|h: Seq<u8>|
            #[trigger] group_shares_hash(rows, owner, groups[g], h),
{
    let c = crate::dedup::duplicate_candidates(rows, owner);
    assert forall|g: int| 0 <= g < groups.len() implies (#[trigger] groups[g]).len() >= 2 && exists|h: Seq<u8>|
        #[trigger] group_shares_hash(rows, owner, groups[g], h) by {
        assert(groups[g].len() >= 2);
        let k = choose|k: int| 0 <= k < c.len() && groups[g] == crate::dedup::ids_with_hash(c, #[trigger] c[k].hash);
        lemma_group_of_candidate(rows, owner, k);
    }
}

/// The group of candidates sharing the hash of candidate `k` is made of
/// rows that share that hash.
proof fn lemma_group_of_candidate(rows: Seq<RowView>, owner: Seq<char>, k: int)
    requires
        0 <= k < crate::dedup::duplicate_candidates(rows, owner).len(),
    ensures
        ({
            let c = crate::dedup::duplicate_candidates(rows, owner);
            group_shares_hash(rows, owner, crate::dedup::ids_with_hash(c, c[k].hash), c[k].hash->0)
        }),
{
    let c = crate::dedup::duplicate_candidates(rows, owner);
    let cp = crate::dedup::candidate_pred(owner);
    lemma_out_of_filter(rows, cp, k);
    let h = c[k].hash->0;
    let group = crate::dedup::ids_with_hash(c, c[k].hash);
    assert forall|a: int| 0 <= a < group.len() implies is_candidate_with_hash(rows, owner, h, #[trigger] group[a]) by {
        crate::dedup::lemma_ids_with_hash_member(c, c[k].hash, a);
        let k2 = choose|k2: int| 0 <= k2 < c.len() && c[k2].hash == c[k].hash
            && #[trigger] c[k2].photo.id == crate::dedup::ids_with_hash(c, c[k].hash)[a];
        lemma_out_of_filter(rows, cp, k2);
        let i = choose|i: int| 0 <= i < rows.len() && rows[i] == c[k2];
        assert(rows[i].photo.id == group[a]);
    }
}

/// Once an upload with content hash `hash` is stored in owner scope
/// `owner`, a later upload with the same hash in the same scope finds a photo
/// with that content, so it is not stored a second time.
pub proof fn lemma_stored_upload_is_found(rows: Seq<RowView>, stored: PhotoView, owner: Option<Seq<char>>, hash: Seq<u8>)
    requires
        stored.user_id == owner,
    ensures
        crate::operations::same_content(rows.push(RowView { photo: stored, hash: Some(hash) }), owner, hash).len() > 0,
{
    let pred = |row: RowView| row.photo.user_id == owner && row.hash == Some(hash);
    let r = RowView { photo: stored, hash: Some(hash) };
    rows.lemma_filter_push(r, pred);
    assert(rows.push(r).filter(pred) == rows.filter(pred).push(r));
}

proof fn lemma_filter_photos_unique(s: Seq<PhotoView>, pred: spec_fn(PhotoView) -> bool)
    requires
        forall|i: int, j: int| 0 <= i < s.len() && 0 <= j < s.len() && i != j ==> #[trigger] s[i].id != #[trigger] s[j].id,
    ensures
        forall|i: int, j: int|
            0 <= i < s.filter(pred).len() && 0 <= j < s.filter(pred).len() && i != j
                ==> #[trigger] s.filter(pred)[i].id != #[trigger] s.filter(pred)[j].id,
    decreases s.len(),
{
    reveal(Seq::filter);
    if s.len() > 0 {
        let d = s.drop_last();
        lemma_filter_photos_unique(d, pred);
        let f = d.filter(pred);
        if pred(s.last()) {
            assert forall|k: int| 0 <= k < f.len() implies #[trigger] f[k].id != s.last().id by {
                lemma_out_of_filter(d, pred, k);
                let j = choose|j: int| 0 <= j < d.len() && d[j] == f[k];
                assert(s[j] == d[j]);
                assert(s[s.len() - 1] == s.last());
            }
            let g = f.push(s.last());
            assert(s.filter(pred) == g);
            assert forall|i: int, j: int| 0 <= i < g.len() && 0 <= j < g.len() && i != j
                implies #[trigger] g[i].id != #[trigger] g[j].id by {
                if i < f.len() && j < f.len() {
                    assert(g[i] == f[i] && g[j] == f[j]);
                }
            }
        }
    }
}

proof fn lemma_parsed_len(u: Option<Seq<char>>, es: Seq<DiskEntryView>, ts: Seq<Option<i64>>)
    ensures
        parsed_photos(u, es, ts).len() <= es.len(),
    decreases es.len(),
{
    if es.len() > 0 && ts.len() == es.len() {
        lemma_parsed_len(u, es.drop_last(), ts.drop_last());
    }
}

/// The entries one owner's scan appends to the log: a deletion entry per
/// removed photo, then a creation entry per imported one.
pub open spec fn entries_after_scan(
    lib: LibraryView,
    user_id: Option<Seq<char>>,
    entries: Seq<DiskEntryView>,
    timestamp_of: spec_fn(DiskEntryView) -> Option<i64>,
) -> Seq<EventLogEntryView> {
    let existing = select(lib.rows, |row: RowView| row.photo.user_id == user_id);
    let fresh = new_disk_entries(entries, existing);
    let removed = removed_photo_ids(existing, entries);
    deletion_events(removed, lib.next_event_id) + creation_events(
        parsed_photos(user_id, fresh, fresh.map_values(timestamp_of)),
        lib.next_photo_id,
        (lib.next_event_id + removed.len()) as i64,
    )
}

/// A photo of the scanned owner whose file is no longer on disk leaves the
/// index, and the scan logs exactly one entry for it, a deletion without data.
pub proof fn lemma_deleted_file_is_removed(
    lib: LibraryView,
    user_id: Option<Seq<char>>,
    entries: Seq<DiskEntryView>,
    timestamp_of: spec_fn(DiskEntryView) -> Option<i64>,
    i: int,
)
    requires
        lib.wf(),
        lib.has_room(lib.rows.len() + entries.len() as int),
        0 <= i < lib.rows.len(),
        lib.rows[i].photo.user_id == user_id,
        !disk_keys(entries).contains(lib.rows[i].photo.full_name()),
    ensures
        ({
            let id = lib.rows[i].photo.id;
            let rows2 = rows_after_scan(lib, user_id, entries, timestamp_of);
            let logged = entries_after_scan(lib, user_id, entries, timestamp_of);
            &&& forall|j: int| 0 <= j < rows2.len() ==> #[trigger] rows2[j].photo.id != id
            &&& exists|k: int|
                0 <= k < logged.len() && #[trigger] logged[k].photo_id == id && logged[k].data is None
                    && forall|k2: int| 0 <= k2 < logged.len() && #[trigger] logged[k2].photo_id == id ==> k2 == k
        }),
{
    let u = user_id;
    let tsf = timestamp_of;
    let sp = |row: RowView| row.photo.user_id == u;
    let id = lib.rows[i].photo.id;
    let keys = disk_keys(entries);
    let rpred = |p: PhotoView| !keys.contains(p.full_name());
    let sel = lib.rows.filter(sp);
    let e1 = select(lib.rows, sp);
    let removed = removed_photo_ids(e1, entries);
    let fresh = new_disk_entries(entries, e1);
    let photos = parsed_photos(u, fresh, fresh.map_values(tsf));
    let w = without_ids(lib.rows, removed);
    let ins = inserted_rows(photos, lib.next_photo_id);
    let rows2 = w + ins;
    assert(rows2 == rows_after_scan(lib, u, entries, tsf));
    let dels = deletion_events(removed, lib.next_event_id);
    let creates = creation_events(photos, lib.next_photo_id, (lib.next_event_id + removed.len()) as i64);
    let logged = dels + creates;
    assert(logged == entries_after_scan(lib, u, entries, tsf));
    // the photo's id is removed, at position m
    lemma_into_filter(lib.rows, sp, i);
    let a = choose|a: int| 0 <= a < sel.len() && sel[a] == lib.rows[i];
    assert(e1[a] == lib.rows[i].photo);
    lemma_into_filter(e1, rpred, a);
    let m = choose|m: int| 0 <= m < e1.filter(rpred).len() && e1.filter(rpred)[m] == e1[a];
    assert(removed[m] == id);
    // removed ids are unique
    crate::index::lemma_filter_rows_wf(lib.rows, sp, lib.next_photo_id);
    assert forall|x: int, y: int| 0 <= x < e1.len() && 0 <= y < e1.len() && x != y implies #[trigger] e1[x].id
        != #[trigger] e1[y].id by {
        assert(sel[x].photo.id != sel[y].photo.id);
    }
    lemma_filter_photos_unique(e1, rpred);
    assert(removed.contains(id));
    lemma_parsed_len(u, fresh, fresh.map_values(tsf));
    assert(fresh.len() <= entries.len());
    assert(removed.len() <= e1.len());
    assert(e1.len() <= lib.rows.len());
    // no row keeps the id
    assert forall|j: int| 0 <= j < rows2.len() implies #[trigger] rows2[j].photo.id != id by {
        if j < w.len() {
            let wp = |row: RowView| !removed.contains(row.photo.id);
            lemma_out_of_filter(lib.rows, wp, j);
            assert(rows2[j] == w[j]);
        } else {
            let n = j - w.len();
            assert(rows2[j] == ins[n]);
            assert(ins[n].photo.id == lib.next_photo_id + n);
            assert(lib.rows[i].photo.id < lib.next_photo_id);
        }
    }
    // one entry in the log, the deletion at position m
    assert(logged[m] == dels[m]);
    assert forall|k2: int| 0 <= k2 < logged.len() && #[trigger] logged[k2].photo_id == id implies k2 == m by {
        if k2 < dels.len() {
            assert(logged[k2] == dels[k2]);
            assert(removed[k2] == id);
            if k2 != m {
                assert(e1.filter(rpred)[k2].id != e1.filter(rpred)[m].id);
            }
        } else {
            let n = k2 - dels.len();
            assert(logged[k2] == creates[n]);
            assert(creates[n].photo_id == lib.next_photo_id + n);
            assert(lib.rows[i].photo.id < lib.next_photo_id);
        }
    }
    assert(logged[m].photo_id == id && logged[m].data is None);
}

/// The index after one owner's scan was applied, as `apply_scan` leaves it
/// for the plan `scan_user_photos` and `new_photos_from` compute.
pub open spec fn library_after_scan(
    lib: LibraryView,
    user_id: Option<Seq<char>>,
    entries: Seq<DiskEntryView>,
    timestamp_of: spec_fn(DiskEntryView) -> Option<i64>,
) -> LibraryView {
    let existing = select(lib.rows, |row: RowView| row.photo.user_id == user_id);
    let fresh = new_disk_entries(entries, existing);
    let logged = entries_after_scan(lib, user_id, entries, timestamp_of);
    LibraryView {
        rows: rows_after_scan(lib, user_id, entries, timestamp_of),
        events: lib.events + logged,
        next_photo_id: (lib.next_photo_id + parsed_photos(user_id, fresh, fresh.map_values(timestamp_of)).len()) as i64,
        next_event_id: (lib.next_event_id + logged.len()) as i64,
    }
}

/// A whole second scan pass of an owner, with nothing changed on disk and
/// the same capture times, leaves the rows as they are and appends nothing
/// to the log.
pub proof fn lemma_second_scan_pass_changes_nothing(
    lib: LibraryView,
    user_id: Option<Seq<char>>,
    entries: Seq<DiskEntryView>,
    timestamp_of: spec_fn(DiskEntryView) -> Option<i64>,
)
    requires
        lib.wf(),
    ensures
        ({
            let lib2 = library_after_scan(lib, user_id, entries, timestamp_of);
            &&& rows_after_scan(lib2, user_id, entries, timestamp_of) == lib2.rows
            &&& entries_after_scan(lib2, user_id, entries, timestamp_of).len() == 0
            &&& library_after_scan(lib2, user_id, entries, timestamp_of).events == lib2.events
        }),
{
    let lib2 = library_after_scan(lib, user_id, entries, timestamp_of);
    lemma_rescan_is_idempotent(lib, user_id, entries, timestamp_of);
    let existing = select(lib2.rows, |row: RowView| row.photo.user_id == user_id);
    let fresh = new_disk_entries(entries, existing);
    let removed = removed_photo_ids(existing, entries);
    let photos = parsed_photos(user_id, fresh, fresh.map_values(timestamp_of));
    assert(removed.len() == 0);
    assert(photos.len() == 0);
    assert(removed =~= Seq::<i64>::empty());
    let wp = |row: RowView| !removed.contains(row.photo.id);
    assert forall|j: int| 0 <= j < lib2.rows.len() implies wp(#[trigger] lib2.rows[j]) by {}
    crate::index::lemma_filter_all(lib2.rows, wp);
    assert(rows_after_scan(lib2, user_id, entries, timestamp_of) =~= lib2.rows);
    assert(entries_after_scan(lib2, user_id, entries, timestamp_of) =~= Seq::<EventLogEntryView>::empty());
    assert(lib2.events + Seq::<EventLogEntryView>::empty() =~= lib2.events);
}

} // verus!
