//! The photo index: the authoritative record set together with its event log.
//! Every mutation of the index appends to the log in the same step.
use vstd::prelude::*;
use vstd::string::StringExecFns;
use crate::event_log::{
    opt_photo, EventLogEntry, EventLogEntryView, EventLogs, UserEventLogError, entry_views, events_for_user,
    latest_event_id, log_well_formed, high_water_mark, cursor_is_stale, changes_since, delivers,
};
use crate::photo::{
    Photo, PhotoView, PhotoHash, FullPhotosList, opt_chars, opt_str_chars, opt_bytes,
    clone_opt_string, clone_bytes, clone_opt_bytes,
};

verus! {

broadcast use vstd::seq_lib::group_seq_lib_default, vstd::seq::Seq::lemma_filter_push;

/// How long a trashed photo is kept before it is erased: 30 days, in seconds.
pub const TRASH_RETENTION_SECONDS: i64 = 30 * 24 * 60 * 60;

/// A trashed photo whose retention window has elapsed at time `now`.
pub open spec fn trash_expired(p: PhotoView, now: i64) -> bool {
    p.trashed_on is Some && p.trashed_on->0 <= now - TRASH_RETENTION_SECONDS
}

/// One row of the index: a photo and its content hash, absent until computed.
#[derive(Debug)]
pub struct IndexRow {
    pub photo: Photo,
    pub hash: Option<Vec<u8>>,
}

pub struct RowView {
    pub photo: PhotoView,
    pub hash: Option<Seq<u8>>,
}

impl View for IndexRow {
    type V = RowView;

    open spec fn view(&self) -> RowView {
        RowView { photo: self.photo@, hash: opt_bytes(self.hash) }
    }
}

/// The index and its log.
pub struct PhotoLibrary {
    rows: Vec<IndexRow>,
    events: Vec<EventLogEntry>,
    next_photo_id: i64,
    next_event_id: i64,
}

pub struct LibraryView {
    pub rows: Seq<RowView>,
    pub events: Seq<EventLogEntryView>,
    pub next_photo_id: i64,
    pub next_event_id: i64,
}

pub open spec fn row_views(s: Seq<IndexRow>) -> Seq<RowView> {
    s.map_values(|r: IndexRow| r@)
}

pub open spec fn photo_views(s: Seq<Photo>) -> Seq<PhotoView> {
    s.map_values(|p: Photo| p@)
}

/// The photos of the rows that satisfy `pred`, in index order.
pub open spec fn select(rows: Seq<RowView>, pred: spec_fn(RowView) -> bool) -> Seq<PhotoView> {
    rows.filter(pred).map_values(|r: RowView| r.photo)
}

pub open spec fn log_entry(
    event_id: i64,
    photo_id: i64,
    user_id: Option<Seq<char>>,
    data: Option<PhotoView>,
) -> EventLogEntryView {
    EventLogEntryView { event_id, photo_id, user_id, data }
}

impl LibraryView {
    pub open spec fn photos(self) -> Seq<PhotoView> {
        self.rows.map_values(|r: RowView| r.photo)
    }

    /// Ids are positive, unique and below the next id to hand out; the log's
    /// ids run without gaps up to the next event id.
    pub open spec fn wf(self) -> bool {
        &&& log_well_formed(self.events, self.next_event_id)
        &&& 1 <= self.next_photo_id
        &&& ids_in_range(self.rows, self.next_photo_id)
        &&& ids_unique(self.rows)
    }

    /// `n` more photos and `n` more events can be numbered.
    pub open spec fn has_room(self, n: int) -> bool {
        &&& self.next_photo_id + n <= i64::MAX
        &&& self.next_event_id + n <= i64::MAX
    }

    pub open spec fn contains_id(self, id: i64) -> bool {
        exists|i: int| 0 <= i < self.rows.len() && #[trigger] self.rows[i].photo.id == id
    }
}

impl View for PhotoLibrary {
    type V = LibraryView;

    closed spec fn view(&self) -> LibraryView {
        LibraryView {
            rows: row_views(self.rows@),
            events: entry_views(self.events@),
            next_photo_id: self.next_photo_id,
            next_event_id: self.next_event_id,
        }
    }
}

/// The selections the index answers.
#[derive(Debug)]
pub enum Query {
    /// Every photo.
    All,
    /// The photos of exactly this owner scope.
    Scope(Option<String>),
    /// The untrashed photos owned by this user or public.
    ActiveVisibleTo(String),
    /// Trashed photos whose retention window has elapsed at this time.
    ExpiredTrash(i64),
    /// Photos without a thumbnail hash.
    WithoutThumbHash,
    /// Photos not trashed and not yet content-hashed.
    WithoutHash,
    /// Photos of this owner scope inside this folder.
    InFolder(Option<String>, String),
    /// Photos of this owner scope with this content hash.
    WithHash(Option<String>, Vec<u8>),
    /// Hashed, non-trashed photos visible to this user.
    DuplicateCandidates(String),
}

pub open spec fn query_holds(q: Query, r: RowView) -> bool {
    match q {
        Query::All => true,
        Query::Scope(u) => r.photo.user_id == opt_chars(u),
        Query::ActiveVisibleTo(u) => r.photo.visible_to(u@) && r.photo.trashed_on is None,
        Query::ExpiredTrash(now) => trash_expired(r.photo, now),
        Query::WithoutThumbHash => r.photo.thumb_hash is None,
        Query::WithoutHash => r.hash is None && r.photo.trashed_on is None,
        Query::InFolder(u, f) => r.photo.user_id == opt_chars(u) && r.photo.folder == Some(f@),
        Query::WithHash(u, h) => r.photo.user_id == opt_chars(u) && r.hash == Some(h@),
        Query::DuplicateCandidates(u) => r.photo.visible_to(u@) && r.photo.trashed_on is None
            && r.hash is Some,
    }
}

pub open spec fn query_pred(q: Query) -> spec_fn(RowView) -> bool {
    |r: RowView| query_holds(q, r)
}

fn same_opt_string(a: &Option<String>, b: &Option<String>) -> (r: bool)
    ensures
        r == (opt_chars(*a) == opt_chars(*b)),
{
    match (a, b) {
        (Some(x), Some(y)) => *x == *y,
        (None, None) => true,
        _ => false,
    }
}

pub fn same_bytes(a: &Vec<u8>, b: &Vec<u8>) -> (r: bool)
    ensures
        r == (a@ == b@),
{
    if a.len() != b.len() {
        return false;
    }
    let mut i: usize = 0;
    while i < a.len()
        invariant
            i <= a@.len(),
            a@.len() == b@.len(),
            forall|k: int| 0 <= k < i ==> a@[k] == b@[k],
        decreases a@.len() - i,
    {
        if a[i] != b[i] {
            return false;
        }
        i = i + 1;
    }
    proof {
        assert(a@ =~= b@);
    }
    true
}

/// Whether a trashed-on time has passed the retention window at `now`.
pub fn is_trash_expired(trashed_on: Option<i64>, now: i64) -> (r: bool)
    ensures
        r == (trashed_on is Some && trashed_on->0 <= now - TRASH_RETENTION_SECONDS),
{
    match trashed_on {
        Some(t) => (t as i128) <= (now as i128) - (TRASH_RETENTION_SECONDS as i128),
        None => false,
    }
}

fn query_matches(q: &Query, r: &IndexRow) -> (b: bool)
    ensures
        b == query_holds(*q, r@),
{
    let p = &r.photo;
    match q {
        Query::All => true,
        Query::Scope(u) => same_opt_string(&p.user_id, u),
        Query::ActiveVisibleTo(u) => p.trashed_on.is_none() && match &p.user_id {
            Some(x) => *x == *u,
            None => true,
        },
        Query::ExpiredTrash(now) => is_trash_expired(p.trashed_on, *now),
        Query::WithoutThumbHash => p.thumb_hash.is_none(),
        Query::WithoutHash => r.hash.is_none() && p.trashed_on.is_none(),
        Query::InFolder(u, f) => same_opt_string(&p.user_id, u) && match &p.folder {
            Some(x) => *x == *f,
            None => false,
        },
        Query::WithHash(u, h) => same_opt_string(&p.user_id, u) && match &r.hash {
            Some(x) => same_bytes(x, h),
            None => false,
        },
        Query::DuplicateCandidates(u) => {
            let visible = match &p.user_id {
                Some(x) => *x == *u,
                None => true,
            };
            visible && p.trashed_on.is_none() && r.hash.is_some()
        },
    }
}

impl PhotoLibrary {
    /// An empty index with an empty log.
    pub fn new() -> (r: PhotoLibrary)
        ensures
            r@.wf(),
            r@.rows.len() == 0,
            r@.events.len() == 0,
            r@.next_photo_id == 1,
            r@.next_event_id == 1,
    {
        PhotoLibrary { rows: Vec::new(), events: Vec::new(), next_photo_id: 1, next_event_id: 1 }
    }

    /// The rows of the index, in index order.
    pub fn rows(&self) -> (r: &Vec<IndexRow>)
        ensures
            row_views(r@) == self@.rows,
    {
        &self.rows
    }

    /// The retained event log, oldest first.
    pub fn events(&self) -> (r: &Vec<EventLogEntry>)
        ensures
            entry_views(r@) == self@.events,
    {
        &self.events
    }

    /// The photos of the rows that satisfy `q`, in index order.
    pub fn select_rows(&self, q: &Query) -> (r: Vec<Photo>)
        ensures
            photo_views(r@) == select(self@.rows, query_pred(*q)),
    {
        let ghost rv = self@.rows;
        let ghost pred = query_pred(*q);
        let mut out: Vec<Photo> = Vec::new();
        let mut i: usize = 0;
        while i < self.rows.len()
            invariant
                i <= self.rows@.len(),
                rv == self@.rows,
                rv == row_views(self.rows@),
                pred == query_pred(*q),
                photo_views(out@) == select(rv.subrange(0, i as int), pred),
            decreases self.rows@.len() - i,
        {
            proof {
                assert(rv.subrange(0, i + 1) == rv.subrange(0, i as int).push(rv[i as int]));
                let f = |r: RowView| r.photo;
                let prev = rv.subrange(0, i as int).filter(pred);
                assert(prev.push(rv[i as int]).map_values(f) =~= prev.map_values(f).push(
                    rv[i as int].photo,
                ));
            }
            if query_matches(q, &self.rows[i]) {
                let p = self.rows[i].photo.duplicate();
                proof {
                    assert(photo_views(out@.push(p)) =~= photo_views(out@).push(p@));
                }
                out.push(p);
            }
            i = i + 1;
        }
        proof {
            assert(rv.subrange(0, self.rows@.len() as int) == rv);
        }
        out
    }

    /// Every photo, in index order.
    pub fn get_all_photos(&self) -> (r: Vec<Photo>)
        ensures
            photo_views(r@) == self@.photos(),
    {
        let r = self.select_rows(&Query::All);
        proof {
            let pred = query_pred(Query::All);
            assert forall|i: int| 0 <= i < self@.rows.len() implies pred(#[trigger] self@.rows[i]) by {}
            lemma_filter_all(self@.rows, pred);
        }
        r
    }

    /// The photos of exactly the owner scope `user_id` (absent: public).
    pub fn get_photos_by_user(&self, user_id: Option<&str>) -> (r: Vec<Photo>)
        ensures
            photo_views(r@) == select(
                self@.rows,
                |row: RowView| row.photo.user_id == opt_str_chars(user_id),
            ),
    {
        let q = Query::Scope(to_opt_string(user_id));
        let r = self.select_rows(&q);
        proof {
            assert(query_pred(q) == (|row: RowView| row.photo.user_id == opt_str_chars(user_id)));
        }
        r
    }

    /// Photos without a thumbnail hash.
    pub fn get_photos_without_thumb_hash(&self) -> (r: Vec<Photo>)
        ensures
            photo_views(r@) == select(self@.rows, query_pred(Query::WithoutThumbHash)),
    {
        self.select_rows(&Query::WithoutThumbHash)
    }

    /// Photos that are not trashed and have no content hash yet.
    pub fn get_photos_without_hash(&self) -> (r: Vec<Photo>)
        ensures
            photo_views(r@) == select(self@.rows, query_pred(Query::WithoutHash)),
    {
        self.select_rows(&Query::WithoutHash)
    }

    /// Trashed photos whose retention window has elapsed at `now`.
    pub fn get_expired_trash_photos(&self, now: i64) -> (r: Vec<Photo>)
        ensures
            photo_views(r@) == select(self@.rows, query_pred(Query::ExpiredTrash(now))),
    {
        self.select_rows(&Query::ExpiredTrash(now))
    }

    /// The ids of the photos of owner scope `user_id` inside `folder_name`.
    pub fn get_photo_ids_in_folder(&self, user_id: Option<&str>, folder_name: &str) -> (r: Vec<i64>)
        ensures
            r@ == select(
                self@.rows,
                |row: RowView|
                    row.photo.user_id == opt_str_chars(user_id) && row.photo.folder == Some(
                        folder_name@,
                    ),
            ).map_values(|p: PhotoView| p.id),
    {
        let q = Query::InFolder(to_opt_string(user_id), String::from_str(folder_name));
        let photos = self.select_rows(&q);
        let ghost pv = photo_views(photos@);
        let mut ids: Vec<i64> = Vec::new();
        let mut i: usize = 0;
        while i < photos.len()
            invariant
                i <= photos@.len(),
                pv == photo_views(photos@),
                ids@ == pv.subrange(0, i as int).map_values(|p: PhotoView| p.id),
            decreases photos@.len() - i,
        {
            proof {
                assert(pv.subrange(0, i + 1).map_values(|p: PhotoView| p.id) =~= pv.subrange(
                    0,
                    i as int,
                ).map_values(|p: PhotoView| p.id).push(photos@[i as int].id));
            }
            ids.push(photos[i].id);
            i = i + 1;
        }
        proof {
            assert(pv.subrange(0, photos@.len() as int) == pv);
            assert(query_pred(q) == (|row: RowView|
                row.photo.user_id == opt_str_chars(user_id) && row.photo.folder == Some(
                    folder_name@,
                )));
        }
        ids
    }

    /// A photo of owner scope `user_id` whose content hash is `hash`: the first
    /// such photo in index order.
    pub fn get_photo_with_hash(&self, hash: &Vec<u8>, user_id: Option<&str>) -> (r: Option<Photo>)
        ensures
            ({
                let sel = select(
                    self@.rows,
                    |row: RowView|
                        row.photo.user_id == opt_str_chars(user_id) && row.hash == Some(hash@),
                );
                &&& r is None <==> sel.len() == 0
                &&& r is Some ==> r->0@ == sel[0]
            }),
    {
        let q = Query::WithHash(to_opt_string(user_id), clone_bytes(hash));
        let mut found = self.select_rows(&q);
        proof {
            assert(query_pred(q) == (|row: RowView|
                row.photo.user_id == opt_str_chars(user_id) && row.hash == Some(hash@)));
        }
        if found.len() == 0 {
            None
        } else {
            Some(found.swap_remove(0))
        }
    }

    /// The photo with id `id` when it is owned by `user_id` or public.
    pub fn get_photo(&self, id: i64, user_id: &str) -> (r: Option<Photo>)
        ensures
            r is None <==> !(exists|i: int|
                0 <= i < self@.rows.len() && #[trigger] self@.rows[i].photo.id == id
                    && self@.rows[i].photo.visible_to(user_id@)),
            r is Some ==> exists|i: int|
                0 <= i < self@.rows.len() && #[trigger] self@.rows[i].photo == r->0@
                    && r->0@.id == id && r->0@.visible_to(user_id@),
    {
        let owner = String::from_str(user_id);
        let mut i: usize = 0;
        while i < self.rows.len()
            invariant
                i <= self.rows@.len(),
                owner@ == user_id@,
                forall|k: int|
                    0 <= k < i ==> !(#[trigger] self@.rows[k].photo.id == id
                        && self@.rows[k].photo.visible_to(user_id@)),
            decreases self.rows@.len() - i,
        {
            let p = &self.rows[i].photo;
            let visible = match &p.user_id {
                Some(x) => *x == owner,
                None => true,
            };
            proof {
                assert(self@.rows[i as int] == self.rows@[i as int]@);
            }
            if p.id == id && visible {
                let c = p.duplicate();
                proof {
                    assert(self@.rows[i as int].photo == c@);
                    assert(self@.rows[i as int].photo.id == id && self@.rows[i as int].photo.visible_to(user_id@));
                }
                return Some(c);
            }
            i = i + 1;
        }
        None
    }

    /// The rows that repeat the path identity of an earlier row: all but the
    /// earliest row of each (owner, folder, name).
    pub fn get_photos_with_same_location(&self) -> (r: Vec<Photo>)
        ensures
            photo_views(r@) == later_duplicates(self@.rows),
    {
        let ghost rv = self@.rows;
        let mut out: Vec<Photo> = Vec::new();
        let mut i: usize = 0;
        while i < self.rows.len()
            invariant
                i <= self.rows@.len(),
                rv == self@.rows,
                rv == row_views(self.rows@),
                photo_views(out@) == later_duplicates(rv.subrange(0, i as int)),
            decreases self.rows@.len() - i,
        {
            let p = &self.rows[i].photo;
            let mut shadow = false;
            let mut j: usize = 0;
            while j < i
                invariant
                    j <= i < self.rows@.len(),
                    rv == row_views(self.rows@),
                    *p == self.rows@[i as int].photo,
                    shadow == exists|k: int|
                        0 <= k < j && same_location(#[trigger] rv[k].photo, rv[i as int].photo),
                decreases i - j,
            {
                let q = &self.rows[j].photo;
                let same = same_opt_string(&q.user_id, &p.user_id) && same_opt_string(
                    &q.folder,
                    &p.folder,
                ) && q.name == p.name;
                proof {
                    assert(rv[j as int].photo == q@);
                }
                if same {
                    shadow = true;
                }
                j = j + 1;
            }
            proof {
                let sub = rv.subrange(0, i + 1);
                assert(sub.drop_last() == rv.subrange(0, i as int));
                assert(shadowed(sub, i as int) == shadow) by {
                    if shadow {
                        let k = choose|k: int| 0 <= k < i && same_location(#[trigger] rv[k].photo, rv[i as int].photo);
                        assert(same_location(sub[k].photo, sub[i as int].photo));
                    }
                    if shadowed(sub, i as int) {
                        let k = choose|k: int| 0 <= k < i && same_location(#[trigger] sub[k].photo, sub[i as int].photo);
                        assert(same_location(rv[k].photo, rv[i as int].photo));
                    }
                }
            }
            if shadow {
                let c = p.duplicate();
                proof {
                    assert(photo_views(out@.push(c)) =~= photo_views(out@).push(c@));
                }
                out.push(c);
            }
            i = i + 1;
        }
        proof {
            assert(rv.subrange(0, self.rows@.len() as int) == rv);
        }
        out
    }

    /// A full snapshot for `user_id`: the high-water mark of the log and every
    /// active (untrashed) photo owned by `user_id` or public.
    pub fn get_photos_by_user_and_public(&self, user_id: &str) -> (r: FullPhotosList)
        ensures
            r.event_log_id == high_water_mark(self@.events),
            photo_views(r.photos@) == select(
                self@.rows,
                |row: RowView| row.photo.visible_to(user_id@) && row.photo.trashed_on is None,
            ),
    {
        let q = Query::ActiveVisibleTo(String::from_str(user_id));
        let photos = self.select_rows(&q);
        proof {
            assert(query_pred(q) == (|row: RowView| row.photo.visible_to(user_id@) && row.photo.trashed_on is None));
        }
        FullPhotosList { event_log_id: latest_event_id(&self.events), photos }
    }

    /// Every change visible to `user_id` after `last_event_id`, or the signal
    /// that the client must resynchronise from a full snapshot.
    pub fn get_events_for_user(&self, last_event_id: i64, user_id: &str) -> (r: Result<
        EventLogs,
        UserEventLogError,
    >)
        ensures
            self@.events.len() == 0 ==> r == Err::<EventLogs, UserEventLogError>(
                UserEventLogError::NoEvents,
            ),
            self@.events.len() > 0 && cursor_is_stale(self@.events, last_event_id) ==> r == Err::<
                EventLogs,
                UserEventLogError,
            >(UserEventLogError::InvalidEventId),
            r is Ok <==> !cursor_is_stale(self@.events, last_event_id),
            r is Ok ==> r->Ok_0.event_log_id == high_water_mark(self@.events) && delivers(
                r->Ok_0.events@,
                changes_since(self@.events, last_event_id, user_id@),
            ),
    {
        events_for_user(&self.events, last_event_id, user_id)
    }
}

/// Same owner, folder and name.
pub open spec fn same_location(a: PhotoView, b: PhotoView) -> bool {
    a.user_id == b.user_id && a.folder == b.folder && a.name == b.name
}

/// Row `i` repeats the path identity of an earlier row.
pub open spec fn shadowed(rows: Seq<RowView>, i: int) -> bool {
    exists|k: int| 0 <= k < i && same_location(#[trigger] rows[k].photo, rows[i].photo)
}

/// The photos of the rows that repeat an earlier row's path identity.
pub open spec fn later_duplicates(rows: Seq<RowView>) -> Seq<PhotoView>
    decreases rows.len(),
{
    if rows.len() == 0 {
        Seq::empty()
    } else {
        let prev = later_duplicates(rows.drop_last());
        if shadowed(rows, rows.len() - 1) {
            prev.push(rows.last().photo)
        } else {
            prev
        }
    }
}

/// A filter that every element passes keeps the sequence.
pub proof fn lemma_filter_all<A>(s: Seq<A>, pred: spec_fn(A) -> bool)
    requires
        forall|i: int| 0 <= i < s.len() ==> pred(#[trigger] s[i]),
    ensures
        s.filter(pred) == s,
    decreases s.len(),
{
    if s.len() > 0 {
        lemma_filter_all(s.drop_last(), pred);
        assert(s.drop_last().push(s.last()) == s);
    } else {
        reveal(Seq::filter);
    }
}

pub fn to_opt_string(o: Option<&str>) -> (r: Option<String>)
    ensures
        opt_chars(r) == opt_str_chars(o),
{
    match o {
        Some(s) => Some(String::from_str(s)),
        None => None,
    }
}

/// Every row's id is positive and below `next`.
pub open spec fn ids_in_range(rows: Seq<RowView>, next: i64) -> bool {
    forall|i: int| 0 <= i < rows.len() ==> 1 <= #[trigger] rows[i].photo.id < next
}

/// No two rows share an id.
pub open spec fn ids_unique(rows: Seq<RowView>) -> bool {
    forall|i: int, j: int|
        0 <= i < rows.len() && 0 <= j < rows.len() && i != j ==> #[trigger] rows[i].photo.id
            != #[trigger] rows[j].photo.id
}

pub proof fn lemma_filter_rows_wf(rows: Seq<RowView>, pred: spec_fn(RowView) -> bool, next: i64)
    requires
        ids_unique(rows),
        ids_in_range(rows, next),
    ensures
        ids_unique(rows.filter(pred)),
        ids_in_range(rows.filter(pred), next),
    decreases rows.len(),
{
    reveal(Seq::filter);
    if rows.len() > 0 {
        let d = rows.drop_last();
        assert(ids_unique(d));
        assert(ids_in_range(d, next));
        lemma_filter_rows_wf(d, pred, next);
        let f = d.filter(pred);
        if pred(rows.last()) {
            assert forall|k: int| 0 <= k < f.len() implies #[trigger] f[k].photo.id
                != rows.last().photo.id by {
                d.lemma_filter_contains_rev(pred, f[k]);
                let j = choose|j: int| 0 <= j < d.len() && d[j] == f[k];
                assert(rows[j] == d[j]);
                assert(rows[rows.len() - 1] == rows.last());
            }
            let g = f.push(rows.last());
            assert forall|i: int, j: int|
                0 <= i < g.len() && 0 <= j < g.len() && i != j implies #[trigger] g[i].photo.id
                != #[trigger] g[j].photo.id by {
                if i < f.len() && j < f.len() {
                    assert(g[i] == f[i] && g[j] == f[j]);
                }
            }
            assert(rows.filter(pred) == g);
        } else {
            assert(rows.filter(pred) == f);
        }
    }
}

/// The row with id `id`; meaningful when there is one.
pub open spec fn row_with_id(rows: Seq<RowView>, id: i64) -> RowView {
    rows[choose|i: int| 0 <= i < rows.len() && rows[i].photo.id == id]
}

/// `p` with the id `id`.
pub open spec fn with_id(p: PhotoView, id: i64) -> PhotoView {
    PhotoView { id, ..p }
}

/// `p` as an insertion stores it: under id `id`, without a thumbnail hash.
pub open spec fn stored_photo(p: PhotoView, id: i64) -> PhotoView {
    PhotoView { id, thumb_hash: None, ..p }
}

/// The state an update of `rows` to `p` logs: `p` with the thumbnail hash
/// the row keeps, or `p` itself when no row has its id.
pub open spec fn logged_update(rows: Seq<RowView>, p: PhotoView) -> PhotoView {
    if exists|i: int| 0 <= i < rows.len() && #[trigger] rows[i].photo.id == p.id {
        PhotoView { thumb_hash: row_with_id(rows, p.id).photo.thumb_hash, ..p }
    } else {
        p
    }
}

/// With unique ids, the row found by id is the row at its position.
pub proof fn lemma_row_with_id(rows: Seq<RowView>, k: int)
    requires
        ids_unique(rows),
        0 <= k < rows.len(),
    ensures
        row_with_id(rows, rows[k].photo.id) == rows[k],
{
    let id = rows[k].photo.id;
    let c = choose|i: int| 0 <= i < rows.len() && rows[i].photo.id == id;
    if c != k {
        assert(rows[c].photo.id != rows[k].photo.id);
    }
}

/// `p` with the thumbnail hash `t`.
pub open spec fn with_thumb(p: PhotoView, t: Seq<u8>) -> PhotoView {
    PhotoView { thumb_hash: Some(t), ..p }
}

/// The rows that `photos` become when numbered from `first_id`.
pub open spec fn inserted_rows(photos: Seq<PhotoView>, first_id: i64) -> Seq<RowView> {
    Seq::new(photos.len(), |i: int| RowView { photo: with_id(photos[i], (first_id + i) as i64), hash: None })
}

/// The creation entries logged for `photos` numbered from `first_id`, the
/// first of them with event id `first_event`.
pub open spec fn creation_events(photos: Seq<PhotoView>, first_id: i64, first_event: i64) -> Seq<EventLogEntryView> {
    Seq::new(
        photos.len(),
        |i: int|
            log_entry(
                (first_event + i) as i64,
                (first_id + i) as i64,
                photos[i].user_id,
                Some(with_id(photos[i], (first_id + i) as i64)),
            ),
    )
}

/// The deletion entries logged for `ids`, the first with event id `first_event`.
pub open spec fn deletion_events(ids: Seq<i64>, first_event: i64) -> Seq<EventLogEntryView> {
    Seq::new(ids.len(), |i: int| log_entry((first_event + i) as i64, ids[i], None, None))
}

/// The rows whose id is not among `ids`.
pub open spec fn without_ids(rows: Seq<RowView>, ids: Seq<i64>) -> Seq<RowView> {
    rows.filter(|r: RowView| !ids.contains(r.photo.id))
}

/// Row `r` after an update to `p` with the same id: every field but the
/// thumbnail hash comes from `p`.
pub open spec fn updated_row(r: RowView, p: PhotoView) -> RowView {
    if r.photo.id == p.id {
        RowView { photo: PhotoView { thumb_hash: r.photo.thumb_hash, ..p }, hash: r.hash }
    } else {
        r
    }
}

/// The value given last for `id` among `pairs`, if any.
pub open spec fn last_value_for(pairs: Seq<(i64, Seq<u8>)>, id: i64) -> Option<Seq<u8>>
    decreases pairs.len(),
{
    if pairs.len() == 0 {
        None
    } else if pairs.last().0 == id {
        Some(pairs.last().1)
    } else {
        last_value_for(pairs.drop_last(), id)
    }
}

/// Row `r` after content hashes `pairs` were recorded, later ones replacing
/// earlier ones.
pub open spec fn hashed_row(r: RowView, pairs: Seq<(i64, Seq<u8>)>) -> RowView {
    match last_value_for(pairs, r.photo.id) {
        Some(h) => RowView { hash: Some(h), ..r },
        None => r,
    }
}

/// Row `r` after thumbnail hashes `pairs` were recorded.
pub open spec fn thumbed_row(r: RowView, pairs: Seq<(i64, Seq<u8>)>) -> RowView {
    match last_value_for(pairs, r.photo.id) {
        Some(t) => RowView { photo: with_thumb(r.photo, t), ..r },
        None => r,
    }
}

/// The entries logged for thumbnail updates `pairs` applied to `rows`.
pub open spec fn thumb_events(rows: Seq<RowView>, pairs: Seq<(i64, Seq<u8>)>, first_event: i64) -> Seq<EventLogEntryView> {
    Seq::new(
        pairs.len(),
        |i: int| {
            let p = row_with_id(rows, pairs[i].0).photo;
            log_entry((first_event + i) as i64, pairs[i].0, p.user_id, Some(with_thumb(p, pairs[i].1)))
        },
    )
}

/// The log after retention keeps its `keep` most recent entries.
pub open spec fn retained(events: Seq<EventLogEntryView>, keep: int) -> Seq<EventLogEntryView> {
    if events.len() > keep {
        events.subrange(events.len() - keep, events.len() as int)
    } else {
        events
    }
}

pub open spec fn pair_views(s: Seq<PhotoHash>) -> Seq<(i64, Seq<u8>)> {
    s.map_values(|h: PhotoHash| h@)
}

pub open spec fn thumb_pair_views(s: Seq<(i64, Vec<u8>)>) -> Seq<(i64, Seq<u8>)> {
    s.map_values(|h: (i64, Vec<u8>)| (h.0, h.1@))
}

pub fn vec_contains(ids: &Vec<i64>, id: i64) -> (r: bool)
    ensures
        r == ids@.contains(id),
{
    let mut i: usize = 0;
    while i < ids.len()
        invariant
            i <= ids@.len(),
            forall|k: int| 0 <= k < i ==> ids@[k] != id,
        decreases ids@.len() - i,
    {
        if ids[i] == id {
            proof {
                assert(ids@[i as int] == id);
            }
            return true;
        }
        i = i + 1;
    }
    false
}

fn clone_row(r: &IndexRow) -> (c: IndexRow)
    ensures
        c@ == r@,
{
    IndexRow { photo: r.photo.duplicate(), hash: clone_opt_bytes(&r.hash) }
}

impl PhotoLibrary {
    fn insert_event_log(&mut self, photo_id: i64, user_id: Option<String>, data: Option<Photo>)
        requires
            old(self)@.wf(),
            old(self)@.next_event_id < i64::MAX,
        ensures
            final(self)@.wf(),
            final(self)@.rows == old(self)@.rows,
            final(self)@.next_photo_id == old(self)@.next_photo_id,
            final(self)@.next_event_id == old(self)@.next_event_id + 1,
            final(self)@.events == old(self)@.events.push(
                log_entry(old(self)@.next_event_id, photo_id, opt_chars(user_id), opt_photo(data)),
            ),
    {
        let entry = EventLogEntry { event_id: self.next_event_id, photo_id, user_id, data };
        self.events.push(entry);
        self.next_event_id = self.next_event_id + 1;
        proof {
            assert(entry_views(self.events@) =~= entry_views(old(self).events@).push(entry@));
        }
    }

    fn push_row(&mut self, row: IndexRow)
        requires
            old(self)@.wf(),
            row@.photo.id == old(self)@.next_photo_id,
            old(self)@.next_photo_id < i64::MAX,
        ensures
            final(self)@.rows == old(self)@.rows.push(row@),
            final(self)@.events == old(self)@.events,
            final(self)@.next_photo_id == old(self)@.next_photo_id + 1,
            final(self)@.next_event_id == old(self)@.next_event_id,
            final(self)@.wf(),
    {
        self.rows.push(row);
        self.next_photo_id = self.next_photo_id + 1;
        proof {
            assert(row_views(self.rows@) =~= row_views(old(self).rows@).push(row@));
        }
    }

    /// Adds `photo`, thumbnail hash included, under a fresh id and logs its
    /// creation.
    fn insert_row_for(&mut self, photo: &Photo) -> (r: Photo)
        requires
            old(self)@.wf(),
            old(self)@.has_room(1),
        ensures
            final(self)@.wf(),
            r@ == with_id(photo@, old(self)@.next_photo_id),
            final(self)@.rows == old(self)@.rows + inserted_rows(seq![photo@], old(self)@.next_photo_id),
            final(self)@.events == old(self)@.events + creation_events(
                seq![photo@],
                old(self)@.next_photo_id,
                old(self)@.next_event_id,
            ),
            final(self)@.next_photo_id == old(self)@.next_photo_id + 1,
            final(self)@.next_event_id == old(self)@.next_event_id + 1,
    {
        let mut stored = photo.duplicate();
        stored.id = self.next_photo_id;
        let row = IndexRow { photo: stored.duplicate(), hash: None };
        self.push_row(row);
        let logged = stored.duplicate();
        let owner = clone_opt_string(&stored.user_id);
        self.insert_event_log(stored.id, owner, Some(logged));
        proof {
            assert(self@.rows =~= old(self)@.rows + inserted_rows(seq![photo@], old(self)@.next_photo_id));
            assert(self@.events =~= old(self)@.events + creation_events(
                seq![photo@],
                old(self)@.next_photo_id,
                old(self)@.next_event_id,
            ));
        }
        stored
    }

    /// Adds `photo` under a fresh id, without a thumbnail hash (its own `id`
    /// and thumbnail hash are ignored), logs its creation, and returns the
    /// stored photo.
    pub fn insert_photo(&mut self, photo: &Photo) -> (r: Photo)
        requires
            old(self)@.wf(),
            old(self)@.has_room(1),
        ensures
            final(self)@.wf(),
            r@ == stored_photo(photo@, old(self)@.next_photo_id),
            r@.thumb_hash is None,
            final(self)@.rows == old(self)@.rows.push(RowView { photo: r@, hash: None }),
            final(self)@.events == old(self)@.events.push(
                log_entry(old(self)@.next_event_id, r@.id, r@.user_id, Some(r@)),
            ),
            final(self)@.next_photo_id == old(self)@.next_photo_id + 1,
            final(self)@.next_event_id == old(self)@.next_event_id + 1,
    {
        let mut cleared = photo.duplicate();
        cleared.thumb_hash = None;
        let r = self.insert_row_for(&cleared);
        proof {
            assert(self@.rows =~= old(self)@.rows.push(RowView { photo: r@, hash: None }));
            assert(self@.events =~= old(self)@.events.push(
                log_entry(old(self)@.next_event_id, r@.id, r@.user_id, Some(r@)),
            ));
        }
        r
    }

    /// Adds `photos` under fresh consecutive ids and logs one creation entry
    /// for each, in order.
    pub fn insert_photos(&mut self, photos: &Vec<Photo>)
        requires
            old(self)@.wf(),
            old(self)@.has_room(photos@.len() as int),
        ensures
            final(self)@.wf(),
            final(self)@.rows == old(self)@.rows + inserted_rows(
                photo_views(photos@),
                old(self)@.next_photo_id,
            ),
            final(self)@.events == old(self)@.events + creation_events(
                photo_views(photos@),
                old(self)@.next_photo_id,
                old(self)@.next_event_id,
            ),
            final(self)@.next_photo_id == old(self)@.next_photo_id + photos@.len(),
            final(self)@.next_event_id == old(self)@.next_event_id + photos@.len(),
    {
        let ghost pv = photo_views(photos@);
        let ghost o = self@;
        let mut i: usize = 0;
        while i < photos.len()
            invariant
                i <= photos@.len(),
                pv == photo_views(photos@),
                o.has_room(photos@.len() as int),
                self@.wf(),
                self@.rows == o.rows + inserted_rows(pv.subrange(0, i as int), o.next_photo_id),
                self@.events == o.events + creation_events(
                    pv.subrange(0, i as int),
                    o.next_photo_id,
                    o.next_event_id,
                ),
                self@.next_photo_id == o.next_photo_id + i,
                self@.next_event_id == o.next_event_id + i,
            decreases photos@.len() - i,
        {
            let ghost before = self@;
            self.insert_row_for(&photos[i]);
            proof {
                let sub = pv.subrange(0, i + 1);
                assert(sub == pv.subrange(0, i as int).push(photos@[i as int]@));
                assert(self@.rows =~= o.rows + inserted_rows(sub, o.next_photo_id));
                assert(self@.events =~= o.events + creation_events(sub, o.next_photo_id, o.next_event_id));
            }
            i = i + 1;
        }
        proof {
            assert(pv.subrange(0, photos@.len() as int) == pv);
        }
    }

    /// Replaces the row with `photo`'s id by `photo`, keeping its thumbnail
    /// hash and content hash, and logs the row's new state (`photo` itself
    /// when no row has its id).
    pub fn update_photo(&mut self, photo: &Photo)
        requires
            old(self)@.wf(),
            old(self)@.has_room(1),
        ensures
            final(self)@.wf(),
            final(self)@.rows == old(self)@.rows.map_values(|r: RowView| updated_row(r, photo@)),
            final(self)@.events == old(self)@.events.push(
                log_entry(
                    old(self)@.next_event_id,
                    photo@.id,
                    photo@.user_id,
                    Some(logged_update(old(self)@.rows, photo@)),
                ),
            ),
            final(self)@.next_photo_id == old(self)@.next_photo_id,
            final(self)@.next_event_id == old(self)@.next_event_id + 1,
    {
        let ghost o = self@;
        let mut logged: Option<Photo> = None;
        let mut i: usize = 0;
        while i < self.rows.len()
            invariant
                i <= self.rows@.len(),
                self@.rows.len() == o.rows.len(),
                self@.events == o.events,
                self@.next_photo_id == o.next_photo_id,
                self@.next_event_id == o.next_event_id,
                o.wf(),
                logged is None ==> forall|k: int| 0 <= k < i ==> #[trigger] o.rows[k].photo.id != photo@.id,
                logged matches Some(l) ==> exists|k: int|
                    0 <= k < i && #[trigger] o.rows[k].photo.id == photo@.id && l@ == (PhotoView {
                        thumb_hash: o.rows[k].photo.thumb_hash,
                        ..photo@
                    }),
                forall|k: int| 0 <= k < i ==> #[trigger] self@.rows[k] == updated_row(o.rows[k], photo@),
                forall|k: int| i <= k < o.rows.len() ==> #[trigger] self@.rows[k] == o.rows[k],
            decreases self.rows@.len() - i,
        {
            proof {
                assert(self@.rows[i as int] == o.rows[i as int]);
                assert(self.rows@[i as int]@ == self@.rows[i as int]);
            }
            if self.rows[i].photo.id == photo.id {
                let old_row = clone_row(&self.rows[i]);
                let mut p = photo.duplicate();
                p.thumb_hash = old_row.photo.thumb_hash;
                logged = Some(p.duplicate());
                let row = IndexRow { photo: p, hash: old_row.hash };
                let ghost prev = self.rows@;
                self.rows.set(i, row);
                proof {
                    assert(row_views(self.rows@) =~= row_views(prev).update(i as int, row@));
                    assert(old_row@ == o.rows[i as int]);
                    assert(row@.photo == PhotoView { thumb_hash: o.rows[i as int].photo.thumb_hash, ..photo@ });
                    assert(row@.hash == o.rows[i as int].hash);
                    assert(self@.rows[i as int] == row@);
                }
            }
            proof {
                assert(self@.rows[i as int] == updated_row(o.rows[i as int], photo@));
            }
            i = i + 1;
        }
        proof {
            assert(self@.rows =~= o.rows.map_values(|r: RowView| updated_row(r, photo@)));
            assert forall|k: int| 0 <= k < self@.rows.len() implies #[trigger] self@.rows[k].photo.id == o.rows[k].photo.id by {}
            assert(ids_in_range(self@.rows, self@.next_photo_id));
            assert(ids_unique(self@.rows)) by {
                assert forall|a: int, b: int| 0 <= a < self@.rows.len() && 0 <= b < self@.rows.len() && a != b
                    implies #[trigger] self@.rows[a].photo.id != #[trigger] self@.rows[b].photo.id by {
                    assert(self@.rows[a].photo.id == o.rows[a].photo.id);
                    assert(self@.rows[b].photo.id == o.rows[b].photo.id);
                }
            }
        }
        let state = match logged {
            Some(l) => l,
            None => photo.duplicate(),
        };
        proof {
            if exists|k: int| 0 <= k < o.rows.len() && #[trigger] o.rows[k].photo.id == photo@.id {
                let k = choose|k: int| 0 <= k < o.rows.len() && #[trigger] o.rows[k].photo.id == photo@.id
                    && state@ == (PhotoView { thumb_hash: o.rows[k].photo.thumb_hash, ..photo@ });
                lemma_row_with_id(o.rows, k);
            }
        }
        let owner = clone_opt_string(&photo.user_id);
        self.insert_event_log(photo.id, owner, Some(state));
    }

    /// Removes the rows whose id is among `ids`; returns how many went.
    fn remove_rows(&mut self, ids: &Vec<i64>) -> (r: u64)
        requires
            old(self)@.wf(),
        ensures
            final(self)@.wf(),
            final(self)@.rows == without_ids(old(self)@.rows, ids@),
            final(self)@.events == old(self)@.events,
            final(self)@.next_photo_id == old(self)@.next_photo_id,
            final(self)@.next_event_id == old(self)@.next_event_id,
            r == old(self)@.rows.len() - final(self)@.rows.len(),
    {
        let ghost o = self@;
        let ghost pred = |r: RowView| !ids@.contains(r.photo.id);
        let mut kept: Vec<IndexRow> = Vec::new();
        let mut i: usize = 0;
        while i < self.rows.len()
            invariant
                i <= self.rows@.len(),
                o == self@,
                pred == (|r: RowView| !ids@.contains(r.photo.id)),
                row_views(kept@) == o.rows.subrange(0, i as int).filter(pred),
                kept@.len() <= i,
            decreases self.rows@.len() - i,
        {
            proof {
                assert(o.rows.subrange(0, i + 1) == o.rows.subrange(0, i as int).push(o.rows[i as int]));
            }
            if !vec_contains(ids, self.rows[i].photo.id) {
                let c = clone_row(&self.rows[i]);
                proof {
                    assert(row_views(kept@.push(c)) =~= row_views(kept@).push(c@));
                }
                kept.push(c);
            }
            i = i + 1;
        }
        proof {
            assert(o.rows.subrange(0, self.rows@.len() as int) == o.rows);
            lemma_filter_rows_wf(o.rows, pred, o.next_photo_id);
        }
        let removed = (self.rows.len() - kept.len()) as u64;
        self.rows = kept;
        removed
    }

    /// Deletes the row with `photo`'s id, if any, and logs the deletion under
    /// `photo`'s owner; returns how many rows went.
    pub fn delete_photo(&mut self, photo: &Photo) -> (r: u64)
        requires
            old(self)@.wf(),
            old(self)@.has_room(1),
        ensures
            final(self)@.wf(),
            final(self)@.rows == without_ids(old(self)@.rows, seq![photo@.id]),
            final(self)@.events == old(self)@.events.push(
                log_entry(old(self)@.next_event_id, photo@.id, photo@.user_id, None),
            ),
            final(self)@.next_photo_id == old(self)@.next_photo_id,
            final(self)@.next_event_id == old(self)@.next_event_id + 1,
            r == old(self)@.rows.len() - final(self)@.rows.len(),
    {
        let ids = vec![photo.id];
        proof {
            assert(ids@ =~= seq![photo@.id]);
        }
        let r = self.remove_rows(&ids);
        let owner = clone_opt_string(&photo.user_id);
        self.insert_event_log(photo.id, owner, None);
        r
    }

    /// Deletes the rows whose id is among `photo_ids` and logs one deletion
    /// entry, without owner, per listed id; nothing at all for an empty list.
    /// Returns how many rows went.
    pub fn delete_photos(&mut self, photo_ids: &Vec<i64>) -> (r: u64)
        requires
            old(self)@.wf(),
            old(self)@.has_room(photo_ids@.len() as int),
        ensures
            final(self)@.wf(),
            final(self)@.rows == without_ids(old(self)@.rows, photo_ids@),
            final(self)@.events == old(self)@.events + deletion_events(
                photo_ids@,
                old(self)@.next_event_id,
            ),
            final(self)@.next_photo_id == old(self)@.next_photo_id,
            final(self)@.next_event_id == old(self)@.next_event_id + photo_ids@.len(),
            r == old(self)@.rows.len() - final(self)@.rows.len(),
    {
        if photo_ids.len() == 0 {
            proof {
                assert(without_ids(self@.rows, photo_ids@) == self@.rows) by {
                    lemma_filter_all(self@.rows, |r: RowView| !photo_ids@.contains(r.photo.id));
                }
                assert(self@.events =~= self@.events + deletion_events(photo_ids@, self@.next_event_id));
            }
            return 0;
        }
        let r = self.remove_rows(photo_ids);
        let ghost o = self@;
        let mut i: usize = 0;
        while i < photo_ids.len()
            invariant
                i <= photo_ids@.len(),
                self@.wf(),
                o.wf(),
                o.next_event_id + photo_ids@.len() <= i64::MAX,
                self@.rows == o.rows,
                self@.next_photo_id == o.next_photo_id,
                self@.next_event_id == o.next_event_id + i,
                self@.events == o.events + deletion_events(photo_ids@.subrange(0, i as int), o.next_event_id),
            decreases photo_ids@.len() - i,
        {
            self.insert_event_log(photo_ids[i], None, None);
            proof {
                assert(self@.events =~= o.events + deletion_events(photo_ids@.subrange(0, i + 1), o.next_event_id));
            }
            i = i + 1;
        }
        proof {
            assert(photo_ids@.subrange(0, photo_ids@.len() as int) == photo_ids@);
        }
        r
    }

    /// Keeps only the `last_rows_to_keep` most recent log entries.
    pub fn delete_old_events(&mut self, last_rows_to_keep: u32)
        requires
            old(self)@.wf(),
        ensures
            final(self)@.wf(),
            final(self)@.rows == old(self)@.rows,
            final(self)@.events == retained(old(self)@.events, last_rows_to_keep as int),
            final(self)@.next_photo_id == old(self)@.next_photo_id,
            final(self)@.next_event_id == old(self)@.next_event_id,
    {
        let keep = last_rows_to_keep as usize;
        if self.events.len() > keep {
            let at = self.events.len() - keep;
            let tail = self.events.split_off(at);
            self.events = tail;
            proof {
                assert(entry_views(self.events@) =~= entry_views(old(self).events@).subrange(
                    at as int,
                    old(self).events@.len() as int,
                ));
                let ev = self@.events;
                let oe = old(self)@.events;
                assert forall|i: int| 0 <= i < ev.len() implies #[trigger] ev[i].event_id
                    == self@.next_event_id - ev.len() + i by {
                    assert(ev[i] == oe[i + at]);
                }
            }
        }
    }
}

proof fn lemma_same_ids_wf(a: Seq<RowView>, b: Seq<RowView>, next: i64)
    requires
        ids_unique(a),
        ids_in_range(a, next),
        a.len() == b.len(),
        forall|k: int| 0 <= k < a.len() ==> #[trigger] b[k].photo.id == a[k].photo.id,
    ensures
        ids_unique(b),
        ids_in_range(b, next),
{
    assert forall|i: int, j: int| 0 <= i < b.len() && 0 <= j < b.len() && i != j
        implies #[trigger] b[i].photo.id != #[trigger] b[j].photo.id by {
        assert(b[i].photo.id == a[i].photo.id);
        assert(b[j].photo.id == a[j].photo.id);
    }
    assert forall|i: int| 0 <= i < b.len() implies 1 <= #[trigger] b[i].photo.id < next by {
        assert(b[i].photo.id == a[i].photo.id);
    }
}

/// The position of the last pair for `id`, if any.
fn last_index_for(pairs: &Vec<PhotoHash>, id: i64) -> (r: Option<usize>)
    ensures
        match r {
            Some(j) => j < pairs@.len() && pairs@[j as int].id == id
                && last_value_for(pair_views(pairs@), id) == Some(pairs@[j as int].hash@),
            None => last_value_for(pair_views(pairs@), id) is None,
        },
{
    let ghost pv = pair_views(pairs@);
    let mut j: usize = pairs.len();
    proof {
        assert(pv.subrange(0, j as int) == pv);
    }
    while j > 0
        invariant
            j <= pairs@.len(),
            pv == pair_views(pairs@),
            last_value_for(pv, id) == last_value_for(pv.subrange(0, j as int), id),
        decreases j,
    {
        let ghost sub = pv.subrange(0, j as int);
        proof {
            assert(sub.drop_last() == pv.subrange(0, j - 1));
            assert(sub.last() == pv[j - 1]);
        }
        if pairs[j - 1].id == id {
            return Some(j - 1);
        }
        j = j - 1;
    }
    proof {
        assert(pv.subrange(0, 0) == Seq::<(i64, Seq<u8>)>::empty());
    }
    None
}

impl PhotoLibrary {
    /// The position of the row with id `id`, if any.
    fn position_of(&self, id: i64) -> (r: Option<usize>)
        requires
            self@.wf(),
        ensures
            match r {
                Some(i) => i < self@.rows.len() && self@.rows[i as int].photo.id == id
                    && row_with_id(self@.rows, id) == self@.rows[i as int],
                None => !self@.contains_id(id),
            },
    {
        let mut i: usize = 0;
        while i < self.rows.len()
            invariant
                i <= self.rows@.len(),
                self@.wf(),
                forall|k: int| 0 <= k < i ==> #[trigger] self@.rows[k].photo.id != id,
            decreases self.rows@.len() - i,
        {
            proof {
                assert(self.rows@[i as int]@ == self@.rows[i as int]);
            }
            if self.rows[i].photo.id == id {
                proof {
                    let rows = self@.rows;
                    assert(rows[i as int].photo.id == id);
                    let c = choose|c: int| 0 <= c < rows.len() && rows[c].photo.id == id;
                    if c != i as int {
                        assert(rows[c].photo.id != rows[i as int].photo.id);
                    }
                }
                return Some(i);
            }
            i = i + 1;
        }
        None
    }

    /// Records content hashes, each replacing any earlier hash of its photo;
    /// hashes of ids that have no row are dropped.
    pub fn insert_hashes(&mut self, photos: &Vec<PhotoHash>)
        requires
            old(self)@.wf(),
        ensures
            final(self)@.wf(),
            final(self)@.rows == old(self)@.rows.map_values(
                |r: RowView| hashed_row(r, pair_views(photos@)),
            ),
            final(self)@.events == old(self)@.events,
            final(self)@.next_photo_id == old(self)@.next_photo_id,
            final(self)@.next_event_id == old(self)@.next_event_id,
    {
        let ghost o = self@;
        let ghost pv = pair_views(photos@);
        let mut i: usize = 0;
        while i < self.rows.len()
            invariant
                i <= self.rows@.len(),
                self@.rows.len() == o.rows.len(),
                self@.events == o.events,
                self@.next_photo_id == o.next_photo_id,
                self@.next_event_id == o.next_event_id,
                o.wf(),
                pv == pair_views(photos@),
                forall|k: int| 0 <= k < i ==> #[trigger] self@.rows[k] == hashed_row(o.rows[k], pv),
                forall|k: int| i <= k < o.rows.len() ==> #[trigger] self@.rows[k] == o.rows[k],
            decreases self.rows@.len() - i,
        {
            proof {
                assert(self@.rows[i as int] == o.rows[i as int]);
                assert(self.rows@[i as int]@ == self@.rows[i as int]);
            }
            match last_index_for(photos, self.rows[i].photo.id) {
                Some(j) => {
                    let row = IndexRow {
                        photo: self.rows[i].photo.duplicate(),
                        hash: Some(clone_bytes(&photos[j].hash)),
                    };
                    let ghost prev = self.rows@;
                    self.rows.set(i, row);
                    proof {
                        assert(row_views(self.rows@) =~= row_views(prev).update(i as int, row@));
                    }
                },
                None => {},
            }
            proof {
                assert(self@.rows[i as int] == hashed_row(o.rows[i as int], pv));
            }
            i = i + 1;
        }
        proof {
            assert(self@.rows =~= o.rows.map_values(|r: RowView| hashed_row(r, pv)));
            lemma_same_ids_wf(o.rows, self@.rows, o.next_photo_id);
        }
    }

    /// Records thumbnail hashes and logs each change with the photo's new
    /// state, in the order given. When an id has no row, nothing changes and
    /// that id is returned.
    pub fn update_thumb_hashes(&mut self, photos: &Vec<(i64, Vec<u8>)>) -> (r: Result<(), i64>)
        requires
            old(self)@.wf(),
            old(self)@.has_room(photos@.len() as int),
        ensures
            final(self)@.wf(),
            r is Err <==> exists|k: int|
                0 <= k < photos@.len() && !old(self)@.contains_id(#[trigger] photos@[k].0),
            r is Err ==> final(self)@ == old(self)@ && !old(self)@.contains_id(r->Err_0),
            r is Ok ==> final(self)@.rows == old(self)@.rows.map_values(
                |row: RowView| thumbed_row(row, thumb_pair_views(photos@)),
            ) && final(self)@.events == old(self)@.events + thumb_events(
                old(self)@.rows,
                thumb_pair_views(photos@),
                old(self)@.next_event_id,
            ) && final(self)@.next_event_id == old(self)@.next_event_id + photos@.len(),
            final(self)@.next_photo_id == old(self)@.next_photo_id,
    {
        let ghost o = self@;
        let ghost tv = thumb_pair_views(photos@);
        // every id must name a row before anything changes
        let mut k: usize = 0;
        while k < photos.len()
            invariant
                k <= photos@.len(),
                self@ == o,
                o.wf(),
                forall|m: int| 0 <= m < k ==> o.contains_id(#[trigger] photos@[m].0),
            decreases photos@.len() - k,
        {
            match self.position_of(photos[k].0) {
                Some(_) => {},
                None => {
                    return Err(photos[k].0);
                },
            }
            k = k + 1;
        }
        // the log entries, computed from the rows before the change
        let mut pairs: Vec<PhotoHash> = Vec::new();
        let mut k: usize = 0;
        while k < photos.len()
            invariant
                k <= photos@.len(),
                o.wf(),
                self@.wf(),
                o.has_room(photos@.len() as int),
                tv == thumb_pair_views(photos@),
                forall|m: int| 0 <= m < photos@.len() ==> o.contains_id(#[trigger] photos@[m].0),
                self@.rows == o.rows,
                self@.next_photo_id == o.next_photo_id,
                self@.next_event_id == o.next_event_id + k,
                self@.events == o.events + thumb_events(o.rows, tv.subrange(0, k as int), o.next_event_id),
                pair_views(pairs@) == tv.subrange(0, k as int),
            decreases photos@.len() - k,
        {
            let id = photos[k].0;
            let pos = self.position_of(id);
            proof {
                assert(o.contains_id(photos@[k as int].0));
            }
            let i = match pos {
                Some(i) => i,
                None => { return Err(id); },
            };
            let mut data = self.rows[i].photo.duplicate();
            data.thumb_hash = Some(clone_bytes(&photos[k].1));
            let owner = clone_opt_string(&self.rows[i].photo.user_id);
            proof {
                assert(self.rows@[i as int]@ == self@.rows[i as int]);
            }
            self.insert_event_log(id, owner, Some(data));
            let ph = PhotoHash { id, hash: clone_bytes(&photos[k].1) };
            pairs.push(ph);
            proof {
                assert(tv.subrange(0, k + 1) == tv.subrange(0, k as int).push(tv[k as int]));
                assert(pair_views(pairs@) =~= tv.subrange(0, k + 1));
                assert(self@.events =~= o.events + thumb_events(o.rows, tv.subrange(0, k + 1), o.next_event_id));
            }
            k = k + 1;
        }
        proof {
            assert(tv.subrange(0, photos@.len() as int) == tv);
        }
        let ghost mid = self@;
        // the rows themselves
        let mut i: usize = 0;
        while i < self.rows.len()
            invariant
                i <= self.rows@.len(),
                self@.rows.len() == o.rows.len(),
                self@.events == mid.events,
                self@.next_photo_id == o.next_photo_id,
                self@.next_event_id == mid.next_event_id,
                mid.rows == o.rows,
                o.wf(),
                pair_views(pairs@) == tv,
                forall|k: int| 0 <= k < i ==> #[trigger] self@.rows[k] == thumbed_row(o.rows[k], tv),
                forall|k: int| i <= k < o.rows.len() ==> #[trigger] self@.rows[k] == o.rows[k],
            decreases self.rows@.len() - i,
        {
            proof {
                assert(self@.rows[i as int] == o.rows[i as int]);
                assert(self.rows@[i as int]@ == self@.rows[i as int]);
            }
            match last_index_for(&pairs, self.rows[i].photo.id) {
                Some(j) => {
                    let mut p = self.rows[i].photo.duplicate();
                    p.thumb_hash = Some(clone_bytes(&pairs[j].hash));
                    let row = IndexRow { photo: p, hash: clone_opt_bytes(&self.rows[i].hash) };
                    let ghost prev = self.rows@;
                    self.rows.set(i, row);
                    proof {
                        assert(row_views(self.rows@) =~= row_views(prev).update(i as int, row@));
                    }
                },
                None => {},
            }
            proof {
                assert(self@.rows[i as int] == thumbed_row(o.rows[i as int], tv));
            }
            i = i + 1;
        }
        proof {
            assert(self@.rows =~= o.rows.map_values(|r: RowView| thumbed_row(r, tv)));
            lemma_same_ids_wf(o.rows, self@.rows, o.next_photo_id);
        }
        Ok(())
    }
}

impl PhotoLibrary {
    /// Copies of the rows that satisfy `q`, in index order.
    pub fn select_index_rows(&self, q: &Query) -> (r: Vec<IndexRow>)
        requires
            self@.wf(),
        ensures
            row_views(r@) == self@.rows.filter(query_pred(*q)),
            ids_unique(row_views(r@)),
    {
        let ghost rv = self@.rows;
        let ghost pred = query_pred(*q);
        let mut out: Vec<IndexRow> = Vec::new();
        let mut i: usize = 0;
        while i < self.rows.len()
            invariant
                i <= self.rows@.len(),
                rv == self@.rows,
                rv == row_views(self.rows@),
                pred == query_pred(*q),
                row_views(out@) == rv.subrange(0, i as int).filter(pred),
            decreases self.rows@.len() - i,
        {
            proof {
                assert(rv.subrange(0, i + 1) == rv.subrange(0, i as int).push(rv[i as int]));
            }
            if query_matches(q, &self.rows[i]) {
                let c = clone_row(&self.rows[i]);
                proof {
                    assert(row_views(out@.push(c)) =~= row_views(out@).push(c@));
                }
                out.push(c);
            }
            i = i + 1;
        }
        proof {
            assert(rv.subrange(0, self.rows@.len() as int) == rv);
            lemma_filter_rows_wf(rv, pred, self@.next_photo_id);
        }
        out
    }
}

impl PhotoLibrary {
    /// Whether some row has id `id`.
    pub fn contains_photo(&self, id: i64) -> (r: bool)
        requires
            self@.wf(),
        ensures
            r == self@.contains_id(id),
    {
        match self.position_of(id) {
            Some(i) => {
                proof {
                    assert(self@.rows[i as int].photo.id == id);
                }
                true
            },
            None => false,
        }
    }
}

impl PhotoLibrary {
    /// Adds an uploaded `photo` under a fresh id, without a thumbnail hash,
    /// together with the content hash computed while it was received, logs
    /// its creation, and returns the stored photo.
    pub fn insert_uploaded_photo(&mut self, photo: &Photo, hash: &Vec<u8>) -> (r: Photo)
        requires
            old(self)@.wf(),
            old(self)@.has_room(1),
        ensures
            final(self)@.wf(),
            r@ == stored_photo(photo@, old(self)@.next_photo_id),
            r@.thumb_hash is None,
            final(self)@.rows == old(self)@.rows.push(RowView { photo: r@, hash: Some(hash@) }),
            final(self)@.events == old(self)@.events.push(
                log_entry(old(self)@.next_event_id, r@.id, r@.user_id, Some(r@)),
            ),
            final(self)@.next_photo_id == old(self)@.next_photo_id + 1,
            final(self)@.next_event_id == old(self)@.next_event_id + 1,
    {
        let mut stored = photo.duplicate();
        stored.id = self.next_photo_id;
        stored.thumb_hash = None;
        let row = IndexRow { photo: stored.duplicate(), hash: Some(clone_bytes(hash)) };
        self.push_row(row);
        let logged = stored.duplicate();
        let owner = clone_opt_string(&stored.user_id);
        self.insert_event_log(stored.id, owner, Some(logged));
        proof {
            assert(self@.rows =~= old(self)@.rows.push(RowView { photo: stored@, hash: Some(hash@) }));
        }
        stored
    }
}

impl PhotoLibrary {
    /// The id the next inserted photo gets.
    pub fn next_photo_id(&self) -> (r: i64)
        ensures
            r == self@.next_photo_id,
    {
        self.next_photo_id
    }

    /// The id the next log entry gets.
    pub fn next_event_id(&self) -> (r: i64)
        ensures
            r == self@.next_event_id,
    {
        self.next_event_id
    }

    /// Rebuilds an index from stored parts; none when they break the index's
    /// invariant.
    pub fn from_parts(
        rows: Vec<IndexRow>,
        events: Vec<EventLogEntry>,
        next_photo_id: i64,
        next_event_id: i64,
    ) -> (r: Option<PhotoLibrary>)
        ensures
            ({
                let v = LibraryView {
                    rows: row_views(rows@),
                    events: entry_views(events@),
                    next_photo_id,
                    next_event_id,
                };
                &&& r is Some <==> v.wf()
                &&& r matches Some(lib) ==> lib@ == v
            }),
    {
        let ghost v = LibraryView {
            rows: row_views(rows@),
            events: entry_views(events@),
            next_photo_id,
            next_event_id,
        };
        // the log runs without gaps up to next_event_id - 1, from a positive id
        let n = events.len();
        if n as i128 > next_event_id as i128 - 1 {
            return None;
        }
        let first = next_event_id - n as i64;
        let mut i: usize = 0;
        while i < n
            invariant
                i <= n == events@.len(),
                v.events == entry_views(events@),
                first == next_event_id - n,
                n as int <= next_event_id - 1,
                forall|k: int| 0 <= k < i ==> #[trigger] v.events[k].event_id == next_event_id - v.events.len() + k,
            decreases n - i,
        {
            if events[i].event_id != first + i as i64 {
                proof {
                    assert(v.events[i as int].event_id != next_event_id - v.events.len() + i);
                }
                return None;
            }
            i = i + 1;
        }
        if next_photo_id < 1 {
            return None;
        }
        // ids in range and unique
        let mut i: usize = 0;
        while i < rows.len()
            invariant
                i <= rows@.len(),
                v.rows == row_views(rows@),
                v.next_photo_id == next_photo_id,
                forall|k: int| 0 <= k < i ==> 1 <= #[trigger] v.rows[k].photo.id < next_photo_id,
                forall|a: int, b: int| 0 <= a < i && 0 <= b < i && a != b ==> #[trigger] v.rows[a].photo.id != #[trigger] v.rows[b].photo.id,
            decreases rows@.len() - i,
        {
            let id = rows[i].photo.id;
            if id < 1 || id >= next_photo_id {
                proof {
                    assert(!(1 <= v.rows[i as int].photo.id < next_photo_id));
                }
                return None;
            }
            let mut j: usize = 0;
            while j < i
                invariant
                    j <= i < rows@.len(),
                    v.rows == row_views(rows@),
                    id == v.rows[i as int].photo.id,
                    forall|k: int| 0 <= k < j ==> #[trigger] v.rows[k].photo.id != id,
                decreases i - j,
            {
                if rows[j].photo.id == id {
                    proof {
                        assert(v.rows[j as int].photo.id == v.rows[i as int].photo.id);
                        assert(!ids_unique(v.rows));
                    }
                    return None;
                }
                j = j + 1;
            }
            i = i + 1;
        }
        Some(PhotoLibrary { rows, events, next_photo_id, next_event_id })
    }
}

} // verus!
