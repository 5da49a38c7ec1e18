//! The periodic maintenance cycle: its phases, their fixed order, the
//! scheduler that drives them, and the decisions of the phases that the
//! library takes itself.
use vstd::prelude::*;
use crate::index::{PhotoLibrary, RowView};

verus! {

/// Log entries kept by retention.
pub const MAX_EVENT_LOG_ROWS_TO_KEEP: u32 = 512;

/// Photos hashed per chunk handed to one worker.
pub const HASH_CHUNK_SIZE: usize = 256;

/// Seconds between two maintenance cycles.
pub const MAINTENANCE_INTERVAL_SECONDS: u64 = 2 * 60 * 60;

/// The phases of one cycle, in the order they run.
#[derive(Debug, Clone, Copy, PartialEq, Eq, Structural)]
pub enum MaintenancePhase {
    FileScan,
    DuplicateRows,
    OrphanPreviews,
    ContentHashes,
    TrashExpiry,
    ThumbHashes,
    EventLogRetention,
}

/// Position of a phase in the cycle.
pub open spec fn phase_rank(p: MaintenancePhase) -> int {
    match p {
        MaintenancePhase::FileScan => 0,
        MaintenancePhase::DuplicateRows => 1,
        MaintenancePhase::OrphanPreviews => 2,
        MaintenancePhase::ContentHashes => 3,
        MaintenancePhase::TrashExpiry => 4,
        MaintenancePhase::ThumbHashes => 5,
        MaintenancePhase::EventLogRetention => 6,
    }
}

/// The phase a cycle starts with: the file scan when scanning is enabled.
pub fn first_phase(scan_new_files: bool) -> (r: MaintenancePhase)
    ensures
        phase_rank(r) == if scan_new_files { 0int } else { 1int },
{
    if scan_new_files {
        MaintenancePhase::FileScan
    } else {
        MaintenancePhase::DuplicateRows
    }
}

/// The phase after `p`, whatever `p`'s outcome; none after log retention,
/// which always closes the cycle.
pub fn next_phase(p: MaintenancePhase) -> (r: Option<MaintenancePhase>)
    ensures
        r is None <==> p == MaintenancePhase::EventLogRetention,
        r is Some ==> phase_rank(r->0) == phase_rank(p) + 1,
{
    match p {
        MaintenancePhase::FileScan => Some(MaintenancePhase::DuplicateRows),
        MaintenancePhase::DuplicateRows => Some(MaintenancePhase::OrphanPreviews),
        MaintenancePhase::OrphanPreviews => Some(MaintenancePhase::ContentHashes),
        MaintenancePhase::ContentHashes => Some(MaintenancePhase::TrashExpiry),
        MaintenancePhase::TrashExpiry => Some(MaintenancePhase::ThumbHashes),
        MaintenancePhase::ThumbHashes => Some(MaintenancePhase::EventLogRetention),
        MaintenancePhase::EventLogRetention => None,
    }
}

/// Where the scheduler stands.
#[derive(Debug, Clone, Copy, PartialEq, Eq, Structural)]
pub enum SchedulerState {
    Stopped,
    Idle,
    Running(MaintenancePhase),
}

/// Drives maintenance cycles: one at a time, each phase after the previous
/// one has finished.
#[derive(Debug)]
pub struct MaintenanceScheduler {
    pub state: SchedulerState,
    pub scan_new_files: bool,
    pub cycles_completed: u64,
}

impl MaintenanceScheduler {
    /// A stopped scheduler.
    pub fn new(scan_new_files: bool) -> (r: MaintenanceScheduler)
        ensures
            r.state == SchedulerState::Stopped,
            r.scan_new_files == scan_new_files,
            r.cycles_completed == 0,
    {
        MaintenanceScheduler { state: SchedulerState::Stopped, scan_new_files, cycles_completed: 0 }
    }

    /// Starts a stopped scheduler; a started one is left as it is.
    pub fn start(&mut self)
        ensures
            old(self).state == SchedulerState::Stopped ==> final(self).state == SchedulerState::Idle,
            old(self).state != SchedulerState::Stopped ==> final(self).state == old(self).state,
            final(self).scan_new_files == old(self).scan_new_files,
            final(self).cycles_completed == old(self).cycles_completed,
    {
        if self.state == SchedulerState::Stopped {
            self.state = SchedulerState::Idle;
        }
    }

    /// Stops the scheduler; a running phase is not resumed.
    pub fn stop(&mut self)
        ensures
            final(self).state == SchedulerState::Stopped,
            final(self).scan_new_files == old(self).scan_new_files,
            final(self).cycles_completed == old(self).cycles_completed,
    {
        self.state = SchedulerState::Stopped;
    }

    /// The timer fired: an idle scheduler begins a cycle and returns its
    /// first phase; otherwise nothing starts.
    pub fn tick(&mut self) -> (r: Option<MaintenancePhase>)
        ensures
            old(self).state == SchedulerState::Idle ==> r is Some && phase_rank(r->0) == (if old(
                self,
            ).scan_new_files {
                0int
            } else {
                1int
            }) && final(self).state == SchedulerState::Running(r->0),
            old(self).state != SchedulerState::Idle ==> r is None && final(self).state == old(
                self,
            ).state,
            final(self).scan_new_files == old(self).scan_new_files,
            final(self).cycles_completed == old(self).cycles_completed,
    {
        if self.state == SchedulerState::Idle {
            let p = first_phase(self.scan_new_files);
            self.state = SchedulerState::Running(p);
            Some(p)
        } else {
            None
        }
    }

    /// The running phase finished, successfully or not: returns the next
    /// phase, or none when the cycle is complete and the scheduler idle.
    pub fn phase_finished(&mut self) -> (r: Option<MaintenancePhase>)
        ensures
            match old(self).state {
                SchedulerState::Running(p) => match next_phase_spec(p) {
                    Some(q) => r == Some(q) && final(self).state == SchedulerState::Running(q)
                        && final(self).cycles_completed == old(self).cycles_completed,
                    None => r is None && final(self).state == SchedulerState::Idle
                        && final(self).cycles_completed == (if old(self).cycles_completed < u64::MAX {
                        old(self).cycles_completed + 1
                    } else {
                        old(self).cycles_completed as int
                    }),
                },
                _ => r is None && final(self).state == old(self).state
                    && final(self).cycles_completed == old(self).cycles_completed,
            },
            final(self).scan_new_files == old(self).scan_new_files,
    {
        match self.state {
            SchedulerState::Running(p) => match next_phase(p) {
                Some(q) => {
                    self.state = SchedulerState::Running(q);
                    Some(q)
                },
                None => {
                    self.state = SchedulerState::Idle;
                    if self.cycles_completed < u64::MAX {
                        self.cycles_completed = self.cycles_completed + 1;
                    }
                    None
                },
            },
            _ => None,
        }
    }
}

/// The phase after `p`.
pub open spec fn next_phase_spec(p: MaintenancePhase) -> Option<MaintenancePhase> {
    match p {
        MaintenancePhase::FileScan => Some(MaintenancePhase::DuplicateRows),
        MaintenancePhase::DuplicateRows => Some(MaintenancePhase::OrphanPreviews),
        MaintenancePhase::OrphanPreviews => Some(MaintenancePhase::ContentHashes),
        MaintenancePhase::ContentHashes => Some(MaintenancePhase::TrashExpiry),
        MaintenancePhase::TrashExpiry => Some(MaintenancePhase::ThumbHashes),
        MaintenancePhase::ThumbHashes => Some(MaintenancePhase::EventLogRetention),
        MaintenancePhase::EventLogRetention => None,
    }
}

/// What removing a trashed photo's own file came to.
#[derive(Debug, Clone, Copy, PartialEq, Eq, Structural)]
pub enum FileRemoval {
    Removed,
    Missing,
    Failed,
}

/// What the trash sweep does next with the photo whose file it tried to
/// remove: drop its row, or stop the sweep; rows already dropped stay dropped.
#[derive(Debug, Clone, Copy, PartialEq, Eq, Structural)]
pub enum TrashAction {
    DeleteRow,
    StopSweep,
}

pub fn trash_step(removal: FileRemoval) -> (r: TrashAction)
    ensures
        r == TrashAction::StopSweep <==> removal == FileRemoval::Failed,
{
    match removal {
        FileRemoval::Removed => TrashAction::DeleteRow,
        FileRemoval::Missing => TrashAction::DeleteRow,
        FileRemoval::Failed => TrashAction::StopSweep,
    }
}

/// The value of a non-empty run of ASCII digits.
pub open spec fn digits_value(s: Seq<char>) -> int
    decreases s.len(),
{
    if s.len() == 0 {
        0
    } else {
        digits_value(s.drop_last()) * 10 + (s.last() as int - '0' as int)
    }
}

pub open spec fn all_digits(s: Seq<char>) -> bool {
    s.len() > 0 && forall|i: int| 0 <= i < s.len() ==> '0' <= #[trigger] s[i] <= '9'
}

/// The integer a string writes: an optional `+` or `-`, then digits.
pub open spec fn decimal_value(s: Seq<char>) -> Option<int> {
    if s.len() > 0 && s[0] == '-' && all_digits(s.drop_first()) {
        Some(-digits_value(s.drop_first()))
    } else if s.len() > 0 && s[0] == '+' && all_digits(s.drop_first()) {
        Some(digits_value(s.drop_first()))
    } else if all_digits(s) {
        Some(digits_value(s))
    } else {
        None
    }
}

/// What parsing a string as an `i64` gives: the value it writes, when that
/// value fits.
pub open spec fn parsed_i64(s: Seq<char>) -> Option<i64> {
    match decimal_value(s) {
        Some(v) => if i64::MIN <= v <= i64::MAX {
            Some(v as i64)
        } else {
            None
        },
        None => None,
    }
}

/// Relies on `str::parse::<i64>` (`i64::from_str`): an optional sign and
/// digits, within range, are accepted; anything else is an error.
#[verifier::external_body]
fn parse_i64(s: &str) -> (r: Option<i64>)
    ensures
        r == parsed_i64(s@),
{
    s.parse::<i64>().ok()
}

/// A preview file whose name stem is a photo id that the index no longer
/// holds.
pub open spec fn is_orphan_preview(lib: crate::index::LibraryView, stem: Seq<char>) -> bool {
    parsed_i64(stem) is Some && !lib.contains_id(parsed_i64(stem)->0)
}

/// The positions, in order, of the preview files to delete, given their
/// name stems.
pub fn orphaned_previews(library: &PhotoLibrary, stems: &Vec<String>) -> (r: Vec<usize>)
    requires
        library@.wf(),
    ensures
        forall|k: int| 0 <= k < r@.len() ==> #[trigger] r@[k] < stems@.len() && is_orphan_preview(
            library@,
            stems@[r@[k] as int]@,
        ),
        forall|a: int, b: int| 0 <= a < b < r@.len() ==> r@[a] < r@[b],
        forall|i: int| 0 <= i < stems@.len() && is_orphan_preview(library@, #[trigger] stems@[i]@) ==> r@.contains(
            i as usize,
        ),
{
    let mut out: Vec<usize> = Vec::new();
    let mut i: usize = 0;
    while i < stems.len()
        invariant
            i <= stems@.len(),
            library@.wf(),
            forall|k: int| 0 <= k < out@.len() ==> #[trigger] out@[k] < i && is_orphan_preview(
                library@,
                stems@[out@[k] as int]@,
            ),
            forall|a: int, b: int| 0 <= a < b < out@.len() ==> out@[a] < out@[b],
            forall|j: int| 0 <= j < i && is_orphan_preview(library@, #[trigger] stems@[j]@) ==> out@.contains(
                j as usize,
            ),
        decreases stems@.len() - i,
    {
        let orphan = match parse_i64(stems[i].as_str()) {
            Some(id) => !library.contains_photo(id),
            None => false,
        };
        let ghost before = out@;
        if orphan {
            out.push(i);
            proof {
                assert(out@[out@.len() - 1] == i);
            }
        }
        proof {
            assert forall|j: int| 0 <= j < i + 1 && is_orphan_preview(library@, #[trigger] stems@[j]@) implies out@.contains(
                j as usize,
            ) by {
                if j < i {
                    let k = choose|k: int| 0 <= k < before.len() && before[k] == j as usize;
                    assert(out@[k] == before[k]);
                } else {
                    assert(out@[out@.len() - 1] == i);
                }
            }
        }
        i = i + 1;
    }
    out
}

/// The ids of the rows whose path identity repeats an earlier row's.
pub open spec fn later_duplicate_ids(rows: Seq<RowView>) -> Seq<i64> {
    crate::index::later_duplicates(rows).map_values(|p: crate::photo::PhotoView| p.id)
}

/// The deletion entries logged when the repeated rows of `rows` go, the first
/// with event id `first_event`.
pub open spec fn duplicate_deletions(rows: Seq<RowView>, first_event: i64) -> Seq<crate::event_log::EventLogEntryView> {
    Seq::new(
        crate::index::later_duplicates(rows).len(),
        |k: int| {
            let p = crate::index::later_duplicates(rows)[k];
            crate::index::log_entry((first_event + k) as i64, p.id, p.user_id, None)
        },
    )
}

proof fn lemma_later_duplicates_len(rows: Seq<RowView>)
    ensures
        crate::index::later_duplicates(rows).len() <= rows.len(),
    decreases rows.len(),
{
    if rows.len() > 0 {
        lemma_later_duplicates_len(rows.drop_last());
    }
}

proof fn lemma_without_ids_push(rows: Seq<RowView>, ids: Seq<i64>, x: i64)
    ensures
        crate::index::without_ids(crate::index::without_ids(rows, ids), seq![x])
            == crate::index::without_ids(rows, ids.push(x)),
    decreases rows.len(),
{
    let pa = |r: RowView| !ids.contains(r.photo.id);
    let q = |r: RowView| !seq![x].contains(r.photo.id);
    let pr = |r: RowView| !ids.push(x).contains(r.photo.id);
    reveal(Seq::filter);
    if rows.len() > 0 {
        let d = rows.drop_last();
        let l = rows.last();
        lemma_without_ids_push(d, ids, x);
        assert(ids.push(x).contains(l.photo.id) <==> (ids.contains(l.photo.id) || x == l.photo.id)) by {
            if ids.push(x).contains(l.photo.id) {
                let k = choose|k: int| 0 <= k < ids.len() + 1 && ids.push(x)[k] == l.photo.id;
                if k < ids.len() {
                    assert(ids[k] == l.photo.id);
                }
            }
            if ids.contains(l.photo.id) {
                let k = choose|k: int| 0 <= k < ids.len() && ids[k] == l.photo.id;
                assert(ids.push(x)[k] == l.photo.id);
            }
            if x == l.photo.id {
                assert(ids.push(x)[ids.len() as int] == x);
            }
        }
        assert(seq![x].contains(l.photo.id) <==> x == l.photo.id) by {
            if x == l.photo.id {
                assert(seq![x][0] == x);
            }
        }
        d.filter(pa).lemma_filter_push(l, q);
    } else {
        assert(rows.filter(pa) == rows);
    }
}

/// Deletes every row that repeats the path identity of an earlier row,
/// keeping the earliest of each, and logs each deletion under the deleted
/// photo's owner. Returns how many rows went.
pub fn resolve_duplicates_db_entry(library: &mut PhotoLibrary) -> (r: u64)
    requires
        old(library)@.wf(),
        old(library)@.has_room(old(library)@.rows.len() as int),
    ensures
        final(library)@.wf(),
        final(library)@.rows == crate::index::without_ids(old(library)@.rows, later_duplicate_ids(old(library)@.rows)),
        final(library)@.events == old(library)@.events + duplicate_deletions(
            old(library)@.rows,
            old(library)@.next_event_id,
        ),
        final(library)@.next_photo_id == old(library)@.next_photo_id,
        r == crate::index::later_duplicates(old(library)@.rows).len(),
{
    let ghost o = library@;
    let dups = library.get_photos_with_same_location();
    let ghost dv = crate::index::photo_views(dups@);
    let ghost ids = later_duplicate_ids(o.rows);
    proof {
        lemma_later_duplicates_len(o.rows);
        assert(ids.subrange(0, 0) =~= Seq::<i64>::empty());
        assert(crate::index::without_ids(o.rows, Seq::<i64>::empty()) == o.rows) by {
            let p = |r: RowView| !Seq::<i64>::empty().contains(r.photo.id);
            assert forall|i: int| 0 <= i < o.rows.len() implies p(#[trigger] o.rows[i]) by {}
            crate::index::lemma_filter_all(o.rows, p);
        }
    }
    let ghost all = duplicate_deletions(o.rows, o.next_event_id);
    let mut k: usize = 0;
    while k < dups.len()
        invariant
            k <= dups@.len(),
            dv == crate::index::photo_views(dups@),
            dv == crate::index::later_duplicates(o.rows),
            ids == later_duplicate_ids(o.rows),
            dups@.len() <= o.rows.len(),
            o.wf(),
            o.has_room(o.rows.len() as int),
            library@.wf(),
            library@.rows == crate::index::without_ids(o.rows, ids.subrange(0, k as int)),
            all == duplicate_deletions(o.rows, o.next_event_id),
            library@.events == o.events + all.subrange(0, k as int),
            library@.next_photo_id == o.next_photo_id,
            library@.next_event_id == o.next_event_id + k,
        decreases dups@.len() - k,
    {
        library.delete_photo(&dups[k]);
        proof {
            assert(ids.subrange(0, k + 1) == ids.subrange(0, k as int).push(dups@[k as int]@.id));
            lemma_without_ids_push(o.rows, ids.subrange(0, k as int), dups@[k as int]@.id);
            assert(dv[k as int] == dups@[k as int]@);
            assert(all[k as int] == crate::index::log_entry(
                (o.next_event_id + k) as i64,
                dups@[k as int]@.id,
                dups@[k as int]@.user_id,
                None,
            ));
            assert(library@.events =~= o.events + all.subrange(0, k + 1));
        }
        k = k + 1;
    }
    proof {
        assert(ids.subrange(0, dups@.len() as int) == ids);
        assert(all.subrange(0, dups@.len() as int) == all);
    }
    dups.len() as u64
}


/// The state one server owns: the photo index with its log, and the
/// scheduler of its maintenance cycles.
pub struct AppState {
    pub library: PhotoLibrary,
    pub scheduler: MaintenanceScheduler,
}

impl AppState {
    /// An empty library and a stopped scheduler.
    pub fn new(scan_new_files: bool) -> (r: AppState)
        ensures
            r.library@.wf(),
            r.library@.rows.len() == 0,
            r.library@.events.len() == 0,
            r.scheduler.state == SchedulerState::Stopped,
            r.scheduler.scan_new_files == scan_new_files,
    {
        AppState { library: PhotoLibrary::new(), scheduler: MaintenanceScheduler::new(scan_new_files) }
    }
}

} // verus!
