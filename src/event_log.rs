//! The append-only event log and the synchronisation queries on it.
use vstd::prelude::*;
use crate::photo::{Photo, PhotoView, opt_chars};
use vstd::string::StringExecFns;

verus! {

broadcast use vstd::seq_lib::group_seq_lib_default, vstd::seq::Seq::lemma_filter_push;

/// One record of the log: the photo it concerns, the owner scope used for
/// filtering (absent: visible to everyone), and a snapshot of the photo after
/// the change, or nothing for a deletion.
#[derive(Debug)]
pub struct EventLogEntry {
    pub event_id: i64,
    pub photo_id: i64,
    pub user_id: Option<String>,
    pub data: Option<Photo>,
}

pub struct EventLogEntryView {
    pub event_id: i64,
    pub photo_id: i64,
    pub user_id: Option<Seq<char>>,
    pub data: Option<PhotoView>,
}

pub open spec fn opt_photo(o: Option<Photo>) -> Option<PhotoView> {
    match o {
        Some(p) => Some(p@),
        None => None,
    }
}

impl View for EventLogEntry {
    type V = EventLogEntryView;

    open spec fn view(&self) -> EventLogEntryView {
        EventLogEntryView {
            event_id: self.event_id,
            photo_id: self.photo_id,
            user_id: opt_chars(self.user_id),
            data: opt_photo(self.data),
        }
    }
}

impl EventLogEntryView {
    /// The entry concerns `owner`: it carries no owner, or this one.
    pub open spec fn visible_to(self, owner: Seq<char>) -> bool {
        self.user_id is None || self.user_id == Some(owner)
    }
}

/// What a client receives for one change: the photo id and its new state,
/// or nothing when the photo was deleted.
#[derive(Debug)]
pub struct EventLog {
    pub photo_id: i64,
    pub data: Option<Photo>,
}

impl View for EventLog {
    type V = (i64, Option<PhotoView>);

    open spec fn view(&self) -> (i64, Option<PhotoView>) {
        (self.photo_id, opt_photo(self.data))
    }
}

/// An incremental change set and the high-water mark it brings the client to.
#[derive(Debug)]
pub struct EventLogs {
    pub event_log_id: i64,
    pub events: Vec<EventLog>,
}

/// Why an incremental synchronisation cannot be served from the log: the
/// client must fall back to a full snapshot.
#[derive(Debug, PartialEq, Eq, Structural)]
pub enum UserEventLogError {
    /// The cursor lies below the oldest retained event or above the newest.
    InvalidEventId,
    /// The log holds no events.
    NoEvents,
}

pub open spec fn entry_views(s: Seq<EventLogEntry>) -> Seq<EventLogEntryView> {
    s.map_values(|e: EventLogEntry| e@)
}

/// The log's ids run without gaps up to `next_id - 1`, all of them positive.
pub open spec fn log_well_formed(log: Seq<EventLogEntryView>, next_id: i64) -> bool {
    &&& 1 <= next_id - log.len()
    &&& forall|i: int| 0 <= i < log.len() ==> #[trigger] log[i].event_id == next_id - log.len() + i
}

/// The largest event id of the log, or 0 when it is empty.
pub open spec fn high_water_mark(log: Seq<EventLogEntryView>) -> i64 {
    if log.len() == 0 {
        0
    } else {
        log.last().event_id
    }
}

/// The cursor cannot be served: the log is empty, or the cursor is below its
/// oldest retained id or above its newest.
pub open spec fn cursor_is_stale(log: Seq<EventLogEntryView>, cursor: i64) -> bool {
    log.len() == 0 || cursor < log[0].event_id || cursor > log.last().event_id
}

pub open spec fn synced_to(cursor: i64, owner: Seq<char>) -> spec_fn(EventLogEntryView) -> bool {
    |e: EventLogEntryView| e.event_id > cursor && e.visible_to(owner)
}

/// The entries a client at `cursor` still has to apply, in log order.
pub open spec fn changes_since(
    log: Seq<EventLogEntryView>,
    cursor: i64,
    owner: Seq<char>,
) -> Seq<EventLogEntryView> {
    log.filter(synced_to(cursor, owner))
}

/// The entries a client receives, matched one for one with `sel`.
pub open spec fn delivers(events: Seq<EventLog>, sel: Seq<EventLogEntryView>) -> bool {
    &&& events.len() == sel.len()
    &&& forall|i: int|
        0 <= i < sel.len() ==> #[trigger] events[i]@ == (sel[i].photo_id, sel[i].data)
}

/// The high-water mark of the log.
pub fn latest_event_id(log: &Vec<EventLogEntry>) -> (r: i64)
    ensures
        r == high_water_mark(entry_views(log@)),
{
    if log.len() == 0 {
        0
    } else {
        log[log.len() - 1].event_id
    }
}

/// Every change visible to `owner` after `last_event_id`, with the new
/// high-water mark; an error when the cursor is stale.
pub fn events_for_user(log: &Vec<EventLogEntry>, last_event_id: i64, user_id: &str) -> (r: Result<
    EventLogs,
    UserEventLogError,
>)
    ensures
        log@.len() == 0 ==> r == Err::<EventLogs, UserEventLogError>(
            UserEventLogError::NoEvents,
        ),
        log@.len() > 0 && cursor_is_stale(entry_views(log@), last_event_id) ==> r == Err::<
            EventLogs,
            UserEventLogError,
        >(UserEventLogError::InvalidEventId),
        r is Ok <==> !cursor_is_stale(entry_views(log@), last_event_id),
        r is Ok ==> r->Ok_0.event_log_id == high_water_mark(entry_views(log@)) && delivers(
            r->Ok_0.events@,
            changes_since(entry_views(log@), last_event_id, user_id@),
        ),
{
    let ghost lv = entry_views(log@);
    if log.len() == 0 {
        return Err(UserEventLogError::NoEvents);
    }
    let min_event_id = log[0].event_id;
    let max_event_id = log[log.len() - 1].event_id;
    if last_event_id < min_event_id || last_event_id > max_event_id {
        return Err(UserEventLogError::InvalidEventId);
    }
    let ghost pred = synced_to(last_event_id, user_id@);
    let owner = String::from_str(user_id);
    let mut events: Vec<EventLog> = Vec::new();
    let mut i: usize = 0;
    while i < log.len()
        invariant
            i <= log@.len(),
            lv == entry_views(log@),
            pred == synced_to(last_event_id, user_id@),
            owner@ == user_id@,
            delivers(events@, lv.subrange(0, i as int).filter(pred)),
        decreases log@.len() - i,
    {
        let e = &log[i];
        proof {
            assert(lv.subrange(0, i + 1) == lv.subrange(0, i as int).push(lv[i as int]));
        }
        let visible = match &e.user_id {
            Some(u) => *u == owner,
            None => true,
        };
        if e.event_id > last_event_id && visible {
            let data = match &e.data {
                Some(p) => Some(p.duplicate()),
                None => None,
            };
            events.push(EventLog { photo_id: e.photo_id, data });
        }
        i = i + 1;
    }
    proof {
        assert(lv.subrange(0, log@.len() as int) == lv);
    }
    Ok(EventLogs { event_log_id: max_event_id, events })
}

} // verus!
