//! Watch a single file for changes.
//!
//! The watcher is a poll-classification state machine: between polls it
//! keeps the last known metadata snapshot of the watched path (or "absent"),
//! and each tick it compares the current read against that snapshot and
//! emits at most one event. The caller's poll loop owns the timing: it
//! reads the file's metadata at each tick and hands the result in.

use vstd::prelude::*;

verus! {

/// Simplified metadata for file watching: the modification time, split
/// into whole seconds and nanoseconds since the epoch, and the size in
/// bytes. A change to either the time or the size counts as a change.
#[derive(Debug, Clone, Copy, PartialEq, Eq, Structural)]
pub struct FileMeta {
    pub modified_secs: u64,
    pub modified_nanos: u32,
    pub size: u64,
}

/// What one metadata poll of the watched path found.
#[derive(Debug, Clone, PartialEq, Eq)]
pub enum FileStatus {
    /// The file exists, with this metadata.
    Present(FileMeta),
    /// The file does not exist.
    Absent,
    /// The metadata could not be read for a reason other than absence;
    /// the rendered error message is carried along.
    Unreadable(String),
}

/// Event types that can be detected by the file watcher.
#[derive(Debug, Clone, PartialEq, Eq)]
pub enum WatchEvent {
    /// File was created.
    Created(String),
    /// File was modified.
    Modified(String),
    /// File was deleted.
    Deleted(String),
    /// Error occurred while watching.
    Error(String),
}

/// The mathematical form of a watch event, over character sequences.
pub enum EventV {
    Created(Seq<char>),
    Modified(Seq<char>),
    Deleted(Seq<char>),
    Error(Seq<char>),
}

impl View for WatchEvent {
    type V = EventV;

    open spec fn view(&self) -> EventV {
        match self {
            WatchEvent::Created(p) => EventV::Created(p@),
            WatchEvent::Modified(p) => EventV::Modified(p@),
            WatchEvent::Deleted(p) => EventV::Deleted(p@),
            WatchEvent::Error(m) => EventV::Error(m@),
        }
    }
}

/// The views of a sequence of events.
pub open spec fn event_views(s: Seq<WatchEvent>) -> Seq<EventV> {
    s.map_values(|e: WatchEvent| e@)
}

/// The event one readable poll emits, comparing the previous snapshot with
/// the current one: absent to present is a creation, present to absent a
/// deletion, present to present with different metadata a modification,
/// and anything else is silent.
pub open spec fn spec_classify(
    path: Seq<char>,
    prev: Option<FileMeta>,
    curr: Option<FileMeta>,
) -> Option<EventV> {
    match (prev, curr) {
        (None, Some(_)) => Some(EventV::Created(path)),
        (Some(_), None) => Some(EventV::Deleted(path)),
        (Some(p), Some(c)) => if p != c {
            Some(EventV::Modified(path))
        } else {
            None
        },
        (None, None) => None,
    }
}

/// What one poll does to the watcher: the event emitted, and the snapshot
/// kept for the next poll. An unreadable poll surfaces the error to the
/// consumer and keeps the previous snapshot; it does not stop the poller.
pub open spec fn spec_step(path: Seq<char>, prev: Option<FileMeta>, st: FileStatus) -> (Option<
    EventV,
>, Option<FileMeta>) {
    match st {
        FileStatus::Present(m) => (spec_classify(path, prev, Some(m)), Some(m)),
        FileStatus::Absent => (spec_classify(path, prev, None), None),
        FileStatus::Unreadable(msg) => (Some(EventV::Error(msg@)), prev),
    }
}

/// The snapshot a watcher starts from: the initial read of the path, with
/// an unreadable read counting as absent.
pub open spec fn spec_initial_snapshot(st: FileStatus) -> Option<FileMeta> {
    match st {
        FileStatus::Present(m) => Some(m),
        FileStatus::Absent => None,
        FileStatus::Unreadable(_) => None,
    }
}

/// The events a sequence of polls emits, in order, from a given starting
/// snapshot.
pub open spec fn spec_poll_events(
    path: Seq<char>,
    prev: Option<FileMeta>,
    polls: Seq<FileStatus>,
) -> Seq<EventV>
    decreases polls.len(),
{
    if polls.len() == 0 {
        Seq::empty()
    } else {
        let stepped = spec_step(path, prev, polls[0]);
        let rest = spec_poll_events(path, stepped.1, polls.drop_first());
        match stepped.0 {
            Some(e) => seq![e] + rest,
            None => rest,
        }
    }
}

/// File watcher that monitors a single file for changes. The caller's
/// poll loop hands each metadata read to `observe` until `stop`; a
/// stopped watcher is not restartable, and watching again takes a new one.
pub struct FileWatcher {
    /// Path being watched.
    path: String,
    /// Last known snapshot, or `None` while the file is absent.
    last: Option<FileMeta>,
    /// Whether the watcher still classifies polls.
    running: bool,
}

impl FileWatcher {
    /// The path being watched.
    pub closed spec fn spec_path(&self) -> Seq<char> {
        self.path@
    }

    /// The snapshot kept from the previous poll.
    pub closed spec fn last_snapshot(&self) -> Option<FileMeta> {
        self.last
    }

    /// Whether the watcher still classifies polls.
    pub closed spec fn is_running(&self) -> bool {
        self.running
    }

    /// Create a new watcher for the file at `path`, starting from the
    /// metadata read at construction time.
    pub fn new(path: String, initial: &FileStatus) -> (r: Self)
        ensures
            r.spec_path() == path@,
            r.is_running(),
            r.last_snapshot() == spec_initial_snapshot(*initial),
    {
        let last = match initial {
            FileStatus::Present(m) => Some(*m),
            FileStatus::Absent => None,
            FileStatus::Unreadable(_) => None,
        };
        FileWatcher { path, last, running: true }
    }

    /// The path being watched.
    pub fn path(&self) -> (r: &String)
        ensures
            r@ == self.spec_path(),
    {
        &self.path
    }

    /// One poll tick: classify the current read against the previous
    /// snapshot, emit at most one event, and keep the new snapshot.
    pub fn observe(&mut self, curr: &FileStatus) -> (r: Option<WatchEvent>)
        requires
            old(self).is_running(),
        ensures
            final(self).spec_path() == old(self).spec_path(),
            final(self).is_running(),
            final(self).last_snapshot() == spec_step(
                old(self).spec_path(),
                old(self).last_snapshot(),
                *curr,
            ).1,
            match r {
                Some(e) => Some(e@) == spec_step(
                    old(self).spec_path(),
                    old(self).last_snapshot(),
                    *curr,
                ).0,
                None => spec_step(old(self).spec_path(), old(self).last_snapshot(), *curr).0
                    is None,
            },
    {
        match curr {
            FileStatus::Present(m) => {
                let prev = self.last;
                self.last = Some(*m);
                match prev {
                    None => Some(WatchEvent::Created(self.path.clone())),
                    Some(p) => {
                        if p.modified_secs != m.modified_secs || p.modified_nanos
                            != m.modified_nanos || p.size != m.size {
                            Some(WatchEvent::Modified(self.path.clone()))
                        } else {
                            None
                        }
                    },
                }
            },
            FileStatus::Absent => {
                let prev = self.last;
                self.last = None;
                match prev {
                    Some(_) => Some(WatchEvent::Deleted(self.path.clone())),
                    None => None,
                }
            },
            FileStatus::Unreadable(msg) => Some(WatchEvent::Error(msg.clone())),
        }
    }

    /// Signal the watcher to stop: no further poll is classified. The
    /// caller's poll loop observes the signal and exits; waiting for that
    /// exit is the caller's part.
    pub fn stop(&mut self)
        ensures
            !final(self).is_running(),
            final(self).spec_path() == old(self).spec_path(),
            final(self).last_snapshot() == old(self).last_snapshot(),
    {
        self.running = false;
    }
}

/// Watch a file over a whole sequence of polls: construct a watcher from
/// the initial read and classify every poll in order, collecting every
/// emitted event. Each transition of the path emits exactly one event, and
/// a poll at which nothing changed emits none.
pub fn watch_file(path: String, initial: &FileStatus, polls: &Vec<FileStatus>) -> (r: Vec<
    WatchEvent,
>)
    ensures
        event_views(r@) == spec_poll_events(path@, spec_initial_snapshot(*initial), polls@),
{
    let ghost p: Seq<char> = path@;
    let ghost start: Option<FileMeta> = spec_initial_snapshot(*initial);
    let mut w = FileWatcher::new(path, initial);
    let mut events: Vec<WatchEvent> = Vec::new();
    let mut i: usize = 0;
    proof {
        assert(polls@.skip(0) =~= polls@);
        assert(event_views(events@) =~= Seq::<EventV>::empty());
        assert(Seq::<EventV>::empty() + spec_poll_events(p, start, polls@) =~= spec_poll_events(
            p,
            start,
            polls@,
        ));
    }
    while i < polls.len()
        invariant
            i <= polls@.len(),
            w.is_running(),
            w.spec_path() == p,
            event_views(events@) + spec_poll_events(p, w.last_snapshot(), polls@.skip(i as int))
                =~= spec_poll_events(p, start, polls@),
        decreases polls@.len() - i,
    {
        proof {
            assert(polls@.skip(i as int).drop_first() =~= polls@.skip(i + 1 as int));
            assert(polls@.skip(i as int)[0] == polls@[i as int]);
        }
        let ghost snap: Option<FileMeta> = w.last_snapshot();
        let ghost before: Seq<EventV> = event_views(events@);
        match w.observe(&polls[i]) {
            Some(e) => {
                let ghost ev: EventV = e@;
                events.push(e);
                proof {
                    assert(event_views(events@) =~= before.push(ev));
                    assert(before.push(ev) =~= before + seq![ev]);
                    assert(before + (seq![ev] + spec_poll_events(
                        p,
                        w.last_snapshot(),
                        polls@.skip(i + 1 as int),
                    )) =~= (before + seq![ev]) + spec_poll_events(
                        p,
                        w.last_snapshot(),
                        polls@.skip(i + 1 as int),
                    ));
                }
            },
            None => {},
        }
        i = i + 1;
    }
    proof {
        assert(polls@.skip(polls@.len() as int) =~= Seq::<FileStatus>::empty());
    }
    events
}

/// Law: a poll at which nothing changed is silent. Whatever the previous
/// snapshot, a readable poll that finds the same state emits no event.
pub proof fn lemma_unchanged_poll_silent(path: Seq<char>, prev: Option<FileMeta>)
    ensures
        spec_classify(path, prev, prev) is None,
{
}

} // verus!
