//! What sets a reconciliation off: changes of the local file system, events of the server, and the
//! clock.
use crate::path::{check_view, LocalPath, path_error_text, PathError};
use crate::sync::SyncMode;
use vstd::prelude::*;

verus! {

/// How a file was opened or closed.
#[derive(Debug, Clone, Copy, PartialEq, Eq, Structural)]
pub enum AccessMode {
    Any,
    Execute,
    Read,
    Write,
    Other,
}

/// How a file was accessed.
#[derive(Debug, Clone, Copy, PartialEq, Eq, Structural)]
pub enum AccessKind {
    Any,
    Read,
    Open(AccessMode),
    Close(AccessMode),
    Other,
}

/// What was created.
#[derive(Debug, Clone, Copy, PartialEq, Eq, Structural)]
pub enum CreateKind {
    Any,
    File,
    Folder,
    Other,
}

/// How content changed.
#[derive(Debug, Clone, Copy, PartialEq, Eq, Structural)]
pub enum DataChange {
    Any,
    Size,
    Content,
    Other,
}

/// Which property changed.
#[derive(Debug, Clone, Copy, PartialEq, Eq, Structural)]
pub enum MetadataKind {
    Any,
    AccessTime,
    WriteTime,
    Permissions,
    Ownership,
    Extended,
    Other,
}

/// Which side of a renaming was seen.
#[derive(Debug, Clone, Copy, PartialEq, Eq, Structural)]
pub enum RenameMode {
    Any,
    To,
    From,
    Both,
    Other,
}

/// What was modified.
#[derive(Debug, Clone, Copy, PartialEq, Eq, Structural)]
pub enum ModifyKind {
    Any,
    Data(DataChange),
    Metadata(MetadataKind),
    Name(RenameMode),
    Other,
}

/// What was removed.
#[derive(Debug, Clone, Copy, PartialEq, Eq, Structural)]
pub enum RemoveKind {
    Any,
    File,
    Folder,
    Other,
}

/// The kind of an event of the file system, as the watcher tells it.
#[derive(Debug, Clone, Copy, PartialEq, Eq, Structural)]
pub enum EventKind {
    Any,
    Access(AccessKind),
    Create(CreateKind),
    Modify(ModifyKind),
    Remove(RemoveKind),
    Other,
}

/// Events of the file system by their kinds.
#[derive(Debug)]
pub struct GroupedFsEvents<E> {
    pub groups: Vec<(EventKind, Vec<E>)>,
}

/// The events of one kind, in their order.
pub open spec fn of_kind<E>(events: Seq<(EventKind, E)>, kind: EventKind) -> Seq<E>
    decreases events.len(),
{
    if events.len() == 0 {
        seq![]
    } else if events.last().0 == kind {
        of_kind(events.drop_last(), kind).push(events.last().1)
    } else {
        of_kind(events.drop_last(), kind)
    }
}

/// Whether `groups` holds `events` by their kinds: every kind that occurs once, with its events in
/// their order.
pub open spec fn is_grouping<E>(groups: Seq<(EventKind, Vec<E>)>, events: Seq<(EventKind, E)>) -> bool {
    &&& forall|i: int, j: int|
        0 <= i < j < groups.len() ==> (#[trigger] groups[i]).0 != (#[trigger] groups[j]).0
    &&& forall|i: int|
        0 <= i < groups.len() ==> (#[trigger] groups[i]).1@ == of_kind(events, groups[i].0)
            && groups[i].1@.len() > 0
    &&& forall|k: int| 0 <= k < events.len() ==> has_group(groups, (#[trigger] events[k]).0)
}

/// Whether there is a group of this kind.
pub open spec fn has_group<E>(groups: Seq<(EventKind, Vec<E>)>, kind: EventKind) -> bool {
    exists|i: int| 0 <= i < groups.len() && (#[trigger] groups[i]).0 == kind
}

proof fn lemma_no_kind<E>(events: Seq<(EventKind, E)>, kind: EventKind)
    requires
        forall|k: int| 0 <= k < events.len() ==> (#[trigger] events[k]).0 != kind,
    ensures
        of_kind(events, kind).len() == 0,
    decreases events.len(),
{
    if events.len() > 0 {
        assert(events[events.len() - 1].0 != kind);
        let front = events.drop_last();
        assert forall|k: int| 0 <= k < front.len() implies (#[trigger] front[k]).0 != kind by {
            assert(front[k] == events[k]);
        }
        lemma_no_kind(front, kind);
    }
}

fn group_of<E>(groups: &Vec<(EventKind, Vec<E>)>, kind: EventKind) -> (at: Option<usize>)
    ensures
        match at {
            Some(at) => at < groups.len() && groups[at as int].0 == kind,
            None => !has_group(groups@, kind),
        },
{
    let mut i: usize = 0;
    while i < groups.len()
        invariant
            i <= groups.len(),
            forall|j: int| 0 <= j < i ==> (#[trigger] groups[j]).0 != kind,
        decreases groups.len() - i,
    {
        if groups[i].0 == kind {
            return Some(i);
        }
        i += 1;
    }
    None
}

/// Groups events of the file system by their kinds.
pub fn group_fs_events<E>(events: Vec<(EventKind, E)>) -> (grouped: GroupedFsEvents<E>)
    ensures
        is_grouping(grouped.groups@, events@),
{
    let ghost all = events@;
    let mut left = events;
    let mut groups: Vec<(EventKind, Vec<E>)> = Vec::new();
    let ghost mut n: int = 0;
    assert(all.skip(0) =~= all);
    assert(all.take(0) =~= seq![]);
    while left.len() > 0
        invariant
            0 <= n <= all.len(),
            left@ == all.skip(n),
            is_grouping(groups@, all.take(n)),
        decreases left.len(),
    {
        let (kind, event) = left.remove(0);
        let ghost before = groups@;
        let ghost seen = all.take(n);
        let ghost more = all.take(n + 1);
        proof {
            assert(all[n] == (kind, event));
            assert(more.drop_last() =~= seen);
            assert(more.last() == (kind, event));
            assert(all.skip(n).remove(0) =~= all.skip(n + 1));
            assert forall|k: EventKind| k != kind implies #[trigger] of_kind(more, k) == of_kind(
                seen,
                k,
            ) by {}
        }
        match group_of(&groups, kind) {
            Some(at) => {
                let (_, mut list) = groups.remove(at);
                let ghost earlier = list@;
                list.push(event);
                groups.insert(at, (kind, list));
                proof {
                    assert(earlier == of_kind(seen, kind));
                    assert(groups@.len() == before.len());
                    assert forall|i: int| 0 <= i < groups.len() implies (#[trigger] groups[i]).0
                        == before[i].0 && (i != at ==> groups[i] == before[i]) by {}
                    assert forall|i: int| 0 <= i < groups.len() implies (#[trigger] groups[i]).1@
                        == of_kind(more, groups[i].0) && groups[i].1@.len() > 0 by {
                        if i != at {
                            assert(before[i].0 != before[at as int].0);
                        }
                    }
                    assert forall|k: int| 0 <= k < more.len() implies has_group(
                        groups@,
                        (#[trigger] more[k]).0,
                    ) by {
                        if k < n {
                            assert(seen[k] == more[k]);
                            let i = choose|i: int|
                                0 <= i < before.len() && (#[trigger] before[i]).0 == seen[k].0;
                            assert(groups[i].0 == before[i].0);
                        } else {
                            assert(groups[at as int].0 == kind);
                        }
                    }
                }
            },
            None => {
                let mut list: Vec<E> = Vec::new();
                list.push(event);
                groups.push((kind, list));
                proof {
                    assert forall|k: int| 0 <= k < seen.len() implies (#[trigger] seen[k]).0
                        != kind by {
                        assert(has_group(before, seen[k].0));
                    }
                    lemma_no_kind(seen, kind);
                    assert(list@ =~= of_kind(more, kind));
                    assert forall|i: int| 0 <= i < before.len() implies #[trigger] groups[i]
                        == before[i] by {}
                    assert forall|i: int| 0 <= i < groups.len() implies (#[trigger] groups[i]).1@
                        == of_kind(more, groups[i].0) && groups[i].1@.len() > 0 by {
                        if i < before.len() {
                            assert(groups[i] == before[i]);
                            assert(before[i].0 != kind);
                        }
                    }
                    assert forall|i: int, j: int| 0 <= i < j < groups.len() implies (
                    #[trigger] groups[i]).0 != (#[trigger] groups[j]).0 by {
                        assert(groups[i] == before[i]);
                        if j < before.len() {
                            assert(groups[j] == before[j]);
                        } else {
                            assert(before[i].0 != kind);
                        }
                    }
                    assert forall|k: int| 0 <= k < more.len() implies has_group(
                        groups@,
                        (#[trigger] more[k]).0,
                    ) by {
                        if k < n {
                            assert(seen[k] == more[k]);
                            let i = choose|i: int|
                                0 <= i < before.len() && (#[trigger] before[i]).0 == seen[k].0;
                            assert(groups[i] == before[i]);
                        } else {
                            assert(groups[before.len() as int].0 == kind);
                        }
                    }
                }
            },
        }
        proof {
            n = n + 1;
        }
    }
    assert(all.take(n) =~= all);
    GroupedFsEvents { groups }
}

/// Whether all events of a batch only accessed files.
pub open spec fn only_accesses<E>(groups: Seq<(EventKind, Vec<E>)>) -> bool {
    forall|i: int| 0 <= i < groups.len() ==> (#[trigger] groups[i]).0 is Access
}

/// What a batch of events of the file system sets off: nothing where files were only accessed, and
/// otherwise a complete reconciliation.
pub fn process_fs_events<E>(events: &GroupedFsEvents<E>) -> (mode: Option<SyncMode>)
    ensures
        mode == (if only_accesses(events.groups@) {
            None::<SyncMode>
        } else {
            Some(SyncMode::FullHierarchy)
        }),
{
    let mut i: usize = 0;
    while i < events.groups.len()
        invariant
            i <= events.groups.len(),
            forall|j: int| 0 <= j < i ==> (#[trigger] events.groups[j]).0 is Access,
        decreases events.groups.len() - i,
    {
        match events.groups[i].0 {
            EventKind::Access(_) => {},
            _ => {
                assert(!(events.groups@[i as int].0 is Access));
                return Some(SyncMode::FullHierarchy);
            },
        }
        i += 1;
    }
    None
}

/// No change goes unnoticed: a batch with any event but an access sets a complete reconciliation
/// off, however it is grouped.
pub proof fn lemma_every_change_is_noticed<E>(
    groups: Seq<(EventKind, Vec<E>)>,
    events: Seq<(EventKind, E)>,
)
    requires
        is_grouping(groups, events),
    ensures
        only_accesses(groups) <==> forall|k: int|
            0 <= k < events.len() ==> (#[trigger] events[k]).0 is Access,
{
    if only_accesses(groups) {
        assert forall|k: int| 0 <= k < events.len() implies (#[trigger] events[k]).0 is Access by {
            assert(has_group(groups, events[k].0));
        }
    }
    if forall|k: int| 0 <= k < events.len() ==> (#[trigger] events[k]).0 is Access {
        assert forall|i: int| 0 <= i < groups.len() implies (#[trigger] groups[i]).0 is Access by {
            if !(groups[i].0 is Access) {
                lemma_no_kind(events, groups[i].0);
            }
        }
    }
}

/// How long the listener waits before it connects again, and how often a reconciliation is due in
/// any case, in seconds.
pub const PERIOD: u64 = 30;

/// What the listener for events of the server is doing.
#[derive(Debug, Clone, Copy, PartialEq, Eq, Structural)]
pub enum Listener {
    /// It subscribes to the events.
    Connecting,
    /// It waits for the next event.
    Listening,
    /// It waits before it connects again.
    Pausing,
}

/// What the listener is told.
#[derive(Debug, Clone, Copy, PartialEq, Eq, Structural)]
pub enum Signal {
    /// The server took the subscription, or did not.
    Connected(bool),
    /// Something changed.
    Changed,
    /// The server says that the subscription begins.
    Subscribed,
    /// The server says that the subscription goes on.
    Resumed,
    /// The connection is alive.
    KeepAlive,
    /// The events ended or failed.
    Ended,
    /// The pause is over.
    Rested,
}

/// What the listener has done.
#[derive(Debug, Clone, Copy, PartialEq, Eq, Structural)]
pub struct Duty {
    /// Whether the mount counts as subscribed from now on, where that changes.
    pub subscribed: Option<bool>,
    /// Whether a complete reconciliation is asked for.
    pub schedule: bool,
    /// How long to pause, in seconds.
    pub pause: Option<u64>,
}

/// Nothing is to be done.
pub open spec fn no_duty() -> Duty {
    Duty { subscribed: None, schedule: false, pause: None }
}

/// How the listener goes on, and what it has done.
pub open spec fn listened(listener: Listener, signal: Signal) -> (Listener, Duty) {
    let lost = (
        Listener::Pausing,
        Duty { subscribed: Some(false), schedule: false, pause: Some(PERIOD) },
    );
    match (listener, signal) {
        (Listener::Connecting, Signal::Connected(true)) => (
            Listener::Listening,
            Duty { subscribed: Some(true), ..no_duty() },
        ),
        (Listener::Connecting, Signal::Connected(false)) => lost,
        (Listener::Listening, Signal::Changed | Signal::Subscribed | Signal::Resumed) => (
            Listener::Listening,
            Duty { schedule: true, ..no_duty() },
        ),
        (Listener::Listening, Signal::Ended) => lost,
        (Listener::Pausing, Signal::Rested) => (Listener::Connecting, no_duty()),
        _ => (listener, no_duty()),
    }
}

/// How the listener goes on, and what it has done.
pub fn listen(listener: Listener, signal: Signal) -> (next: (Listener, Duty))
    ensures
        next == listened(listener, signal),
{
    let idle = Duty { subscribed: None, schedule: false, pause: None };
    let lost = Duty { subscribed: Some(false), schedule: false, pause: Some(PERIOD) };
    match (listener, signal) {
        (Listener::Connecting, Signal::Connected(true)) => (
            Listener::Listening,
            Duty { subscribed: Some(true), schedule: false, pause: None },
        ),
        (Listener::Connecting, Signal::Connected(false)) => (Listener::Pausing, lost),
        (Listener::Listening, Signal::Changed | Signal::Subscribed | Signal::Resumed) => (
            Listener::Listening,
            Duty { subscribed: None, schedule: true, pause: None },
        ),
        (Listener::Listening, Signal::Ended) => (Listener::Pausing, lost),
        (Listener::Pausing, Signal::Rested) => (Listener::Connecting, idle),
        _ => (listener, idle),
    }
}

/// The mount counts as subscribed exactly while the listener waits for events.
pub proof fn lemma_subscribed_while_listening(listener: Listener, signal: Signal, subscribed: bool)
    requires
        subscribed == (listener == Listener::Listening),
    ensures
        ({
            let (next, duty) = listened(listener, signal);
            (match duty.subscribed {
                Some(changed) => changed,
                None => subscribed,
            }) == (next == Listener::Listening)
        }),
{
}

/// While the listener waits for events, an event, a subscription and a resumption each ask for one
/// complete reconciliation, and nothing else does; a connection that is lost or refused is tried
/// again after a pause.
pub proof fn lemma_every_event_is_scheduled(listener: Listener, signal: Signal)
    ensures
        listened(listener, signal).1.schedule <==> listener == Listener::Listening && (signal
            == Signal::Changed || signal == Signal::Subscribed || signal == Signal::Resumed),
        listener == Listener::Listening && signal == Signal::Ended || listener
            == Listener::Connecting && signal == Signal::Connected(false) ==> listened(
            listener,
            signal,
        ).0 == Listener::Pausing && listened(listener, signal).1.pause == Some(PERIOD),
        listened(Listener::Pausing, Signal::Rested).0 == Listener::Connecting,
{
}

/// What wakes the mount up beside its commands.
#[derive(Debug, Clone, Copy, PartialEq, Eq, Structural)]
pub enum Wake {
    /// The clock, once in every period, whatever the listener does.
    Tick,
    /// The listener came to its end.
    ListenerEnded,
}

/// Whether a complete reconciliation is asked for; none where the mount stops listening.
pub fn reconcile_while_listening(wake: Wake) -> (schedule: Option<bool>)
    ensures
        schedule == (match wake {
            Wake::Tick => Some(true),
            Wake::ListenerEnded => None,
        }),
{
    match wake {
        Wake::Tick => Some(true),
        Wake::ListenerEnded => None,
    }
}

/// A request to synchronize.
#[derive(Debug, Clone, PartialEq, Eq)]
pub struct SyncRequest {
    pub local_paths: Vec<LocalPath>,
    pub mode: SyncMode,
    pub user_initiated: bool,
}

/// The request that the clock and the server set off: all of the tree below the root. A drive that
/// is disabled is neither listened to nor synchronized.
pub fn scheduled_sync(enabled: bool, root: &LocalPath) -> (request: Option<SyncRequest>)
    ensures
        request is Some <==> enabled,
        request matches Some(request) ==> request.local_paths.len() == 1
            && request.local_paths[0]@ == root@ && request.mode == SyncMode::FullHierarchy
            && !request.user_initiated,
{
    if !enabled {
        return None;
    }
    let mut local_paths: Vec<LocalPath> = Vec::new();
    local_paths.push(root.duplicate());
    Some(SyncRequest { local_paths, mode: SyncMode::FullHierarchy, user_initiated: false })
}

/// Why a mount does not start.
#[derive(Debug, Clone, PartialEq, Eq)]
pub enum StartError {
    /// The path of the sync folder is refused.
    Path(PathError),
    /// There is no such folder.
    NoFolder,
}

/// Checks the sync folder of a mount, and tells whether it is to be watched.
pub fn start(checked: Result<(), PathError>, is_dir: bool, enabled: bool) -> (outcome: Result<
    bool,
    StartError,
>)
    ensures
        match outcome {
            Ok(watched) => checked is Ok && is_dir && watched == enabled,
            Err(StartError::Path(error)) => check_view(checked) == Some(error@),
            Err(StartError::NoFolder) => checked is Ok && !is_dir,
        },
{
    match checked {
        Ok(()) => if is_dir {
            Ok(enabled)
        } else {
            Err(StartError::NoFolder)
        },
        Err(error) => Err(StartError::Path(error)),
    }
}

impl StartError {
    /// The text that tells of the error.
    pub fn message(&self) -> (text: String)
        ensures
            text@ == (match *self {
                StartError::Path(error) => path_error_text(error@),
                StartError::NoFolder => "Choose an existing local sync folder"@,
            }),
    {
        match self {
            StartError::Path(error) => error.message(),
            StartError::NoFolder => "Choose an existing local sync folder".to_owned(),
        }
    }
}

/// Grouping loses no event and makes none up: the events of a kind in two batches are those of the one
/// and then those of the other, and a single event is of its own kind alone.
pub proof fn lemma_kinds_of_batches<E>(
    a: Seq<(EventKind, E)>,
    b: Seq<(EventKind, E)>,
    event: (EventKind, E),
    kind: EventKind,
)
    ensures
        of_kind(a + b, kind) == of_kind(a, kind) + of_kind(b, kind),
        of_kind(seq![event], kind) == if event.0 == kind {
            seq![event.1]
        } else {
            seq![]
        },
    decreases b.len(),
{
    reveal_with_fuel(of_kind, 2);
    assert(seq![event].drop_last() =~= Seq::<(EventKind, E)>::empty());
    assert(Seq::<E>::empty().push(event.1) =~= seq![event.1]);
    if b.len() == 0 {
        assert(a + b =~= a);
        assert(of_kind(a, kind) + of_kind(b, kind) =~= of_kind(a, kind));
    } else {
        lemma_kinds_of_batches(a, b.drop_last(), event, kind);
        assert((a + b).drop_last() =~= a + b.drop_last());
        assert((a + b).last() == b.last());
        let shorter = of_kind(b.drop_last(), kind);
        assert((of_kind(a, kind) + shorter).push(b.last().1) =~= of_kind(a, kind) + shorter.push(
            b.last().1,
        ));
    }
}

/// The listener goes round: it listens once it is connected, pauses for half a minute when the
/// connection is refused or lost, connects again after that, and stays as it is, doing nothing, on
/// every signal that is not for it.
pub proof fn lemma_listener_goes_round(listener: Listener, signal: Signal)
    ensures
        listened(Listener::Connecting, Signal::Connected(true)) == (
            Listener::Listening,
            Duty { subscribed: Some(true), schedule: false, pause: None },
        ),
        listener == Listener::Connecting && signal == Signal::Connected(false) || listener
            == Listener::Listening && signal == Signal::Ended <==> listened(listener, signal).1.pause
            == Some(30u64),
        listened(listener, signal).1.pause is Some ==> listened(listener, signal) == (
            Listener::Pausing,
            Duty { subscribed: Some(false), schedule: false, pause: Some(30u64) },
        ),
        listened(Listener::Pausing, Signal::Rested) == (
            Listener::Connecting,
            Duty { subscribed: None, schedule: false, pause: None },
        ),
        listened(listener, signal).0 != listener ==> {
            ||| listener == Listener::Connecting && signal is Connected
            ||| listener == Listener::Listening && signal == Signal::Ended
            ||| listener == Listener::Pausing && signal == Signal::Rested
        },
        listened(listener, signal).1.subscribed is Some ==> listened(listener, signal).0 != listener,
{
}

/// A batch of events sets nothing off exactly where all that happened are accesses; any other event,
/// at whatever place, sets a complete reconciliation off.
pub proof fn lemma_changes_set_off<E>(events: &GroupedFsEvents<E>, mode: Option<SyncMode>, i: int)
    requires
        call_ensures(process_fs_events::<E>, (events,), mode),
    ensures
        0 <= i < events.groups@.len() && !(events.groups@[i].0 is Access) ==> mode == Some(
            SyncMode::FullHierarchy,
        ),
        mode is Some ==> exists|k: int|
            0 <= k < events.groups@.len() && !((#[trigger] events.groups@[k]).0 is Access),
{
}

/// The clock asks for a reconciliation with every tick, whatever the listener does, and what it asks
/// for is all of the tree; a mount that is disabled asks for nothing, and one without a folder does not
/// start.
pub proof fn lemma_mounts_synchronize_all(
    schedule: Option<bool>,
    enabled: bool,
    root: &LocalPath,
    request: Option<SyncRequest>,
    checked: Result<(), PathError>,
    is_dir: bool,
    outcome: Result<bool, StartError>,
)
    requires
        call_ensures(reconcile_while_listening, (Wake::Tick,), schedule),
        call_ensures(scheduled_sync, (enabled, root), request),
        call_ensures(start, (checked, is_dir, enabled), outcome),
    ensures
        schedule == Some(true),
        request is Some <==> enabled,
        request matches Some(request) ==> request.mode == SyncMode::FullHierarchy
            && request.local_paths@.len() == 1 && request.local_paths@[0]@ == root@,
        outcome is Ok <==> checked is Ok && is_dir,
        outcome matches Ok(watched) ==> watched == enabled,
{
}

} // verus!
