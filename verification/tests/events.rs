use cloudreve_sync_core::events::{
    group_fs_events, listen, process_fs_events, reconcile_while_listening, scheduled_sync, start,
    AccessKind, CreateKind, EventKind, Listener, Signal, StartError, Wake,
};
use cloudreve_sync_core::path::{LocalPath, PathError};
use cloudreve_sync_core::sync::SyncMode;

#[test]
fn events_are_grouped_by_kind_in_their_order() {
    let file = EventKind::Create(CreateKind::File);
    let folder = EventKind::Create(CreateKind::Folder);
    let grouped = group_fs_events(vec![(file, 1), (folder, 2), (file, 3)]);
    assert_eq!(
        grouped.groups,
        vec![(file, vec![1, 3]), (folder, vec![2])]
    );
    assert_eq!(
        process_fs_events(&grouped),
        Some(SyncMode::FullHierarchy)
    );
}

#[test]
fn accesses_set_nothing_off() {
    let read = EventKind::Access(AccessKind::Read);
    let any = EventKind::Access(AccessKind::Any);
    assert_eq!(process_fs_events(&group_fs_events(vec![(read, 1), (any, 2)])), None);
    let none: Vec<(EventKind, u8)> = Vec::new();
    assert_eq!(process_fs_events(&group_fs_events(none)), None);
    assert_eq!(
        process_fs_events(&group_fs_events(vec![(read, 1), (EventKind::Other, 2)])),
        Some(SyncMode::FullHierarchy)
    );
}

#[test]
fn the_listener_reconnects_after_a_pause() {
    let (state, duty) = listen(Listener::Connecting, Signal::Connected(false));
    assert_eq!(state, Listener::Pausing);
    assert_eq!((duty.subscribed, duty.schedule, duty.pause), (Some(false), false, Some(30)));
    let (state, _) = listen(state, Signal::Rested);
    let (state, duty) = listen(state, Signal::Connected(true));
    assert_eq!((state, duty.subscribed), (Listener::Listening, Some(true)));
    for signal in [Signal::Changed, Signal::Subscribed, Signal::Resumed] {
        let (next, duty) = listen(state, signal);
        assert_eq!((next, duty.schedule, duty.pause), (state, true, None));
        assert!(!listen(Listener::Connecting, signal).1.schedule);
    }
    let (state, duty) = listen(state, Signal::KeepAlive);
    assert_eq!((state, duty.schedule, duty.subscribed), (Listener::Listening, false, None));
    let (state, duty) = listen(state, Signal::Ended);
    assert_eq!((state, duty.subscribed), (Listener::Pausing, Some(false)));
}

#[test]
fn the_clock_asks_for_everything_below_the_root() {
    assert_eq!(reconcile_while_listening(Wake::Tick), Some(true));
    assert_eq!(reconcile_while_listening(Wake::ListenerEnded), None);
    let root = LocalPath {
        components: vec!["/".to_string(), "r".to_string()],
    };
    assert_eq!(scheduled_sync(false, &root), None);
    let request = scheduled_sync(true, &root).unwrap();
    assert_eq!(request.local_paths, vec![root]);
    assert_eq!(request.mode, SyncMode::FullHierarchy);
    assert!(!request.user_initiated);
}

#[test]
fn mounts_start_with_an_existing_folder() {
    assert_eq!(start(Ok(()), true, true), Ok(true));
    assert_eq!(start(Ok(()), true, false), Ok(false));
    assert_eq!(
        start(Ok(()), false, true).unwrap_err().message(),
        "Choose an existing local sync folder"
    );
    assert_eq!(
        start(Err(PathError::RootNotAbsolute), true, true),
        Err(StartError::Path(PathError::RootNotAbsolute))
    );
}
