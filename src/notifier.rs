use vstd::prelude::*;

verus! {

/// Seconds without a new file before a generation stream ends.
pub const IDLE_TIMEOUT_SECS: u64 = 10;

/// Where a progress stream stands.
#[derive(PartialEq, Eq, Structural, Clone, Copy, Debug)]
pub enum StreamState {
    /// Waiting to learn whether the file has a cached record.
    Checking,
    /// Generation runs in the background; creations in the output directory are reported.
    Generating,
    /// The artifacts exist; the output directory is walked once.
    Snapshot,
    /// Nothing more is sent.
    Closed,
}

/// What the surroundings report to a progress stream.
pub enum StreamEvent {
    /// Whether a cached record exists for the requested file.
    Looked { cached: bool },
    /// The watcher saw a change under the output directory; `created` when a
    /// file was created.
    Watched { created: bool, path: String },
    /// No change came within the idle bound.
    IdleTimeout,
    /// The watch channel closed, or the watch could not be set up.
    WatchEnded,
    /// The walk reached an entry.
    Walked { is_file: bool, path: String },
    /// The walk is exhausted, or it failed.
    WalkEnded,
}

/// What a progress stream asks the surroundings to do.
pub enum StreamAction {
    /// Start generation as a detached task and watch the output directory.
    StartGenerationAndWatch,
    /// Start walking the output directory.
    StartWalk,
    /// Send the file at this path to the client.
    Emit(String),
    /// Nothing to do for this event.
    Skip,
    /// Release the watch and end the stream.
    UnwatchAndClose,
    /// End the stream.
    Close,
}

/// The progress stream's transition. The cache lookup picks generation or
/// snapshot; a generation stream reports each created file until it goes idle
/// or its channel ends; a snapshot stream reports each file walked until the
/// walk ends. Events that do not fit the current state change nothing.
pub open spec fn next_stream(state: StreamState, event: StreamEvent) -> (StreamState, StreamAction) {
    match (state, event) {
        (StreamState::Checking, StreamEvent::Looked { cached }) => if cached {
            (StreamState::Snapshot, StreamAction::StartWalk)
        } else {
            (StreamState::Generating, StreamAction::StartGenerationAndWatch)
        },
        (StreamState::Generating, StreamEvent::Watched { created, path }) => if created {
            (StreamState::Generating, StreamAction::Emit(path))
        } else {
            (StreamState::Generating, StreamAction::Skip)
        },
        (StreamState::Generating, StreamEvent::IdleTimeout) => (
            StreamState::Closed,
            StreamAction::UnwatchAndClose,
        ),
        (StreamState::Generating, StreamEvent::WatchEnded) => (
            StreamState::Closed,
            StreamAction::UnwatchAndClose,
        ),
        (StreamState::Snapshot, StreamEvent::Walked { is_file, path }) => if is_file {
            (StreamState::Snapshot, StreamAction::Emit(path))
        } else {
            (StreamState::Snapshot, StreamAction::Skip)
        },
        (StreamState::Snapshot, StreamEvent::WalkEnded) => (StreamState::Closed, StreamAction::Close),
        _ => (state, StreamAction::Skip),
    }
}

/// One step of a progress stream.
pub fn stream_step(state: StreamState, event: StreamEvent) -> (r: (StreamState, StreamAction))
    ensures
        r == next_stream(state, event),
{
    match state {
        StreamState::Checking => match event {
            StreamEvent::Looked { cached } => if cached {
                (StreamState::Snapshot, StreamAction::StartWalk)
            } else {
                (StreamState::Generating, StreamAction::StartGenerationAndWatch)
            },
            _ => (state, StreamAction::Skip),
        },
        StreamState::Generating => match event {
            StreamEvent::Watched { created, path } => if created {
                (StreamState::Generating, StreamAction::Emit(path))
            } else {
                (StreamState::Generating, StreamAction::Skip)
            },
            StreamEvent::IdleTimeout => (StreamState::Closed, StreamAction::UnwatchAndClose),
            StreamEvent::WatchEnded => (StreamState::Closed, StreamAction::UnwatchAndClose),
            _ => (state, StreamAction::Skip),
        },
        StreamState::Snapshot => match event {
            StreamEvent::Walked { is_file, path } => if is_file {
                (StreamState::Snapshot, StreamAction::Emit(path))
            } else {
                (StreamState::Snapshot, StreamAction::Skip)
            },
            StreamEvent::WalkEnded => (StreamState::Closed, StreamAction::Close),
            _ => (state, StreamAction::Skip),
        },
        StreamState::Closed => (state, StreamAction::Skip),
    }
}

/// The state reached and the actions asked for while `events` come in.
pub open spec fn run_stream(state: StreamState, events: Seq<StreamEvent>) -> (StreamState, Seq<
    StreamAction,
>)
    decreases events.len(),
{
    if events.len() == 0 {
        (state, Seq::empty())
    } else {
        let (next, action) = next_stream(state, events[0]);
        let (last, actions) = run_stream(next, events.drop_first());
        (last, seq![action] + actions)
    }
}

/// The paths sent to the client, in order.
pub open spec fn emitted(actions: Seq<StreamAction>) -> Seq<String>
    decreases actions.len(),
{
    if actions.len() == 0 {
        Seq::empty()
    } else {
        match actions[0] {
            StreamAction::Emit(p) => seq![p] + emitted(actions.drop_first()),
            _ => emitted(actions.drop_first()),
        }
    }
}

/// The files among walked entries, in walk order.
pub open spec fn walked_files(events: Seq<StreamEvent>) -> Seq<String>
    decreases events.len(),
{
    if events.len() == 0 {
        Seq::empty()
    } else {
        match events[0] {
            StreamEvent::Walked { is_file, path } => if is_file {
                seq![path] + walked_files(events.drop_first())
            } else {
                walked_files(events.drop_first())
            },
            _ => walked_files(events.drop_first()),
        }
    }
}

/// The files among watched changes that were creations, in arrival order.
pub open spec fn created_files(events: Seq<StreamEvent>) -> Seq<String>
    decreases events.len(),
{
    if events.len() == 0 {
        Seq::empty()
    } else {
        match events[0] {
            StreamEvent::Watched { created, path } => if created {
                seq![path] + created_files(events.drop_first())
            } else {
                created_files(events.drop_first())
            },
            _ => created_files(events.drop_first()),
        }
    }
}

/// A closed stream stays closed and sends nothing, whatever comes in.
pub proof fn lemma_closed_is_final(events: Seq<StreamEvent>)
    ensures
        run_stream(StreamState::Closed, events).0 == StreamState::Closed,
        emitted(run_stream(StreamState::Closed, events).1) == Seq::<String>::empty(),
        run_stream(StreamState::Closed, events).1.len() == events.len(),
    decreases events.len(),
{
    if events.len() > 0 {
        lemma_closed_is_final(events.drop_first());
        let actions = run_stream(StreamState::Closed, events).1;
        assert(actions.drop_first() =~= run_stream(StreamState::Closed, events.drop_first()).1);
    }
}

proof fn lemma_walk(entries: Seq<StreamEvent>)
    requires
        forall|i: int| 0 <= i < entries.len() ==> #[trigger] entries[i] is Walked,
    ensures
        run_stream(StreamState::Snapshot, entries + seq![StreamEvent::WalkEnded]).0
            == StreamState::Closed,
        emitted(run_stream(StreamState::Snapshot, entries + seq![StreamEvent::WalkEnded]).1)
            == walked_files(entries),
        run_stream(StreamState::Snapshot, entries + seq![StreamEvent::WalkEnded]).1.last()
            == StreamAction::Close,
    decreases entries.len(),
{
    let evs = entries + seq![StreamEvent::WalkEnded];
    if entries.len() == 0 {
        assert(evs =~= seq![StreamEvent::WalkEnded]);
        assert(evs.drop_first() =~= Seq::<StreamEvent>::empty());
        assert(run_stream(StreamState::Closed, evs.drop_first()) == (
            StreamState::Closed,
            Seq::<StreamAction>::empty(),
        ));
        let actions = run_stream(StreamState::Snapshot, evs).1;
        assert(actions =~= seq![StreamAction::Close]);
        assert(actions.drop_first() =~= Seq::<StreamAction>::empty());
        assert(emitted(actions) == emitted(actions.drop_first()));
    } else {
        let rest = entries.drop_first();
        let entries_head = entries[0];
        assert(evs.drop_first() =~= rest + seq![StreamEvent::WalkEnded]);
        assert(entries[0] is Walked);
        assert forall|i: int| 0 <= i < rest.len() implies #[trigger] rest[i] is Walked by {
            assert(rest[i] == entries[i + 1]);
        }
        lemma_walk(rest);
        assert(evs[0] == entries_head);
        let (next, action) = next_stream(StreamState::Snapshot, evs[0]);
        assert(next == StreamState::Snapshot);
        let actions = run_stream(StreamState::Snapshot, evs).1;
        let tail = run_stream(next, evs.drop_first()).1;
        assert(run_stream(StreamState::Snapshot, evs).0 == run_stream(next, evs.drop_first()).0);
        assert(actions == seq![action] + tail);
        assert(actions.drop_first() =~= tail);
        assert(actions[0] == action);
        match entries_head {
            StreamEvent::Walked { path, .. } => {
                if action is Emit {
                    assert(emitted(actions) == seq![path] + emitted(tail));
                } else {
                    assert(emitted(actions) == emitted(tail));
                }
            },
            _ => {},
        }
        assert(tail.len() > 0);
        assert(actions.last() == tail.last());
    }
}

/// A stream for a file with a cached record reports each file of the walk, in
/// walk order, then closes.
pub proof fn lemma_snapshot_stream(entries: Seq<StreamEvent>)
    requires
        forall|i: int| 0 <= i < entries.len() ==> #[trigger] entries[i] is Walked,
    ensures
        ({
            let run = run_stream(
                StreamState::Checking,
                seq![StreamEvent::Looked { cached: true }] + entries + seq![StreamEvent::WalkEnded],
            );
            &&& run.0 == StreamState::Closed
            &&& run.1[0] == StreamAction::StartWalk
            &&& run.1.last() == StreamAction::Close
            &&& emitted(run.1) == walked_files(entries)
        }),
{
    let evs = seq![StreamEvent::Looked { cached: true }] + entries + seq![StreamEvent::WalkEnded];
    assert(evs.drop_first() =~= entries + seq![StreamEvent::WalkEnded]);
    lemma_walk(entries);
    let actions = run_stream(StreamState::Checking, evs).1;
    let tail = run_stream(StreamState::Snapshot, evs.drop_first()).1;
    assert(actions == seq![StreamAction::StartWalk] + tail);
    assert(actions.drop_first() =~= tail);
}

proof fn lemma_watch(changes: Seq<StreamEvent>)
    requires
        forall|i: int| 0 <= i < changes.len() ==> #[trigger] changes[i] is Watched,
    ensures
        run_stream(StreamState::Generating, changes + seq![StreamEvent::IdleTimeout]).0
            == StreamState::Closed,
        emitted(run_stream(StreamState::Generating, changes + seq![StreamEvent::IdleTimeout]).1)
            == created_files(changes),
        run_stream(StreamState::Generating, changes + seq![StreamEvent::IdleTimeout]).1.last()
            == StreamAction::UnwatchAndClose,
    decreases changes.len(),
{
    let evs = changes + seq![StreamEvent::IdleTimeout];
    if changes.len() == 0 {
        assert(evs =~= seq![StreamEvent::IdleTimeout]);
        assert(evs.drop_first() =~= Seq::<StreamEvent>::empty());
        assert(run_stream(StreamState::Closed, evs.drop_first()) == (
            StreamState::Closed,
            Seq::<StreamAction>::empty(),
        ));
        let actions = run_stream(StreamState::Generating, evs).1;
        assert(actions =~= seq![StreamAction::UnwatchAndClose]);
        assert(actions.drop_first() =~= Seq::<StreamAction>::empty());
        assert(emitted(actions) == emitted(actions.drop_first()));
    } else {
        let rest = changes.drop_first();
        let entries_head = changes[0];
        assert(evs.drop_first() =~= rest + seq![StreamEvent::IdleTimeout]);
        assert(changes[0] is Watched);
        assert forall|i: int| 0 <= i < rest.len() implies #[trigger] rest[i] is Watched by {
            assert(rest[i] == changes[i + 1]);
        }
        lemma_watch(rest);
        assert(evs[0] == entries_head);
        let (next, action) = next_stream(StreamState::Generating, evs[0]);
        assert(next == StreamState::Generating);
        let actions = run_stream(StreamState::Generating, evs).1;
        let tail = run_stream(next, evs.drop_first()).1;
        assert(run_stream(StreamState::Generating, evs).0 == run_stream(next, evs.drop_first()).0);
        assert(actions == seq![action] + tail);
        assert(actions.drop_first() =~= tail);
        assert(actions[0] == action);
        match entries_head {
            StreamEvent::Watched { path, .. } => {
                if action is Emit {
                    assert(emitted(actions) == seq![path] + emitted(tail));
                } else {
                    assert(emitted(actions) == emitted(tail));
                }
            },
            _ => {},
        }
        assert(tail.len() > 0);
        assert(actions.last() == tail.last());
    }
}

/// A stream for a file without a cached record starts generation and the
/// watch, reports each created file in arrival order, and once the idle bound
/// passes releases the watch and closes.
pub proof fn lemma_generation_stream(changes: Seq<StreamEvent>)
    requires
        forall|i: int| 0 <= i < changes.len() ==> #[trigger] changes[i] is Watched,
    ensures
        ({
            let run = run_stream(
                StreamState::Checking,
                seq![StreamEvent::Looked { cached: false }] + changes + seq![
                    StreamEvent::IdleTimeout,
                ],
            );
            &&& run.0 == StreamState::Closed
            &&& run.1[0] == StreamAction::StartGenerationAndWatch
            &&& run.1.last() == StreamAction::UnwatchAndClose
            &&& emitted(run.1) == created_files(changes)
        }),
{
    let evs = seq![StreamEvent::Looked { cached: false }] + changes + seq![StreamEvent::IdleTimeout];
    assert(evs.drop_first() =~= changes + seq![StreamEvent::IdleTimeout]);
    lemma_watch(changes);
    let actions = run_stream(StreamState::Checking, evs).1;
    let tail = run_stream(StreamState::Generating, evs.drop_first()).1;
    assert(actions == seq![StreamAction::StartGenerationAndWatch] + tail);
    assert(actions.drop_first() =~= tail);
}

} // verus!
