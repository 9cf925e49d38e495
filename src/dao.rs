use vstd::prelude::*;
use crate::model::FileInfo;

verus! {

/// A size in bytes as the cache stores it: the low 32 bits.
pub open spec fn stored_size(size: u64) -> u32 {
    (size % 4294967296) as u32
}

/// The record that the cache stores for a file seen for the first time.
pub open spec fn record_for(fingerprint: String, frames: u32, path: String, size: u64) -> FileInfo {
    FileInfo {
        id: 0,
        hash_key: fingerprint,
        total_frame: frames,
        file_path: path,
        file_size: stored_size(size),
    }
}

/// A new record for a file: no id yet, its fingerprint, frame count, path and size.
pub fn new_file_record(fingerprint: &String, frames: u32, path: &String, size: u64) -> (r: FileInfo)
    ensures
        r == record_for(*fingerprint, frames, *path, size),
{
    FileInfo::new(0, fingerprint.clone(), frames, path.clone(), (size % 4294967296) as u32)
}

fn copy_record(r: &FileInfo) -> (c: FileInfo)
    ensures
        c == *r,
{
    FileInfo::new(r.id, r.hash_key.clone(), r.total_frame, r.file_path.clone(), r.file_size)
}

/// What inserting under a unique fingerprint came to.
#[derive(PartialEq, Eq, Structural, Clone, Copy, Debug)]
pub enum InsertOutcome {
    Inserted,
    /// Another caller stored a record for the fingerprint first.
    AlreadyExists,
}

/// Where the resolution of one file's record stands.
pub enum CacheStep {
    /// Waiting for the lookup by fingerprint.
    Looking,
    /// Waiting for the frame count.
    Deriving,
    /// Waiting for the insertion of this record.
    Inserting(FileInfo),
    /// Waiting for the lookup after losing an insertion race.
    Relooking,
    /// Over, with this record.
    Resolved(FileInfo),
    Failed,
}

/// Resolution of the record of the file at `path`, whose fingerprint is `fingerprint`.
pub struct CacheResolver {
    pub fingerprint: String,
    pub path: String,
    pub step: CacheStep,
}

/// What the surroundings report to a resolution.
pub enum CacheEvent {
    /// The lookup by fingerprint answered.
    Found(Option<FileInfo>),
    /// The frame count was derived, and the file's size read.
    Derived { frames: u32, size: u64 },
    /// The insertion answered.
    Stored(InsertOutcome),
    /// A lookup, the derivation or the insertion failed.
    Error,
}

/// What a resolution asks the surroundings to do.
pub enum CacheAction {
    /// Derive the frame count (which generates the artifacts) and read the size.
    DeriveFrameCount,
    /// Insert this record.
    Insert(FileInfo),
    /// Look the fingerprint up again.
    LookupAgain,
    /// The resolution is over: this is the record.
    Return(FileInfo),
    /// The resolution is over without a record.
    Fail,
    Skip,
}

impl CacheResolver {
    /// A resolution that waits for the first lookup.
    pub fn new(fingerprint: String, path: String) -> (r: Self)
        ensures
            r.fingerprint == fingerprint,
            r.path == path,
            r.step is Looking,
    {
        CacheResolver { fingerprint, path, step: CacheStep::Looking }
    }
}

/// The resolution's transition. A hit returns the stored record as it is; a
/// miss derives the frame count and inserts a new record; losing the
/// insertion race falls back to a fresh lookup instead of failing.
pub open spec fn next_cache(r: CacheResolver, e: CacheEvent) -> (CacheResolver, CacheAction) {
    let with_step = |s: CacheStep| CacheResolver { step: s, ..r };
    match r.step {
        CacheStep::Looking => match e {
            CacheEvent::Found(Some(rec)) => (with_step(CacheStep::Resolved(rec)), CacheAction::Return(rec)),
            CacheEvent::Found(None) => (with_step(CacheStep::Deriving), CacheAction::DeriveFrameCount),
            CacheEvent::Error => (with_step(CacheStep::Failed), CacheAction::Fail),
            _ => (r, CacheAction::Skip),
        },
        CacheStep::Deriving => match e {
            CacheEvent::Derived { frames, size } => {
                let rec = record_for(r.fingerprint, frames, r.path, size);
                (with_step(CacheStep::Inserting(rec)), CacheAction::Insert(rec))
            },
            CacheEvent::Error => (with_step(CacheStep::Failed), CacheAction::Fail),
            _ => (r, CacheAction::Skip),
        },
        CacheStep::Inserting(rec) => match e {
            CacheEvent::Stored(InsertOutcome::Inserted) => (
                with_step(CacheStep::Resolved(rec)),
                CacheAction::Return(rec),
            ),
            CacheEvent::Stored(InsertOutcome::AlreadyExists) => (
                with_step(CacheStep::Relooking),
                CacheAction::LookupAgain,
            ),
            CacheEvent::Error => (with_step(CacheStep::Failed), CacheAction::Fail),
            _ => (r, CacheAction::Skip),
        },
        CacheStep::Relooking => match e {
            CacheEvent::Found(Some(rec)) => (with_step(CacheStep::Resolved(rec)), CacheAction::Return(rec)),
            CacheEvent::Found(None) => (with_step(CacheStep::Failed), CacheAction::Fail),
            CacheEvent::Error => (with_step(CacheStep::Failed), CacheAction::Fail),
            _ => (r, CacheAction::Skip),
        },
        _ => (r, CacheAction::Skip),
    }
}

/// One step of a resolution.
pub fn cache_step(r: CacheResolver, e: CacheEvent) -> (res: (CacheResolver, CacheAction))
    ensures
        res == next_cache(r, e),
{
    let CacheResolver { fingerprint, path, step } = r;
    match step {
        CacheStep::Looking => match e {
            CacheEvent::Found(Some(rec)) => {
                let copy = copy_record(&rec);
                (
                    CacheResolver { fingerprint, path, step: CacheStep::Resolved(rec) },
                    CacheAction::Return(copy),
                )
            },
            CacheEvent::Found(None) => (
                CacheResolver { fingerprint, path, step: CacheStep::Deriving },
                CacheAction::DeriveFrameCount,
            ),
            CacheEvent::Error => (
                CacheResolver { fingerprint, path, step: CacheStep::Failed },
                CacheAction::Fail,
            ),
            _ => (CacheResolver { fingerprint, path, step: CacheStep::Looking }, CacheAction::Skip),
        },
        CacheStep::Deriving => match e {
            CacheEvent::Derived { frames, size } => {
                let rec = new_file_record(&fingerprint, frames, &path, size);
                let copy = new_file_record(&fingerprint, frames, &path, size);
                (
                    CacheResolver { fingerprint, path, step: CacheStep::Inserting(rec) },
                    CacheAction::Insert(copy),
                )
            },
            CacheEvent::Error => (
                CacheResolver { fingerprint, path, step: CacheStep::Failed },
                CacheAction::Fail,
            ),
            _ => (CacheResolver { fingerprint, path, step: CacheStep::Deriving }, CacheAction::Skip),
        },
        CacheStep::Inserting(rec) => match e {
            CacheEvent::Stored(InsertOutcome::Inserted) => {
                let copy = copy_record(&rec);
                (
                    CacheResolver { fingerprint, path, step: CacheStep::Resolved(rec) },
                    CacheAction::Return(copy),
                )
            },
            CacheEvent::Stored(InsertOutcome::AlreadyExists) => (
                CacheResolver { fingerprint, path, step: CacheStep::Relooking },
                CacheAction::LookupAgain,
            ),
            CacheEvent::Error => (
                CacheResolver { fingerprint, path, step: CacheStep::Failed },
                CacheAction::Fail,
            ),
            _ => (
                CacheResolver { fingerprint, path, step: CacheStep::Inserting(rec) },
                CacheAction::Skip,
            ),
        },
        CacheStep::Relooking => match e {
            CacheEvent::Found(Some(rec)) => {
                let copy = copy_record(&rec);
                (
                    CacheResolver { fingerprint, path, step: CacheStep::Resolved(rec) },
                    CacheAction::Return(copy),
                )
            },
            CacheEvent::Found(None) => (
                CacheResolver { fingerprint, path, step: CacheStep::Failed },
                CacheAction::Fail,
            ),
            CacheEvent::Error => (
                CacheResolver { fingerprint, path, step: CacheStep::Failed },
                CacheAction::Fail,
            ),
            _ => (CacheResolver { fingerprint, path, step: CacheStep::Relooking }, CacheAction::Skip),
        },
        CacheStep::Resolved(rec) => (
            CacheResolver { fingerprint, path, step: CacheStep::Resolved(rec) },
            CacheAction::Skip,
        ),
        CacheStep::Failed => (
            CacheResolver { fingerprint, path, step: CacheStep::Failed },
            CacheAction::Skip,
        ),
    }
}

/// The resolution reached and the actions asked for while `events` come in.
pub open spec fn run_cache(r: CacheResolver, events: Seq<CacheEvent>) -> (CacheResolver, Seq<
    CacheAction,
>)
    decreases events.len(),
{
    if events.len() == 0 {
        (r, Seq::empty())
    } else {
        let (next, action) = next_cache(r, events[0]);
        let (last, actions) = run_cache(next, events.drop_first());
        (last, seq![action] + actions)
    }
}

/// How many insertions the actions ask for.
pub open spec fn insert_count(actions: Seq<CacheAction>) -> nat
    decreases actions.len(),
{
    if actions.len() == 0 {
        0
    } else {
        (if actions[0] is Insert {
            1nat
        } else {
            0nat
        }) + insert_count(actions.drop_first())
    }
}

/// Every record that the store hands back carries the fingerprint asked for.
pub open spec fn lookups_match(events: Seq<CacheEvent>, fingerprint: String) -> bool {
    forall|i: int|
        0 <= i < events.len() ==> (#[trigger] events[i] matches CacheEvent::Found(Some(rec))
            ==> rec.hash_key == fingerprint)
}

/// Every record that the actions insert or return carries the fingerprint.
pub open spec fn records_match(actions: Seq<CacheAction>, fingerprint: String) -> bool {
    forall|j: int|
        0 <= j < actions.len() ==> (#[trigger] actions[j] matches CacheAction::Return(rec)
            ==> rec.hash_key == fingerprint) && (actions[j] matches CacheAction::Insert(rec)
            ==> rec.hash_key == fingerprint)
}

pub open spec fn inserts_allowed(step: CacheStep) -> nat {
    match step {
        CacheStep::Looking => 1,
        CacheStep::Deriving => 1,
        _ => 0,
    }
}

proof fn lemma_cache_run(r: CacheResolver, events: Seq<CacheEvent>)
    requires
        r.step matches CacheStep::Inserting(rec) ==> rec.hash_key == r.fingerprint,
        lookups_match(events, r.fingerprint),
    ensures
        run_cache(r, events).0.fingerprint == r.fingerprint,
        records_match(run_cache(r, events).1, r.fingerprint),
        insert_count(run_cache(r, events).1) <= inserts_allowed(r.step),
    decreases events.len(),
{
    if events.len() > 0 {
        let (next, action) = next_cache(r, events[0]);
        let rest = events.drop_first();
        assert(lookups_match(rest, r.fingerprint)) by {
            assert forall|i: int| 0 <= i < rest.len() implies (#[trigger] rest[i] matches CacheEvent::Found(
                Some(rec),
            ) ==> rec.hash_key == r.fingerprint) by {
                assert(rest[i] == events[i + 1]);
            }
        }
        assert(events[0] matches CacheEvent::Found(Some(rec)) ==> rec.hash_key == r.fingerprint);
        lemma_cache_run(next, rest);
        let actions = run_cache(r, events).1;
        let tail = run_cache(next, rest).1;
        assert(actions == seq![action] + tail);
        assert(actions.drop_first() =~= tail);
        assert forall|j: int| 0 <= j < actions.len() implies (#[trigger] actions[j] matches CacheAction::Return(
            rec,
        ) ==> rec.hash_key == r.fingerprint) && (actions[j] matches CacheAction::Insert(rec)
            ==> rec.hash_key == r.fingerprint) by {
            if j > 0 {
                assert(actions[j] == tail[j - 1]);
            }
        }
    }
}

/// Resolving a file's record inserts at most one record, and every record it
/// inserts or returns carries the file's fingerprint, provided the store only
/// hands back records stored under the fingerprint asked for. Together with
/// the store's uniqueness constraint, concurrent resolutions of one
/// fingerprint leave exactly one stored record and all return a record with
/// that fingerprint.
pub proof fn lemma_cache_uniqueness(fingerprint: String, path: String, events: Seq<CacheEvent>)
    requires
        lookups_match(events, fingerprint),
    ensures
        ({
            let run = run_cache(
                CacheResolver { fingerprint, path, step: CacheStep::Looking },
                events,
            );
            &&& records_match(run.1, fingerprint)
            &&& insert_count(run.1) <= 1
        }),
{
    lemma_cache_run(CacheResolver { fingerprint, path, step: CacheStep::Looking }, events);
}

/// The store's answer to the request that resolution `r` waits on. `row` is
/// what the store holds under the fingerprint: its uniqueness constraint keeps
/// one row at most, and an insertion fills it only while it is empty.
pub open spec fn store_answer(row: Option<FileInfo>, r: CacheResolver, frames: u32, size: u64) -> (
    Option<FileInfo>,
    CacheEvent,
) {
    match r.step {
        CacheStep::Looking => (row, CacheEvent::Found(row)),
        CacheStep::Relooking => (row, CacheEvent::Found(row)),
        CacheStep::Deriving => (row, CacheEvent::Derived { frames, size }),
        CacheStep::Inserting(rec) => if row is None {
            (Some(rec), CacheEvent::Stored(InsertOutcome::Inserted))
        } else {
            (row, CacheEvent::Stored(InsertOutcome::AlreadyExists))
        },
        _ => (row, CacheEvent::Error),
    }
}

/// Resolutions running side by side against one store: at each turn
/// `(i, frames, size)`, resolution `i` has its request answered (`frames` and
/// `size` are what deriving would find) and takes its step.
pub open spec fn run_concurrent(
    row: Option<FileInfo>,
    rs: Seq<CacheResolver>,
    turns: Seq<(int, u32, u64)>,
) -> (Option<FileInfo>, Seq<CacheResolver>)
    decreases turns.len(),
{
    if turns.len() == 0 {
        (row, rs)
    } else {
        let (i, frames, size) = turns[0];
        if 0 <= i < rs.len() {
            let (row2, event) = store_answer(row, rs[i], frames, size);
            run_concurrent(row2, rs.update(i, next_cache(rs[i], event).0), turns.drop_first())
        } else {
            run_concurrent(row, rs, turns.drop_first())
        }
    }
}

/// What holds of the store and the resolutions at every turn.
pub open spec fn world_ok(row: Option<FileInfo>, rs: Seq<CacheResolver>, h: String) -> bool {
    &&& row matches Some(x) ==> x.hash_key == h
    &&& forall|i: int|
        0 <= i < rs.len() ==> {
            let r = #[trigger] rs[i];
            &&& r.fingerprint == h
            &&& !(r.step is Failed)
            &&& r.step matches CacheStep::Inserting(rec) ==> rec.hash_key == h
            &&& r.step is Relooking ==> row is Some
            &&& r.step matches CacheStep::Resolved(rec) ==> row == Some(rec)
        }
}

proof fn lemma_turn(row: Option<FileInfo>, rs: Seq<CacheResolver>, h: String, i: int, frames: u32, size: u64)
    requires
        world_ok(row, rs, h),
        0 <= i < rs.len(),
    ensures
        ({
            let (row2, event) = store_answer(row, rs[i], frames, size);
            &&& world_ok(row2, rs.update(i, next_cache(rs[i], event).0), h)
            &&& row is Some ==> row2 == row
        }),
{
    let (row2, event) = store_answer(row, rs[i], frames, size);
    let rs2 = rs.update(i, next_cache(rs[i], event).0);
    assert forall|j: int| 0 <= j < rs2.len() implies {
        let r = #[trigger] rs2[j];
        &&& r.fingerprint == h
        &&& !(r.step is Failed)
        &&& r.step matches CacheStep::Inserting(rec) ==> rec.hash_key == h
        &&& r.step is Relooking ==> row2 is Some
        &&& r.step matches CacheStep::Resolved(rec) ==> row2 == Some(rec)
    } by {
        let r0 = rs[j];
        if j != i {
            assert(rs2[j] == r0);
            if row is None && row2 is Some {
                assert(rs[i].step is Inserting);
            }
        }
    }
}

proof fn lemma_run_concurrent(row: Option<FileInfo>, rs: Seq<CacheResolver>, h: String, turns: Seq<(int, u32, u64)>)
    requires
        world_ok(row, rs, h),
    ensures
        world_ok(run_concurrent(row, rs, turns).0, run_concurrent(row, rs, turns).1, h),
        run_concurrent(row, rs, turns).1.len() == rs.len(),
        row is Some ==> run_concurrent(row, rs, turns).0 == row,
    decreases turns.len(),
{
    if turns.len() > 0 {
        let (i, frames, size) = turns[0];
        if 0 <= i < rs.len() {
            lemma_turn(row, rs, h, i, frames, size);
            let (row2, event) = store_answer(row, rs[i], frames, size);
            lemma_run_concurrent(row2, rs.update(i, next_cache(rs[i], event).0), h, turns.drop_first());
        } else {
            lemma_run_concurrent(row, rs, h, turns.drop_first());
        }
    }
}

/// Concurrent resolutions of one fingerprint, in any interleaving, against a
/// store that keeps one row per fingerprint: none fails, the losers of the
/// insertion race recover by a fresh lookup, and every resolution that is over
/// returned the one stored record, which carries the fingerprint. A stored
/// record is never replaced.
pub proof fn lemma_concurrent_resolution(
    h: String,
    row: Option<FileInfo>,
    rs: Seq<CacheResolver>,
    turns: Seq<(int, u32, u64)>,
)
    requires
        row matches Some(x) ==> x.hash_key == h,
        forall|i: int| 0 <= i < rs.len() ==> (#[trigger] rs[i]).fingerprint == h && rs[i].step is Looking,
    ensures
        ({
            let (row2, rs2) = run_concurrent(row, rs, turns);
            &&& rs2.len() == rs.len()
            &&& row2 matches Some(x) ==> x.hash_key == h
            &&& row is Some ==> row2 == row
            &&& forall|i: int|
                0 <= i < rs2.len() ==> !((#[trigger] rs2[i]).step is Failed) && (
                rs2[i].step matches CacheStep::Resolved(rec) ==> row2 == Some(rec)
                    && rec.hash_key == h)
        }),
{
    assert(world_ok(row, rs, h));
    lemma_run_concurrent(row, rs, h, turns);
    let (row2, rs2) = run_concurrent(row, rs, turns);
    assert forall|i: int| 0 <= i < rs2.len() implies !((#[trigger] rs2[i]).step is Failed) && (
    rs2[i].step matches CacheStep::Resolved(rec) ==> row2 == Some(rec) && rec.hash_key == h) by {
        let r = rs2[i];
    }
}

} // verus!
