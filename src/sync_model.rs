//! The synchronizer's state as mathematical values, and each of its steps as a
//! function on that state. The executable pipeline is proved to compute
//! exactly these functions.

use vstd::prelude::*;
use crate::model::{
    AssetEvent, BackendCall, BackendOutcome, LoadReport, MeshInstanceExtracted, RenderInstance,
    RenderMesh, WRInstance, WorldRendererCommand,
};

verus! {

/// The whole synchronizer state: the instance registry (`entities[i]` owns
/// `records[i]`), the mesh cache (`mesh_keys[i]` is in state `mesh_states[i]`),
/// the mesh sources reported modified since the cache last advanced, and the
/// commands waiting to be applied.
pub ghost struct SyncView {
    pub entities: Seq<u64>,
    pub records: Seq<RenderInstance>,
    pub mesh_keys: Seq<String>,
    pub mesh_states: Seq<RenderMesh>,
    pub changed: Seq<String>,
    pub commands: Seq<WorldRendererCommand>,
}

impl SyncView {
    /// At most one registry record per entity and one cache entry per key.
    pub open spec fn valid(self) -> bool {
        &&& self.records.len() == self.entities.len()
        &&& self.mesh_states.len() == self.mesh_keys.len()
        &&& forall|i: int, j: int|
            0 <= i < self.entities.len() && 0 <= j < self.entities.len()
                && self.entities[i] == self.entities[j] ==> i == j
        &&& forall|i: int, j: int|
            0 <= i < self.mesh_keys.len() && 0 <= j < self.mesh_keys.len()
                && self.mesh_keys[i]@ == self.mesh_keys[j]@ ==> i == j
    }

    pub open spec fn empty() -> SyncView {
        SyncView {
            entities: Seq::empty(),
            records: Seq::empty(),
            mesh_keys: Seq::empty(),
            mesh_states: Seq::empty(),
            changed: Seq::empty(),
            commands: Seq::empty(),
        }
    }
}

/// Where the registry holds `e`, if it does.
pub open spec fn entity_index(v: SyncView, e: u64) -> Option<int> {
    if exists|i: int| 0 <= i < v.entities.len() && v.entities[i] == e {
        Some(choose|i: int| 0 <= i < v.entities.len() && v.entities[i] == e)
    } else {
        None
    }
}

/// Where `keys` holds a string with the characters `k`, if it does.
pub open spec fn key_index(keys: Seq<String>, k: Seq<char>) -> Option<int> {
    if exists|i: int| 0 <= i < keys.len() && keys[i]@ == k {
        Some(choose|i: int| 0 <= i < keys.len() && keys[i]@ == k)
    } else {
        None
    }
}

pub open spec fn has_key(keys: Seq<String>, k: Seq<char>) -> bool {
    exists|i: int| 0 <= i < keys.len() && keys[i]@ == k
}

/// The cache state of mesh source `k`, if the cache knows it.
pub open spec fn mesh_state_of(v: SyncView, k: Seq<char>) -> Option<RenderMesh> {
    match key_index(v.mesh_keys, k) {
        Some(i) => Some(v.mesh_states[i]),
        None => None,
    }
}

/// The record of an entity that was registered before, after it was extracted
/// again with `x`, and the commands that this emits. `ms` is the cache state of
/// the record's mesh source.
pub open spec fn sync_existing(r: RenderInstance, x: MeshInstanceExtracted, ms: Option<RenderMesh>) -> (RenderInstance, Seq<WorldRendererCommand>) {
    let e = x.instance_entity;
    let moved = RenderInstance { transform: x.transform, emission: x.emission, active: true, ..r };
    match r.instance {
        WRInstance::Ready(h) => {
            if ms == Some(RenderMesh::Update) {
                (
                    RenderInstance { instance: WRInstance::Queued, ..moved },
                    seq![WorldRendererCommand::ReplaceInstance(h, e)],
                )
            } else if r.emission == x.emission {
                (moved, seq![WorldRendererCommand::UpdateTransform(h, x.transform)])
            } else {
                (
                    moved,
                    seq![
                        WorldRendererCommand::SetEmission(h, x.emission),
                        WorldRendererCommand::UpdateTransform(h, x.transform),
                    ],
                )
            }
        },
        WRInstance::Unset => match ms {
            Some(RenderMesh::Ready(mh)) => (
                RenderInstance { instance: WRInstance::Queued, ..moved },
                seq![WorldRendererCommand::AddInstance(e, mh, x.transform)],
            ),
            _ => (moved, Seq::empty()),
        },
        WRInstance::Queued => (moved, Seq::empty()),
    }
}

/// The record that a first sighting of an entity creates.
pub open spec fn new_record(x: MeshInstanceExtracted) -> RenderInstance {
    RenderInstance {
        mesh_source: x.mesh_name,
        transform: x.transform,
        emission: x.emission,
        instance: WRInstance::Unset,
        active: true,
    }
}

/// Reconciliation of one extracted instance against the registry and the cache.
pub open spec fn reconcile_one(v: SyncView, x: MeshInstanceExtracted) -> SyncView {
    match entity_index(v, x.instance_entity) {
        Some(i) => {
            let r = v.records[i];
            let (r2, cmds) = sync_existing(r, x, mesh_state_of(v, r.mesh_source@));
            SyncView { records: v.records.update(i, r2), commands: v.commands + cmds, ..v }
        },
        None => {
            let v2 = SyncView {
                entities: v.entities.push(x.instance_entity),
                records: v.records.push(new_record(x)),
                ..v
            };
            if has_key(v.mesh_keys, x.mesh_name@) {
                v2
            } else {
                SyncView {
                    mesh_keys: v.mesh_keys.push(x.mesh_name),
                    mesh_states: v.mesh_states.push(RenderMesh::Empty),
                    ..v2
                }
            }
        },
    }
}

/// Reconciliation of a frame's extracted instances, in order.
pub open spec fn reconcile_all(v: SyncView, xs: Seq<MeshInstanceExtracted>) -> SyncView
    decreases xs.len(),
{
    if xs.len() == 0 {
        v
    } else {
        reconcile_one(reconcile_all(v, xs.drop_last()), xs.last())
    }
}

/// Whether the frame's extraction holds entity `e`.
pub open spec fn seen_in(xs: Seq<MeshInstanceExtracted>, e: u64) -> bool {
    exists|j: int| 0 <= j < xs.len() && xs[j].instance_entity == e
}

/// A record survives a sweep while its entity is in the scene, or while it
/// holds no live instance: only a live handle is retired (one being created
/// is removed by the sweep after it exists).
pub open spec fn survives(r: RenderInstance, seen: bool) -> bool {
    seen || !(r.instance is Ready)
}

/// The commands that dropping record `r` emits.
pub open spec fn retire_cmds(r: RenderInstance) -> Seq<WorldRendererCommand> {
    match r.instance {
        WRInstance::Ready(h) => seq![WorldRendererCommand::RemoveInstance(h)],
        _ => Seq::empty(),
    }
}

/// The sweep over the first `n` registry entries: the entities and records
/// kept (each record's `active` flag set to whether it was seen) and the
/// removal commands emitted, in registry order.
pub open spec fn sweep_prefix(v: SyncView, xs: Seq<MeshInstanceExtracted>, n: int) -> (Seq<u64>, Seq<RenderInstance>, Seq<WorldRendererCommand>)
    decreases n,
{
    if n <= 0 {
        (Seq::empty(), Seq::empty(), Seq::empty())
    } else {
        let (es, rs, cs) = sweep_prefix(v, xs, n - 1);
        let e = v.entities[n - 1];
        let r = v.records[n - 1];
        let seen = seen_in(xs, e);
        if survives(r, seen) {
            (es.push(e), rs.push(RenderInstance { active: seen, ..r }), cs)
        } else {
            (es, rs, cs + retire_cmds(r))
        }
    }
}

/// The garbage-collection sweep after a frame whose extraction was `xs`.
pub open spec fn sweep(v: SyncView, xs: Seq<MeshInstanceExtracted>) -> SyncView {
    let (es, rs, cs) = sweep_prefix(v, xs, v.entities.len() as int);
    SyncView { entities: es, records: rs, commands: v.commands + cs, ..v }
}

/// The first report in `done` about mesh source `k`: whether its load succeeded.
pub open spec fn report_of(done: Seq<LoadReport>, k: Seq<char>) -> Option<bool>
    decreases done.len(),
{
    if done.len() == 0 {
        None
    } else if done[0].key@ == k {
        Some(done[0].ok)
    } else {
        report_of(done.drop_first(), k)
    }
}

/// One cache entry advanced by a frame: its next state, the commands it
/// emits, and whether a background load must be started for it.
pub open spec fn advance_entry(k: String, st: RenderMesh, done: Seq<LoadReport>, changed: Seq<String>) -> (RenderMesh, Seq<WorldRendererCommand>, bool) {
    match st {
        RenderMesh::Empty => (RenderMesh::Queued, Seq::empty(), true),
        RenderMesh::Queued => match report_of(done, k@) {
            Some(true) => (RenderMesh::Uploading, seq![WorldRendererCommand::AddMesh(k)], false),
            Some(false) => (RenderMesh::Failed, Seq::empty(), false),
            None => (RenderMesh::Queued, Seq::empty(), false),
        },
        RenderMesh::Ready(_) => if has_key(changed, k@) {
            (RenderMesh::Update, Seq::empty(), false)
        } else {
            (st, Seq::empty(), false)
        },
        _ => (st, Seq::empty(), false),
    }
}

/// The first `n` cache entries advanced: their states, the commands emitted
/// and the keys whose loads start, in cache order.
pub open spec fn advance_prefix(v: SyncView, done: Seq<LoadReport>, n: int) -> (Seq<RenderMesh>, Seq<WorldRendererCommand>, Seq<String>)
    decreases n,
{
    if n <= 0 {
        (Seq::empty(), Seq::empty(), Seq::empty())
    } else {
        let (ss, cs, ks) = advance_prefix(v, done, n - 1);
        let k = v.mesh_keys[n - 1];
        let (st, c, spawn) = advance_entry(k, v.mesh_states[n - 1], done, v.changed);
        (ss.push(st), cs + c, if spawn { ks.push(k) } else { ks })
    }
}

/// The mesh cache advanced by one frame, given the loads that completed; with
/// the keys whose background loads must start. Every change report is used
/// up: it moves a ready key to `Update`, and is dropped for a key that is not
/// ready.
pub open spec fn advance(v: SyncView, done: Seq<LoadReport>) -> (SyncView, Seq<String>) {
    let (ss, cs, ks) = advance_prefix(v, done, v.mesh_keys.len() as int);
    (
        SyncView {
            mesh_states: ss,
            commands: v.commands + cs,
            changed: Seq::empty(),
            ..v
        },
        ks,
    )
}

/// A change notification taken in: a modified source is reported changed
/// (once). Creations and removals are not acted on.
pub open spec fn note_asset(v: SyncView, ev: AssetEvent) -> SyncView {
    match ev {
        AssetEvent::Modified(k) => if has_key(v.changed, k@) {
            v
        } else {
            SyncView { changed: v.changed.push(k), ..v }
        },
        _ => v,
    }
}

/// The renderer call that applying `c` takes.
pub open spec fn backend_call_of(v: SyncView, c: WorldRendererCommand) -> BackendCall {
    match c {
        WorldRendererCommand::AddMesh(k) => BackendCall::UploadMesh(k),
        WorldRendererCommand::AddInstance(e, mh, t) => match entity_index(v, e) {
            Some(i) => BackendCall::CreateInstance(mh, t, v.records[i].emission),
            None => BackendCall::Skip,
        },
        WorldRendererCommand::UpdateTransform(h, t) => BackendCall::SetTransform(h, t),
        WorldRendererCommand::SetEmission(h, x) => BackendCall::SetEmission(h, x),
        WorldRendererCommand::ReplaceInstance(h, e) => if entity_index(v, e) is Some {
            BackendCall::DestroyInstance(h)
        } else {
            BackendCall::Skip
        },
        WorldRendererCommand::RemoveInstance(h) => BackendCall::DestroyInstance(h),
    }
}

/// The cache with key `k` set to state `st` (added if unknown).
pub open spec fn set_mesh_state(v: SyncView, k: String, st: RenderMesh) -> SyncView {
    match key_index(v.mesh_keys, k@) {
        Some(i) => SyncView { mesh_states: v.mesh_states.update(i, st), ..v },
        None => SyncView {
            mesh_keys: v.mesh_keys.push(k),
            mesh_states: v.mesh_states.push(st),
            ..v
        },
    }
}

/// The state after command `c` was applied and the renderer reported `out`.
pub open spec fn finish(v: SyncView, c: WorldRendererCommand, out: BackendOutcome) -> SyncView {
    match c {
        WorldRendererCommand::AddMesh(k) => match out {
            BackendOutcome::MeshUploaded(h) => set_mesh_state(v, k, RenderMesh::Ready(h)),
            _ => set_mesh_state(v, k, RenderMesh::Failed),
        },
        WorldRendererCommand::AddInstance(e, _, _) => match entity_index(v, e) {
            Some(i) => {
                let inst = match out {
                    BackendOutcome::InstanceCreated(ih) => WRInstance::Ready(ih),
                    _ => WRInstance::Unset,
                };
                let r = RenderInstance { instance: inst, ..v.records[i] };
                SyncView { records: v.records.update(i, r), ..v }
            },
            None => v,
        },
        WorldRendererCommand::ReplaceInstance(_, e) => match entity_index(v, e) {
            Some(i) => {
                let r = RenderInstance { instance: WRInstance::Unset, ..v.records[i] };
                let v2 = SyncView { records: v.records.update(i, r), ..v };
                set_mesh_state(v2, v.records[i].mesh_source, RenderMesh::Empty)
            },
            None => v,
        },
        _ => v,
    }
}

/// A sweep keeps a subset of the registry: every kept entity was registered
/// before, so kept entities stay distinct.
pub proof fn lemma_sweep_prefix_keeps_distinct(v: SyncView, xs: Seq<MeshInstanceExtracted>, n: int)
    requires
        v.valid(),
        0 <= n <= v.entities.len(),
    ensures
        sweep_prefix(v, xs, n).0.len() == sweep_prefix(v, xs, n).1.len(),
        forall|a: int| 0 <= a < sweep_prefix(v, xs, n).0.len()
            ==> exists|b: int| 0 <= b < n && #[trigger] sweep_prefix(v, xs, n).0[a] == v.entities[b],
        forall|a: int, b: int|
            0 <= a < sweep_prefix(v, xs, n).0.len() && 0 <= b < sweep_prefix(v, xs, n).0.len()
                && sweep_prefix(v, xs, n).0[a] == sweep_prefix(v, xs, n).0[b] ==> a == b,
    decreases n,
{
    if n > 0 {
        lemma_sweep_prefix_keeps_distinct(v, xs, n - 1);
        let (es, rs, cs) = sweep_prefix(v, xs, n - 1);
        let e = v.entities[n - 1];
        let es2 = sweep_prefix(v, xs, n).0;
        assert forall|a: int| 0 <= a < es2.len()
            implies exists|b: int| 0 <= b < n && #[trigger] es2[a] == v.entities[b] by {
            if a < es.len() {
                assert(es2[a] == es[a]);
                let b = choose|b: int| 0 <= b < n - 1 && es[a] == v.entities[b];
                assert(es2[a] == v.entities[b]);
            } else {
                assert(es2[a] == v.entities[n - 1]);
            }
        }
        assert forall|a: int, b: int|
            0 <= a < es2.len() && 0 <= b < es2.len() && es2[a] == es2[b] implies a == b by {
            if a < es.len() && b == es.len() {
                let c = choose|c: int| 0 <= c < n - 1 && es[a] == v.entities[c];
                assert(v.entities[c] == e);
            }
            if b < es.len() && a == es.len() {
                let c = choose|c: int| 0 <= c < n - 1 && es[b] == v.entities[c];
                assert(v.entities[c] == e);
            }
        }
    }
}

/// An advance gives each cache entry exactly one next state.
pub proof fn lemma_advance_prefix_len(v: SyncView, done: Seq<LoadReport>, n: int)
    requires
        0 <= n,
    ensures
        advance_prefix(v, done, n).0.len() == n,
    decreases n,
{
    if n > 0 {
        lemma_advance_prefix_len(v, done, n - 1);
    }
}

/// Where `keys` holds the characters `k`, in a valid state.
pub proof fn lemma_key_index_at(v: SyncView, k: Seq<char>, i: int)
    requires
        v.valid(),
        0 <= i < v.mesh_keys.len(),
        v.mesh_keys[i]@ == k,
    ensures
        key_index(v.mesh_keys, k) == Some(i),
        mesh_state_of(v, k) == Some(v.mesh_states[i]),
{
}

} // verus!
