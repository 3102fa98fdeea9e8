//! Properties of the synchronizer that relate its steps, stated over the
//! state model and proved from the step functions.

use vstd::prelude::*;
use crate::model::{
    BackendOutcome, InstanceHandle, LoadReport, MeshHandle, MeshInstanceExtracted, MeshTransform,
    RenderInstance, RenderMesh, WRInstance, WorldRendererCommand,
};
use crate::sync_model::{
    entity_index, has_key, key_index, mesh_state_of, reconcile_all, reconcile_one, seen_in,
    survives, sweep, sweep_prefix, lemma_sweep_prefix_keeps_distinct, SyncView, advance,
    advance_entry, advance_prefix, report_of, lemma_advance_prefix_len, finish, lemma_key_index_at,
};

verus! {

/// What a reconciliation step keeps: registered entities keep their place
/// and mesh source, cache entries keep their state (new keys start `Empty`),
/// and queued commands stay queued.
pub open spec fn grows_from(v: SyncView, r: SyncView) -> bool {
    &&& r.valid()
    &&& v.entities.len() <= r.entities.len()
    &&& forall|i: int| 0 <= i < v.entities.len() ==> r.entities[i] == v.entities[i]
    &&& forall|i: int| 0 <= i < v.entities.len()
        ==> #[trigger] r.records[i].mesh_source == v.records[i].mesh_source
    &&& v.mesh_keys.len() <= r.mesh_keys.len()
    &&& forall|i: int| 0 <= i < v.mesh_keys.len() ==> r.mesh_keys[i] == v.mesh_keys[i]
    &&& forall|i: int| 0 <= i < v.mesh_keys.len() ==> r.mesh_states[i] == v.mesh_states[i]
    &&& forall|i: int| v.mesh_keys.len() <= i < r.mesh_keys.len() ==> r.mesh_states[i] == RenderMesh::Empty
    &&& v.commands.len() <= r.commands.len()
    &&& forall|j: int| 0 <= j < v.commands.len() ==> r.commands[j] == v.commands[j]
}

proof fn lemma_entity_index_at(v: SyncView, e: u64, i: int)
    requires
        v.valid(),
        0 <= i < v.entities.len(),
        v.entities[i] == e,
    ensures
        entity_index(v, e) == Some(i),
{
}

/// A known key keeps its cache state across a step that only grows the state.
proof fn lemma_mesh_state_kept(v: SyncView, r: SyncView, k: Seq<char>)
    requires
        v.valid(),
        grows_from(v, r),
        mesh_state_of(v, k) is Some,
    ensures
        mesh_state_of(r, k) == mesh_state_of(v, k),
{
    let i = key_index(v.mesh_keys, k)->Some_0;
    lemma_key_index_at(r, k, i);
}

/// A registered entity keeps its place across a step that only grows the state.
proof fn lemma_entity_kept(v: SyncView, r: SyncView, e: u64)
    requires
        v.valid(),
        grows_from(v, r),
        entity_index(v, e) is Some,
    ensures
        entity_index(r, e) == entity_index(v, e),
{
    let i = entity_index(v, e)->Some_0;
    lemma_entity_index_at(r, e, i);
}

/// One reconciliation step only grows the state.
pub proof fn lemma_reconcile_one_grows(v: SyncView, x: MeshInstanceExtracted)
    requires
        v.valid(),
    ensures
        grows_from(v, reconcile_one(v, x)),
{
    let r = reconcile_one(v, x);
    let e = x.instance_entity;
    match entity_index(v, e) {
        Some(i) => {},
        None => {
            assert forall|a: int, b: int|
                0 <= a < r.entities.len() && 0 <= b < r.entities.len()
                    && r.entities[a] == r.entities[b] implies a == b by {
                if a < v.entities.len() && b == v.entities.len() {
                    assert(v.entities[a] == e);
                }
                if b < v.entities.len() && a == v.entities.len() {
                    assert(v.entities[b] == e);
                }
            }
            let known = has_key(v.mesh_keys, x.mesh_name@);
            assert forall|a: int, b: int|
                0 <= a < r.mesh_keys.len() && 0 <= b < r.mesh_keys.len()
                    && r.mesh_keys[a]@ == r.mesh_keys[b]@ implies a == b by {
                if !known && a < v.mesh_keys.len() && b == v.mesh_keys.len() {
                    assert(v.mesh_keys[a]@ == x.mesh_name@);
                }
                if !known && b < v.mesh_keys.len() && a == v.mesh_keys.len() {
                    assert(v.mesh_keys[b]@ == x.mesh_name@);
                }
            }
        },
    }
}

/// Growing is transitive.
proof fn lemma_grows_trans(a: SyncView, b: SyncView, c: SyncView)
    requires
        a.valid(),
        grows_from(a, b),
        grows_from(b, c),
    ensures
        grows_from(a, c),
{
    assert forall|i: int| 0 <= i < a.entities.len()
        implies #[trigger] c.records[i].mesh_source == a.records[i].mesh_source by {
        assert(c.records[i].mesh_source == b.records[i].mesh_source);
    }
}

/// A frame's reconciliation only grows the state.
pub proof fn lemma_reconcile_all_grows(v: SyncView, xs: Seq<MeshInstanceExtracted>)
    requires
        v.valid(),
    ensures
        grows_from(v, reconcile_all(v, xs)),
    decreases xs.len(),
{
    if xs.len() == 0 {
    } else {
        let w = reconcile_all(v, xs.drop_last());
        lemma_reconcile_all_grows(v, xs.drop_last());
        lemma_reconcile_one_grows(w, xs.last());
        lemma_grows_trans(v, w, reconcile_one(w, xs.last()));
    }
}

/// Entity `e` is registered and the cache holds its mesh source ready as `mh`.
pub open spec fn uses_ready_mesh(v: SyncView, e: u64, mh: MeshHandle) -> bool {
    match entity_index(v, e) {
        Some(i) => mesh_state_of(v, v.records[i].mesh_source@) == Some(RenderMesh::Ready(mh)),
        None => false,
    }
}

/// Every `AddInstance` queued from position `from` on names a mesh that the
/// cache holds ready for that entity's mesh source.
pub open spec fn adds_use_ready_meshes(v: SyncView, from: int) -> bool {
    forall|j: int| from <= j < v.commands.len() ==> match #[trigger] v.commands[j] {
        WorldRendererCommand::AddInstance(e, mh, _) => uses_ready_mesh(v, e, mh),
        _ => true,
    }
}

proof fn lemma_uses_ready_mesh_kept(v: SyncView, r: SyncView, e: u64, mh: MeshHandle)
    requires
        v.valid(),
        grows_from(v, r),
        uses_ready_mesh(v, e, mh),
    ensures
        uses_ready_mesh(r, e, mh),
{
    let i = entity_index(v, e)->Some_0;
    lemma_entity_kept(v, r, e);
    assert(r.records[i].mesh_source == v.records[i].mesh_source);
    lemma_mesh_state_kept(v, r, v.records[i].mesh_source@);
}

/// No use before ready: reconciliation never queues an `AddInstance` whose
/// mesh is not `Ready` in the cache under the entity's mesh source key.
pub proof fn law_no_use_before_ready(v: SyncView, xs: Seq<MeshInstanceExtracted>)
    requires
        v.valid(),
    ensures
        adds_use_ready_meshes(reconcile_all(v, xs), v.commands.len() as int),
    decreases xs.len(),
{
    if xs.len() > 0 {
        let w = reconcile_all(v, xs.drop_last());
        let x = xs.last();
        let r = reconcile_one(w, x);
        law_no_use_before_ready(v, xs.drop_last());
        lemma_reconcile_all_grows(v, xs.drop_last());
        lemma_reconcile_one_grows(w, x);
        assert forall|j: int| v.commands.len() <= j < r.commands.len() implies match #[trigger] r.commands[j] {
            WorldRendererCommand::AddInstance(e, mh, _) => uses_ready_mesh(r, e, mh),
            _ => true,
        } by {
            if j < w.commands.len() {
                assert(r.commands[j] == w.commands[j]);
                if let WorldRendererCommand::AddInstance(e, mh, _) = w.commands[j] {
                    lemma_uses_ready_mesh_kept(w, r, e, mh);
                }
            } else {
                if let WorldRendererCommand::AddInstance(e, mh, _) = r.commands[j] {
                    let i = entity_index(w, x.instance_entity)->Some_0;
                    assert(e == x.instance_entity);
                    lemma_entity_index_at(r, e, i);
                }
            }
        }
    }
}

/// Idempotent transform sync: extracting an entity whose instance is ready
/// (and whose mesh source did not change) touches neither the registry's
/// membership nor the cache; it queues an `UpdateTransform` of its instance,
/// preceded by a `SetEmission` only when the emission differs from the one
/// last extracted, and the instance stays the same. Extracting the same record
/// again right after queues the `UpdateTransform` alone.
pub proof fn law_resync_is_idempotent(v: SyncView, x: MeshInstanceExtracted, h: InstanceHandle)
    requires
        v.valid(),
        entity_index(v, x.instance_entity) is Some,
        v.records[entity_index(v, x.instance_entity)->Some_0].instance == WRInstance::Ready(h),
        mesh_state_of(v, v.records[entity_index(v, x.instance_entity)->Some_0].mesh_source@)
            != Some(RenderMesh::Update),
    ensures
        ({
            let i = entity_index(v, x.instance_entity)->Some_0;
            let r = reconcile_one(v, x);
            let r2 = reconcile_one(r, x);
            &&& r.entities == v.entities
            &&& r.mesh_keys == v.mesh_keys
            &&& r.mesh_states == v.mesh_states
            &&& r.records[i].instance == WRInstance::Ready(h)
            &&& r.commands == v.commands + (if v.records[i].emission == x.emission {
                seq![WorldRendererCommand::UpdateTransform(h, x.transform)]
            } else {
                seq![WorldRendererCommand::SetEmission(h, x.emission), WorldRendererCommand::UpdateTransform(h, x.transform)]
            })
            &&& r2.entities == v.entities
            &&& r2.mesh_keys == v.mesh_keys
            &&& r2.mesh_states == v.mesh_states
            &&& r2.records[i].instance == WRInstance::Ready(h)
            &&& r2.commands == r.commands.push(WorldRendererCommand::UpdateTransform(h, x.transform))
        }),
{
    let i = entity_index(v, x.instance_entity)->Some_0;
    let r = reconcile_one(v, x);
    assert(r.entities == v.entities);
    assert(entity_index(r, x.instance_entity) == Some(i));
    assert(r.records[i].mesh_source == v.records[i].mesh_source);
    assert(seq![WorldRendererCommand::UpdateTransform(h, x.transform)] =~= Seq::<WorldRendererCommand>::empty().push(WorldRendererCommand::UpdateTransform(h, x.transform)));
    assert(r.commands + seq![WorldRendererCommand::UpdateTransform(h, x.transform)] =~= r.commands.push(WorldRendererCommand::UpdateTransform(h, x.transform)));
}

/// Entity `e` is registered, its instance is being recreated, and the cache
/// holds its mesh source as changed (`Update`).
pub open spec fn replaced_for_changed_source(v: SyncView, e: u64) -> bool {
    match entity_index(v, e) {
        Some(i) => {
            &&& mesh_state_of(v, v.records[i].mesh_source@) == Some(RenderMesh::Update)
            &&& v.records[i].instance == WRInstance::Queued
        },
        None => false,
    }
}

/// Every `ReplaceInstance` queued from position `from` on is for an entity
/// whose mesh source changed, and no entity gets two of them.
pub open spec fn replaces_isolated(v: SyncView, from: int) -> bool {
    &&& forall|j: int| from <= j < v.commands.len() ==> match #[trigger] v.commands[j] {
        WorldRendererCommand::ReplaceInstance(_, e) => replaced_for_changed_source(v, e),
        _ => true,
    }
    &&& forall|j1: int, j2: int|
        from <= j1 < v.commands.len() && from <= j2 < v.commands.len()
            && (#[trigger] v.commands[j1]) is ReplaceInstance
            && (#[trigger] v.commands[j2]) is ReplaceInstance
            && v.commands[j1]->ReplaceInstance_1 == v.commands[j2]->ReplaceInstance_1 ==> j1 == j2
}

proof fn lemma_replaced_kept(w: SyncView, x: MeshInstanceExtracted, e: u64)
    requires
        w.valid(),
        replaced_for_changed_source(w, e),
    ensures
        replaced_for_changed_source(reconcile_one(w, x), e),
{
    let r = reconcile_one(w, x);
    lemma_reconcile_one_grows(w, x);
    let i = entity_index(w, e)->Some_0;
    lemma_entity_kept(w, r, e);
    lemma_mesh_state_kept(w, r, w.records[i].mesh_source@);
    assert(r.records[i].instance == WRInstance::Queued);
}

/// Hot-reload isolation: a frame's reconciliation queues a `ReplaceInstance`
/// only for an entity whose mesh source the cache holds as changed (so none
/// for an entity whose source did not change), at most one per entity, and it
/// leaves that entity's instance being recreated.
pub proof fn law_hot_reload_isolation(v: SyncView, xs: Seq<MeshInstanceExtracted>)
    requires
        v.valid(),
    ensures
        replaces_isolated(reconcile_all(v, xs), v.commands.len() as int),
    decreases xs.len(),
{
    if xs.len() > 0 {
        let w = reconcile_all(v, xs.drop_last());
        let x = xs.last();
        let r = reconcile_one(w, x);
        let from = v.commands.len() as int;
        law_hot_reload_isolation(v, xs.drop_last());
        lemma_reconcile_all_grows(v, xs.drop_last());
        lemma_reconcile_one_grows(w, x);
        assert forall|j: int| from <= j < r.commands.len() implies match #[trigger] r.commands[j] {
            WorldRendererCommand::ReplaceInstance(_, e) => replaced_for_changed_source(r, e),
            _ => true,
        } by {
            if j < w.commands.len() {
                assert(r.commands[j] == w.commands[j]);
                if let WorldRendererCommand::ReplaceInstance(_, e) = w.commands[j] {
                    lemma_replaced_kept(w, x, e);
                }
            } else {
                if let WorldRendererCommand::ReplaceInstance(_, e) = r.commands[j] {
                    let i = entity_index(w, x.instance_entity)->Some_0;
                    assert(e == x.instance_entity);
                    lemma_entity_index_at(r, e, i);
                }
            }
        }
        assert forall|j1: int, j2: int|
            from <= j1 < r.commands.len() && from <= j2 < r.commands.len()
                && (#[trigger] r.commands[j1]) is ReplaceInstance
                && (#[trigger] r.commands[j2]) is ReplaceInstance
                && r.commands[j1]->ReplaceInstance_1 == r.commands[j2]->ReplaceInstance_1 implies j1 == j2 by {
            let wl = w.commands.len() as int;
            if j1 < wl && j2 < wl {
                assert(r.commands[j1] == w.commands[j1]);
                assert(r.commands[j2] == w.commands[j2]);
            } else if j1 >= wl && j2 >= wl {
            } else {
                // One of the two was queued before this step: its entity is
                // already being recreated, so this step emits no replacement.
                let old_j = if j1 < wl { j1 } else { j2 };
                assert(r.commands[old_j] == w.commands[old_j]);
                let e = w.commands[old_j]->ReplaceInstance_1;
                assert(replaced_for_changed_source(w, e));
                let i = entity_index(w, e)->Some_0;
                assert(e == x.instance_entity);
                assert(w.records[i].instance == WRInstance::Queued);
            }
        }
    }
}

/// No two records hold the same live instance handle.
pub open spec fn distinct_ready_handles(v: SyncView) -> bool {
    forall|a: int, b: int|
        0 <= a < v.records.len() && 0 <= b < v.records.len()
            && (#[trigger] v.records[a].instance) is Ready
            && v.records[a].instance == (#[trigger] v.records[b].instance) ==> a == b
}

/// Whether the record at `b` survives the sweep after extraction `xs`.
pub open spec fn kept_at(v: SyncView, xs: Seq<MeshInstanceExtracted>, b: int) -> bool {
    survives(v.records[b], seen_in(xs, v.entities[b]))
}

/// The removal command for the record at `b`, which holds a live instance.
pub open spec fn removal_at(v: SyncView, b: int) -> WorldRendererCommand {
    WorldRendererCommand::RemoveInstance(v.records[b].instance->Ready_0)
}

/// Kept entry `a` of a sweep's result (`es`, `rs`) is registry entry `b`, its
/// record marked by whether it was seen.
pub open spec fn kept_from(v: SyncView, xs: Seq<MeshInstanceExtracted>, es: Seq<u64>, rs: Seq<RenderInstance>, a: int, b: int) -> bool {
    &&& 0 <= b < v.entities.len()
    &&& kept_at(v, xs, b)
    &&& es[a] == v.entities[b]
    &&& rs[a] == (RenderInstance { active: seen_in(xs, v.entities[b]), ..v.records[b] })
}

/// The registry entry that kept entry `a` of the sweep over the first `n`
/// entries comes from.
pub open spec fn kept_source(v: SyncView, xs: Seq<MeshInstanceExtracted>, n: int, a: int) -> int
    decreases n,
{
    if n <= 0 {
        0
    } else if kept_at(v, xs, n - 1) && a == sweep_prefix(v, xs, n - 1).0.len() {
        n - 1
    } else {
        kept_source(v, xs, n - 1, a)
    }
}

/// The entries that the sweep over the first `n` keeps (`es`, `rs`): exactly
/// the surviving ones, each with its record marked by whether it was seen.
proof fn lemma_sweep_kept(v: SyncView, xs: Seq<MeshInstanceExtracted>, n: int, es: Seq<u64>, rs: Seq<RenderInstance>)
    requires
        v.valid(),
        0 <= n <= v.entities.len(),
        es == sweep_prefix(v, xs, n).0,
        rs == sweep_prefix(v, xs, n).1,
    ensures
        forall|b: int| 0 <= b < n && #[trigger] kept_at(v, xs, b)
            ==> exists|a: int| 0 <= a < es.len() && es[a] == v.entities[b],
        forall|a: int| #![trigger kept_source(v, xs, n, a)] 0 <= a < es.len()
            ==> kept_source(v, xs, n, a) < n && kept_from(v, xs, es, rs, a, kept_source(v, xs, n, a)),
    decreases n,
{
    if n > 0 {
        let es0 = sweep_prefix(v, xs, n - 1).0;
        let rs0 = sweep_prefix(v, xs, n - 1).1;
        lemma_sweep_kept(v, xs, n - 1, es0, rs0);
        lemma_sweep_prefix_keeps_distinct(v, xs, n - 1);
        let b0 = n - 1;
        let kept0 = kept_at(v, xs, b0);
        let r0 = RenderInstance { active: seen_in(xs, v.entities[b0]), ..v.records[b0] };
        assert(kept0 ==> es == es0.push(v.entities[b0]));
        assert(kept0 ==> rs == rs0.push(r0));
        assert(!kept0 ==> es == es0);
        assert(!kept0 ==> rs == rs0);
        assert forall|b: int| 0 <= b < n && #[trigger] kept_at(v, xs, b)
            implies exists|a: int| 0 <= a < es.len() && es[a] == v.entities[b] by {
            if b < b0 {
                let a = choose|a: int| 0 <= a < es0.len() && es0[a] == v.entities[b];
                assert(es[a] == v.entities[b]);
            } else {
                assert(es[es0.len() as int] == v.entities[b]);
            }
        }
        assert forall|a: int| #![trigger kept_source(v, xs, n, a)] 0 <= a < es.len()
            implies kept_source(v, xs, n, a) < n && kept_from(v, xs, es, rs, a, kept_source(v, xs, n, a)) by {
            if a < es0.len() {
                assert(kept_from(v, xs, es0, rs0, a, kept_source(v, xs, n - 1, a)));
            }
        }
    } else {
        assert(es.len() == 0);
    }
}

/// The removals that the sweep over the first `n` entries emits: one for each
/// dropped entry that held a live instance, and no two alike.
proof fn lemma_sweep_removals(v: SyncView, xs: Seq<MeshInstanceExtracted>, n: int)
    requires
        v.valid(),
        distinct_ready_handles(v),
        0 <= n <= v.entities.len(),
    ensures
        forall|b: int| 0 <= b < n && !kept_at(v, xs, b) && (#[trigger] v.records[b].instance) is Ready
            ==> exists|j: int| 0 <= j < sweep_prefix(v, xs, n).2.len()
                && sweep_prefix(v, xs, n).2[j] == removal_at(v, b),
        forall|j: int| 0 <= j < sweep_prefix(v, xs, n).2.len()
            ==> exists|b: int| 0 <= b < n && v.records[b].instance is Ready
                && #[trigger] sweep_prefix(v, xs, n).2[j] == removal_at(v, b),
        forall|j1: int, j2: int|
            0 <= j1 < sweep_prefix(v, xs, n).2.len() && 0 <= j2 < sweep_prefix(v, xs, n).2.len()
                && #[trigger] sweep_prefix(v, xs, n).2[j1] == #[trigger] sweep_prefix(v, xs, n).2[j2]
                ==> j1 == j2,
    decreases n,
{
    if n > 0 {
        lemma_sweep_removals(v, xs, n - 1);
        let (es, rs, cs) = sweep_prefix(v, xs, n - 1);
        let (es2, rs2, cs2) = sweep_prefix(v, xs, n);
        let b0 = n - 1;
        if kept_at(v, xs, b0) {
            assert(cs2 == cs);
        } else {
            assert forall|b: int| 0 <= b < n && !kept_at(v, xs, b) && (#[trigger] v.records[b].instance) is Ready
                implies exists|j: int| 0 <= j < cs2.len() && cs2[j] == removal_at(v, b) by {
                if b < b0 {
                    let j = choose|j: int| 0 <= j < cs.len() && cs[j] == removal_at(v, b);
                    assert(cs2[j] == cs[j]);
                } else {
                    assert(cs2[cs.len() as int] == removal_at(v, b));
                }
            }
            assert forall|j: int| 0 <= j < cs2.len()
                implies exists|b: int| 0 <= b < n && v.records[b].instance is Ready
                    && #[trigger] cs2[j] == removal_at(v, b) by {
                if j < cs.len() {
                    let b = choose|b: int| 0 <= b < n - 1 && v.records[b].instance is Ready
                        && #[trigger] cs[j] == removal_at(v, b);
                    assert(cs2[j] == cs[j]);
                } else {
                    assert(cs2[j] == removal_at(v, b0));
                }
            }
            assert forall|j1: int, j2: int|
                0 <= j1 < cs2.len() && 0 <= j2 < cs2.len() && #[trigger] cs2[j1] == #[trigger] cs2[j2]
                implies j1 == j2 by {
                if j1 < cs.len() && j2 < cs.len() {
                    assert(cs2[j1] == cs[j1] && cs2[j2] == cs[j2]);
                } else if j1 < cs.len() || j2 < cs.len() {
                    let jo = if j1 < cs.len() { j1 } else { j2 };
                    assert(cs2[jo] == cs[jo]);
                    let b = choose|b: int| 0 <= b < n - 1 && v.records[b].instance is Ready
                        && #[trigger] cs[jo] == removal_at(v, b);
                    assert(v.records[b].instance == v.records[b0].instance);
                }
            }
        }
    }
}

/// Lifecycle closure: after a frame from which a registered entity is absent,
/// the sweep drops its record if it held a live instance, and queues exactly
/// one `RemoveInstance` of that handle. A record with no live instance (not
/// created yet, or being created) stays as it was, marked inactive, for a
/// later sweep.
pub proof fn law_lifecycle_closure(v: SyncView, xs: Seq<MeshInstanceExtracted>, e: u64)
    requires
        v.valid(),
        distinct_ready_handles(v),
        entity_index(v, e) is Some,
        !seen_in(xs, e),
    ensures
        ({
            let i = entity_index(v, e)->Some_0;
            let r = sweep(v, xs);
            let from = v.commands.len() as int;
            &&& r.valid()
            &&& v.records[i].instance is Ready ==> entity_index(r, e) is None
            &&& !(v.records[i].instance is Ready) ==> {
                &&& entity_index(r, e) is Some
                &&& r.records[entity_index(r, e)->Some_0]
                    == (RenderInstance { active: false, ..v.records[i] })
            }
            &&& forall|h: InstanceHandle| v.records[i].instance == WRInstance::Ready(h) ==> {
                &&& exists|j: int| from <= j < r.commands.len() && r.commands[j] == WorldRendererCommand::RemoveInstance(h)
                &&& forall|j1: int, j2: int|
                    from <= j1 < r.commands.len() && from <= j2 < r.commands.len()
                        && r.commands[j1] == WorldRendererCommand::RemoveInstance(h)
                        && r.commands[j2] == WorldRendererCommand::RemoveInstance(h) ==> j1 == j2
            }
        }),
{
    let i = entity_index(v, e)->Some_0;
    let n = v.entities.len() as int;
    let r = sweep(v, xs);
    let from = v.commands.len() as int;
    lemma_sweep_kept(v, xs, n, sweep_prefix(v, xs, n).0, sweep_prefix(v, xs, n).1);
    lemma_sweep_removals(v, xs, n);
    lemma_sweep_prefix_keeps_distinct(v, xs, n);
    let (es, rs, cs) = sweep_prefix(v, xs, n);
    assert(r.entities == es && r.records == rs && r.commands == v.commands + cs);
    assert(r.valid());
    if v.records[i].instance is Ready {
        assert(!kept_at(v, xs, i));
        if entity_index(r, e) is Some {
            let a = entity_index(r, e)->Some_0;
            let b = kept_source(v, xs, n, a);
            assert(kept_from(v, xs, es, rs, a, b));
            assert(v.entities[b] == v.entities[i]);
        }
    } else {
        assert(kept_at(v, xs, i));
        let a = choose|a: int| 0 <= a < es.len() && es[a] == v.entities[i];
        lemma_entity_index_at(r, e, a);
        let b = kept_source(v, xs, n, a);
        assert(kept_from(v, xs, es, rs, a, b));
        assert(v.entities[b] == v.entities[i]);
    }
    assert forall|h: InstanceHandle| v.records[i].instance == WRInstance::Ready(h) implies {
        &&& exists|j: int| from <= j < r.commands.len() && r.commands[j] == WorldRendererCommand::RemoveInstance(h)
        &&& forall|j1: int, j2: int|
            from <= j1 < r.commands.len() && from <= j2 < r.commands.len()
                && r.commands[j1] == WorldRendererCommand::RemoveInstance(h)
                && r.commands[j2] == WorldRendererCommand::RemoveInstance(h) ==> j1 == j2
    } by {
        assert(!kept_at(v, xs, i));
        assert(v.records[i].instance is Ready);
        let j = choose|j: int| 0 <= j < cs.len() && cs[j] == removal_at(v, i);
        assert(r.commands[from + j] == cs[j]);
        assert forall|j1: int, j2: int|
            from <= j1 < r.commands.len() && from <= j2 < r.commands.len()
                && r.commands[j1] == WorldRendererCommand::RemoveInstance(h)
                && r.commands[j2] == WorldRendererCommand::RemoveInstance(h) implies j1 == j2 by {
            assert(r.commands[j1] == cs[j1 - from]);
            assert(r.commands[j2] == cs[j2 - from]);
        }
    }
}

/// An entity registered after a frame's reconciliation was registered before
/// it or extracted in it.
proof fn lemma_registered_origin(v: SyncView, xs: Seq<MeshInstanceExtracted>, e: u64)
    requires
        v.valid(),
        entity_index(reconcile_all(v, xs), e) is Some,
    ensures
        entity_index(v, e) is Some || seen_in(xs, e),
    decreases xs.len(),
{
    if xs.len() > 0 {
        let pre = xs.drop_last();
        let w = reconcile_all(v, pre);
        let x = xs.last();
        let r = reconcile_one(w, x);
        lemma_reconcile_all_grows(v, pre);
        if e == x.instance_entity {
            assert(xs[xs.len() - 1].instance_entity == e);
        } else {
            let i = entity_index(r, e)->Some_0;
            assert(r.entities[i] == e);
            assert(i < w.entities.len());
            assert(w.entities[i] == e);
            lemma_entity_index_at(w, e, i);
            lemma_registered_origin(v, pre, e);
            if seen_in(pre, e) {
                let k = choose|k: int| 0 <= k < pre.len() && pre[k].instance_entity == e;
                assert(xs[k] == pre[k]);
            }
        }
    }
}

/// No two extracted instances of a frame are for the same entity.
pub open spec fn distinct_entities(xs: Seq<MeshInstanceExtracted>) -> bool {
    forall|k1: int, k2: int|
        0 <= k1 < xs.len() && 0 <= k2 < xs.len()
            && (#[trigger] xs[k1]).instance_entity == (#[trigger] xs[k2]).instance_entity ==> k1 == k2
}

proof fn lemma_distinct_prefix(xs: Seq<MeshInstanceExtracted>)
    requires
        xs.len() > 0,
        distinct_entities(xs),
    ensures
        distinct_entities(xs.drop_last()),
        !seen_in(xs.drop_last(), xs.last().instance_entity),
{
    let pre = xs.drop_last();
    assert forall|k1: int, k2: int|
        0 <= k1 < pre.len() && 0 <= k2 < pre.len()
            && (#[trigger] pre[k1]).instance_entity == (#[trigger] pre[k2]).instance_entity implies k1 == k2 by {
        assert(pre[k1] == xs[k1] && pre[k2] == xs[k2]);
    }
    if seen_in(pre, xs.last().instance_entity) {
        let k = choose|k: int| 0 <= k < pre.len() && pre[k].instance_entity == xs.last().instance_entity;
        assert(pre[k] == xs[k]);
        assert(xs[xs.len() - 1] == xs.last());
    }
}

/// Dedup at reconciliation: a frame that extracts each entity once never
/// uploads a mesh (it queues no `AddMesh`), keeps every cache entry as it
/// was, and adds one `Empty` entry for each mesh source, named by a newly
/// registered entity, that the cache did not know; so a key has exactly one
/// cache entry however many entities share it.
pub proof fn law_reconcile_registers_each_key_once(v: SyncView, xs: Seq<MeshInstanceExtracted>)
    requires
        v.valid(),
        distinct_entities(xs),
    ensures
        reconcile_all(v, xs).valid(),
        grows_from(v, reconcile_all(v, xs)),
        forall|j: int| v.commands.len() <= j < reconcile_all(v, xs).commands.len()
            ==> !((#[trigger] reconcile_all(v, xs).commands[j]) is AddMesh),
        forall|k: int| 0 <= k < xs.len() && entity_index(v, (#[trigger] xs[k]).instance_entity) is None
            ==> has_key(reconcile_all(v, xs).mesh_keys, xs[k].mesh_name@),
        forall|m: int| #![trigger reconcile_all(v, xs).mesh_keys[m]]
            v.mesh_keys.len() <= m < reconcile_all(v, xs).mesh_keys.len()
            ==> exists|k: int| 0 <= k < xs.len() && entity_index(v, (#[trigger] xs[k]).instance_entity) is None
                && reconcile_all(v, xs).mesh_keys[m] == xs[k].mesh_name,
    decreases xs.len(),
{
    lemma_reconcile_all_grows(v, xs);
    if xs.len() > 0 {
        let pre = xs.drop_last();
        let w = reconcile_all(v, pre);
        let x = xs.last();
        let r = reconcile_one(w, x);
        lemma_distinct_prefix(xs);
        law_reconcile_registers_each_key_once(v, pre);
        lemma_reconcile_all_grows(v, pre);
        lemma_reconcile_one_grows(w, x);
        assert(xs[xs.len() - 1] == x);
        assert forall|j: int| v.commands.len() <= j < r.commands.len()
            implies !((#[trigger] r.commands[j]) is AddMesh) by {
            if j < w.commands.len() {
                assert(r.commands[j] == w.commands[j]);
            }
        }
        assert forall|k: int| 0 <= k < xs.len() && entity_index(v, (#[trigger] xs[k]).instance_entity) is None
            implies has_key(r.mesh_keys, xs[k].mesh_name@) by {
            if k < xs.len() - 1 {
                assert(pre[k] == xs[k]);
                let m = choose|m: int| 0 <= m < w.mesh_keys.len() && w.mesh_keys[m]@ == xs[k].mesh_name@;
                assert(r.mesh_keys[m] == w.mesh_keys[m]);
            } else {
                if entity_index(w, x.instance_entity) is Some {
                    lemma_registered_origin(v, pre, x.instance_entity);
                }
                if has_key(w.mesh_keys, x.mesh_name@) {
                    let m = choose|m: int| 0 <= m < w.mesh_keys.len() && w.mesh_keys[m]@ == x.mesh_name@;
                    assert(r.mesh_keys[m] == w.mesh_keys[m]);
                } else {
                    assert(r.mesh_keys[w.mesh_keys.len() as int] == x.mesh_name);
                }
            }
        }
        assert forall|m: int| #![trigger r.mesh_keys[m]] v.mesh_keys.len() <= m < r.mesh_keys.len()
            implies exists|k: int| 0 <= k < xs.len() && entity_index(v, (#[trigger] xs[k]).instance_entity) is None
                && r.mesh_keys[m] == xs[k].mesh_name by {
            if m < w.mesh_keys.len() {
                let k = choose|k: int| 0 <= k < pre.len() && entity_index(v, (#[trigger] pre[k]).instance_entity) is None
                    && w.mesh_keys[m] == pre[k].mesh_name;
                assert(pre[k] == xs[k]);
                assert(r.mesh_keys[m] == w.mesh_keys[m]);
            } else {
                assert(entity_index(w, x.instance_entity) is None);
                if entity_index(v, x.instance_entity) is Some {
                    lemma_entity_kept(v, w, x.instance_entity);
                }
                assert(r.mesh_keys[m] == xs[xs.len() - 1].mesh_name);
            }
        }
    }
}

/// Whether the advance uploads cache entry `i`: its load was running and the
/// first report about it says the load succeeded.
pub open spec fn uploads_at(v: SyncView, done: Seq<LoadReport>, i: int) -> bool {
    &&& v.mesh_states[i] == RenderMesh::Queued
    &&& report_of(done, v.mesh_keys[i]@) == Some(true)
}

/// The cache entry that upload `j` of the advance over the first `n` entries
/// is for.
pub open spec fn upload_source(v: SyncView, done: Seq<LoadReport>, n: int, j: int) -> int
    decreases n,
{
    if n <= 0 {
        0
    } else if uploads_at(v, done, n - 1) && j == advance_prefix(v, done, n - 1).1.len() {
        n - 1
    } else {
        upload_source(v, done, n - 1, j)
    }
}

proof fn lemma_advance_uploads(v: SyncView, done: Seq<LoadReport>, n: int, ss: Seq<RenderMesh>, cs: Seq<WorldRendererCommand>)
    requires
        v.valid(),
        0 <= n <= v.mesh_keys.len(),
        ss == advance_prefix(v, done, n).0,
        cs == advance_prefix(v, done, n).1,
    ensures
        ss.len() == n,
        forall|i: int| 0 <= i < n
            ==> #[trigger] ss[i] == advance_entry(v.mesh_keys[i], v.mesh_states[i], done, v.changed).0,
        forall|j: int| #![trigger upload_source(v, done, n, j)] 0 <= j < cs.len() ==> {
            &&& 0 <= upload_source(v, done, n, j) < n
            &&& uploads_at(v, done, upload_source(v, done, n, j))
            &&& cs[j] == WorldRendererCommand::AddMesh(v.mesh_keys[upload_source(v, done, n, j)])
        },
        forall|j1: int, j2: int| 0 <= j1 < j2 < cs.len()
            ==> #[trigger] upload_source(v, done, n, j1) < #[trigger] upload_source(v, done, n, j2),
        forall|i: int| 0 <= i < n && #[trigger] uploads_at(v, done, i)
            ==> exists|j: int| 0 <= j < cs.len() && cs[j] == WorldRendererCommand::AddMesh(v.mesh_keys[i]),
    decreases n,
{
    lemma_advance_prefix_len(v, done, n);
    if n > 0 {
        let ss0 = advance_prefix(v, done, n - 1).0;
        let cs0 = advance_prefix(v, done, n - 1).1;
        lemma_advance_uploads(v, done, n - 1, ss0, cs0);
        let i0 = n - 1;
        let step = advance_entry(v.mesh_keys[i0], v.mesh_states[i0], done, v.changed);
        assert(ss == ss0.push(step.0));
        assert(cs == cs0 + step.1);
        let up = uploads_at(v, done, i0);
        assert(up ==> step.1 == seq![WorldRendererCommand::AddMesh(v.mesh_keys[i0])]);
        assert(!up ==> step.1 == Seq::<WorldRendererCommand>::empty());
        assert forall|i: int| 0 <= i < n
            implies #[trigger] ss[i] == advance_entry(v.mesh_keys[i], v.mesh_states[i], done, v.changed).0 by {
            if i < i0 {
                assert(ss[i] == ss0[i]);
            }
        }
        assert forall|j: int| #![trigger upload_source(v, done, n, j)] 0 <= j < cs.len() implies {
            &&& 0 <= upload_source(v, done, n, j) < n
            &&& uploads_at(v, done, upload_source(v, done, n, j))
            &&& cs[j] == WorldRendererCommand::AddMesh(v.mesh_keys[upload_source(v, done, n, j)])
        } by {
            if j < cs0.len() {
                assert(upload_source(v, done, n, j) == upload_source(v, done, n - 1, j));
                assert(cs[j] == cs0[j]);
            } else {
                assert(upload_source(v, done, n, j) == i0);
            }
        }
        assert forall|j1: int, j2: int| 0 <= j1 < j2 < cs.len()
            implies #[trigger] upload_source(v, done, n, j1) < #[trigger] upload_source(v, done, n, j2) by {
            assert(upload_source(v, done, n, j1) == upload_source(v, done, n - 1, j1));
            if j2 < cs0.len() {
                assert(upload_source(v, done, n, j2) == upload_source(v, done, n - 1, j2));
            } else {
                assert(upload_source(v, done, n - 1, j1) < n - 1);
            }
        }
        assert forall|i: int| 0 <= i < n && #[trigger] uploads_at(v, done, i)
            implies exists|j: int| 0 <= j < cs.len() && cs[j] == WorldRendererCommand::AddMesh(v.mesh_keys[i]) by {
            if i < i0 {
                let j = choose|j: int| 0 <= j < cs0.len() && cs0[j] == WorldRendererCommand::AddMesh(v.mesh_keys[i]);
                assert(cs[j] == cs0[j]);
            } else {
                assert(cs[cs0.len() as int] == WorldRendererCommand::AddMesh(v.mesh_keys[i]));
            }
        }
    }
}

/// Dedup of uploads: an advance of the mesh cache queues an `AddMesh` only
/// for a key whose load was running and completed, exactly one for each such
/// key, and moves that key to `Uploading`, where no later advance uploads it
/// again; a key in any other state gets none.
pub proof fn law_single_upload_per_key(v: SyncView, done: Seq<LoadReport>)
    requires
        v.valid(),
    ensures
        ({
            let r = advance(v, done).0;
            let from = v.commands.len() as int;
            &&& forall|j: int| from <= j < r.commands.len()
                ==> exists|i: int| 0 <= i < v.mesh_keys.len() && uploads_at(v, done, i)
                    && #[trigger] r.commands[j] == WorldRendererCommand::AddMesh(v.mesh_keys[i])
                    && r.mesh_states[i] == RenderMesh::Uploading
            &&& forall|j1: int, j2: int|
                from <= j1 < r.commands.len() && from <= j2 < r.commands.len()
                    && (#[trigger] r.commands[j1])->AddMesh_0@ == (#[trigger] r.commands[j2])->AddMesh_0@
                    ==> j1 == j2
            &&& forall|i: int| 0 <= i < v.mesh_keys.len() && #[trigger] uploads_at(v, done, i)
                ==> exists|j: int| from <= j < r.commands.len() && r.commands[j] == WorldRendererCommand::AddMesh(v.mesh_keys[i])
        }),
{
    let n = v.mesh_keys.len() as int;
    let ss = advance_prefix(v, done, n).0;
    let cs = advance_prefix(v, done, n).1;
    lemma_advance_uploads(v, done, n, ss, cs);
    let r = advance(v, done).0;
    let from = v.commands.len() as int;
    assert(r.commands == v.commands + cs);
    assert(r.mesh_states == ss);
    assert forall|j: int| from <= j < r.commands.len()
        implies exists|i: int| 0 <= i < v.mesh_keys.len() && uploads_at(v, done, i)
            && #[trigger] r.commands[j] == WorldRendererCommand::AddMesh(v.mesh_keys[i])
            && r.mesh_states[i] == RenderMesh::Uploading by {
        let i = upload_source(v, done, n, j - from);
        assert(r.commands[j] == cs[j - from]);
        assert(ss[i] == advance_entry(v.mesh_keys[i], v.mesh_states[i], done, v.changed).0);
    }
    assert forall|j1: int, j2: int|
        from <= j1 < r.commands.len() && from <= j2 < r.commands.len()
            && (#[trigger] r.commands[j1])->AddMesh_0@ == (#[trigger] r.commands[j2])->AddMesh_0@
            implies j1 == j2 by {
        let i1 = upload_source(v, done, n, j1 - from);
        let i2 = upload_source(v, done, n, j2 - from);
        assert(r.commands[j1] == cs[j1 - from]);
        assert(r.commands[j2] == cs[j2 - from]);
        if j1 < j2 {
            assert(i1 < i2);
        } else if j2 < j1 {
            assert(i2 < i1);
        }
    }
    assert forall|i: int| 0 <= i < v.mesh_keys.len() && #[trigger] uploads_at(v, done, i)
        implies exists|j: int| from <= j < r.commands.len() && r.commands[j] == WorldRendererCommand::AddMesh(v.mesh_keys[i]) by {
        let j = choose|j: int| 0 <= j < cs.len() && cs[j] == WorldRendererCommand::AddMesh(v.mesh_keys[i]);
        assert(r.commands[from + j] == cs[j]);
    }
}

/// Reconciling instances of other entities leaves an entity's record as it was.
proof fn lemma_record_untouched(v: SyncView, xs: Seq<MeshInstanceExtracted>, e: u64)
    requires
        v.valid(),
        entity_index(v, e) is Some,
        forall|k: int| 0 <= k < xs.len() ==> (#[trigger] xs[k]).instance_entity != e,
    ensures
        entity_index(reconcile_all(v, xs), e) == entity_index(v, e),
        reconcile_all(v, xs).records[entity_index(v, e)->Some_0] == v.records[entity_index(v, e)->Some_0],
    decreases xs.len(),
{
    lemma_reconcile_all_grows(v, xs);
    lemma_entity_kept(v, reconcile_all(v, xs), e);
    if xs.len() > 0 {
        let w = reconcile_all(v, xs.drop_last());
        let x = xs.last();
        assert forall|k: int| 0 <= k < xs.drop_last().len()
            implies (#[trigger] xs.drop_last()[k]).instance_entity != e by {
            assert(xs.drop_last()[k] == xs[k]);
        }
        lemma_record_untouched(v, xs.drop_last(), e);
        lemma_reconcile_all_grows(v, xs.drop_last());
        assert(x == xs[xs.len() - 1]);
        assert(x.instance_entity != e);
        let i = entity_index(v, e)->Some_0;
        let r = reconcile_one(w, x);
        assert(reconcile_all(v, xs) == r);
        assert(w.records[i] == v.records[i]);
        match entity_index(w, x.instance_entity) {
            Some(i2) => {
                assert(w.entities[i2] != w.entities[i]);
                assert(r.records[i] == w.records[i]);
            },
            None => {
                assert(r.records[i] == w.records[i]);
            },
        }
    }
}

/// Hot reload reaches every entity: in a frame that extracts each entity once,
/// an entity whose instance was ready on a mesh source the cache holds as
/// changed gets a `ReplaceInstance` of that instance (exactly one, by
/// `law_hot_reload_isolation`).
pub proof fn law_hot_reload_replaces_each_user(v: SyncView, xs: Seq<MeshInstanceExtracted>, k: int, h: InstanceHandle)
    requires
        v.valid(),
        distinct_entities(xs),
        0 <= k < xs.len(),
        entity_index(v, xs[k].instance_entity) is Some,
        v.records[entity_index(v, xs[k].instance_entity)->Some_0].instance == WRInstance::Ready(h),
        mesh_state_of(v, v.records[entity_index(v, xs[k].instance_entity)->Some_0].mesh_source@)
            == Some(RenderMesh::Update),
    ensures
        exists|j: int| v.commands.len() <= j < reconcile_all(v, xs).commands.len()
            && reconcile_all(v, xs).commands[j] == WorldRendererCommand::ReplaceInstance(h, xs[k].instance_entity),
    decreases xs.len(),
{
    let e = xs[k].instance_entity;
    let pre = xs.drop_last();
    let w = reconcile_all(v, pre);
    let x = xs.last();
    let r = reconcile_one(w, x);
    lemma_reconcile_all_grows(v, pre);
    assert(reconcile_all(v, xs) == r);
    if k < xs.len() - 1 {
        assert(pre[k] == xs[k]);
        assert forall|k1: int, k2: int|
            0 <= k1 < pre.len() && 0 <= k2 < pre.len()
                && (#[trigger] pre[k1]).instance_entity == (#[trigger] pre[k2]).instance_entity implies k1 == k2 by {
            assert(pre[k1] == xs[k1] && pre[k2] == xs[k2]);
        }
        law_hot_reload_replaces_each_user(v, pre, k, h);
        let j = choose|j: int| v.commands.len() <= j < w.commands.len()
            && w.commands[j] == WorldRendererCommand::ReplaceInstance(h, e);
        lemma_reconcile_one_grows(w, x);
        assert(r.commands[j] == w.commands[j]);
    } else {
        assert forall|k2: int| 0 <= k2 < pre.len() implies (#[trigger] pre[k2]).instance_entity != e by {
            assert(pre[k2] == xs[k2]);
        }
        lemma_record_untouched(v, pre, e);
        let i = entity_index(v, e)->Some_0;
        lemma_mesh_state_kept(v, w, v.records[i].mesh_source@);
        assert(x == xs[k]);
        assert(reconcile_all(v, xs) == r);
        assert(w.records[i] == v.records[i]);
        assert(entity_index(w, e) == Some(i));
        assert(r.commands == w.commands + seq![WorldRendererCommand::ReplaceInstance(h, e)]);
        assert(r.commands[w.commands.len() as int] == WorldRendererCommand::ReplaceInstance(h, e));
    }
}

/// A sweep keeps live instance handles distinct.
proof fn lemma_sweep_keeps_handles_distinct(v: SyncView, xs: Seq<MeshInstanceExtracted>)
    requires
        v.valid(),
        distinct_ready_handles(v),
    ensures
        distinct_ready_handles(sweep(v, xs)),
{
    let n = v.entities.len() as int;
    let es = sweep_prefix(v, xs, n).0;
    let rs = sweep_prefix(v, xs, n).1;
    lemma_sweep_kept(v, xs, n, es, rs);
    lemma_sweep_prefix_keeps_distinct(v, xs, n);
    let r = sweep(v, xs);
    assert forall|a: int, b: int|
        0 <= a < r.records.len() && 0 <= b < r.records.len()
            && (#[trigger] r.records[a].instance) is Ready
            && r.records[a].instance == (#[trigger] r.records[b].instance) implies a == b by {
        let ba = kept_source(v, xs, n, a);
        let bb = kept_source(v, xs, n, b);
        assert(kept_from(v, xs, es, rs, a, ba));
        assert(kept_from(v, xs, es, rs, b, bb));
        assert(v.records[ba].instance == v.records[bb].instance);
        assert(es[a] == es[b]);
    }
}

/// Lifecycle closure over two sweeps: an entity that leaves the scene while
/// its instance is being created keeps its record through the first sweep.
/// Once its `AddInstance` is applied and the renderer created the instance
/// (with a fresh handle), the next sweep without it drops the record and
/// queues exactly one `RemoveInstance` of that handle; if the renderer failed,
/// no handle exists and the record stays, inactive.
pub proof fn law_lifecycle_two_sweeps(
    v: SyncView,
    xs1: Seq<MeshInstanceExtracted>,
    xs2: Seq<MeshInstanceExtracted>,
    e: u64,
    add: WorldRendererCommand,
    out: BackendOutcome,
)
    requires
        v.valid(),
        distinct_ready_handles(v),
        entity_index(v, e) is Some,
        v.records[entity_index(v, e)->Some_0].instance == WRInstance::Queued,
        !seen_in(xs1, e),
        !seen_in(xs2, e),
        add is AddInstance,
        add->AddInstance_0 == e,
        forall|h: InstanceHandle| out == BackendOutcome::InstanceCreated(h)
            ==> forall|a: int| 0 <= a < sweep(v, xs1).records.len()
                ==> (#[trigger] sweep(v, xs1).records[a]).instance != WRInstance::Ready(h),
    ensures
        ({
            let s1 = sweep(v, xs1);
            let s2 = finish(s1, add, out);
            let s3 = sweep(s2, xs2);
            &&& entity_index(s1, e) is Some
            &&& out is InstanceCreated ==> entity_index(s3, e) is None
            &&& forall|h: InstanceHandle| out == BackendOutcome::InstanceCreated(h) ==> {
                &&& exists|j: int| s2.commands.len() <= j < s3.commands.len()
                    && s3.commands[j] == WorldRendererCommand::RemoveInstance(h)
                &&& forall|j1: int, j2: int|
                    s2.commands.len() <= j1 < s3.commands.len() && s2.commands.len() <= j2 < s3.commands.len()
                        && s3.commands[j1] == WorldRendererCommand::RemoveInstance(h)
                        && s3.commands[j2] == WorldRendererCommand::RemoveInstance(h) ==> j1 == j2
            }
        }),
{
    let s1 = sweep(v, xs1);
    law_lifecycle_closure(v, xs1, e);
    lemma_sweep_keeps_handles_distinct(v, xs1);
    let a = entity_index(s1, e)->Some_0;
    let s2 = finish(s1, add, out);
    let inst = match out {
        BackendOutcome::InstanceCreated(ih) => WRInstance::Ready(ih),
        _ => WRInstance::Unset,
    };
    assert(s2.records == s1.records.update(a, RenderInstance { instance: inst, ..s1.records[a] }));
    assert(s2.entities == s1.entities);
    assert(s2.valid());
    assert(entity_index(s2, e) == Some(a));
    assert forall|p: int, q: int|
        0 <= p < s2.records.len() && 0 <= q < s2.records.len()
            && (#[trigger] s2.records[p].instance) is Ready
            && s2.records[p].instance == (#[trigger] s2.records[q].instance) implies p == q by {
        if p != a && q != a {
            assert(s2.records[p] == s1.records[p] && s2.records[q] == s1.records[q]);
        } else if p == a && q != a {
            assert(s2.records[q] == s1.records[q]);
            assert(s1.records[q].instance != inst);
        } else if q == a && p != a {
            assert(s2.records[p] == s1.records[p]);
            assert(s1.records[p].instance != inst);
        }
    }
    law_lifecycle_closure(s2, xs2, e);
}

/// `AddInstance(e, mh, t)` queued by reconciling `xs` from `v` into `r` is
/// justified: `e` was extracted with transform `t`, it was registered in `v`
/// with no instance, its mesh source was ready in `v` as `mh`, and its record
/// in `r` is now waiting for the instance.
pub open spec fn add_instance_justified(
    v: SyncView,
    xs: Seq<MeshInstanceExtracted>,
    r: SyncView,
    e: u64,
    mh: MeshHandle,
    t: MeshTransform,
) -> bool {
    &&& exists|k: int| 0 <= k < xs.len() && (#[trigger] xs[k]).instance_entity == e && xs[k].transform == t
    &&& entity_index(v, e) is Some
    &&& v.records[entity_index(v, e)->Some_0].instance == WRInstance::Unset
    &&& mesh_state_of(v, v.records[entity_index(v, e)->Some_0].mesh_source@) == Some(RenderMesh::Ready(mh))
    &&& entity_index(r, e) == entity_index(v, e)
    &&& r.records[entity_index(v, e)->Some_0].instance == WRInstance::Queued
}

/// No use before ready, in full for a frame that extracts each entity once:
/// every `AddInstance(e, mh, t)` it queues is for an entity registered before
/// the frame with no instance, whose mesh source the cache held ready as
/// `mh`, with the transform extracted for it; that record then waits for its
/// instance.
pub proof fn law_add_instance_only_from_unset(v: SyncView, xs: Seq<MeshInstanceExtracted>)
    requires
        v.valid(),
        distinct_entities(xs),
    ensures
        forall|j: int| v.commands.len() <= j < reconcile_all(v, xs).commands.len()
            ==> match #[trigger] reconcile_all(v, xs).commands[j] {
                WorldRendererCommand::AddInstance(e, mh, t) => add_instance_justified(v, xs, reconcile_all(v, xs), e, mh, t),
                _ => true,
            },
    decreases xs.len(),
{
    if xs.len() > 0 {
        let pre = xs.drop_last();
        let w = reconcile_all(v, pre);
        let x = xs.last();
        let r = reconcile_one(w, x);
        lemma_distinct_prefix(xs);
        law_add_instance_only_from_unset(v, pre);
        lemma_reconcile_all_grows(v, pre);
        lemma_reconcile_one_grows(w, x);
        assert(xs[xs.len() - 1] == x);
        assert forall|j: int| v.commands.len() <= j < r.commands.len()
            implies match #[trigger] r.commands[j] {
                WorldRendererCommand::AddInstance(e, mh, t) => add_instance_justified(v, xs, r, e, mh, t),
                _ => true,
            } by {
            if j < w.commands.len() {
                assert(r.commands[j] == w.commands[j]);
                if let WorldRendererCommand::AddInstance(e, mh, t) = w.commands[j] {
                    assert(add_instance_justified(v, pre, w, e, mh, t));
                    let k = choose|k: int| 0 <= k < pre.len() && (#[trigger] pre[k]).instance_entity == e && pre[k].transform == t;
                    assert(xs[k] == pre[k]);
                    assert(e != x.instance_entity);
                    let i = entity_index(v, e)->Some_0;
                    lemma_entity_kept(w, r, e);
                    match entity_index(w, x.instance_entity) {
                        Some(i2) => {
                            assert(w.entities[i2] != w.entities[i]);
                        },
                        None => {},
                    }
                    assert(r.records[i] == w.records[i]);
                }
            } else if let WorldRendererCommand::AddInstance(e, mh, t) = r.commands[j] {
                assert(e == x.instance_entity);
                let i = entity_index(w, e)->Some_0;
                lemma_registered_origin(v, pre, e);
                lemma_record_untouched(v, pre, e);
                let src = w.records[i].mesh_source@;
                let m = key_index(w.mesh_keys, src)->Some_0;
                assert(w.mesh_states[m] == RenderMesh::Ready(mh));
                assert(m < v.mesh_keys.len());
                lemma_key_index_at(v, src, m);
                lemma_entity_index_at(r, e, i);
            }
        }
    }
}

/// Hot-reload isolation across runs: take two states that differ only in the
/// cache state of one key `a`. Reconciling an entity whose mesh source is
/// another key (or a new entity) gives the same result from both: the same
/// commands, the same registry, the same cache keys.
pub proof fn law_other_keys_unaffected(v1: SyncView, v2: SyncView, a: int, x: MeshInstanceExtracted)
    requires
        v1.valid(),
        0 <= a < v1.mesh_keys.len(),
        v2 == (SyncView { mesh_states: v2.mesh_states, ..v1 }),
        v2.mesh_states.len() == v1.mesh_states.len(),
        forall|m: int| 0 <= m < v1.mesh_states.len() && m != a ==> v2.mesh_states[m] == v1.mesh_states[m],
        entity_index(v1, x.instance_entity) is Some
            ==> v1.records[entity_index(v1, x.instance_entity)->Some_0].mesh_source@ != v1.mesh_keys[a]@,
    ensures
        reconcile_one(v1, x).commands == reconcile_one(v2, x).commands,
        reconcile_one(v1, x).entities == reconcile_one(v2, x).entities,
        reconcile_one(v1, x).records == reconcile_one(v2, x).records,
        reconcile_one(v1, x).mesh_keys == reconcile_one(v2, x).mesh_keys,
{
    assert(v2.valid());
    assert(entity_index(v2, x.instance_entity) == entity_index(v1, x.instance_entity));
    if entity_index(v1, x.instance_entity) is Some {
        let i = entity_index(v1, x.instance_entity)->Some_0;
        let src = v1.records[i].mesh_source@;
        assert(key_index(v2.mesh_keys, src) == key_index(v1.mesh_keys, src));
        if key_index(v1.mesh_keys, src) is Some {
            let m = key_index(v1.mesh_keys, src)->Some_0;
            assert(m != a);
        }
        assert(mesh_state_of(v1, src) == mesh_state_of(v2, src));
    }
}

} // verus!
