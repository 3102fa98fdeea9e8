//! The synchronizer: instance registry, mesh cache and command queue, with the
//! per-frame steps that keep them in line with the extracted scene.

use vstd::prelude::*;
use crate::model::{
    AssetEvent, BackendCall, BackendOutcome, LoadReport, MeshInstanceExtracted, RenderInstance,
    RenderMesh, WRInstance, WorldRendererCommand,
};
use crate::sync_model::{
    entity_index, has_key, key_index, mesh_state_of, new_record, reconcile_all, reconcile_one,
    sync_existing, SyncView, lemma_key_index_at, seen_in, survives, retire_cmds, sweep_prefix, sweep,
    lemma_sweep_prefix_keeps_distinct, report_of, advance_entry, advance_prefix, advance,
    lemma_advance_prefix_len, note_asset, backend_call_of,
    set_mesh_state, finish,
};

verus! {

/// The first position of `k` in `keys`.
fn find_key(keys: &Vec<String>, k: &String) -> (r: Option<usize>)
    ensures
        match r {
            Some(i) => i < keys.len() && keys@[i as int]@ == k@ && has_key(keys@, k@)
                && forall|j: int| 0 <= j < i ==> keys@[j]@ != k@,
            None => !has_key(keys@, k@),
        },
{
    let mut i: usize = 0;
    while i < keys.len()
        invariant
            i <= keys.len(),
            forall|j: int| 0 <= j < i ==> keys@[j]@ != k@,
        decreases keys.len() - i,
    {
        if keys[i] == *k {
            return Some(i);
        }
        i += 1;
    }
    None
}

/// Whether the frame's extraction holds entity `e`.
fn seen_entity(xs: &Vec<MeshInstanceExtracted>, e: u64) -> (r: bool)
    ensures
        r == seen_in(xs@, e),
{
    let mut j: usize = 0;
    while j < xs.len()
        invariant
            j <= xs.len(),
            forall|k: int| 0 <= k < j ==> xs@[k].instance_entity != e,
        decreases xs.len() - j,
    {
        if xs[j].instance_entity == e {
            assert(xs@[j as int].instance_entity == e);
            return true;
        }
        j += 1;
    }
    false
}

/// The first report in `done` about `k`.
fn find_report(done: &Vec<LoadReport>, k: &String) -> (r: Option<bool>)
    ensures
        r == report_of(done@, k@),
{
    let mut j: usize = 0;
    assert(done@.subrange(0, done@.len() as int) =~= done@);
    while j < done.len()
        invariant
            j <= done.len(),
            report_of(done@, k@) == report_of(done@.subrange(j as int, done@.len() as int), k@),
        decreases done.len() - j,
    {
        let ghost rest = done@.subrange(j as int, done@.len() as int);
        assert(rest[0] == done@[j as int]);
        if done[j].key == *k {
            return Some(done[j].ok);
        }
        assert(rest.drop_first() =~= done@.subrange(j as int + 1, done@.len() as int));
        j += 1;
    }
    None
}

/// The registry, the mesh cache and the command queue of one renderer.
pub struct Pipeline {
    entities: Vec<u64>,
    records: Vec<RenderInstance>,
    mesh_keys: Vec<String>,
    mesh_states: Vec<RenderMesh>,
    changed: Vec<String>,
    commands: Vec<WorldRendererCommand>,
}

impl View for Pipeline {
    type V = SyncView;

    closed spec fn view(&self) -> SyncView {
        SyncView {
            entities: self.entities@,
            records: self.records@,
            mesh_keys: self.mesh_keys@,
            mesh_states: self.mesh_states@,
            changed: self.changed@,
            commands: self.commands@,
        }
    }
}

impl Pipeline {
    pub open spec fn wf(&self) -> bool {
        self@.valid()
    }

    /// A pipeline with no entity, no mesh and no pending command.
    pub fn new() -> (r: Pipeline)
        ensures
            r.wf(),
            r@ == SyncView::empty(),
    {
        Pipeline {
            entities: Vec::new(),
            records: Vec::new(),
            mesh_keys: Vec::new(),
            mesh_states: Vec::new(),
            changed: Vec::new(),
            commands: Vec::new(),
        }
    }

    fn find_entity(&self, e: u64) -> (r: Option<usize>)
        requires
            self.wf(),
        ensures
            match r {
                Some(i) => i < self@.entities.len() && entity_index(self@, e) == Some(i as int),
                None => entity_index(self@, e) is None,
            },
    {
        let mut i: usize = 0;
        while i < self.entities.len()
            invariant
                self.wf(),
                i <= self.entities.len(),
                forall|j: int| 0 <= j < i ==> self.entities@[j] != e,
            decreases self.entities.len() - i,
        {
            if self.entities[i] == e {
                proof {
                    let v = self@;
                    assert(v.entities[i as int] == e);
                    let k = choose|k: int| 0 <= k < v.entities.len() && v.entities[k] == e;
                    assert(v.entities[k] == v.entities[i as int]);
                }
                return Some(i);
            }
            i += 1;
        }
        None
    }

    /// The cache state of mesh source `k`.
    fn mesh_state_at(&self, k: &String) -> (r: Option<RenderMesh>)
        requires
            self.wf(),
        ensures
            r == mesh_state_of(self@, k@),
    {
        match find_key(&self.mesh_keys, k) {
            Some(j) => {
                proof {
                    lemma_key_index_at(self@, k@, j as int);
                }
                Some(self.mesh_states[j])
            },
            None => None,
        }
    }

    /// Reconciles one extracted instance against the registry and the cache.
    fn reconcile_instance(&mut self, x: &MeshInstanceExtracted)
        requires
            old(self).wf(),
        ensures
            final(self).wf(),
            final(self)@ == reconcile_one(old(self)@, *x),
    {
        let e = x.instance_entity;
        match self.find_entity(e) {
            Some(i) => {
                let ms = self.mesh_state_at(&self.records[i].mesh_source);
                let old_instance = self.records[i].instance;
                let mut instance = old_instance;
                match old_instance {
                    WRInstance::Ready(h) => {
                        if let Some(RenderMesh::Update) = ms {
                            self.commands.push(WorldRendererCommand::ReplaceInstance(h, e));
                            instance = WRInstance::Queued;
                        } else {
                            if self.records[i].emission != x.emission {
                                self.commands.push(WorldRendererCommand::SetEmission(h, x.emission));
                            }
                            self.commands.push(WorldRendererCommand::UpdateTransform(h, x.transform));
                        }
                    },
                    WRInstance::Unset => {
                        if let Some(RenderMesh::Ready(mh)) = ms {
                            self.commands.push(WorldRendererCommand::AddInstance(e, mh, x.transform));
                            instance = WRInstance::Queued;
                        }
                    },
                    WRInstance::Queued => {},
                }
                let r2 = RenderInstance {
                    mesh_source: self.records[i].mesh_source.clone(),
                    transform: x.transform,
                    emission: x.emission,
                    instance,
                    active: true,
                };
                self.records.set(i, r2);
                proof {
                    let v = old(self)@;
                    let (rr, cmds) = sync_existing(v.records[i as int], *x, mesh_state_of(v, v.records[i as int].mesh_source@));
                    assert(rr == r2);
                    assert(self@.commands =~= v.commands + cmds);
                    assert(self@.records =~= v.records.update(i as int, rr));
                }
            },
            None => {
                let known = find_key(&self.mesh_keys, &x.mesh_name).is_some();
                self.entities.push(e);
                self.records.push(
                    RenderInstance {
                        mesh_source: x.mesh_name.clone(),
                        transform: x.transform,
                        emission: x.emission,
                        instance: WRInstance::Unset,
                        active: true,
                    },
                );
                if !known {
                    self.mesh_keys.push(x.mesh_name.clone());
                    self.mesh_states.push(RenderMesh::Empty);
                }
                proof {
                    let v = old(self)@;
                    assert(self@.records =~= v.records.push(new_record(*x)));
                    assert forall|a: int, b: int|
                        0 <= a < self@.entities.len() && 0 <= b < self@.entities.len()
                            && self@.entities[a] == self@.entities[b] implies a == b by {
                        if a < v.entities.len() && b == v.entities.len() {
                            assert(v.entities[a] == e);
                        }
                        if b < v.entities.len() && a == v.entities.len() {
                            assert(v.entities[b] == e);
                        }
                    }
                    assert forall|a: int, b: int|
                        0 <= a < self@.mesh_keys.len() && 0 <= b < self@.mesh_keys.len()
                            && self@.mesh_keys[a]@ == self@.mesh_keys[b]@ implies a == b by {
                        if !known && a < v.mesh_keys.len() && b == v.mesh_keys.len() {
                            assert(v.mesh_keys[a]@ == x.mesh_name@);
                        }
                        if !known && b < v.mesh_keys.len() && a == v.mesh_keys.len() {
                            assert(v.mesh_keys[b]@ == x.mesh_name@);
                        }
                    }
                }
            },
        }
    }

    /// Reconciles a frame's extracted instances against the registry and the
    /// mesh cache, queueing the commands that bring the renderer in line.
    pub fn process_renderer_instances(&mut self, extracted: &Vec<MeshInstanceExtracted>)
        requires
            old(self).wf(),
        ensures
            final(self).wf(),
            final(self)@ == reconcile_all(old(self)@, extracted@),
    {
        let mut i: usize = 0;
        while i < extracted.len()
            invariant
                self.wf(),
                i <= extracted.len(),
                self@ == reconcile_all(old(self)@, extracted@.take(i as int)),
            decreases extracted.len() - i,
        {
            self.reconcile_instance(&extracted[i]);
            proof {
                assert(extracted@.take(i as int + 1).drop_last() =~= extracted@.take(i as int));
            }
            i += 1;
        }
        assert(extracted@.take(extracted.len() as int) =~= extracted@);
    }

    /// The garbage-collection sweep: every record whose entity is absent from
    /// the frame's extraction and that holds a live instance is dropped, and a
    /// `RemoveInstance` is queued for that instance. Every other record stays,
    /// marked active exactly when its entity was seen.
    pub fn remove_unused_instances(&mut self, extracted: &Vec<MeshInstanceExtracted>)
        requires
            old(self).wf(),
        ensures
            final(self).wf(),
            final(self)@ == sweep(old(self)@, extracted@),
    {
        let ghost v = self@;
        let mut es: Vec<u64> = Vec::new();
        let mut rs: Vec<RenderInstance> = Vec::new();
        let n = self.entities.len();
        let mut i: usize = 0;
        while i < n
            invariant
                self.wf(),
                n == v.entities.len(),
                i <= n,
                self@ == (SyncView { commands: self@.commands, ..v }),
                self@.commands == v.commands + sweep_prefix(v, extracted@, i as int).2,
                es@ == sweep_prefix(v, extracted@, i as int).0,
                rs@ == sweep_prefix(v, extracted@, i as int).1,
            decreases n - i,
        {
            let e = self.entities[i];
            let seen = seen_entity(extracted, e);
            let inst = self.records[i].instance;
            let keep = seen || match inst {
                WRInstance::Ready(_) => false,
                _ => true,
            };
            proof {
                assert(keep == survives(v.records[i as int], seen));
            }
            if keep {
                es.push(e);
                rs.push(
                    RenderInstance {
                        mesh_source: self.records[i].mesh_source.clone(),
                        transform: self.records[i].transform,
                        emission: self.records[i].emission,
                        instance: inst,
                        active: seen,
                    },
                );
            } else {
                if let WRInstance::Ready(h) = inst {
                    self.commands.push(WorldRendererCommand::RemoveInstance(h));
                }
                proof {
                    let cs = sweep_prefix(v, extracted@, i as int).2;
                    assert(self@.commands =~= v.commands + (cs + retire_cmds(v.records[i as int])));
                }
            }
            i += 1;
        }
        proof {
            lemma_sweep_prefix_keeps_distinct(v, extracted@, n as int);
        }
        self.entities = es;
        self.records = rs;
        proof {
            assert(self@ =~= sweep(v, extracted@));
        }
    }

    /// Advances the mesh cache by one frame, given the background loads that
    /// completed since the last one: a new key starts loading, a completed load
    /// queues its `AddMesh` upload (or fails the key), and a ready key reported
    /// modified moves to `Update`. Change reports are then used up, those for
    /// keys that were not ready included. Returns the keys whose loads must
    /// start.
    pub fn process_renderer_meshes(&mut self, done: &Vec<LoadReport>) -> (spawn: Vec<String>)
        requires
            old(self).wf(),
        ensures
            final(self).wf(),
            (final(self)@, spawn@) == advance(old(self)@, done@),
    {
        let ghost v = self@;
        let n = self.mesh_keys.len();
        let mut ss: Vec<RenderMesh> = Vec::new();
        let mut ks: Vec<String> = Vec::new();
        let mut i: usize = 0;
        while i < n
            invariant
                self.wf(),
                n == v.mesh_keys.len(),
                i <= n,
                self@ == (SyncView { commands: self@.commands, ..v }),
                self@.commands == v.commands + advance_prefix(v, done@, i as int).1,
                ss@ == advance_prefix(v, done@, i as int).0,
                ks@ == advance_prefix(v, done@, i as int).2,
            decreases n - i,
        {
            let st = self.mesh_states[i];
            let ghost cs = advance_prefix(v, done@, i as int).1;
            let ghost step = advance_entry(v.mesh_keys[i as int], st, done@, v.changed);
            match st {
                RenderMesh::Empty => {
                    ss.push(RenderMesh::Queued);
                    ks.push(self.mesh_keys[i].clone());
                },
                RenderMesh::Queued => {
                    match find_report(done, &self.mesh_keys[i]) {
                        Some(true) => {
                            ss.push(RenderMesh::Uploading);
                            self.commands.push(WorldRendererCommand::AddMesh(self.mesh_keys[i].clone()));
                        },
                        Some(false) => {
                            ss.push(RenderMesh::Failed);
                        },
                        None => {
                            ss.push(RenderMesh::Queued);
                        },
                    }
                },
                RenderMesh::Ready(_) => {
                    if find_key(&self.changed, &self.mesh_keys[i]).is_some() {
                        ss.push(RenderMesh::Update);
                    } else {
                        ss.push(st);
                    }
                },
                _ => {
                    ss.push(st);
                },
            }
            proof {
                assert(self@.commands =~= v.commands + (cs + step.1));
            }
            i += 1;
        }
        proof {
            lemma_advance_prefix_len(v, done@, n as int);
        }
        self.mesh_states = ss;
        self.changed = Vec::new();
        proof {
            assert(self@ =~= advance(v, done@).0);
        }
        ks
    }

    /// Takes in a change notification about a mesh source: a modification is
    /// reported changed, once; creations and removals are not acted on.
    pub fn watch_asset(&mut self, ev: &AssetEvent)
        requires
            old(self).wf(),
        ensures
            final(self).wf(),
            final(self)@ == note_asset(old(self)@, *ev),
    {
        if let AssetEvent::Modified(k) = ev {
            if find_key(&self.changed, k).is_none() {
                self.changed.push(k.clone());
            }
        }
        proof {
            assert(self@ =~= note_asset(old(self)@, *ev));
        }
    }

    /// Hands out the queued commands, in the order they were emitted, and
    /// empties the queue.
    pub fn take_commands(&mut self) -> (cmds: Vec<WorldRendererCommand>)
        requires
            old(self).wf(),
        ensures
            final(self).wf(),
            cmds@ == old(self)@.commands,
            final(self)@ == (SyncView { commands: Seq::empty(), ..old(self)@ }),
    {
        let mut cmds: Vec<WorldRendererCommand> = Vec::new();
        std::mem::swap(&mut cmds, &mut self.commands);
        proof {
            assert(self@ =~= (SyncView { commands: Seq::empty(), ..old(self)@ }));
        }
        cmds
    }

    /// The renderer call that applying `cmd` takes.
    pub fn backend_call(&self, cmd: &WorldRendererCommand) -> (r: BackendCall)
        requires
            self.wf(),
        ensures
            r == backend_call_of(self@, *cmd),
    {
        match cmd {
            WorldRendererCommand::AddMesh(k) => BackendCall::UploadMesh(k.clone()),
            WorldRendererCommand::AddInstance(e, mh, t) => match self.find_entity(*e) {
                Some(i) => BackendCall::CreateInstance(*mh, *t, self.records[i].emission),
                None => BackendCall::Skip,
            },
            WorldRendererCommand::UpdateTransform(h, t) => BackendCall::SetTransform(*h, *t),
            WorldRendererCommand::SetEmission(h, x) => BackendCall::SetEmission(*h, *x),
            WorldRendererCommand::ReplaceInstance(h, e) => {
                if self.find_entity(*e).is_some() {
                    BackendCall::DestroyInstance(*h)
                } else {
                    BackendCall::Skip
                }
            },
            WorldRendererCommand::RemoveInstance(h) => BackendCall::DestroyInstance(*h),
        }
    }

    /// Sets the cache state of `k`, adding the key if the cache lacks it.
    fn set_mesh(&mut self, k: &String, st: RenderMesh)
        requires
            old(self).wf(),
        ensures
            final(self).wf(),
            final(self)@ == set_mesh_state(old(self)@, *k, st),
    {
        match find_key(&self.mesh_keys, k) {
            Some(j) => {
                proof {
                    lemma_key_index_at(self@, k@, j as int);
                }
                self.mesh_states.set(j, st);
            },
            None => {
                self.mesh_keys.push(k.clone());
                self.mesh_states.push(st);
                proof {
                    let v = old(self)@;
                    assert forall|a: int, b: int|
                        0 <= a < self@.mesh_keys.len() && 0 <= b < self@.mesh_keys.len()
                            && self@.mesh_keys[a]@ == self@.mesh_keys[b]@ implies a == b by {
                        if a < v.mesh_keys.len() && b == v.mesh_keys.len() {
                            assert(v.mesh_keys[a]@ == k@);
                        }
                        if b < v.mesh_keys.len() && a == v.mesh_keys.len() {
                            assert(v.mesh_keys[b]@ == k@);
                        }
                    }
                }
            },
        }
        proof {
            assert(self@ =~= set_mesh_state(old(self)@, *k, st));
        }
    }

    /// Records what the renderer reported for the call of `cmd`: an upload
    /// makes its key ready (or failed), a created instance makes its record
    /// ready (or unset, to be retried), and a replacement unsets the record and
    /// sends its mesh source back to be loaded again.
    pub fn finish_command(&mut self, cmd: &WorldRendererCommand, out: BackendOutcome)
        requires
            old(self).wf(),
        ensures
            final(self).wf(),
            final(self)@ == finish(old(self)@, *cmd, out),
    {
        match cmd {
            WorldRendererCommand::AddMesh(k) => {
                match out {
                    BackendOutcome::MeshUploaded(h) => self.set_mesh(k, RenderMesh::Ready(h)),
                    _ => self.set_mesh(k, RenderMesh::Failed),
                }
            },
            WorldRendererCommand::AddInstance(e, _, _) => {
                if let Some(i) = self.find_entity(*e) {
                    let inst = match out {
                        BackendOutcome::InstanceCreated(ih) => WRInstance::Ready(ih),
                        _ => WRInstance::Unset,
                    };
                    let r = RenderInstance {
                        mesh_source: self.records[i].mesh_source.clone(),
                        transform: self.records[i].transform,
                        emission: self.records[i].emission,
                        instance: inst,
                        active: self.records[i].active,
                    };
                    self.records.set(i, r);
                    proof {
                        assert(self@ =~= finish(old(self)@, *cmd, out));
                    }
                }
            },
            WorldRendererCommand::ReplaceInstance(_, e) => {
                if let Some(i) = self.find_entity(*e) {
                    let src = self.records[i].mesh_source.clone();
                    let r = RenderInstance {
                        mesh_source: self.records[i].mesh_source.clone(),
                        transform: self.records[i].transform,
                        emission: self.records[i].emission,
                        instance: WRInstance::Unset,
                        active: self.records[i].active,
                    };
                    self.records.set(i, r);
                    proof {
                        let v = old(self)@;
                        assert(self@ =~= (SyncView { records: v.records.update(i as int, r), ..v }));
                    }
                    self.set_mesh(&src, RenderMesh::Empty);
                }
            },
            _ => {},
        }
    }

    /// The registry's instance state of entity `e`, if it is registered.
    pub fn instance_state(&self, e: u64) -> (r: Option<WRInstance>)
        requires
            self.wf(),
        ensures
            r == (match entity_index(self@, e) {
                Some(i) => Some(self@.records[i].instance),
                None => None,
            }),
    {
        match self.find_entity(e) {
            Some(i) => Some(self.records[i].instance),
            None => None,
        }
    }

    /// Whether entity `e` was seen in the last swept extraction.
    pub fn is_active(&self, e: u64) -> (r: bool)
        requires
            self.wf(),
        ensures
            r == (match entity_index(self@, e) {
                Some(i) => self@.records[i].active,
                None => false,
            }),
    {
        match self.find_entity(e) {
            Some(i) => self.records[i].active,
            None => false,
        }
    }

    /// The cache state of mesh source `k`, if the cache knows it.
    pub fn mesh_state(&self, k: &String) -> (r: Option<RenderMesh>)
        requires
            self.wf(),
        ensures
            r == mesh_state_of(self@, k@),
    {
        self.mesh_state_at(k)
    }

    /// The number of registered entities.
    pub fn instance_count(&self) -> (r: usize)
        requires
            self.wf(),
        ensures
            r == self@.entities.len(),
    {
        self.entities.len()
    }

    /// The number of mesh source keys the cache knows.
    pub fn mesh_count(&self) -> (r: usize)
        requires
            self.wf(),
        ensures
            r == self@.mesh_keys.len(),
    {
        self.mesh_keys.len()
    }

    /// The commands waiting to be applied, oldest first.
    pub fn pending_commands(&self) -> (r: &Vec<WorldRendererCommand>)
        ensures
            r@ == self@.commands,
    {
        &self.commands
    }
}

} // verus!
