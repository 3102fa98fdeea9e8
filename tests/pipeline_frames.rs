use kajiya_sync::model::{
    AssetEvent, BackendCall, BackendOutcome, InstanceHandle, LoadReport, MeshHandle,
    MeshInstanceExtracted, MeshTransform, RenderMesh, WRInstance, WorldRendererCommand,
};
use kajiya_sync::pipeline::Pipeline;

fn transform(x: f32) -> MeshTransform {
    MeshTransform {
        position: [x.to_bits(), 0.0f32.to_bits(), 0.0f32.to_bits()],
        rotation: [0.0f32.to_bits(), 0.0f32.to_bits(), 0.0f32.to_bits(), 1.0f32.to_bits()],
        scale: [1.0f32.to_bits(); 3],
    }
}

fn extracted(entity: u64, mesh: &str, x: f32) -> MeshInstanceExtracted {
    MeshInstanceExtracted {
        instance_entity: entity,
        mesh_name: mesh.to_string(),
        transform: transform(x),
        emission: 1.0f32.to_bits(),
    }
}

fn loaded(key: &str) -> LoadReport {
    LoadReport { key: key.to_string(), ok: true }
}

/// Applies every pending command, answering uploads and instance creations
/// with handles counted up from `next`.
fn apply_all(p: &mut Pipeline, next: &mut u64) -> Vec<WorldRendererCommand> {
    let cmds = p.take_commands();
    for c in cmds.iter() {
        let out = match p.backend_call(c) {
            BackendCall::UploadMesh(_) => {
                *next += 1;
                BackendOutcome::MeshUploaded(MeshHandle(*next))
            }
            BackendCall::CreateInstance(_, _, _) => {
                *next += 1;
                BackendOutcome::InstanceCreated(InstanceHandle(*next))
            }
            BackendCall::Skip => BackendOutcome::Done,
            _ => BackendOutcome::Done,
        };
        p.finish_command(c, out);
    }
    cmds
}

fn frame(p: &mut Pipeline, xs: &Vec<MeshInstanceExtracted>) -> Vec<WorldRendererCommand> {
    p.process_renderer_instances(xs);
    p.remove_unused_instances(xs);
    p.pending_commands().clone()
}

#[test]
fn scenario_car_lifecycle() {
    let mut p = Pipeline::new();
    let mut next = 100;
    let car = "car".to_string();

    // Frame 1: the key becomes known, nothing is instanced yet.
    let f1 = vec![extracted(1, "car", 0.0)];
    p.process_renderer_instances(&f1);
    assert_eq!(p.mesh_state(&car), Some(RenderMesh::Empty));
    assert_eq!(p.instance_state(1), Some(WRInstance::Unset));
    assert!(p.pending_commands().is_empty());
    p.remove_unused_instances(&f1);
    let spawn = p.process_renderer_meshes(&vec![]);
    assert_eq!(spawn, vec![car.clone()]);
    assert_eq!(p.mesh_state(&car), Some(RenderMesh::Queued));

    // Frame 2: the load completes and the mesh is uploaded, then the entity
    // is instanced with its first transform.
    let spawn = p.process_renderer_meshes(&vec![loaded("car")]);
    assert!(spawn.is_empty());
    assert_eq!(p.pending_commands().clone(), vec![WorldRendererCommand::AddMesh(car.clone())]);
    apply_all(&mut p, &mut next);
    let mesh = MeshHandle(101);
    assert_eq!(p.mesh_state(&car), Some(RenderMesh::Ready(mesh)));
    let cmds = frame(&mut p, &f1);
    assert_eq!(cmds, vec![WorldRendererCommand::AddInstance(1, mesh, transform(0.0))]);
    apply_all(&mut p, &mut next);
    let handle = InstanceHandle(102);
    assert_eq!(p.instance_state(1), Some(WRInstance::Ready(handle)));

    // Frame 3: the transform changes.
    let f3 = vec![extracted(1, "car", 5.0)];
    let cmds = frame(&mut p, &f3);
    assert_eq!(cmds, vec![WorldRendererCommand::UpdateTransform(handle, transform(5.0))]);
    apply_all(&mut p, &mut next);

    // Frame 4: the entity is gone.
    let cmds = frame(&mut p, &vec![]);
    assert_eq!(cmds, vec![WorldRendererCommand::RemoveInstance(handle)]);
    assert_eq!(p.instance_state(1), None);
    assert_eq!(p.instance_count(), 0);
}

#[test]
fn dedup_many_entities_one_key() {
    let mut p = Pipeline::new();
    let mut next = 0;
    let mut all = Vec::new();
    let xs: Vec<_> = (1..=5).map(|e| extracted(e, "tree", e as f32)).collect();
    for _ in 0..4 {
        frame(&mut p, &xs);
        p.process_renderer_meshes(&vec![loaded("tree")]);
        all.extend(apply_all(&mut p, &mut next));
    }
    // Entities arriving in a later frame reuse the same upload.
    let more: Vec<_> = (1..=8).map(|e| extracted(e, "tree", 0.0)).collect();
    for _ in 0..2 {
        frame(&mut p, &more);
        p.process_renderer_meshes(&vec![loaded("tree")]);
        all.extend(apply_all(&mut p, &mut next));
    }
    let uploads = all.iter().filter(|c| matches!(c, WorldRendererCommand::AddMesh(_))).count();
    assert_eq!(uploads, 1);
    assert_eq!(p.mesh_count(), 1);
    let adds = all.iter().filter(|c| matches!(c, WorldRendererCommand::AddInstance(..))).count();
    assert_eq!(adds, 8);
}

#[test]
fn no_add_instance_before_mesh_ready() {
    let mut p = Pipeline::new();
    let xs = vec![extracted(7, "rock", 0.0)];
    for _ in 0..3 {
        let cmds = frame(&mut p, &xs);
        assert!(cmds.is_empty());
        p.process_renderer_meshes(&vec![]);
    }
    assert_eq!(p.mesh_state(&"rock".to_string()), Some(RenderMesh::Queued));
    assert_eq!(p.instance_state(7), Some(WRInstance::Unset));
}

#[test]
fn unchanged_transform_only_updates() {
    let mut p = Pipeline::new();
    let mut next = 0;
    let xs = vec![extracted(3, "lamp", 2.0)];
    frame(&mut p, &xs);
    p.process_renderer_meshes(&vec![]);
    p.process_renderer_meshes(&vec![loaded("lamp")]);
    apply_all(&mut p, &mut next);
    frame(&mut p, &xs);
    apply_all(&mut p, &mut next);
    let handle = InstanceHandle(2);
    let first = frame(&mut p, &xs);
    assert_eq!(first, vec![WorldRendererCommand::UpdateTransform(handle, transform(2.0))]);
    apply_all(&mut p, &mut next);
    let second = frame(&mut p, &xs);
    assert_eq!(second, vec![WorldRendererCommand::UpdateTransform(handle, transform(2.0))]);
    assert_eq!(p.instance_count(), 1);
    assert_eq!(p.mesh_count(), 1);
}

#[test]
fn emission_change_is_sent() {
    let mut p = Pipeline::new();
    let mut next = 0;
    let mut x = extracted(3, "lamp", 2.0);
    frame(&mut p, &vec![x.clone()]);
    p.process_renderer_meshes(&vec![]);
    p.process_renderer_meshes(&vec![loaded("lamp")]);
    apply_all(&mut p, &mut next);
    frame(&mut p, &vec![x.clone()]);
    apply_all(&mut p, &mut next);
    frame(&mut p, &vec![x.clone()]);
    apply_all(&mut p, &mut next);
    x.emission = 4.5f32.to_bits();
    let cmds = frame(&mut p, &vec![x.clone()]);
    assert_eq!(
        cmds,
        vec![
            WorldRendererCommand::SetEmission(InstanceHandle(2), 4.5f32.to_bits()),
            WorldRendererCommand::UpdateTransform(InstanceHandle(2), transform(2.0)),
        ]
    );
    apply_all(&mut p, &mut next);
    let after = frame(&mut p, &vec![x.clone()]);
    assert_eq!(after, vec![WorldRendererCommand::UpdateTransform(InstanceHandle(2), transform(2.0))]);
}

#[test]
fn hot_reload_replaces_only_changed_key() {
    let mut p = Pipeline::new();
    let mut next = 0;
    let xs = vec![
        extracted(1, "a", 0.0),
        extracted(2, "a", 1.0),
        extracted(3, "b", 2.0),
    ];
    frame(&mut p, &xs);
    p.watch_asset(&AssetEvent::Created("a".to_string()));
    p.watch_asset(&AssetEvent::Created("b".to_string()));
    p.process_renderer_meshes(&vec![]);
    p.process_renderer_meshes(&vec![loaded("a"), loaded("b")]);
    apply_all(&mut p, &mut next);
    frame(&mut p, &xs);
    apply_all(&mut p, &mut next);
    frame(&mut p, &xs);
    apply_all(&mut p, &mut next);
    let ha1 = match p.instance_state(1) { Some(WRInstance::Ready(h)) => h, s => panic!("{:?}", s) };
    let ha2 = match p.instance_state(2) { Some(WRInstance::Ready(h)) => h, s => panic!("{:?}", s) };
    let hb = match p.instance_state(3) { Some(WRInstance::Ready(h)) => h, s => panic!("{:?}", s) };

    p.watch_asset(&AssetEvent::Modified("a".to_string()));
    p.process_renderer_meshes(&vec![]);
    assert_eq!(p.mesh_state(&"a".to_string()), Some(RenderMesh::Update));
    assert!(matches!(p.mesh_state(&"b".to_string()), Some(RenderMesh::Ready(_))));
    let cmds = frame(&mut p, &xs);
    let replaces: Vec<_> = cmds.iter().filter(|c| matches!(c, WorldRendererCommand::ReplaceInstance(..))).collect();
    assert_eq!(replaces, vec![&WorldRendererCommand::ReplaceInstance(ha1, 1), &WorldRendererCommand::ReplaceInstance(ha2, 2)]);
    assert_eq!(cmds.last(), Some(&WorldRendererCommand::UpdateTransform(hb, transform(2.0))));
    assert!(cmds.iter().all(|c| !matches!(c, WorldRendererCommand::SetEmission(h, _) | WorldRendererCommand::UpdateTransform(h, _) if *h == ha1 || *h == ha2)));

    // The replacement retires the old instances and reloads "a" once.
    let applied = apply_all(&mut p, &mut next);
    assert_eq!(applied.len(), 3);
    assert_eq!(p.instance_state(1), Some(WRInstance::Unset));
    assert_eq!(p.mesh_state(&"a".to_string()), Some(RenderMesh::Empty));
    let again = frame(&mut p, &xs);
    assert!(again.iter().all(|c| !matches!(c, WorldRendererCommand::ReplaceInstance(..))));
    let spawn = p.process_renderer_meshes(&vec![]);
    assert_eq!(spawn, vec!["a".to_string()]);
}

#[test]
fn removal_waits_for_queued_instance() {
    let mut p = Pipeline::new();
    let mut next = 0;
    let xs = vec![extracted(9, "box", 0.0)];
    frame(&mut p, &xs);
    p.process_renderer_meshes(&vec![]);
    p.process_renderer_meshes(&vec![loaded("box")]);
    apply_all(&mut p, &mut next);
    p.process_renderer_instances(&xs);
    assert_eq!(p.instance_state(9), Some(WRInstance::Queued));
    // The entity leaves before its instance exists: its record stays.
    p.remove_unused_instances(&vec![]);
    assert_eq!(p.instance_state(9), Some(WRInstance::Queued));
    assert!(!p.is_active(9));
    let cmds = apply_all(&mut p, &mut next);
    assert_eq!(cmds, vec![WorldRendererCommand::AddInstance(9, MeshHandle(1), transform(0.0))]);
    assert_eq!(p.instance_state(9), Some(WRInstance::Ready(InstanceHandle(2))));
    // The next sweep retires it, exactly once.
    let first = frame(&mut p, &vec![]);
    assert_eq!(first, vec![WorldRendererCommand::RemoveInstance(InstanceHandle(2))]);
    apply_all(&mut p, &mut next);
    let second = frame(&mut p, &vec![]);
    assert!(second.is_empty());
    assert_eq!(p.instance_state(9), None);
}

#[test]
fn never_realized_entity_stays_inactive() {
    let mut p = Pipeline::new();
    frame(&mut p, &vec![extracted(4, "ghost", 0.0)]);
    assert!(p.is_active(4));
    let cmds = frame(&mut p, &vec![]);
    assert!(cmds.is_empty());
    assert_eq!(p.instance_state(4), Some(WRInstance::Unset));
    assert!(!p.is_active(4));
    assert_eq!(p.instance_count(), 1);
    // Seen again, it is active again and keeps its record.
    frame(&mut p, &vec![extracted(4, "ghost", 0.0)]);
    assert!(p.is_active(4));
    assert_eq!(p.instance_count(), 1);
    // The key stays known to the cache.
    assert_eq!(p.mesh_state(&"ghost".to_string()), Some(RenderMesh::Empty));
}

#[test]
fn load_failure_marks_key_failed() {
    let mut p = Pipeline::new();
    frame(&mut p, &vec![extracted(1, "broken", 0.0)]);
    p.process_renderer_meshes(&vec![]);
    p.process_renderer_meshes(&vec![LoadReport { key: "broken".to_string(), ok: false }]);
    assert_eq!(p.mesh_state(&"broken".to_string()), Some(RenderMesh::Failed));
    assert!(p.pending_commands().is_empty());
    let spawn = p.process_renderer_meshes(&vec![]);
    assert!(spawn.is_empty());
    let cmds = frame(&mut p, &vec![extracted(1, "broken", 0.0)]);
    assert!(cmds.is_empty());
}

#[test]
fn upload_failure_marks_key_failed() {
    let mut p = Pipeline::new();
    frame(&mut p, &vec![extracted(1, "huge", 0.0)]);
    p.process_renderer_meshes(&vec![]);
    p.process_renderer_meshes(&vec![loaded("huge")]);
    let cmds = p.take_commands();
    assert_eq!(p.backend_call(&cmds[0]), BackendCall::UploadMesh("huge".to_string()));
    p.finish_command(&cmds[0], BackendOutcome::Failed);
    assert_eq!(p.mesh_state(&"huge".to_string()), Some(RenderMesh::Failed));
}

#[test]
fn failed_instance_creation_is_retried() {
    let mut p = Pipeline::new();
    let mut next = 0;
    let xs = vec![extracted(1, "m", 0.0)];
    frame(&mut p, &xs);
    p.process_renderer_meshes(&vec![]);
    p.process_renderer_meshes(&vec![loaded("m")]);
    apply_all(&mut p, &mut next);
    let cmds = frame(&mut p, &xs);
    p.take_commands();
    p.finish_command(&cmds[0], BackendOutcome::Failed);
    assert_eq!(p.instance_state(1), Some(WRInstance::Unset));
    let retry = frame(&mut p, &xs);
    assert_eq!(retry, cmds);
}

#[test]
fn commands_for_departed_entities_are_skipped() {
    let p = Pipeline::new();
    let t = transform(0.0);
    assert_eq!(p.backend_call(&WorldRendererCommand::AddInstance(42, MeshHandle(1), t)), BackendCall::Skip);
    assert_eq!(p.backend_call(&WorldRendererCommand::ReplaceInstance(InstanceHandle(3), 42)), BackendCall::Skip);
    assert_eq!(
        p.backend_call(&WorldRendererCommand::RemoveInstance(InstanceHandle(3))),
        BackendCall::DestroyInstance(InstanceHandle(3))
    );
    assert_eq!(
        p.backend_call(&WorldRendererCommand::UpdateTransform(InstanceHandle(3), t)),
        BackendCall::SetTransform(InstanceHandle(3), t)
    );
    assert_eq!(
        p.backend_call(&WorldRendererCommand::SetEmission(InstanceHandle(3), 7)),
        BackendCall::SetEmission(InstanceHandle(3), 7)
    );
}

#[test]
fn first_asset_event_is_not_a_change() {
    let mut p = Pipeline::new();
    let mut next = 0;
    let xs = vec![extracted(1, "a", 0.0)];
    frame(&mut p, &xs);
    p.process_renderer_meshes(&vec![]);
    p.process_renderer_meshes(&vec![loaded("a")]);
    apply_all(&mut p, &mut next);
    p.watch_asset(&AssetEvent::Created("a".to_string()));
    p.watch_asset(&AssetEvent::Created("a".to_string()));
    p.watch_asset(&AssetEvent::Removed("a".to_string()));
    p.process_renderer_meshes(&vec![]);
    assert!(matches!(p.mesh_state(&"a".to_string()), Some(RenderMesh::Ready(_))));
    p.watch_asset(&AssetEvent::Modified("a".to_string()));
    p.watch_asset(&AssetEvent::Modified("a".to_string()));
    p.process_renderer_meshes(&vec![]);
    assert_eq!(p.mesh_state(&"a".to_string()), Some(RenderMesh::Update));
}

#[test]
fn change_before_ready_is_dropped() {
    let mut p = Pipeline::new();
    let mut next = 0;
    frame(&mut p, &vec![extracted(1, "w", 0.0)]);
    p.watch_asset(&AssetEvent::Modified("w".to_string()));
    p.process_renderer_meshes(&vec![]);
    assert_eq!(p.mesh_state(&"w".to_string()), Some(RenderMesh::Queued));
    p.process_renderer_meshes(&vec![loaded("w")]);
    apply_all(&mut p, &mut next);
    p.process_renderer_meshes(&vec![]);
    assert_eq!(p.mesh_state(&"w".to_string()), Some(RenderMesh::Ready(MeshHandle(1))));
}

#[test]
fn instance_is_created_with_latest_emission() {
    let mut p = Pipeline::new();
    let mut next = 0;
    let mut x = extracted(1, "m", 0.0);
    frame(&mut p, &vec![x.clone()]);
    p.process_renderer_meshes(&vec![]);
    p.process_renderer_meshes(&vec![loaded("m")]);
    apply_all(&mut p, &mut next);
    x.emission = 3.0f32.to_bits();
    let cmds = frame(&mut p, &vec![x.clone()]);
    assert_eq!(cmds, vec![WorldRendererCommand::AddInstance(1, MeshHandle(1), transform(0.0))]);
    assert_eq!(
        p.backend_call(&cmds[0]),
        BackendCall::CreateInstance(MeshHandle(1), transform(0.0), 3.0f32.to_bits())
    );
    apply_all(&mut p, &mut next);
    // The instance already has this emission: only the transform is synced.
    let again = frame(&mut p, &vec![x.clone()]);
    assert_eq!(again, vec![WorldRendererCommand::UpdateTransform(InstanceHandle(2), transform(0.0))]);
}

#[test]
fn first_report_about_a_key_decides() {
    let mut p = Pipeline::new();
    frame(&mut p, &vec![extracted(1, "k", 0.0)]);
    p.process_renderer_meshes(&vec![]);
    p.process_renderer_meshes(&vec![
        LoadReport { key: "other".to_string(), ok: true },
        LoadReport { key: "k".to_string(), ok: false },
        loaded("k"),
    ]);
    assert_eq!(p.mesh_state(&"k".to_string()), Some(RenderMesh::Failed));
}
