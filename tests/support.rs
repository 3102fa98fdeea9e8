use kajiya_sync::assets::{gltf_asset_path, mesh_src_from_asset_path, register_unique_gltf_asset};
use kajiya_sync::bridge::WorldBridge;
use kajiya_sync::console::{get_console_logs, push_console_log, MAX_STORED_LOGS};

#[test]
fn console_keeps_messages_in_order() {
    let mut logs = Vec::new();
    push_console_log(&mut logs, "[INFO] one".to_string());
    push_console_log(&mut logs, "[DEBUG] two".to_string());
    assert_eq!(get_console_logs(&logs), vec!["[INFO] one".to_string(), "[DEBUG] two".to_string()]);
}

#[test]
fn console_drops_oldest_past_bound() {
    let mut logs = Vec::new();
    for i in 0..=MAX_STORED_LOGS {
        push_console_log(&mut logs, format!("m{}", i));
    }
    assert_eq!(logs.len(), MAX_STORED_LOGS + 1);
    assert_eq!(logs[0], "m0");
    push_console_log(&mut logs, "last".to_string());
    assert_eq!(logs.len(), MAX_STORED_LOGS + 1);
    assert_eq!(logs[0], "m1");
    assert_eq!(get_console_logs(&logs).last(), Some(&"last".to_string()));
}

#[test]
fn gltf_path_of_mesh_source() {
    assert_eq!(gltf_asset_path("car"), "meshes/car/scene.gltf");
    assert_eq!(gltf_asset_path(""), "meshes//scene.gltf");
}

#[test]
fn registering_a_source_twice_loads_it_once() {
    let mut unique = Vec::new();
    let name = "car".to_string();
    assert_eq!(register_unique_gltf_asset(&mut unique, &name), Some("meshes/car/scene.gltf".to_string()));
    assert_eq!(register_unique_gltf_asset(&mut unique, &name), None);
    assert_eq!(register_unique_gltf_asset(&mut unique, &"bus".to_string()), Some("meshes/bus/scene.gltf".to_string()));
    assert_eq!(unique, vec!["car".to_string(), "bus".to_string()]);
}

#[test]
fn mesh_source_from_asset_paths() {
    assert_eq!(mesh_src_from_asset_path("meshes/car/scene.gltf"), Some("car".to_string()));
    assert_eq!(mesh_src_from_asset_path("meshes\\tree\\scene.gltf"), Some("tree".to_string()));
    assert_eq!(mesh_src_from_asset_path("meshes/"), Some("".to_string()));
    assert_eq!(mesh_src_from_asset_path("meshes/lamp"), Some("lamp".to_string()));
    assert_eq!(mesh_src_from_asset_path("scene.gltf"), None);
    assert_eq!(mesh_src_from_asset_path(""), None);
}

#[test]
fn bridge_lends_and_restores() {
    let mut bridge = WorldBridge::new(vec![1, 2], Vec::<i32>::new());
    let mut lent = bridge.lend().unwrap();
    assert_eq!(lent, vec![1, 2]);
    assert!(bridge.render().is_empty());
    assert!(bridge.lend().is_none());
    lent.push(3);
    assert_eq!(bridge.restore(lent), Ok(()));
    assert_eq!(bridge.render(), &vec![1, 2, 3]);
    assert_eq!(bridge.restore(vec![9]), Err(vec![9]));
    bridge.render_mut().clear();
    let again = bridge.lend().unwrap();
    assert!(again.is_empty());
}
