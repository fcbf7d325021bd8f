use tracker_models::assets::{texture_for, AssetTable, TextureData, TexturePayload};
use tracker_models::geometry::{expand_indexed, Vertex};
use tracker_models::naming::{component_name, push_decimal};
use tracker_models::system::{
    flush, process_device, CommandBuffer, SpawnCommand, SubmodelPayload, TrackedDevice,
    TrackerModelLoadStatus, XRModelEnabled, XRModelInfo, XRTrackerModels,
};

fn vertex(tag: u32) -> Vertex {
    Vertex {
        position: [tag, tag + 1, tag + 2],
        normal: [0, 0, 1.0f32.to_bits()],
        tangent: [1.0f32.to_bits(), 0, 0],
        tex_coord: [tag, tag],
    }
}

fn triangle() -> (Vec<Vertex>, Vec<u32>) {
    (vec![vertex(10), vertex(20), vertex(30)], vec![0, 1, 2])
}

fn submodel(name: Option<&str>, texture: Option<TexturePayload>) -> SubmodelPayload {
    let (vertices, indices) = triangle();
    SubmodelPayload { name: name.map(String::from), vertices, indices, texture }
}

fn device(entity: u64, device_id: u32, enabled: bool) -> TrackedDevice {
    TrackedDevice {
        entity,
        device_id,
        enabled: if enabled { Some(XRModelEnabled) } else { None },
        model_info: None,
    }
}

fn names(info: &XRModelInfo) -> Vec<String> {
    info.component_models.iter().map(|m| m.0.clone()).collect()
}

#[test]
fn vertex_expansion_follows_indices() {
    let v = vec![vertex(0), vertex(100), vertex(200)];
    let out = expand_indexed(&v, &vec![2, 0, 1]);
    assert_eq!(out, vec![v[2], v[0], v[1]]);
}

#[test]
fn vertex_expansion_repeats_and_empties() {
    let v = vec![vertex(0), vertex(100)];
    assert_eq!(expand_indexed(&v, &vec![1, 1, 0, 1]), vec![v[1], v[1], v[0], v[1]]);
    assert!(expand_indexed(&v, &vec![]).is_empty());
}

#[test]
fn decimal_digits() {
    let mut s = String::from("x");
    push_decimal(&mut s, 0);
    assert_eq!(s, "x0");
    let mut s = String::new();
    push_decimal(&mut s, 1234567890);
    assert_eq!(s, "1234567890");
    let mut s = String::new();
    push_decimal(&mut s, u64::MAX);
    assert_eq!(s, "18446744073709551615");
}

#[test]
fn missing_name_falls_back_to_unknown() {
    assert_eq!(component_name(&None, 7, 3), "unknown-7-3");
    assert!(component_name(&None, 42, 0).starts_with("unknown-42-0"));
}

#[test]
fn provided_name_gets_device_and_index() {
    assert_eq!(component_name(&Some(String::from("trigger")), 12, 0), "trigger-12-0");
    assert_eq!(component_name(&Some(String::new()), 4294967295, 10), "-4294967295-10");
}

#[test]
fn same_name_differs_by_index() {
    let name = Some(String::from("button"));
    let a = component_name(&name, 5, 1);
    let b = component_name(&name, 5, 11);
    assert_ne!(a, b);
    assert_eq!(a, "button-5-1");
    assert_eq!(b, "button-5-11");
}

#[test]
fn missing_texture_is_flat_white() {
    assert!(matches!(texture_for(&None), TextureData::FlatWhite));
}

#[test]
fn provided_texture_is_kept() {
    let t = TexturePayload { data: vec![1, 2, 3, 4, 5, 6, 7, 8], width: 2, height: 1 };
    match texture_for(&Some(t)) {
        TextureData::Pixels { data, width, height } => {
            assert_eq!(data, vec![1, 2, 3, 4, 5, 6, 7, 8]);
            assert_eq!((width, height), (2, 1));
        }
        TextureData::FlatWhite => panic!("texture replaced by the fallback"),
    }
}

#[test]
fn asset_ids_are_sequential() {
    let mut assets = AssetTable::new();
    assert_eq!(assets.load_mesh(vec![vertex(1)]), 0);
    assert_eq!(assets.load_mesh(vec![]), 1);
    assert_eq!(assets.load_texture(TextureData::FlatWhite), 0);
    assert_eq!(assets.meshes.len(), 2);
    assert_eq!(assets.textures.len(), 1);
}

#[test]
fn only_enabled_devices_without_record_are_polled() {
    let mut recorded = device(3, 30, true);
    recorded.model_info = Some(XRModelInfo { component_models: vec![] });
    let devices = vec![device(1, 10, true), device(2, 20, false), recorded, device(4, 40, true)];
    assert_eq!(XRTrackerModels.poll_targets(&devices), vec![0, 3]);
}

#[test]
fn device_step_spawns_each_submodel() {
    let dev = device(9, 77, true);
    let status = TrackerModelLoadStatus::Available(vec![
        submodel(Some("body"), Some(TexturePayload { data: vec![9; 4], width: 1, height: 1 })),
        submodel(None, None),
    ]);
    let mut assets = AssetTable::new();
    assets.load_mesh(vec![]);
    let mut commands = CommandBuffer::new();
    process_device(&dev, &status, &mut assets, &mut commands);

    assert_eq!(commands.spawns.len(), 2);
    assert_eq!(commands.spawns[0].name, "body-77-0");
    assert_eq!(commands.spawns[1].name, "unknown-77-1");
    assert!(commands.spawns.iter().all(|s| s.parent == 9));
    assert_eq!((commands.spawns[0].mesh, commands.spawns[1].mesh), (1, 2));
    assert_eq!(commands.spawns[0].material.albedo, 0);
    assert_eq!(commands.spawns[1].material.albedo, 1);
    assert!(matches!(assets.textures[0], TextureData::Pixels { width: 1, height: 1, .. }));
    assert!(matches!(assets.textures[1], TextureData::FlatWhite));
    let (v, i) = triangle();
    assert_eq!(assets.meshes[1], expand_indexed(&v, &i));

    assert_eq!(commands.inserts.len(), 1);
    assert_eq!(commands.inserts[0].entity, 9);
    let models = &commands.inserts[0].info.component_models;
    assert_eq!(models.len(), 2);
    assert_eq!(models[0], (String::from("body-77-0"), 1, 0));
    assert_eq!(models[1], (String::from("unknown-77-1"), 2, 1));
}

#[test]
fn untextured_submodel_material_uses_flat_white() {
    let devices = vec![device(1, 2, true)];
    let statuses = vec![TrackerModelLoadStatus::Available(vec![submodel(Some("a"), None)])];
    let mut assets = AssetTable::new();
    let mut commands = CommandBuffer::new();
    XRTrackerModels.run(&devices, &statuses, &mut assets, &mut commands);
    let albedo = commands.spawns[0].material.albedo as usize;
    assert!(matches!(assets.textures[albedo], TextureData::FlatWhite));
}

#[test]
fn model_spawns_exactly_once() {
    let mut system = XRTrackerModels;
    let mut devices = vec![device(5, 1, true)];
    let mut scene: Vec<SpawnCommand> = Vec::new();
    let mut assets = AssetTable::new();

    let mut commands = CommandBuffer::new();
    system.run(&devices, &vec![TrackerModelLoadStatus::NotAvailable], &mut assets, &mut commands);
    assert!(commands.spawns.is_empty() && commands.inserts.is_empty());
    flush(&mut devices, &mut scene, commands);
    assert!(devices[0].model_info.is_none());

    let available = || {
        TrackerModelLoadStatus::Available(vec![
            submodel(Some("grip"), None),
            submodel(Some("grip"), None),
            submodel(None, None),
        ])
    };
    let mut commands = CommandBuffer::new();
    system.run(&devices, &vec![available()], &mut assets, &mut commands);
    assert_eq!(commands.spawns.len(), 3);
    assert_eq!(commands.inserts.len(), 1);
    flush(&mut devices, &mut scene, commands);
    assert_eq!(scene.len(), 3);
    let info = devices[0].model_info.as_ref().expect("record attached");
    assert_eq!(names(info), vec!["grip-1-0", "grip-1-1", "unknown-1-2"]);

    for _ in 0..3 {
        let mut commands = CommandBuffer::new();
        system.run(&devices, &vec![available()], &mut assets, &mut commands);
        assert!(commands.spawns.is_empty() && commands.inserts.is_empty());
        flush(&mut devices, &mut scene, commands);
    }
    assert_eq!(scene.len(), 3);
    assert_eq!(assets.meshes.len(), 3);
}

#[test]
fn disabled_device_never_spawns() {
    let mut devices = vec![device(1, 1, false), device(2, 2, true)];
    let mut scene: Vec<SpawnCommand> = Vec::new();
    let mut assets = AssetTable::new();
    let mut commands = CommandBuffer::new();
    let statuses = vec![
        TrackerModelLoadStatus::Available(vec![submodel(Some("x"), None)]),
        TrackerModelLoadStatus::Available(vec![submodel(Some("y"), None)]),
    ];
    XRTrackerModels.run(&devices, &statuses, &mut assets, &mut commands);
    flush(&mut devices, &mut scene, commands);
    assert!(devices[0].model_info.is_none());
    assert!(devices[1].model_info.is_some());
    assert_eq!(scene.len(), 1);
    assert_eq!(scene[0].parent, 2);
    assert_eq!(scene[0].name, "y-2-0");
}

#[test]
fn flush_attaches_record_to_matching_device() {
    let mut devices = vec![device(10, 1, true), device(20, 2, true), device(30, 3, true)];
    let mut scene: Vec<SpawnCommand> = Vec::new();
    let mut assets = AssetTable::new();
    let mut commands = CommandBuffer::new();
    let statuses = vec![
        TrackerModelLoadStatus::NotAvailable,
        TrackerModelLoadStatus::Available(vec![submodel(None, None), submodel(None, None)]),
        TrackerModelLoadStatus::Available(vec![]),
    ];
    XRTrackerModels.run(&devices, &statuses, &mut assets, &mut commands);
    flush(&mut devices, &mut scene, commands);
    assert!(devices[0].model_info.is_none());
    assert_eq!(names(devices[1].model_info.as_ref().unwrap()), vec!["unknown-2-0", "unknown-2-1"]);
    assert!(devices[2].model_info.as_ref().unwrap().component_models.is_empty());
    assert_eq!(scene.len(), 2);
    assert!(scene.iter().all(|s| s.parent == 20));
}
