use vstd::prelude::*;
use crate::assets::{
    payload_view, texture_for, texture_for_spec, AssetTable, AssetsView, Material, TextureData,
    TexturePayload, TextureView,
};
use crate::geometry::{expand_indexed, expanded, indices_in_bounds, Vertex};
use crate::naming::{component_name, component_name_spec};

verus! {

/// One recorded submodel of a device: display name, mesh id, texture id.
pub type ComponentModel = (String, u64, u64);

/// Mathematical value of a `ComponentModel`.
pub type ModelView = (Seq<char>, u64, u64);

/// Marker on a device: present when the device should receive its model.
#[derive(Clone, Copy, Debug, Default)]
pub struct XRModelEnabled;

/// The per-device cache record: one entry per spawned submodel, in backend
/// order. Its presence on a device means the model is already instantiated.
pub struct XRModelInfo {
    pub component_models: Vec<ComponentModel>,
}

impl View for XRModelInfo {
    type V = Seq<ModelView>;

    open spec fn view(&self) -> Seq<ModelView> {
        self.component_models@.map_values(|m: ComponentModel| (m.0@, m.1, m.2))
    }
}

/// A tracking device entity as the tick sees it.
pub struct TrackedDevice {
    pub entity: u64,
    pub device_id: u32,
    pub enabled: Option<XRModelEnabled>,
    pub model_info: Option<XRModelInfo>,
}

/// Mathematical value of a `TrackedDevice`.
pub struct DeviceView {
    pub entity: u64,
    pub device_id: u32,
    pub enabled: bool,
    pub record: Option<Seq<ModelView>>,
}

impl View for TrackedDevice {
    type V = DeviceView;

    open spec fn view(&self) -> DeviceView {
        DeviceView {
            entity: self.entity,
            device_id: self.device_id,
            enabled: self.enabled is Some,
            record: match self.model_info {
                Some(info) => Some(info@),
                None => None,
            },
        }
    }
}

/// One renderable part of a device model, as the backend reports it.
pub struct SubmodelPayload {
    pub name: Option<String>,
    pub vertices: Vec<Vertex>,
    pub indices: Vec<u32>,
    pub texture: Option<TexturePayload>,
}

/// Mathematical value of a `SubmodelPayload`.
pub struct SubmodelView {
    pub name: Option<Seq<char>>,
    pub vertices: Seq<Vertex>,
    pub indices: Seq<u32>,
    pub texture: Option<(Seq<u8>, u32, u32)>,
}

impl View for SubmodelPayload {
    type V = SubmodelView;

    open spec fn view(&self) -> SubmodelView {
        SubmodelView {
            name: match self.name {
                Some(s) => Some(s@),
                None => None,
            },
            vertices: self.vertices@,
            indices: self.indices@,
            texture: payload_view(self.texture),
        }
    }
}

/// What the backend answers when asked for a device's model.
pub enum TrackerModelLoadStatus {
    NotAvailable,
    Available(Vec<SubmodelPayload>),
}

impl View for TrackerModelLoadStatus {
    type V = Option<Seq<SubmodelView>>;

    open spec fn view(&self) -> Option<Seq<SubmodelView>> {
        match self {
            TrackerModelLoadStatus::NotAvailable => None,
            TrackerModelLoadStatus::Available(models) => Some(
                models@.map_values(|m: SubmodelPayload| m@),
            ),
        }
    }
}

/// Every submodel's indices name existing vertices.
pub open spec fn status_well_formed(status: Option<Seq<SubmodelView>>) -> bool {
    match status {
        None => true,
        Some(models) => forall|i: int|
            0 <= i < models.len() ==> indices_in_bounds(
                (#[trigger] models[i]).vertices.len(),
                models[i].indices,
            ),
    }
}

/// Deferred creation of one child entity: a name, a parent link, the
/// identity transform, a mesh and a material.
pub struct SpawnCommand {
    pub name: String,
    pub parent: u64,
    pub mesh: u64,
    pub material: Material,
}

/// Mathematical value of a `SpawnCommand`.
pub struct SpawnView {
    pub name: Seq<char>,
    pub parent: u64,
    pub mesh: u64,
    pub albedo: u64,
}

impl View for SpawnCommand {
    type V = SpawnView;

    open spec fn view(&self) -> SpawnView {
        SpawnView {
            name: self.name@,
            parent: self.parent,
            mesh: self.mesh,
            albedo: self.material.albedo,
        }
    }
}

/// Deferred attachment of a cache record to a device entity.
pub struct InsertCommand {
    pub entity: u64,
    pub info: XRModelInfo,
}

/// Mathematical value of an `InsertCommand`.
pub struct InsertView {
    pub entity: u64,
    pub models: Seq<ModelView>,
}

impl View for InsertCommand {
    type V = InsertView;

    open spec fn view(&self) -> InsertView {
        InsertView { entity: self.entity, models: self.info@ }
    }
}

/// Structural changes collected during a tick and applied together by `flush`.
pub struct CommandBuffer {
    pub spawns: Vec<SpawnCommand>,
    pub inserts: Vec<InsertCommand>,
}

/// Mathematical value of a `CommandBuffer`.
pub struct BufferView {
    pub spawns: Seq<SpawnView>,
    pub inserts: Seq<InsertView>,
}

impl View for CommandBuffer {
    type V = BufferView;

    open spec fn view(&self) -> BufferView {
        BufferView {
            spawns: self.spawns@.map_values(|c: SpawnCommand| c@),
            inserts: self.inserts@.map_values(|c: InsertCommand| c@),
        }
    }
}

impl CommandBuffer {
    /// An empty buffer.
    pub fn new() -> (r: CommandBuffer)
        ensures
            r@.spawns == Seq::<SpawnView>::empty(),
            r@.inserts == Seq::<InsertView>::empty(),
    {
        let r = CommandBuffer { spawns: Vec::new(), inserts: Vec::new() };
        assert(r@.spawns =~= Seq::<SpawnView>::empty());
        assert(r@.inserts =~= Seq::<InsertView>::empty());
        r
    }
}

/// A device is processed when it is enabled and has no cache record yet.
pub open spec fn is_target(d: DeviceView) -> bool {
    d.enabled && d.record is None
}

/// The cache record that a device gets for the given submodels, when the
/// first new mesh has id `mesh0` and the first new texture id `tex0`.
pub open spec fn record_for(
    d: DeviceView,
    models: Seq<SubmodelView>,
    mesh0: nat,
    tex0: nat,
) -> Seq<ModelView> {
    Seq::new(
        models.len(),
        |i: int|
            (
                component_name_spec(models[i].name, d.device_id, i as nat),
                (mesh0 + i) as u64,
                (tex0 + i) as u64,
            ),
    )
}

/// What one device contributes to a tick: new assets and new commands.
pub open spec fn device_step(
    d: DeviceView,
    status: Option<Seq<SubmodelView>>,
    a: AssetsView,
    b: BufferView,
) -> (AssetsView, BufferView) {
    match status {
        None => (a, b),
        Some(models) => if !is_target(d) {
            (a, b)
        } else {
            let n = models.len();
            let mesh0 = a.meshes.len();
            let tex0 = a.textures.len();
            let record = record_for(d, models, mesh0, tex0);
            (
                AssetsView {
                    meshes: a.meshes + Seq::new(
                        n,
                        |i: int| expanded(models[i].vertices, models[i].indices),
                    ),
                    textures: a.textures + Seq::new(
                        n,
                        |i: int| texture_for_spec(models[i].texture),
                    ),
                },
                BufferView {
                    spawns: b.spawns + Seq::new(
                        n,
                        |i: int|
                            SpawnView {
                                name: record[i].0,
                                parent: d.entity,
                                mesh: record[i].1,
                                albedo: record[i].2,
                            },
                    ),
                    inserts: b.inserts.push(InsertView { entity: d.entity, models: record }),
                },
            )
        },
    }
}

/// A whole tick: the devices in table order, each with the status its
/// backend reported.
pub open spec fn tick(
    ds: Seq<DeviceView>,
    ss: Seq<Option<Seq<SubmodelView>>>,
    a: AssetsView,
    b: BufferView,
) -> (AssetsView, BufferView)
    decreases ds.len(),
{
    if ds.len() == 0 {
        (a, b)
    } else {
        let (a1, b1) = tick(ds.drop_last(), ss.drop_last(), a, b);
        device_step(ds.last(), ss.last(), a1, b1)
    }
}

/// Positions, in table order, of the devices that are polled this tick.
pub open spec fn target_positions(ds: Seq<DeviceView>) -> Seq<int>
    decreases ds.len(),
{
    if ds.len() == 0 {
        Seq::empty()
    } else {
        let p = target_positions(ds.drop_last());
        if is_target(ds.last()) {
            p.push(ds.len() - 1)
        } else {
            p
        }
    }
}

/// No two devices share an entity.
pub open spec fn entities_distinct(ds: Seq<DeviceView>) -> bool {
    forall|i: int, j: int|
        0 <= i < ds.len() && 0 <= j < ds.len() && i != j ==> #[trigger] ds[i].entity
            != #[trigger] ds[j].entity
}

/// The table after a cache record is attached to the device with its entity.
pub open spec fn apply_insert(ds: Seq<DeviceView>, ins: InsertView) -> Seq<DeviceView> {
    ds.map_values(
        |d: DeviceView|
            if d.entity == ins.entity {
                DeviceView { record: Some(ins.models), ..d }
            } else {
                d
            },
    )
}

/// The table after all cache records of a buffer are attached, in order.
pub open spec fn apply_inserts(ds: Seq<DeviceView>, inserts: Seq<InsertView>) -> Seq<DeviceView>
    decreases inserts.len(),
{
    if inserts.len() == 0 {
        ds
    } else {
        apply_insert(apply_inserts(ds, inserts.drop_last()), inserts.last())
    }
}

/// Mathematical value of a device table.
pub open spec fn devices_view(devices: Seq<TrackedDevice>) -> Seq<DeviceView> {
    devices.map_values(|d: TrackedDevice| d@)
}

/// Mathematical value of a list of backend statuses.
pub open spec fn statuses_view(statuses: Seq<TrackerModelLoadStatus>) -> Seq<
    Option<Seq<SubmodelView>>,
> {
    statuses.map_values(|s: TrackerModelLoadStatus| s@)
}

/// The tick driver: each tick, every enabled device without a cache record
/// that reports its model available gets one child entity per submodel and
/// then its cache record, all as deferred commands.
#[derive(Clone, Copy, Debug)]
pub struct XRTrackerModels;

impl XRTrackerModels {
    /// Positions of the devices whose backend is to be polled this tick.
    pub fn poll_targets(&self, devices: &Vec<TrackedDevice>) -> (r: Vec<usize>)
        ensures
            r@.map_values(|k: usize| k as int) == target_positions(devices_view(devices@)),
    {
        let ghost ds = devices_view(devices@);
        let mut r: Vec<usize> = Vec::new();
        let mut k: usize = 0;
        while k < devices.len()
            invariant
                k <= devices@.len(),
                ds == devices_view(devices@),
                r@.map_values(|x: usize| x as int) == target_positions(ds.subrange(0, k as int)),
            decreases devices@.len() - k,
        {
            let ghost before = r@;
            assert(ds.subrange(0, k + 1).drop_last() =~= ds.subrange(0, k as int));
            assert(ds.subrange(0, k + 1).last() == devices@[k as int]@);
            let d = &devices[k];
            if d.enabled.is_some() && d.model_info.is_none() {
                r.push(k);
                assert(r@.map_values(|x: usize| x as int) =~= before.map_values(
                    |x: usize| x as int,
                ).push(k as int));
            }
            k += 1;
        }
        assert(ds.subrange(0, devices@.len() as int) =~= ds);
        r
    }

    /// Runs one tick. `statuses[k]` is what the backend reported for
    /// `devices[k]`; it is read only for the devices that `poll_targets` names.
    pub fn run(
        &mut self,
        devices: &Vec<TrackedDevice>,
        statuses: &Vec<TrackerModelLoadStatus>,
        assets: &mut AssetTable,
        commands: &mut CommandBuffer,
    )
        requires
            statuses@.len() == devices@.len(),
            forall|k: int| 0 <= k < statuses@.len() ==> status_well_formed(#[trigger] statuses@[k]@),
        ensures
            (final(assets)@, final(commands)@) == tick(
                devices_view(devices@),
                statuses_view(statuses@),
                old(assets)@,
                old(commands)@,
            ),
    {
        let ghost ds = devices_view(devices@);
        let ghost ss = statuses_view(statuses@);
        let mut k: usize = 0;
        while k < devices.len()
            invariant
                k <= devices@.len(),
                statuses@.len() == devices@.len(),
                forall|j: int| 0 <= j < statuses@.len() ==> status_well_formed(#[trigger] statuses@[j]@),
                ds == devices_view(devices@),
                ss == statuses_view(statuses@),
                (assets@, commands@) == tick(
                    ds.subrange(0, k as int),
                    ss.subrange(0, k as int),
                    old(assets)@,
                    old(commands)@,
                ),
            decreases devices@.len() - k,
        {
            assert(ds.subrange(0, k + 1).drop_last() =~= ds.subrange(0, k as int));
            assert(ss.subrange(0, k + 1).drop_last() =~= ss.subrange(0, k as int));
            assert(status_well_formed(statuses@[k as int]@));
            process_device(&devices[k], &statuses[k], assets, commands);
            k += 1;
        }
        assert(ds.subrange(0, devices@.len() as int) =~= ds);
        assert(ss.subrange(0, devices@.len() as int) =~= ss);
    }
}

/// One device's share of a tick: when it is a target and its model is
/// available, load each submodel's mesh and texture, queue its child entity,
/// and queue the cache record last.
pub fn process_device(
    device: &TrackedDevice,
    status: &TrackerModelLoadStatus,
    assets: &mut AssetTable,
    commands: &mut CommandBuffer,
)
    requires
        status_well_formed(status@),
    ensures
        (final(assets)@, final(commands)@) == device_step(
            device@,
            status@,
            old(assets)@,
            old(commands)@,
        ),
{
    if device.enabled.is_none() || device.model_info.is_some() {
        return;
    }
    let models = match status {
        TrackerModelLoadStatus::NotAvailable => {
            return;
        },
        TrackerModelLoadStatus::Available(models) => models,
    };
    let ghost d = device@;
    let ghost mv = models@.map_values(|m: SubmodelPayload| m@);
    let ghost a0 = assets@;
    let ghost b0 = commands@;
    let ghost mesh0 = a0.meshes.len();
    let ghost tex0 = a0.textures.len();
    let ghost target = device_step(d, status@, a0, b0);
    let ghost record = record_for(d, mv, mesh0, tex0);
    let mut component_models: Vec<ComponentModel> = Vec::new();
    let mut i: usize = 0;
    while i < models.len()
        invariant
            i <= models@.len(),
            mv == models@.map_values(|m: SubmodelPayload| m@),
            status_well_formed(Some(mv)),
            record == record_for(d, mv, mesh0, tex0),
            d == device@,
            assets@.meshes == a0.meshes + Seq::new(
                i as nat,
                |j: int| expanded(mv[j].vertices, mv[j].indices),
            ),
            assets@.textures == a0.textures + Seq::new(
                i as nat,
                |j: int| texture_for_spec(mv[j].texture),
            ),
            commands@.spawns == b0.spawns + Seq::new(
                i as nat,
                |j: int|
                    SpawnView {
                        name: record[j].0,
                        parent: d.entity,
                        mesh: record[j].1,
                        albedo: record[j].2,
                    },
            ),
            commands@.inserts == b0.inserts,
            assets@.meshes.len() == mesh0 + i,
            assets@.textures.len() == tex0 + i,
            component_models@.map_values(|m: ComponentModel| (m.0@, m.1, m.2)) == record.subrange(
                0,
                i as int,
            ),
        decreases models@.len() - i,
    {
        let ghost sp0 = commands@.spawns;
        let ghost cm0 = component_models@.map_values(|m: ComponentModel| (m.0@, m.1, m.2));
        let ghost me0 = assets@.meshes;
        let ghost te0 = assets@.textures;
        let m = &models[i];
        assert(mv[i as int] == m@);
        assert(indices_in_bounds(mv[i as int].vertices.len(), mv[i as int].indices));
        let name = component_name(&m.name, device.device_id, i);
        let mesh_data = expand_indexed(&m.vertices, &m.indices);
        let mesh = assets.load_mesh(mesh_data);
        let texture = assets.load_texture(texture_for(&m.texture));
        commands.spawns.push(
            SpawnCommand {
                name: name.clone(),
                parent: device.entity,
                mesh,
                material: Material { albedo: texture },
            },
        );
        component_models.push((name, mesh, texture));
        proof {
            assert(record[i as int].0 == name@);
            assert(record[i as int] == (name@, mesh, texture));
            assert(assets@.meshes =~= a0.meshes + Seq::new(
                (i + 1) as nat,
                |j: int| expanded(mv[j].vertices, mv[j].indices),
            ));
            assert(assets@.textures =~= a0.textures + Seq::new(
                (i + 1) as nat,
                |j: int| texture_for_spec(mv[j].texture),
            ));
            assert(commands@.spawns =~= sp0.push(SpawnView {
                name: record[i as int].0,
                parent: d.entity,
                mesh: record[i as int].1,
                albedo: record[i as int].2,
            }));
            assert(commands@.spawns =~= b0.spawns + Seq::new(
                (i + 1) as nat,
                |j: int|
                    SpawnView {
                        name: record[j].0,
                        parent: d.entity,
                        mesh: record[j].1,
                        albedo: record[j].2,
                    },
            ));
            assert(component_models@.map_values(|m: ComponentModel| (m.0@, m.1, m.2))
                =~= cm0.push(record[i as int]));
            assert(record.subrange(0, i + 1) =~= record.subrange(0, i as int).push(
                record[i as int],
            ));
        }
        i += 1;
    }
    let ghost spawned = commands@.spawns;
    commands.inserts.push(
        InsertCommand { entity: device.entity, info: XRModelInfo { component_models } },
    );
    proof {
        assert(record.subrange(0, mv.len() as int) =~= record);
        assert(commands@.inserts =~= b0.inserts.push(InsertView { entity: d.entity, models: record }));
        assert(commands@.spawns == spawned);
        assert(assets@.meshes =~= target.0.meshes);
        assert(assets@.textures =~= target.0.textures);
        assert(commands@.spawns =~= target.1.spawns);
        assert(commands@.inserts =~= target.1.inserts);
    }
}


/// Attaches a cache record to the device that carries its entity.
fn attach_record(devices: &mut Vec<TrackedDevice>, ins: InsertCommand)
    requires
        entities_distinct(devices_view(old(devices)@)),
    ensures
        devices_view(final(devices)@) == apply_insert(devices_view(old(devices)@), ins@),
{
    let ghost d0 = devices_view(devices@);
    let ghost target = apply_insert(d0, ins@);
    let InsertCommand { entity, info } = ins;
    let ghost iv = info@;
    let mut info = Some(info);
    let mut j: usize = 0;
    while j < devices.len()
        invariant
            j <= devices@.len(),
            devices@.len() == d0.len(),
            entities_distinct(d0),
            target == apply_insert(d0, InsertView { entity, models: iv }),
            devices_view(devices@) == target.subrange(0, j as int) + d0.subrange(
                j as int,
                d0.len() as int,
            ),
            info is Some ==> info->0@ == iv,
            info is None ==> exists|t: int| 0 <= t < j && #[trigger] d0[t].entity == entity,
        decreases devices@.len() - j,
    {
        let ghost before = devices_view(devices@);
        assert(before[j as int] == d0[j as int]);
        assert(before[j as int] == devices@[j as int]@);
        if devices[j].entity == entity {
            proof {
                if info is None {
                    let t = choose|t: int| 0 <= t < j && #[trigger] d0[t].entity == entity;
                    assert(d0[t].entity != d0[j as int].entity);
                }
            }
            let replaced = TrackedDevice {
                entity: devices[j].entity,
                device_id: devices[j].device_id,
                enabled: devices[j].enabled,
                model_info: info.take(),
            };
            devices.set(j, replaced);
            assert(d0[j as int].entity == entity);
            assert(devices_view(devices@) =~= before.update(j as int, target[j as int]));
        } else {
            assert(target[j as int] == d0[j as int]);
        }
        assert(devices_view(devices@) =~= target.subrange(0, j + 1) + d0.subrange(
            j + 1,
            d0.len() as int,
        ));
        j += 1;
    }
    assert(target.subrange(0, d0.len() as int) =~= target);
    assert(devices_view(devices@) =~= target);
}

/// Applies a tick's deferred commands: the new children join `scene`, and
/// each cache record is attached to the device with its entity.
pub fn flush(devices: &mut Vec<TrackedDevice>, scene: &mut Vec<SpawnCommand>, commands: CommandBuffer)
    requires
        entities_distinct(devices_view(old(devices)@)),
    ensures
        devices_view(final(devices)@) == apply_inserts(devices_view(old(devices)@), commands@.inserts),
        final(scene)@.map_values(|c: SpawnCommand| c@) == old(scene)@.map_values(
            |c: SpawnCommand| c@,
        ) + commands@.spawns,
{
    let ghost d0 = devices_view(devices@);
    let ghost all = commands@.inserts;
    let CommandBuffer { mut spawns, mut inserts } = commands;
    let ghost sc0 = scene@;
    let ghost sp0 = spawns@;
    scene.append(&mut spawns);
    assert(scene@.map_values(|c: SpawnCommand| c@) =~= sc0.map_values(|c: SpawnCommand| c@)
        + sp0.map_values(|c: SpawnCommand| c@));
    let ghost mut k: int = 0;
    while inserts.len() > 0
        invariant
            0 <= k <= all.len(),
            inserts@.map_values(|c: InsertCommand| c@) == all.subrange(k as int, all.len() as int),
            devices_view(devices@) == apply_inserts(d0, all.subrange(0, k as int)),
            forall|t: int| 0 <= t < d0.len() ==> #[trigger] devices_view(devices@)[t].entity == d0[t].entity,
            devices@.len() == d0.len(),
            entities_distinct(d0),
        decreases inserts@.len(),
    {
        let ghost rest = inserts@;
        assert(rest.map_values(|c: InsertCommand| c@).len() == all.len() - k);
        assert(k < all.len());
        let ins = inserts.remove(0);
        assert(rest.map_values(|c: InsertCommand| c@)[0] == ins@);
        assert(inserts@ == rest.remove(0));
        let ghost now = inserts@.map_values(|c: InsertCommand| c@);
        let ghost was = rest.map_values(|c: InsertCommand| c@);
        assert forall|t: int| 0 <= t < now.len() implies #[trigger] now[t] == all[k + 1 + t] by {
            assert(inserts@[t] == rest[t + 1]);
            assert(was[t + 1] == all.subrange(k as int, all.len() as int)[t + 1]);
        }
        assert(inserts@.map_values(|c: InsertCommand| c@) =~= all.subrange(k + 1, all.len() as int));
        assert(entities_distinct(devices_view(devices@)));
        attach_record(devices, ins);
        assert(all.subrange(0, k + 1).drop_last() =~= all.subrange(0, k as int));
        assert(all.subrange(0, k + 1).last() == all[k as int]);
        proof {
            k = k + 1;
        }
    }
    assert(inserts@.map_values(|c: InsertCommand| c@).len() == 0);
    assert(k == all.len());
    assert(all.subrange(0, all.len() as int) =~= all);
}

} // verus!
