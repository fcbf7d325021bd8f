use vstd::prelude::*;
use crate::assets::{AssetsView, TextureView};
use crate::system::{
    apply_insert, device_step, entities_distinct, is_target, target_positions, tick, BufferView,
    DeviceView, InsertView, SpawnView, SubmodelView,
};

verus! {

/// A device that already carries a cache record contributes nothing to a
/// tick, whatever its backend reports: no asset, no spawn, no insert.
pub proof fn lemma_recorded_device_idle(
    d: DeviceView,
    status: Option<Seq<SubmodelView>>,
    a: AssetsView,
    b: BufferView,
)
    requires
        d.record is Some,
    ensures
        device_step(d, status, a, b) == (a, b),
{
}

/// A device without the enabled marker contributes nothing to a tick,
/// whatever its backend reports.
pub proof fn lemma_disabled_device_idle(
    d: DeviceView,
    status: Option<Seq<SubmodelView>>,
    a: AssetsView,
    b: BufferView,
)
    requires
        !d.enabled,
    ensures
        device_step(d, status, a, b) == (a, b),
{
}

/// A tick over a table in which no device is a target issues no command and
/// loads no asset: once every device has its record, further ticks are idle.
pub proof fn lemma_tick_idle(
    ds: Seq<DeviceView>,
    ss: Seq<Option<Seq<SubmodelView>>>,
    a: AssetsView,
    b: BufferView,
)
    requires
        forall|k: int| 0 <= k < ds.len() ==> !is_target(#[trigger] ds[k]),
    ensures
        tick(ds, ss, a, b) == (a, b),
    decreases ds.len(),
{
    if ds.len() > 0 {
        let rest = ds.drop_last();
        assert forall|k: int| 0 <= k < rest.len() implies !is_target(#[trigger] rest[k]) by {
            assert(rest[k] == ds[k]);
        }
        lemma_tick_idle(rest, ss.drop_last(), a, b);
        assert(!is_target(ds[ds.len() - 1]));
    }
}

/// Every polled position names a device of the table that is a target.
pub proof fn lemma_target_positions_sound(ds: Seq<DeviceView>)
    ensures
        forall|j: int|
            0 <= j < target_positions(ds).len() ==> 0 <= #[trigger] target_positions(ds)[j] < ds.len()
                && is_target(ds[target_positions(ds)[j]]),
    decreases ds.len(),
{
    if ds.len() > 0 {
        let rest = ds.drop_last();
        lemma_target_positions_sound(rest);
        let p = target_positions(rest);
        assert forall|j: int| 0 <= j < p.len() implies 0 <= #[trigger] p[j] < ds.len() && is_target(
            ds[p[j]],
        ) by {
            assert(rest[p[j]] == ds[p[j]]);
        }
    }
}

/// A device without the enabled marker is never polled.
pub proof fn lemma_disabled_not_polled(ds: Seq<DeviceView>, k: int)
    requires
        0 <= k < ds.len(),
        !ds[k].enabled,
    ensures
        !target_positions(ds).contains(k),
{
    lemma_target_positions_sound(ds);
}

/// A device that reports its model available exactly once gets, from that
/// tick, one child per submodel, all parented to it, and one cache record
/// with one entry per submodel; while it reports nothing, it gets nothing;
/// and once the record is attached, no later tick touches it again.
pub proof fn lemma_spawn_exactly_once(
    ds: Seq<DeviceView>,
    k: int,
    models: Seq<SubmodelView>,
    a: AssetsView,
    b: BufferView,
)
    requires
        0 <= k < ds.len(),
        entities_distinct(ds),
        is_target(ds[k]),
    ensures
        device_step(ds[k], None, a, b) == (a, b),
        ({
            let (a1, b1) = device_step(ds[k], Some(models), a, b);
            let n = models.len();
            &&& b1.spawns.len() == b.spawns.len() + n
            &&& b1.spawns.subrange(0, b.spawns.len() as int) == b.spawns
            &&& forall|i: int|
                b.spawns.len() <= i < b1.spawns.len() ==> (#[trigger] b1.spawns[i]).parent
                    == ds[k].entity
            &&& b1.inserts.len() == b.inserts.len() + 1
            &&& b1.inserts.drop_last() == b.inserts
            &&& b1.inserts.last().entity == ds[k].entity
            &&& b1.inserts.last().models.len() == n
            &&& apply_insert(ds, b1.inserts.last())[k].record == Some(b1.inserts.last().models)
            &&& forall|s: Option<Seq<SubmodelView>>, a2: AssetsView, b2: BufferView|
                #[trigger] device_step(apply_insert(ds, b1.inserts.last())[k], s, a2, b2) == (a2, b2)
        }),
{
    let (a1, b1) = device_step(ds[k], Some(models), a, b);
    assert(b1.spawns.subrange(0, b.spawns.len() as int) =~= b.spawns);
    assert(b1.inserts.drop_last() =~= b.inserts);
}

/// A submodel without a texture gets, as its material's albedo, the id of a
/// freshly loaded flat white texture, never a missing one.
pub proof fn lemma_fallback_texture(
    d: DeviceView,
    models: Seq<SubmodelView>,
    a: AssetsView,
    b: BufferView,
    i: int,
)
    requires
        is_target(d),
        0 <= i < models.len(),
        models[i].texture is None,
        a.textures.len() + models.len() <= u64::MAX,
    ensures
        ({
            let (a1, b1) = device_step(d, Some(models), a, b);
            let spawned = b1.spawns[b.spawns.len() + i];
            &&& (spawned.albedo as int) < a1.textures.len()
            &&& a1.textures[spawned.albedo as int] == TextureView::FlatWhite
        }),
{
    let (a1, b1) = device_step(d, Some(models), a, b);
    assert(b1.spawns[b.spawns.len() + i].albedo == (a.textures.len() + i) as u64);
    assert(a1.textures[a.textures.len() + i] == TextureView::FlatWhite);
}


/// A tick only appends to the command buffer.
pub proof fn lemma_tick_appends(
    ds: Seq<DeviceView>,
    ss: Seq<Option<Seq<SubmodelView>>>,
    a: AssetsView,
    b: BufferView,
)
    ensures
        ({
            let (a1, b1) = tick(ds, ss, a, b);
            &&& b.spawns.len() <= b1.spawns.len()
            &&& b1.spawns.subrange(0, b.spawns.len() as int) == b.spawns
            &&& b.inserts.len() <= b1.inserts.len()
            &&& b1.inserts.subrange(0, b.inserts.len() as int) == b.inserts
        }),
    decreases ds.len(),
{
    if ds.len() == 0 {
        assert(b.spawns.subrange(0, b.spawns.len() as int) =~= b.spawns);
        assert(b.inserts.subrange(0, b.inserts.len() as int) =~= b.inserts);
    } else {
        lemma_tick_appends(ds.drop_last(), ss.drop_last(), a, b);
        let (a0, b0) = tick(ds.drop_last(), ss.drop_last(), a, b);
        let (a1, b1) = tick(ds, ss, a, b);
        assert(b1.spawns.subrange(0, b0.spawns.len() as int) =~= b0.spawns);
        assert(b1.inserts.subrange(0, b0.inserts.len() as int) =~= b0.inserts);
        assert(b1.spawns.subrange(0, b.spawns.len() as int) =~= b0.spawns.subrange(
            0,
            b.spawns.len() as int,
        ));
        assert(b1.inserts.subrange(0, b.inserts.len() as int) =~= b0.inserts.subrange(
            0,
            b.inserts.len() as int,
        ));
    }
}

/// Every child and every record that a tick queues belongs to a device of
/// the table that was a target.
pub proof fn lemma_tick_owners(
    ds: Seq<DeviceView>,
    ss: Seq<Option<Seq<SubmodelView>>>,
    a: AssetsView,
    b: BufferView,
)
    ensures
        ({
            let (a1, b1) = tick(ds, ss, a, b);
            &&& forall|i: int|
                b.spawns.len() <= i < b1.spawns.len() ==> exists|j: int|
                    0 <= j < ds.len() && is_target(ds[j]) && (#[trigger] b1.spawns[i]).parent
                        == ds[j].entity
            &&& forall|i: int|
                b.inserts.len() <= i < b1.inserts.len() ==> exists|j: int|
                    0 <= j < ds.len() && is_target(ds[j]) && (#[trigger] b1.inserts[i]).entity
                        == ds[j].entity
        }),
    decreases ds.len(),
{
    if ds.len() > 0 {
        let last = ds.len() - 1;
        let rest = ds.drop_last();
        lemma_tick_owners(rest, ss.drop_last(), a, b);
        lemma_tick_appends(rest, ss.drop_last(), a, b);
        let (a0, b0) = tick(rest, ss.drop_last(), a, b);
        let (a1, b1) = tick(ds, ss, a, b);
        assert((a1, b1) == device_step(ds[last], ss.last(), a0, b0));
        assert forall|i: int| b.spawns.len() <= i < b1.spawns.len() implies exists|j: int|
            0 <= j < ds.len() && is_target(ds[j]) && (#[trigger] b1.spawns[i]).parent
                == ds[j].entity by {
            if i < b0.spawns.len() {
                assert(b1.spawns[i] == b0.spawns[i]);
                let j = choose|j: int|
                    0 <= j < rest.len() && is_target(rest[j]) && b0.spawns[i].parent
                        == rest[j].entity;
                assert(rest[j] == ds[j]);
            } else {
                assert(is_target(ds[last]));
                assert(b1.spawns[i].parent == ds[last].entity);
            }
        }
        assert forall|i: int| b.inserts.len() <= i < b1.inserts.len() implies exists|j: int|
            0 <= j < ds.len() && is_target(ds[j]) && (#[trigger] b1.inserts[i]).entity
                == ds[j].entity by {
            if i < b0.inserts.len() {
                assert(b1.inserts[i] == b0.inserts[i]);
                let j = choose|j: int|
                    0 <= j < rest.len() && is_target(rest[j]) && b0.inserts[i].entity
                        == rest[j].entity;
                assert(rest[j] == ds[j]);
            } else {
                assert(is_target(ds[last]));
                assert(b1.inserts[i].entity == ds[last].entity);
            }
        }
    }
}

/// In a tick over a table of distinct entities, a device that already
/// carries a cache record is the parent of no new child and the subject of
/// no new insert, whatever every backend reports: repeated ticks add nothing
/// for it.
pub proof fn lemma_tick_skips_recorded(
    ds: Seq<DeviceView>,
    ss: Seq<Option<Seq<SubmodelView>>>,
    a: AssetsView,
    b: BufferView,
    k: int,
)
    requires
        entities_distinct(ds),
        0 <= k < ds.len(),
        ds[k].record is Some,
    ensures
        ({
            let (a1, b1) = tick(ds, ss, a, b);
            &&& forall|i: int|
                b.spawns.len() <= i < b1.spawns.len() ==> (#[trigger] b1.spawns[i]).parent
                    != ds[k].entity
            &&& forall|i: int|
                b.inserts.len() <= i < b1.inserts.len() ==> (#[trigger] b1.inserts[i]).entity
                    != ds[k].entity
        }),
{
    lemma_tick_owners(ds, ss, a, b);
    let (a1, b1) = tick(ds, ss, a, b);
    assert forall|i: int| b.spawns.len() <= i < b1.spawns.len() implies (
    #[trigger] b1.spawns[i]).parent != ds[k].entity by {
        let j = choose|j: int|
            0 <= j < ds.len() && is_target(ds[j]) && b1.spawns[i].parent == ds[j].entity;
        assert(j != k);
    }
    assert forall|i: int| b.inserts.len() <= i < b1.inserts.len() implies (
    #[trigger] b1.inserts[i]).entity != ds[k].entity by {
        let j = choose|j: int|
            0 <= j < ds.len() && is_target(ds[j]) && b1.inserts[i].entity == ds[j].entity;
        assert(j != k);
    }
}


/// How many queued children name `parent`.
pub open spec fn children_of(spawns: Seq<SpawnView>, parent: u64) -> nat
    decreases spawns.len(),
{
    if spawns.len() == 0 {
        0
    } else {
        children_of(spawns.drop_last(), parent) + if spawns.last().parent == parent {
            1nat
        } else {
            0nat
        }
    }
}

/// How many queued records name `entity`.
pub open spec fn records_of(inserts: Seq<InsertView>, entity: u64) -> nat
    decreases inserts.len(),
{
    if inserts.len() == 0 {
        0
    } else {
        records_of(inserts.drop_last(), entity) + if inserts.last().entity == entity {
            1nat
        } else {
            0nat
        }
    }
}

proof fn lemma_children_of_add(x: Seq<SpawnView>, y: Seq<SpawnView>, parent: u64)
    ensures
        children_of(x + y, parent) == children_of(x, parent) + children_of(y, parent),
    decreases y.len(),
{
    if y.len() == 0 {
        assert(x + y =~= x);
    } else {
        assert((x + y).drop_last() =~= x + y.drop_last());
        lemma_children_of_add(x, y.drop_last(), parent);
    }
}

proof fn lemma_children_of_uniform(y: Seq<SpawnView>, parent: u64)
    ensures
        (forall|i: int| 0 <= i < y.len() ==> (#[trigger] y[i]).parent == parent) ==> children_of(
            y,
            parent,
        ) == y.len(),
        (forall|i: int| 0 <= i < y.len() ==> (#[trigger] y[i]).parent != parent) ==> children_of(
            y,
            parent,
        ) == 0,
    decreases y.len(),
{
    if y.len() > 0 {
        lemma_children_of_uniform(y.drop_last(), parent);
        let z = y.drop_last();
        assert(forall|i: int| 0 <= i < z.len() ==> #[trigger] z[i] == y[i]);
    }
}

proof fn lemma_records_of_add(x: Seq<InsertView>, y: Seq<InsertView>, entity: u64)
    ensures
        records_of(x + y, entity) == records_of(x, entity) + records_of(y, entity),
    decreases y.len(),
{
    if y.len() == 0 {
        assert(x + y =~= x);
    } else {
        assert((x + y).drop_last() =~= x + y.drop_last());
        lemma_records_of_add(x, y.drop_last(), entity);
    }
}

proof fn lemma_records_of_none(y: Seq<InsertView>, entity: u64)
    requires
        forall|i: int| 0 <= i < y.len() ==> (#[trigger] y[i]).entity != entity,
    ensures
        records_of(y, entity) == 0,
    decreases y.len(),
{
    if y.len() > 0 {
        let z = y.drop_last();
        assert(forall|i: int| 0 <= i < z.len() ==> #[trigger] z[i] == y[i]);
        lemma_records_of_none(z, entity);
    }
}

/// In one tick over a table of distinct entities, a target device whose
/// backend reports `models` gets exactly `models.len()` new children and
/// exactly one new cache record, of `models.len()` entries, whatever the
/// other devices do.
pub proof fn lemma_tick_spawns_once(
    ds: Seq<DeviceView>,
    ss: Seq<Option<Seq<SubmodelView>>>,
    a: AssetsView,
    b: BufferView,
    k: int,
    models: Seq<SubmodelView>,
)
    requires
        entities_distinct(ds),
        ss.len() == ds.len(),
        0 <= k < ds.len(),
        is_target(ds[k]),
        ss[k] == Some(models),
    ensures
        ({
            let (a1, b1) = tick(ds, ss, a, b);
            let e = ds[k].entity;
            &&& children_of(b1.spawns.subrange(b.spawns.len() as int, b1.spawns.len() as int), e)
                == models.len()
            &&& records_of(b1.inserts.subrange(b.inserts.len() as int, b1.inserts.len() as int), e)
                == 1
            &&& forall|i: int|
                b.inserts.len() <= i < b1.inserts.len() && (#[trigger] b1.inserts[i]).entity == e
                    ==> b1.inserts[i].models.len() == models.len()
        }),
    decreases ds.len(),
{
    let e = ds[k].entity;
    let last = ds.len() - 1;
    let rest = ds.drop_last();
    let sr = ss.drop_last();
    lemma_tick_appends(rest, sr, a, b);
    lemma_tick_owners(rest, sr, a, b);
    let (a0, b0) = tick(rest, sr, a, b);
    let (a1, b1) = tick(ds, ss, a, b);
    assert((a1, b1) == device_step(ds[last], ss[last], a0, b0));
    lemma_tick_appends(ds, ss, a, b);
    let old_s = b0.spawns.subrange(b.spawns.len() as int, b0.spawns.len() as int);
    let step_s = b1.spawns.subrange(b0.spawns.len() as int, b1.spawns.len() as int);
    let old_i = b0.inserts.subrange(b.inserts.len() as int, b0.inserts.len() as int);
    let step_i = b1.inserts.subrange(b0.inserts.len() as int, b1.inserts.len() as int);
    assert(b0.spawns.len() <= b1.spawns.len() && b0.inserts.len() <= b1.inserts.len());
    assert(b1.spawns.subrange(0, b0.spawns.len() as int) =~= b0.spawns);
    assert(b1.inserts.subrange(0, b0.inserts.len() as int) =~= b0.inserts);
    assert(b1.spawns.subrange(b.spawns.len() as int, b1.spawns.len() as int) =~= old_s + step_s);
    assert(b1.inserts.subrange(b.inserts.len() as int, b1.inserts.len() as int) =~= old_i
        + step_i);
    lemma_children_of_add(old_s, step_s, e);
    lemma_records_of_add(old_i, step_i, e);
    if k == last {
        assert forall|i: int| 0 <= i < old_s.len() implies (#[trigger] old_s[i]).parent != e by {
            assert(old_s[i] == b0.spawns[b.spawns.len() + i]);
            let j = choose|j: int|
                0 <= j < rest.len() && is_target(rest[j]) && b0.spawns[b.spawns.len() + i].parent
                    == rest[j].entity;
            assert(rest[j] == ds[j]);
        }
        assert forall|i: int| 0 <= i < old_i.len() implies (#[trigger] old_i[i]).entity != e by {
            assert(old_i[i] == b0.inserts[b.inserts.len() + i]);
            let j = choose|j: int|
                0 <= j < rest.len() && is_target(rest[j]) && b0.inserts[b.inserts.len()
                    + i].entity == rest[j].entity;
            assert(rest[j] == ds[j]);
        }
        lemma_children_of_uniform(old_s, e);
        lemma_records_of_none(old_i, e);
        assert forall|i: int| 0 <= i < step_s.len() implies (#[trigger] step_s[i]).parent == e by {
            assert(step_s[i] == b1.spawns[b0.spawns.len() + i]);
        }
        lemma_children_of_uniform(step_s, e);
        assert(step_i.len() == 1);
        assert(step_i.drop_last() =~= Seq::<InsertView>::empty());
        assert(records_of(Seq::<InsertView>::empty(), e) == 0);
        assert(step_i.last() == b1.inserts[b0.inserts.len() as int]);
        assert(b1.inserts[b0.inserts.len() as int].entity == e);
        assert(records_of(step_i, e) == 1);
        assert forall|i: int|
            b.inserts.len() <= i < b1.inserts.len() && (#[trigger] b1.inserts[i]).entity == e
                implies b1.inserts[i].models.len() == models.len() by {
            if i < b0.inserts.len() {
                assert(old_i[i - b.inserts.len()] == b1.inserts[i]);
            }
        }
    } else {
        assert(rest[k] == ds[k]);
        assert(sr[k] == ss[k]);
        assert(entities_distinct(rest)) by {
            assert(forall|i: int| 0 <= i < rest.len() ==> #[trigger] rest[i] == ds[i]);
        }
        lemma_tick_spawns_once(rest, sr, a, b, k, models);
        assert(ds[last].entity != e);
        assert forall|i: int| 0 <= i < step_s.len() implies (#[trigger] step_s[i]).parent != e by {
            assert(step_s[i] == b1.spawns[b0.spawns.len() + i]);
        }
        assert forall|i: int| 0 <= i < step_i.len() implies (#[trigger] step_i[i]).entity != e by {
            assert(step_i[i] == b1.inserts[b0.inserts.len() + i]);
        }
        lemma_children_of_uniform(step_s, e);
        lemma_records_of_none(step_i, e);
        assert forall|i: int|
            b.inserts.len() <= i < b1.inserts.len() && (#[trigger] b1.inserts[i]).entity == e
                implies b1.inserts[i].models.len() == models.len() by {
            if i >= b0.inserts.len() {
                assert(step_i[i - b0.inserts.len()] == b1.inserts[i]);
            } else {
                assert(b0.inserts[i] == b1.inserts[i]);
            }
        }
    }
}

} // verus!
