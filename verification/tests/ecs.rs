use taconite::accessor::EntityIdAccessor;
use taconite::components::Shapes;
use taconite::entity::Entity;
use taconite::entity_manager::EntityManager;
use taconite::registry::Entities;
use taconite::store::ComponentManager;
use taconite::window_config::WindowConfig;

const POSITION: u64 = 1;
const VELOCITY: u64 = 2;
const HEALTH: u64 = 3;
const TAG: u64 = 4;

#[test]
fn entity_slot_lifecycle() {
    let mut e = Entity::default();
    assert!(e.is_alive());
    e.disable();
    assert!(!e.is_alive());
    e.enable();
    assert!(e.is_alive());
}

#[test]
fn registry_creates_sequential_ids() {
    let mut reg = Entities::new();
    assert_eq!(reg.create(), 0);
    assert_eq!(reg.create(), 1);
    assert_eq!(reg.create(), 2);
    assert!(reg.entity_exists(0));
    assert!(reg.entity_exists(2));
    assert!(!reg.entity_exists(3));
    assert!(!reg.entity_exists(99));
}

#[test]
fn registry_remove_then_recycle() {
    let mut reg = Entities::new();
    let a = reg.create();
    let b = reg.create();
    let c = reg.create();
    assert_eq!((a, b, c), (0, 1, 2));
    reg.remove(1);
    assert!(!reg.entity_exists(1));
    assert!(reg.entity_exists(0));
    assert!(reg.entity_exists(2));
    // the freed id is handed out again
    let d = reg.create();
    assert_eq!(d, 1);
    assert!(reg.entity_exists(1));
}

#[test]
fn registry_reuses_lowest_free_index() {
    let mut reg = Entities::new();
    for _ in 0..4 {
        reg.create();
    }
    reg.remove(2);
    reg.remove(0);
    reg.remove(3);
    // lowest available index first
    assert_eq!(reg.create(), 0);
    assert_eq!(reg.create(), 2);
    assert_eq!(reg.create(), 3);
}

#[test]
fn registry_remove_invalid_is_noop() {
    let mut reg = Entities::new();
    reg.create();
    reg.remove(42);
    reg.remove(0);
    reg.remove(0); // already dead
    assert!(!reg.entity_exists(0));
    assert_eq!(reg.create(), 0);
}

#[test]
fn store_round_trip() {
    let mut store: ComponentManager<i32> = ComponentManager::new();
    store.add(7, 55);
    assert_eq!(store.borrow_component(7), Some(&55));
    assert!(store.component_exists(7));
    store.remove(7);
    assert_eq!(store.borrow_component(7), None);
    assert!(!store.component_exists(7));
}

#[test]
fn store_add_overwrites_existing() {
    let mut store: ComponentManager<&str> = ComponentManager::new();
    store.add(1, "first");
    store.add(1, "second");
    assert_eq!(store.borrow_component(1), Some(&"second"));
    assert_eq!(store.borrow_entity_ids().len(), 1);
    assert_eq!(store.borrow_components().len(), 1);
}

#[test]
fn store_swap_remove_moves_last_entry() {
    let mut store: ComponentManager<u8> = ComponentManager::new();
    store.add(1, 10);
    store.add(2, 20);
    store.add(3, 30);
    store.remove(1);
    // swap-remove moved the last entry into the vacated slot
    assert_eq!(store.borrow_entity_ids().as_slice(), &[3, 2]);
    assert_eq!(store.borrow_components().as_slice(), &[30, 20]);
    assert_eq!(store.borrow_component(2), Some(&20));
    assert_eq!(store.borrow_component(3), Some(&30));
}

#[test]
fn store_dense_lengths_track_holders() {
    let mut store: ComponentManager<usize> = ComponentManager::new();
    for id in 0..6 {
        store.add(id, id * 100);
    }
    store.remove(4);
    store.remove(0);
    store.remove(4); // second removal of the same id is a no-op
    assert_eq!(store.borrow_entity_ids().len(), 4);
    assert_eq!(store.borrow_components().len(), 4);
    for id in [1, 2, 3, 5] {
        assert_eq!(store.borrow_component(id), Some(&(id * 100)));
    }
}

#[test]
fn store_mutable_borrow_updates_value() {
    let mut store: ComponentManager<i64> = ComponentManager::new();
    store.add(9, -5);
    if let Some(v) = store.borrow_component_mut(9) {
        *v = 12;
    }
    assert_eq!(store.borrow_component(9), Some(&12));
    assert_eq!(store.borrow_component_mut(100), None);
}

#[test]
fn manager_register_is_idempotent() {
    let mut mgr: EntityManager<i32> = EntityManager::default();
    assert!(!mgr.has_component_manager(POSITION));
    mgr.register(POSITION);
    mgr.register(POSITION);
    assert!(mgr.has_component_manager(POSITION));
    assert!(!mgr.has_component_manager(VELOCITY));
}

#[test]
fn manager_unregistered_add_is_noop() {
    let mut mgr: EntityManager<i32> = EntityManager::default();
    mgr.register(POSITION);
    let e = mgr.create_entity();
    mgr.add_component_to_entity(VELOCITY, e, 3);
    assert!(!mgr.has_component_manager(VELOCITY));
    assert_eq!(mgr.borrow_component(VELOCITY, e), None);
    assert_eq!(mgr.borrow_components(VELOCITY), None);
    // the registered store is untouched
    assert_eq!(mgr.borrow_components(POSITION).unwrap().len(), 0);
    assert_eq!(mgr.get_frame(), 0);
}

#[test]
fn manager_component_crud() {
    let mut mgr: EntityManager<i32> = EntityManager::default();
    mgr.register(POSITION);
    let e = mgr.create_entity();
    mgr.add_component_to_entity(POSITION, e, 41);
    assert_eq!(mgr.borrow_component(POSITION, e), Some(&41));
    if let Some(v) = mgr.borrow_component_mut(POSITION, e) {
        *v += 1;
    }
    assert_eq!(mgr.borrow_component(POSITION, e), Some(&42));
    assert_eq!(mgr.borrow_component(POSITION, e + 1), None);
}

#[test]
fn manager_remove_entity_strips_all_components() {
    let mut mgr: EntityManager<i32> = EntityManager::default();
    mgr.register(POSITION);
    mgr.register(VELOCITY);
    let e = mgr.create_entity();
    mgr.add_component_to_entity(POSITION, e, 1);
    mgr.add_component_to_entity(VELOCITY, e, 2);
    mgr.remove_entity(e);
    assert_eq!(mgr.borrow_component(POSITION, e), None);
    assert_eq!(mgr.borrow_component(VELOCITY, e), None);
    // a recycled id starts with no components
    let e2 = mgr.create_entity();
    assert_eq!(e2, e);
    assert_eq!(mgr.borrow_component(POSITION, e2), None);
    assert_eq!(mgr.borrow_component(VELOCITY, e2), None);
}

#[test]
fn manager_frame_counter_and_stamps() {
    let mut mgr: EntityManager<i32> = EntityManager::default();
    mgr.register(POSITION);
    assert_eq!(mgr.get_frame(), 0);
    assert_eq!(mgr.get_updated_frame(POSITION), 0);
    mgr.increment_frame();
    assert_eq!(mgr.get_frame(), 1);
    let e = mgr.create_entity();
    mgr.add_component_to_entity(POSITION, e, 5);
    // an addition stamps with the current frame
    assert_eq!(mgr.get_updated_frame(POSITION), 1);
    mgr.remove_entity(e);
    // entity removal stamps with the frame after the current one
    assert_eq!(mgr.get_updated_frame(POSITION), 2);
}

#[test]
fn manager_bulk_values_in_dense_order() {
    let mut mgr: EntityManager<i32> = EntityManager::default();
    mgr.register(POSITION);
    let a = mgr.create_entity();
    let b = mgr.create_entity();
    mgr.add_component_to_entity(POSITION, a, 10);
    mgr.add_component_to_entity(POSITION, b, 20);
    assert_eq!(mgr.borrow_components(POSITION).unwrap().as_slice(), &[10, 20]);
    if let Some(vals) = mgr.borrow_components_mut(POSITION) {
        for v in vals.iter_mut() {
            *v += 1;
        }
    }
    assert_eq!(mgr.borrow_components(POSITION).unwrap().as_slice(), &[11, 21]);
}

#[test]
fn pair_mut_writes_stay_disjoint() {
    let mut mgr: EntityManager<i32> = EntityManager::default();
    mgr.register(POSITION);
    mgr.register(VELOCITY);
    let e = mgr.create_entity();
    mgr.add_component_to_entity(POSITION, e, 100);
    mgr.add_component_to_entity(VELOCITY, e, 200);
    {
        let (pos, vel) = mgr.borrow_components_pair_mut(POSITION, VELOCITY).unwrap();
        pos[0] = 101;
        vel[0] = 202;
    }
    // writing through each view corrupted neither store
    assert_eq!(mgr.borrow_component(POSITION, e), Some(&101));
    assert_eq!(mgr.borrow_component(VELOCITY, e), Some(&202));
}

#[test]
fn pair_mut_rejects_duplicate_type() {
    let mut mgr: EntityManager<i32> = EntityManager::default();
    mgr.register(POSITION);
    mgr.register(VELOCITY);
    assert!(mgr.borrow_components_pair_mut(POSITION, POSITION).is_none());
    assert!(mgr.borrow_components_triple_mut(POSITION, VELOCITY, POSITION).is_none());
    assert!(mgr
        .borrow_components_quad_mut(POSITION, VELOCITY, HEALTH, VELOCITY)
        .is_none());
    assert!(mgr.borrow_component_pair_mut(POSITION, POSITION, 0).is_none());
}

#[test]
fn triple_and_quad_mut_bulk_access() {
    let mut mgr: EntityManager<i32> = EntityManager::default();
    mgr.register(POSITION);
    mgr.register(VELOCITY);
    mgr.register(HEALTH);
    mgr.register(TAG);
    let e = mgr.create_entity();
    mgr.add_component_to_entity(POSITION, e, 1);
    mgr.add_component_to_entity(VELOCITY, e, 2);
    mgr.add_component_to_entity(HEALTH, e, 3);
    mgr.add_component_to_entity(TAG, e, 4);
    {
        let (a, b, c) = mgr.borrow_components_triple_mut(HEALTH, POSITION, VELOCITY).unwrap();
        a[0] += 30;
        b[0] += 10;
        c[0] += 20;
    }
    {
        let (a, b, c, d) = mgr
            .borrow_components_quad_mut(TAG, HEALTH, VELOCITY, POSITION)
            .unwrap();
        a[0] += 400;
        b[0] += 300;
        c[0] += 200;
        d[0] += 100;
    }
    assert_eq!(mgr.borrow_component(POSITION, e), Some(&111));
    assert_eq!(mgr.borrow_component(VELOCITY, e), Some(&222));
    assert_eq!(mgr.borrow_component(HEALTH, e), Some(&333));
    assert_eq!(mgr.borrow_component(TAG, e), Some(&404));
}

#[test]
fn per_entity_multi_mut_access() {
    let mut mgr: EntityManager<i32> = EntityManager::default();
    mgr.register(POSITION);
    mgr.register(VELOCITY);
    mgr.register(HEALTH);
    mgr.register(TAG);
    let e = mgr.create_entity();
    let other = mgr.create_entity();
    mgr.add_component_to_entity(POSITION, e, 1);
    mgr.add_component_to_entity(VELOCITY, e, 2);
    mgr.add_component_to_entity(HEALTH, e, 3);
    mgr.add_component_to_entity(TAG, e, 4);
    mgr.add_component_to_entity(POSITION, other, 9);
    {
        let (p, v) = mgr.borrow_component_pair_mut(POSITION, VELOCITY, e).unwrap();
        *p += 10;
        *v += 10;
    }
    {
        let (p, v, h) = mgr
            .borrow_component_triple_mut(POSITION, VELOCITY, HEALTH, e)
            .unwrap();
        *p += 100;
        *v += 100;
        *h += 100;
    }
    {
        let (p, v, h, t) = mgr
            .borrow_component_quad_mut(POSITION, VELOCITY, HEALTH, TAG, e)
            .unwrap();
        *p += 1000;
        *v += 1000;
        *h += 1000;
        *t += 1000;
    }
    assert_eq!(mgr.borrow_component(POSITION, e), Some(&1111));
    assert_eq!(mgr.borrow_component(VELOCITY, e), Some(&1112));
    assert_eq!(mgr.borrow_component(HEALTH, e), Some(&1103));
    assert_eq!(mgr.borrow_component(TAG, e), Some(&1004));
    // the untouched entity keeps its value
    assert_eq!(mgr.borrow_component(POSITION, other), Some(&9));
    // absence when the entity lacks one of the requested components
    assert!(mgr.borrow_component_pair_mut(POSITION, VELOCITY, other).is_none());
}

#[test]
fn query_intersection_results() {
    let mut mgr: EntityManager<i32> = EntityManager::default();
    let mut cache = EntityIdAccessor::new();
    mgr.register(POSITION);
    mgr.register(VELOCITY);
    mgr.register(HEALTH);
    let e1 = mgr.create_entity();
    let e2 = mgr.create_entity();
    let e3 = mgr.create_entity();
    // e1 has {POSITION, VELOCITY}, e2 has {POSITION, HEALTH},
    // e3 has {POSITION, VELOCITY, HEALTH}
    mgr.add_component_to_entity(POSITION, e1, 0);
    mgr.add_component_to_entity(VELOCITY, e1, 0);
    mgr.add_component_to_entity(POSITION, e2, 0);
    mgr.add_component_to_entity(HEALTH, e2, 0);
    mgr.add_component_to_entity(POSITION, e3, 0);
    mgr.add_component_to_entity(VELOCITY, e3, 0);
    mgr.add_component_to_entity(HEALTH, e3, 0);

    let single = cache.borrow_ids(&mgr, POSITION).unwrap().clone();
    assert_eq!(single, vec![e1, e2, e3]);
    let pair = cache.borrow_ids_for_pair(&mgr, POSITION, VELOCITY).unwrap().clone();
    assert_eq!(pair, vec![e1, e3]);
    let triple = cache
        .borrow_ids_for_triple(&mgr, POSITION, VELOCITY, HEALTH)
        .unwrap()
        .clone();
    assert_eq!(triple, vec![e3]);
}

#[test]
fn query_unregistered_type_gives_absence() {
    let mut mgr: EntityManager<i32> = EntityManager::default();
    let mut cache = EntityIdAccessor::new();
    mgr.register(POSITION);
    assert!(cache.borrow_ids(&mgr, VELOCITY).is_none());
    assert!(cache.borrow_ids_for_pair(&mgr, POSITION, VELOCITY).is_none());
    assert!(cache
        .borrow_ids_for_triple(&mgr, POSITION, VELOCITY, HEALTH)
        .is_none());
    assert!(cache
        .borrow_ids_for_quad(&mgr, POSITION, VELOCITY, HEALTH, TAG)
        .is_none());
}

#[test]
fn query_cache_recomputes_only_when_stamps_advance() {
    let mut mgr: EntityManager<i32> = EntityManager::default();
    let mut cache = EntityIdAccessor::new();
    mgr.register(POSITION);
    mgr.register(VELOCITY);
    let e1 = mgr.create_entity();
    mgr.add_component_to_entity(POSITION, e1, 0);
    mgr.add_component_to_entity(VELOCITY, e1, 0);

    assert_eq!(cache.recompute_count(), 0);
    let first = cache.borrow_ids_for_pair(&mgr, POSITION, VELOCITY).unwrap().clone();
    assert_eq!(first, vec![e1]);
    assert_eq!(cache.recompute_count(), 1);

    // no intervening mutation: served from the cache, no rescan
    let second = cache.borrow_ids_for_pair(&mgr, POSITION, VELOCITY).unwrap().clone();
    assert_eq!(second, vec![e1]);
    assert_eq!(cache.recompute_count(), 1);

    // next tick a new entity gains both components: the stamp advances and
    // the same query reflects it
    mgr.increment_frame();
    let e2 = mgr.create_entity();
    mgr.add_component_to_entity(POSITION, e2, 0);
    mgr.add_component_to_entity(VELOCITY, e2, 0);
    let third = cache.borrow_ids_for_pair(&mgr, POSITION, VELOCITY).unwrap().clone();
    assert_eq!(third, vec![e1, e2]);
    assert_eq!(cache.recompute_count(), 2);

    // distinct type tuples cache independently
    let single = cache.borrow_ids(&mgr, POSITION).unwrap().clone();
    assert_eq!(single, vec![e1, e2]);
    assert_eq!(cache.recompute_count(), 3);
}

#[test]
fn query_cache_sees_entity_removal_next_tick() {
    let mut mgr: EntityManager<i32> = EntityManager::default();
    let mut cache = EntityIdAccessor::new();
    mgr.register(POSITION);
    let e1 = mgr.create_entity();
    let e2 = mgr.create_entity();
    mgr.add_component_to_entity(POSITION, e1, 0);
    mgr.add_component_to_entity(POSITION, e2, 0);
    let first = cache.borrow_ids(&mgr, POSITION).unwrap().clone();
    assert_eq!(first, vec![e1, e2]);
    // removal stamps one frame ahead, so the refreshed query drops the id
    mgr.remove_entity(e1);
    let second = cache.borrow_ids(&mgr, POSITION).unwrap().clone();
    assert_eq!(second, vec![e2]);
}

#[test]
fn quad_query_intersects_four_stores() {
    let mut mgr: EntityManager<i32> = EntityManager::default();
    let mut cache = EntityIdAccessor::new();
    for key in [POSITION, VELOCITY, HEALTH, TAG] {
        mgr.register(key);
    }
    let a = mgr.create_entity();
    let b = mgr.create_entity();
    for key in [POSITION, VELOCITY, HEALTH, TAG] {
        mgr.add_component_to_entity(key, a, 0);
    }
    for key in [POSITION, VELOCITY, HEALTH] {
        mgr.add_component_to_entity(key, b, 0);
    }
    let hit = cache
        .borrow_ids_for_quad(&mgr, POSITION, VELOCITY, HEALTH, TAG)
        .unwrap()
        .clone();
    assert_eq!(hit, vec![a]);
}

#[test]
fn window_config_defaults() {
    let cfg = WindowConfig::default();
    assert_eq!(cfg.name, "Taconite window");
    assert!(!cfg.fullscreen);
    assert!(cfg.vsync);
    assert_eq!(cfg.width, 640);
    assert_eq!(cfg.height, 480);
    assert!(cfg.auto_clear);
}

#[test]
fn shapes_compare_equal() {
    assert_eq!(Shapes::Rectangle, Shapes::Rectangle);
    let s = Shapes::Rectangle;
    let t = s;
    assert!(matches!(t, Shapes::Rectangle));
}

#[test]
fn query_on_empty_store_matches_nothing() {
    let mut mgr: EntityManager<i32> = EntityManager::default();
    let mut cache = EntityIdAccessor::new();
    mgr.register(POSITION);
    mgr.register(VELOCITY);
    assert_eq!(cache.borrow_ids(&mgr, POSITION).unwrap().len(), 0);
    assert_eq!(
        cache.borrow_ids_for_pair(&mgr, POSITION, VELOCITY).unwrap().len(),
        0
    );
}

#[test]
fn store_handles_sparse_large_ids() {
    let mut store: ComponentManager<u16> = ComponentManager::new();
    store.add(1000, 7);
    store.add(3, 8);
    assert_eq!(store.borrow_component(1000), Some(&7));
    assert_eq!(store.borrow_component(3), Some(&8));
    assert_eq!(store.borrow_component(500), None);
    assert_eq!(store.borrow_entity_ids().as_slice(), &[1000, 3]);
    store.remove(1000);
    assert_eq!(store.borrow_entity_ids().as_slice(), &[3]);
    assert_eq!(store.borrow_component(3), Some(&8));
}
