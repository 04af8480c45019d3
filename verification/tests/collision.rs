use shootr::collision::{Bounds, CollisionObject, World};
use shootr::model::comp::Pos;

#[test]
fn intersects() {
    let a = Bounds { x: 0, y: 0, width: 10, height: 10 };
    let b = Bounds { x: 5, y: 5, width: 10, height: 10 };
    assert!(a.intersects(&b));
}

#[test]
fn doesnt_intersect() {
    let a = Bounds { x: 0, y: 0, width: 10, height: 10 };
    let b = Bounds { x: 50, y: 50, width: 10, height: 10 };
    assert!(!a.intersects(&b));
}

#[test]
fn doesnt_intersect_edge() {
    let a = Bounds { x: 0, y: 0, width: 10, height: 10 };
    let b = Bounds { x: 15, y: 0, width: 10, height: 10 };
    assert!(!a.intersects(&b));
}

#[test]
fn contains() {
    let a = Bounds { x: 0, y: 0, width: 100, height: 100 };
    let b = Bounds { x: 2, y: 2, width: 10, height: 10 };
    assert!(a.contains(&b));
}

#[test]
fn doesnt_contain() {
    let a = Bounds { x: 0, y: 0, width: 10, height: 10 };
    let b = Bounds { x: 50, y: 50, width: 10, height: 10 };
    assert!(!a.contains(&b));
}

#[test]
fn doesnt_contain_when_intersecting() {
    let a = Bounds { x: 0, y: 0, width: 10, height: 10 };
    let b = Bounds { x: 5, y: 5, width: 10, height: 10 };
    assert!(!a.contains(&b));
}

#[test]
fn contains_edge() {
    let a = Bounds { x: 0, y: 0, width: 10, height: 10 };
    let b = Bounds { x: 10, y: 10, width: 0, height: 0 };
    assert!(!a.contains(&b));
}

#[test]
fn contains_self() {
    let a = Bounds { x: 0, y: 0, width: 10, height: 10 };
    assert!(a.contains(&a));
}

#[test]
fn init() {
    World::new(1000, 1000);
}

#[test]
fn add() {
    let mut world = World::new(1000, 1000);
    let bounds = Bounds { x: 0, y: 0, width: 10, height: 10 };
    world.add(1, bounds);
}

#[test]
fn place() {
    let mut world = World::new(1000, 1000);
    let id = 1;
    let bounds = Bounds { x: 0, y: 0, width: 10, height: 10 };
    world.add(id, bounds.clone());
    world.place(&id, &Pos { x: 30, y: 50 });
}

#[test]
fn remove() {
    let mut world = World::new(1000, 1000);
    let id = 1;
    let bounds = Bounds { x: 0, y: 0, width: 10, height: 10 };
    world.add(id, bounds.clone());
    world.remove(&id);
    world.add(id, bounds)
}

#[test]
fn remove_nonexistant() {
    let mut world = World::new(1000, 1000);
    let bounds = Bounds { x: 0, y: 0, width: 10, height: 10 };
    world.add(1, bounds);
    let removed = world.remove(&2);
    assert!(removed.is_none())
}

#[test]
fn remove_empty() {
    let mut world = World::new(1000, 1000);
    let removed = world.remove(&1);
    assert!(removed.is_none())
}

#[test]
fn remove_twice() {
    let mut world = World::new(1000, 1000);
    let id = 1;
    let bounds = Bounds { x: 0, y: 0, width: 10, height: 10 };
    world.add(id, bounds.clone());
    let removed = world.remove(&id);
    assert_eq!(bounds, removed.unwrap());
    let removed = world.remove(&id);
    assert!(removed.is_none());
}

#[test]
fn no_collisions() {
    let mut world = World::new(1000, 1000);
    world.add(1, Bounds { x: 0, y: 0, width: 10, height: 10 });
    world.add(2, Bounds { x: 40, y: 40, width: 10, height: 10 });
    assert!(world.query_intersects().is_empty());
}

#[test]
fn one_collision() {
    let mut world = World::new(1000, 1000);
    let id_a = 1;
    let bounds_a = Bounds { x: 0, y: 0, width: 10, height: 10 };
    world.add(id_a, bounds_a.clone());
    let id_b = 2;
    let bounds_b = Bounds { x: 5, y: 5, width: 10, height: 10 };
    world.add(id_b, bounds_b.clone());

    let collisions = world.query_intersects();

    assert_eq!(1, collisions.len());
    let (ref a, ref b) = collisions[0];
    assert_eq!(id_a, a.id);
    assert_eq!(id_b, b.id);
    assert_eq!(bounds_a, a.bounds);
    assert_eq!(bounds_b, b.bounds);
}

#[test]
fn multiple_collisions() {
    let mut world = World::new(1000, 1000);
    let id_a = 1;
    let bounds_a = Bounds { x: 3, y: 5, width: 10, height: 70 };
    world.add(id_a, bounds_a.clone());
    let not_containing = Bounds { x: 54, y: 60, width: 3, height: 6 };
    world.add(2, not_containing);
    let id_b = 3;
    let bounds_b = Bounds { x: 0, y: 0, width: 10, height: 10 };
    world.add(id_b, bounds_b.clone());
    let id_c = 4;
    let bounds_c = Bounds { x: 5, y: 5, width: 10, height: 10 };
    world.add(id_c, bounds_c.clone());
    let collisions = world.query_intersects();
    assert_eq!(3, collisions.len());
    let a_b_pos = collisions
        .iter()
        .position(|&(ref lhs, ref rhs)| {
            (lhs.id == id_a && lhs.bounds == bounds_a && rhs.id == id_b && rhs.bounds == bounds_b)
                || (rhs.id == id_a && rhs.bounds == bounds_a && lhs.id == id_b
                    && lhs.bounds == bounds_b)
        })
        .unwrap();
    let a_c_pos = collisions
        .iter()
        .position(|&(ref lhs, ref rhs)| {
            (lhs.id == id_a && lhs.bounds == bounds_a && rhs.id == id_c && rhs.bounds == bounds_c)
                || (rhs.id == id_a && rhs.bounds == bounds_a && lhs.id == id_c
                    && lhs.bounds == bounds_c)
        })
        .unwrap();
    let b_c_pos = collisions
        .iter()
        .position(|&(ref lhs, ref rhs)| {
            (lhs.id == id_b && lhs.bounds == bounds_b && rhs.id == id_c && rhs.bounds == bounds_c)
                || (rhs.id == id_b && rhs.bounds == bounds_b && lhs.id == id_c
                    && lhs.bounds == bounds_c)
        })
        .unwrap();
    assert!(a_b_pos != a_c_pos && a_b_pos != b_c_pos && a_c_pos != b_c_pos);
}

#[test]
fn no_collisions_id() {
    let mut world = World::new(1000, 1000);
    world.add(1, Bounds { x: 0, y: 0, width: 10, height: 10 });
    world.add(2, Bounds { x: 40, y: 40, width: 10, height: 10 });
    assert!(world.query_intersects_id(&1).is_empty());
}

#[test]
fn one_collision_id() {
    let mut world = World::new(1000, 1000);
    let id_a = 1;
    let bounds_a = Bounds { x: 0, y: 0, width: 10, height: 10 };
    world.add(id_a, bounds_a.clone());
    let id_b = 2;
    let bounds_b = Bounds { x: 5, y: 5, width: 10, height: 10 };
    world.add(id_b, bounds_b.clone());

    let collisions: Vec<CollisionObject> = world.query_intersects_id(&id_a);

    assert_eq!(1, collisions.len());
    let b = collisions.first().unwrap();
    assert_eq!(id_b, b.id);
    assert_eq!(bounds_b, b.bounds);
}

#[test]
fn multiple_collisions_id() {
    let mut world = World::new(1000, 1000);
    let id_a = 1;
    let bounds_a = Bounds { x: 3, y: 5, width: 10, height: 70 };
    world.add(id_a, bounds_a.clone());
    let not_containing = Bounds { x: 54, y: 60, width: 3, height: 6 };
    world.add(2, not_containing);
    let id_b = 3;
    let bounds_b = Bounds { x: 0, y: 0, width: 10, height: 10 };
    world.add(id_b, bounds_b.clone());
    let id_c = 4;
    let bounds_c = Bounds { x: 5, y: 5, width: 10, height: 10 };
    world.add(id_c, bounds_c.clone());
    let collisions = world.query_intersects_id(&id_c);
    assert_eq!(2, collisions.len());
    let a_c_pos = collisions.iter().position(|a| a.id == id_a && a.bounds == bounds_a).unwrap();
    let b_c_pos = collisions.iter().position(|b| b.id == id_b && b.bounds == bounds_b).unwrap();
    assert!(a_c_pos != b_c_pos);
}

#[test]
fn no_collisions_other() {
    let mut world = World::new(1000, 1000);
    let id = 1;
    let bounds_a = Bounds { x: 0, y: 0, width: 10, height: 10 };
    world.add(id, bounds_a.clone());
    let bounds_b = Bounds { x: 40, y: 40, width: 10, height: 10 };
    assert!(world.query_intersects_other(&bounds_b).is_empty());
}

#[test]
fn one_collision_other() {
    let mut world = World::new(1000, 1000);
    let id = 1;
    let bounds_a = Bounds { x: 0, y: 0, width: 10, height: 10 };
    world.add(id, bounds_a.clone());
    let bounds_b = Bounds { x: 5, y: 5, width: 10, height: 10 };
    let collisions = world.query_intersects_other(&bounds_b);
    assert_eq!(1, collisions.len());
    let obj = collisions.first().unwrap();
    assert_eq!(id, obj.id);
    assert_eq!(bounds_a, obj.bounds);
}

#[test]
fn multiple_collision_other() {
    let mut world = World::new(1000, 1000);
    let id_a = 1;
    let bounds_a = Bounds { x: 3, y: 5, width: 10, height: 70 };
    world.add(id_a, bounds_a.clone());
    let not_containing = Bounds { x: 54, y: 60, width: 3, height: 6 };
    world.add(2, not_containing);
    let id_b = 3;
    let bounds_b = Bounds { x: 0, y: 0, width: 10, height: 10 };
    world.add(id_b, bounds_b.clone());
    let bounds_c = Bounds { x: 5, y: 5, width: 10, height: 10 };
    let collisions = world.query_intersects_other(&bounds_c);
    assert_eq!(2, collisions.len());
    let ref first = collisions[0];
    assert_eq!(id_a, first.id);
    assert_eq!(bounds_a, first.bounds);
    let ref second = collisions[1];
    assert_eq!(id_b, second.id);
    assert_eq!(bounds_b, second.bounds);
}

#[test]
fn no_containing_other() {
    let mut world = World::new(1000, 1000);
    let id = 1;
    let bounds_a = Bounds { x: 0, y: 0, width: 10, height: 10 };
    world.add(id, bounds_a.clone());
    let bounds_b = Bounds { x: 40, y: 40, width: 10, height: 10 };
    assert!(world.query_contains_other(&bounds_b).is_empty());
}

#[test]
fn one_containing_other() {
    let mut world = World::new(1000, 1000);
    let id = 1;
    let bounds_a = Bounds { x: 0, y: 0, width: 10, height: 10 };
    world.add(id, bounds_a.clone());
    let bounds_b = Bounds { x: 2, y: 2, width: 3, height: 3 };
    let containing = world.query_contains_other(&bounds_b);
    assert_eq!(1, containing.len());
    let obj = containing.first().unwrap();
    assert_eq!(id, obj.id);
    assert_eq!(bounds_a, obj.bounds);
}

#[test]
fn multiple_containing_other() {
    let mut world = World::new(1000, 1000);
    let id_a = 1;
    let bounds_a = Bounds { x: 4, y: 4, width: 100, height: 100 };
    world.add(id_a, bounds_a.clone());
    let not_containing = Bounds { x: 0, y: 0, width: 3, height: 6 };
    world.add(2, not_containing);
    let id_b = 3;
    let bounds_b = Bounds { x: 6, y: 6, width: 2, height: 2 };
    world.add(id_b, bounds_b.clone());
    let bounds_c = Bounds { x: 5, y: 5, width: 1, height: 1 };
    let containing = world.query_contains_other(&bounds_c);
    assert_eq!(2, containing.len());
    let ref first = containing[0];
    assert_eq!(id_a, first.id);
    assert_eq!(bounds_a, first.bounds);
    let ref second = containing[1];
    assert_eq!(id_b, second.id);
    assert_eq!(bounds_b, second.bounds);
}

#[test]
fn place_moves_across_cells() {
    let mut world = World::new(1000, 1000);
    world.add(7, Bounds { x: 10, y: 10, width: 10, height: 10 });
    world.place(&7, &Pos { x: 950, y: 950 });
    assert!(world.query_intersects_id(&7).is_empty());
    world.add(8, Bounds { x: 945, y: 945, width: 20, height: 20 });
    let hits = world.query_intersects_id(&7);
    assert_eq!(1, hits.len());
    assert_eq!(8, hits[0].id);
}

#[test]
fn query_across_cell_boundary() {
    let mut world = World::new(1000, 1000);
    world.add(1, Bounds { x: 99, y: 100, width: 10, height: 10 });
    world.add(2, Bounds { x: 102, y: 100, width: 10, height: 10 });
    let hits = world.query_intersects_id(&1);
    assert_eq!(1, hits.len());
    assert_eq!(2, hits[0].id);
    let pairs = world.query_intersects();
    assert_eq!(1, pairs.len());
}
