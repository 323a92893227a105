use rectangles::physics::{PhysicsError, Rectangle, Simulation, Vec2};

fn rect(px: i32, py: i32, sx: i32, sy: i32, vx: i32, vy: i32) -> Rectangle {
    Rectangle {
        pos: Vec2 { x: px, y: py },
        size: Vec2 { x: sx, y: sy },
        vel: Vec2 { x: vx, y: vy },
    }
}

#[test]
fn new_simulation_is_empty() {
    let s = Simulation::new(Vec2 { x: 10, y: 10 });
    assert!(s.get_rectangles().is_empty());
}

#[test]
fn add_rectangle_appends_in_order() {
    let mut s = Simulation::new(Vec2 { x: 10, y: 10 });
    let a = rect(0, 0, 2, 2, 1, 0);
    let b = rect(5, 5, 2, 2, 0, 1);
    assert_eq!(s.add_rectangle(a), Ok(()));
    assert_eq!(s.add_rectangle(b), Ok(()));
    assert_eq!(s.get_rectangles().as_slice(), &[a, b]);
}

#[test]
fn add_rectangle_overlap_rejected() {
    let mut s = Simulation::new(Vec2 { x: 10, y: 10 });
    let a = rect(0, 0, 2, 2, 0, 0);
    let b = rect(1, 1, 2, 2, 0, 0);
    assert_eq!(s.add_rectangle(a), Ok(()));
    assert_eq!(s.add_rectangle(b), Err(PhysicsError::Overlap));
    assert_eq!(s.get_rectangles().as_slice(), &[a]);
}

#[test]
fn touching_edges_do_not_overlap() {
    let mut s = Simulation::new(Vec2 { x: 10, y: 10 });
    let a = rect(0, 0, 2, 2, 0, 0);
    let b = rect(2, 0, 2, 2, 0, 0);
    assert_eq!(s.add_rectangle(a), Ok(()));
    assert_eq!(s.add_rectangle(b), Ok(()));
    assert_eq!(s.get_rectangles().len(), 2);
}

#[test]
fn update_moves_rectangle_without_bounce() {
    let mut s = Simulation::new(Vec2 { x: 10, y: 10 });
    s.add_rectangle(rect(2, 2, 1, 1, 1, 2)).unwrap();
    s.update(1);
    let r = s.get_rectangles()[0];
    assert_eq!((r.pos.x, r.pos.y), (3, 4));
    assert_eq!((r.vel.x, r.vel.y), (1, 2));
}

#[test]
fn update_scales_motion_with_delta_time() {
    let mut s = Simulation::new(Vec2 { x: 100, y: 100 });
    s.add_rectangle(rect(10, 10, 1, 1, 3, -2)).unwrap();
    s.update(2);
    let r = s.get_rectangles()[0];
    assert_eq!((r.pos.x, r.pos.y), (16, 6));
}

#[test]
fn bounce_on_far_wall_reverses_and_moves_back() {
    let mut s = Simulation::new(Vec2 { x: 10, y: 10 });
    s.add_rectangle(rect(8, 5, 1, 1, 3, 0)).unwrap();
    s.update(1);
    let r = s.get_rectangles()[0];
    assert_eq!(r.vel.x, -3);
    assert_eq!(r.pos.x, 5);
    assert!(r.pos.x < 8);
    assert_eq!(r.pos.y, 5);
    assert_eq!(r.vel.y, 0);
}

#[test]
fn bounce_on_near_wall_reverses_and_moves_forward() {
    let mut s = Simulation::new(Vec2 { x: 10, y: 10 });
    s.add_rectangle(rect(1, 5, 1, 1, -5, 0)).unwrap();
    s.update(1);
    let r = s.get_rectangles()[0];
    assert_eq!(r.vel.x, 5);
    assert_eq!(r.pos.x, 6);
}

#[test]
fn bounce_acts_on_each_axis_independently() {
    let mut s = Simulation::new(Vec2 { x: 10, y: 10 });
    s.add_rectangle(rect(8, 1, 1, 1, 3, -4)).unwrap();
    s.update(1);
    let r = s.get_rectangles()[0];
    assert_eq!((r.vel.x, r.vel.y), (-3, 4));
    assert_eq!((r.pos.x, r.pos.y), (5, 5));
}

#[test]
fn rectangles_may_overlap_after_moving() {
    let mut s = Simulation::new(Vec2 { x: 10, y: 10 });
    s.add_rectangle(rect(0, 0, 2, 2, 1, 0)).unwrap();
    s.add_rectangle(rect(3, 0, 2, 2, -1, 0)).unwrap();
    s.update(1);
    let r = s.get_rectangles();
    assert_eq!(r[0].pos.x, 1);
    assert_eq!(r[1].pos.x, 2);
}
