use shootr::bootstrap::prepare_world;
use shootr::collision::World;
use shootr::ecs::ticks_due;
use shootr::model::client::{Key, KeyState, Message, OpCode, Payload};
use shootr::model::comp::{
    Acc, Actor, ActorKind, Delay as PlayerDelay, Friction, PingPong, Player, Pong, PongStamp, Pos,
    Vel,
};
use shootr::system::delay::{add_pong, manage_delays, register_ping};
use shootr::system::input_handler::{handle_key_state, update_player_inputs, InputHandler, InputMap};
use shootr::system::sending::Sending;
use shootr::system::{Bounce, Delay, Despawn, Physics, Spawn};

fn fresh_player(channel: u64) -> Player {
    Player::new(channel)
}

#[test]
fn ticks_after_one_frame() {
    // a 20 ms timestep and a 55 ms frame: two ticks run, 15 ms carry over
    let (ticks, lag) = ticks_due(0, 55, 20);
    assert_eq!(2, ticks);
    assert_eq!(15, lag);
    let (ticks2, lag2) = ticks_due(lag, 20, 20);
    assert_eq!(1, ticks2);
    assert_eq!(15, lag2);
}

#[test]
fn ping_pong_estimate() {
    // one sample: sent at 1000, answered at server time 1050, client 1200
    let mut player = fresh_player(1);
    register_ping(&mut player, 1, 1000);
    add_pong(&mut player, &Pong { ping_id: 1, timestamps: PongStamp { server: 1050, client: 1200 } });
    manage_delays(&mut player, 1100);
    assert_eq!(25, player.delay.ping);
    assert_eq!(125, player.delay.clock);
    assert_eq!(1, player.pingpongs.len());
}

#[test]
fn stale_samples_evicted() {
    let mut player = fresh_player(1);
    register_ping(&mut player, 1, 1000);
    add_pong(&mut player, &Pong { ping_id: 1, timestamps: PongStamp { server: 1050, client: 1200 } });
    register_ping(&mut player, 2, 2000);
    manage_delays(&mut player, 20000);
    // both are older than the buffer window by now
    assert!(player.pingpongs.is_empty());
    // the completed sample still contributed to the estimate
    assert_eq!(25, player.delay.ping);
}

#[test]
fn unanswered_ping_keeps_estimate() {
    let mut player = fresh_player(1);
    player.delay = PlayerDelay { ping: 7, clock: -3 };
    register_ping(&mut player, 1, 1000);
    manage_delays(&mut player, 1100);
    assert_eq!(7, player.delay.ping);
    assert_eq!(-3, player.delay.clock);
    assert_eq!(1, player.pingpongs.len());
}

#[test]
fn friction_decays_toward_zero() {
    let (mut reg, config, _) = prepare_world();
    let mut world = World::new(1000, 1000);
    let e = reg.create_entity();
    reg.vel[e] = Some(Vel { x: 0, y: 1 });
    reg.acc[e] = Some(Acc { x: 0, y: 0 });
    reg.friction[e] = Some(Friction(2));
    Physics::run(&mut reg, &mut world, &config.vel_bounds, &config.pos_bounds);
    // |v| < friction: the velocity stops at zero instead of crossing it
    assert_eq!(Some(Vel { x: 0, y: 0 }), reg.vel[e]);

    reg.vel[e] = Some(Vel { x: 0, y: -5 });
    Physics::run(&mut reg, &mut world, &config.vel_bounds, &config.pos_bounds);
    assert_eq!(Some(Vel { x: 0, y: -3 }), reg.vel[e]);
}

#[test]
fn physics_moves_and_replaces() {
    let (mut reg, config, _) = prepare_world();
    let mut world = World::new(1000, 1000);
    let e = reg.create_entity();
    reg.pos[e] = Some(Pos { x: 100, y: 100 });
    reg.vel[e] = Some(Vel { x: 7, y: -4 });
    reg.acc[e] = Some(Acc { x: 0, y: 0 });
    reg.actor[e] = Some(Actor { id: 42, kind: ActorKind::Ball });
    world.add(42, shootr::collision::Bounds { x: 100, y: 100, width: 10, height: 10 });
    Physics::run(&mut reg, &mut world, &config.vel_bounds, &config.pos_bounds);
    assert_eq!(Some(Pos { x: 107, y: 96 }), reg.pos[e]);
    let hits = world.query_intersects_other(
        &shootr::collision::Bounds { x: 107, y: 96, width: 2, height: 2 },
    );
    assert_eq!(1, hits.len());
    assert_eq!(107, hits[0].bounds.x);
    assert_eq!(96, hits[0].bounds.y);
}

#[test]
fn velocity_clamped_to_band() {
    let (mut reg, config, _) = prepare_world();
    let mut world = World::new(1000, 1000);
    let e = reg.create_entity();
    reg.vel[e] = Some(Vel { x: 48, y: -48 });
    reg.acc[e] = Some(Acc { x: 5, y: -5 });
    Physics::run(&mut reg, &mut world, &config.vel_bounds, &config.pos_bounds);
    assert_eq!(Some(Vel { x: 50, y: -50 }), reg.vel[e]);
}

#[test]
fn key_press_sets_acceleration() {
    let mut acc = Acc { x: 0, y: 0 };
    handle_key_state(&mut acc, &KeyState { id: 1, key: Key::ArrowUp, pressed: true });
    assert_eq!(-5, acc.y);
    // releasing the opposite key leaves the bias alone
    handle_key_state(&mut acc, &KeyState { id: 2, key: Key::ArrowDown, pressed: false });
    assert_eq!(-5, acc.y);
    handle_key_state(&mut acc, &KeyState { id: 3, key: Key::ArrowUp, pressed: false });
    assert_eq!(0, acc.y);
    handle_key_state(&mut acc, &KeyState { id: 4, key: Key::ArrowDown, pressed: true });
    assert_eq!(5, acc.y);
}

#[test]
fn input_history_merges_snapshots() {
    let mut player = fresh_player(1);
    update_player_inputs(&mut player, &KeyState { id: 1, key: Key::ArrowUp, pressed: true });
    update_player_inputs(&mut player, &KeyState { id: 2, key: Key::ArrowDown, pressed: true });
    assert_eq!(2, player.inputs.len());
    assert_eq!(Some(true), player.inputs[1].arrow_up);
    assert_eq!(Some(true), player.inputs[1].arrow_down);
    assert_eq!(2, player.last_input);
}

#[test]
fn input_run_drains_queue() {
    let (mut reg, _, _) = prepare_world();
    let e = reg.create_entity();
    reg.player[e] = Some(fresh_player(9));
    reg.acc[e] = Some(Acc { x: 0, y: 0 });
    reg.actor[e] = Some(Actor { id: 5, kind: ActorKind::Player });
    let mut inputs = InputMap::new();
    inputs.push_event(5, KeyState { id: 1, key: Key::ArrowDown, pressed: true });
    inputs.push_event(5, KeyState { id: 2, key: Key::ArrowDown, pressed: false });
    InputHandler::run(&mut reg, &mut inputs);
    assert_eq!(Some(Acc { x: 0, y: 0 }), reg.acc[e]);
    let player = reg.player[e].as_ref().unwrap();
    assert_eq!(2, player.inputs.len());
    assert_eq!(2, player.last_input);
    assert!(inputs.take(5).is_empty());
}

#[test]
fn input_history_bounded() {
    let (mut reg, _, _) = prepare_world();
    let e = reg.create_entity();
    reg.player[e] = Some(fresh_player(9));
    reg.acc[e] = Some(Acc { x: 0, y: 0 });
    reg.actor[e] = Some(Actor { id: 5, kind: ActorKind::Player });
    let mut inputs = InputMap::new();
    for i in 0..25 {
        inputs.push_event(5, KeyState { id: i, key: Key::ArrowUp, pressed: i % 2 == 0 });
    }
    InputHandler::run(&mut reg, &mut inputs);
    let player = reg.player[e].as_ref().unwrap();
    assert_eq!(10, player.inputs.len());
    assert_eq!(24, player.last_input);
}

#[test]
fn spawn_dispatches_on_kind() {
    let (mut reg, _, _) = prepare_world();
    let mut world = World::new(1000, 1000);
    let p0 = reg.create_entity();
    reg.to_spawn[p0] = true;
    reg.actor[p0] = Some(Actor { id: 1, kind: ActorKind::Player });
    let p1 = reg.create_entity();
    reg.to_spawn[p1] = true;
    reg.actor[p1] = Some(Actor { id: 2, kind: ActorKind::Player });
    let ball = reg.create_entity();
    reg.to_spawn[ball] = true;
    reg.actor[ball] = Some(Actor { id: 3, kind: ActorKind::Ball });
    Spawn::run(&mut reg, &mut world);
    // players alternate sides by slot parity
    assert_eq!(Some(Pos { x: 20, y: 500 }), reg.pos[p0]);
    assert_eq!(Some(Pos { x: 980, y: 500 }), reg.pos[p1]);
    assert_eq!(Some(Friction(2)), reg.friction[p0]);
    assert_eq!(Some(Vel { x: 0, y: 0 }), reg.vel[p1]);
    // the ball serves from the center
    assert_eq!(Some(Pos { x: 500, y: 500 }), reg.pos[ball]);
    assert_eq!(Some(Vel { x: 10, y: 15 }), reg.vel[ball]);
    assert!(reg.bounciness[ball]);
    // all three bodies are registered
    assert!(world.remove(&1).is_some());
    assert!(world.remove(&2).is_some());
    assert!(world.remove(&3).is_some());
}

#[test]
fn despawn_removes_bodies_and_commit_deletes() {
    let (mut reg, _, _) = prepare_world();
    let mut world = World::new(1000, 1000);
    let e = reg.create_entity();
    reg.actor[e] = Some(Actor { id: 1, kind: ActorKind::Ball });
    reg.to_despawn[e] = true;
    world.add(1, shootr::collision::Bounds { x: 10, y: 10, width: 10, height: 10 });
    Despawn::run(&reg, &mut world);
    assert!(world.remove(&1).is_none());
    assert!(reg.alive[e]);
    reg.maintain();
    assert!(!reg.alive[e]);
    assert!(reg.actor[e].is_none());
}

#[test]
fn bounce_reflects_at_vertical_edge() {
    let (mut reg, config, _) = prepare_world();
    let mut world = World::new(1000, 1000);
    let e = reg.create_entity();
    reg.pos[e] = Some(Pos { x: 500, y: 995 });
    reg.vel[e] = Some(Vel { x: 3, y: 10 });
    reg.actor[e] = Some(Actor { id: 1, kind: ActorKind::Ball });
    reg.bounciness[e] = true;
    world.add(1, shootr::collision::Bounds { x: 500, y: 995, width: 10, height: 10 });
    Bounce::run(&mut reg, &world, &config.pos_bounds);
    // leaving vertically reflects the vertical velocity, position stays
    assert_eq!(Some(Pos { x: 500, y: 995 }), reg.pos[e]);
    assert_eq!(Some(Vel { x: 3, y: -10 }), reg.vel[e]);
}

#[test]
fn bounce_scores_at_horizontal_edge() {
    let (mut reg, config, _) = prepare_world();
    let mut world = World::new(1000, 1000);
    let e = reg.create_entity();
    reg.pos[e] = Some(Pos { x: 998, y: 400 });
    reg.vel[e] = Some(Vel { x: 9, y: 0 });
    reg.actor[e] = Some(Actor { id: 1, kind: ActorKind::Ball });
    reg.bounciness[e] = true;
    world.add(1, shootr::collision::Bounds { x: 998, y: 400, width: 10, height: 10 });
    Bounce::run(&mut reg, &world, &config.pos_bounds);
    // leaving horizontally counts as a score: respawn at the center
    assert_eq!(Some(Pos { x: 500, y: 500 }), reg.pos[e]);
    assert_eq!(Some(Vel { x: 7, y: 11 }), reg.vel[e]);
}

#[test]
fn bounce_contact_speeds_up_away() {
    let (mut reg, config, _) = prepare_world();
    let mut world = World::new(1000, 1000);
    let ball = reg.create_entity();
    reg.pos[ball] = Some(Pos { x: 500, y: 500 });
    reg.vel[ball] = Some(Vel { x: 4, y: 3 });
    reg.actor[ball] = Some(Actor { id: 1, kind: ActorKind::Ball });
    reg.bounciness[ball] = true;
    world.add(1, shootr::collision::Bounds { x: 500, y: 500, width: 10, height: 10 });
    // a paddle overlapping from the right: the ball reflects left, sped up
    world.add(2, shootr::collision::Bounds { x: 505, y: 500, width: 10, height: 50 });
    Bounce::run(&mut reg, &world, &config.pos_bounds);
    let vel = reg.vel[ball].unwrap();
    assert_eq!(-5, vel.x);
    assert_eq!(4, vel.y);
}

#[test]
fn delay_round_sends_probes() {
    let (mut reg, _, mut gen) = prepare_world();
    let e = reg.create_entity();
    reg.player[e] = Some(fresh_player(77));
    reg.ping[e] = true;
    let out = Delay::run(&mut reg, &mut gen, 5000);
    assert_eq!(1, out.len());
    assert_eq!(77, out[0].0);
    assert_eq!(OpCode::Ping, out[0].1.opcode);
    assert!(!reg.ping[e]);
    let player = reg.player[e].as_ref().unwrap();
    assert_eq!(1, player.pingpongs.len());
    assert_eq!(5000, player.pingpongs[0].sent);
}

#[test]
fn delay_round_consumes_pongs() {
    let (mut reg, _, mut gen) = prepare_world();
    let e = reg.create_entity();
    let mut player = fresh_player(77);
    let first_probe = gen.gen();
    register_ping(&mut player, first_probe, 1000);
    reg.player[e] = Some(player);
    reg.pong[e] = Some(
        Pong { ping_id: first_probe, timestamps: PongStamp { server: 1050, client: 1200 } },
    );
    let out = Delay::run(&mut reg, &mut gen, 1100);
    assert!(out.is_empty());
    assert!(reg.pong[e].is_none());
    let player = reg.player[e].as_ref().unwrap();
    assert_eq!(25, player.delay.ping);
    assert_eq!(125, player.delay.clock);
}

#[test]
fn delay_round_draws_consecutive_ids() {
    let (mut reg, _, mut gen) = prepare_world();
    let a = reg.create_entity();
    reg.player[a] = Some(fresh_player(1));
    reg.ping[a] = true;
    let b = reg.create_entity();
    reg.player[b] = Some(fresh_player(2));
    reg.ping[b] = true;
    let out = Delay::run(&mut reg, &mut gen, 5000);
    assert_eq!(2, out.len());
    match (&out[0].1.payload, &out[1].1.payload) {
        (Payload::Ping { ping_id: p1 }, Payload::Ping { ping_id: p2 }) => {
            assert_eq!(1, *p1);
            assert_eq!(2, *p2);
        },
        _ => panic!(),
    }
    assert_eq!(2, gen.curr_id);
}

#[test]
fn disconnect_announced_to_every_player() {
    let (mut reg, _, _) = prepare_world();
    let p1 = reg.create_entity();
    reg.player[p1] = Some(fresh_player(11));
    reg.actor[p1] = Some(Actor { id: 1, kind: ActorKind::Player });
    let p2 = reg.create_entity();
    reg.player[p2] = Some(fresh_player(22));
    reg.actor[p2] = Some(Actor { id: 2, kind: ActorKind::Player });
    reg.to_despawn[p2] = true;
    let out = shootr::system::sending::handle_disconnects(&reg);
    assert_eq!(2, out.len());
    assert_eq!(11, out[0].0);
    assert_eq!(22, out[1].0);
    for (_, msg) in &out {
        assert_eq!(OpCode::Despawn, msg.opcode);
        match msg.payload {
            Payload::Despawn { id } => assert_eq!(2, id),
            _ => panic!(),
        }
    }
}

#[test]
fn sending_builds_roster_and_updates() {
    let (mut reg, _, _) = prepare_world();
    let p = reg.create_entity();
    reg.player[p] = Some(fresh_player(11));
    reg.actor[p] = Some(Actor { id: 1, kind: ActorKind::Player });
    reg.pos[p] = Some(Pos { x: 20, y: 500 });
    reg.vel[p] = Some(Vel { x: 0, y: 0 });
    reg.to_spawn[p] = true;
    let out = Sending::run(&mut reg);
    // the lone player gets its own greeting plus the world update
    assert_eq!(2, out.len());
    assert_eq!(OpCode::Greeting, out[0].1.opcode);
    match out[0].1.payload {
        Payload::Greeting { own_id, ref actors } => {
            assert_eq!(1, own_id);
            assert_eq!(1, actors.len());
        },
        _ => panic!(),
    }
    assert_eq!(OpCode::WorldUpdate, out[1].1.opcode);
    match out[1].1.payload {
        Payload::WorldUpdate { last_input, ref actors } => {
            assert_eq!(0, last_input);
            assert_eq!(1, actors.len());
            assert_eq!(Pos { x: 20, y: 500 }, actors[0].pos);
        },
        _ => panic!(),
    }
    assert!(!reg.to_spawn[p]);
}

#[test]
fn message_constructors_tag_payloads() {
    let m = Message::new_despawn(9);
    assert_eq!(OpCode::Despawn, m.opcode);
    match m.payload {
        Payload::Despawn { id } => assert_eq!(9, id),
        _ => panic!(),
    }
    let m = Message::new_ping(3);
    assert_eq!(OpCode::Ping, m.opcode);
    match m.payload {
        Payload::Ping { ping_id } => assert_eq!(3, ping_id),
        _ => panic!(),
    }
}
