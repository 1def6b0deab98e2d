use tileworld::atlas::{parse_tiles, Atlas};
use tileworld::compose::{compose, debug_overlay, draw_order, Rect};
use tileworld::entity::{Behavior, Camera, Character, DebugState, Dir, PlayerInput, DIAG_ONE};
use tileworld::geom::{Vec2, DIR_ONE};
use tileworld::world::{
    in_forbidden, move_character, plan_move, AssetError, MapAnimation, MapForbidden, MapTile,
    TileMap, World,
};

fn catalog() -> Atlas {
    parse_tiles(
        "floor 0 0 16 16\nhero_idle 0 100 2 3 4\nhero_run 0 200 2 3 4\nslime 0 300 1 1 2\n",
        "generic",
    )
    .unwrap()
}

fn anim(atlas: &Atlas, name: &str) -> usize {
    atlas.animation_index(&name.to_string()).unwrap()
}

fn actor(atlas: &Atlas, x: i64, y: i64, behavior: Behavior, speed: i64) -> Character {
    Character {
        pos: Vec2 { x, y },
        walking: false,
        frame: 0,
        dir: Dir::Right,
        idle_anim: anim(atlas, "hero_idle"),
        walk_anim: anim(atlas, "hero_run"),
        frame_rate: 3,
        frame_counter: 0,
        behavior,
        speed,
        w: 2,
        h: 3,
    }
}

fn empty_map() -> TileMap {
    TileMap { tiles: vec![], animations: vec![], forbidden: vec![], width: 10, height: 10 }
}

fn keys(up: bool, down: bool, left: bool, right: bool) -> PlayerInput {
    PlayerInput { up, down, left, right }
}

#[test]
fn dir_flips_only_left() {
    assert!(Dir::Left.flip());
    assert!(!Dir::Right.flip());
}

#[test]
fn new_character_anchors_bottom_centre() {
    let atlas = catalog();
    let c = Character::new(0, 100, anim(&atlas, "hero_idle"), anim(&atlas, "hero_run"), &atlas, true, 13000);
    assert_eq!(c.pos, Vec2 { x: 10_000, y: 130_000 });
    assert_eq!((c.w, c.h), (2, 3));
    assert_eq!(c.behavior, Behavior::PlayerControlled);
    assert_eq!(c.frame_rate, 3);
    assert!(!c.walking);
    let npc = Character::new(40, 400, anim(&atlas, "hero_idle"), anim(&atlas, "hero_run"), &atlas, false, 10000);
    assert_eq!(npc.behavior, Behavior::SeekTarget);
    assert_eq!(npc.top_left(), Vec2 { x: 40_000, y: 400_000 });
}

#[test]
fn decoration_is_placed_in_tiles() {
    let atlas = catalog();
    let d = Character::from_anim(3, 4, anim(&atlas, "slime"), &atlas);
    assert_eq!(d.pos, Vec2 { x: 35_000, y: 50_000 });
    assert_eq!(d.behavior, Behavior::Decorative);
    assert_eq!(d.speed, 0);
    assert_eq!(d.width_height(&atlas), (1, 1));
}

#[test]
fn input_directions() {
    assert_eq!(PlayerInput::new().to_dir(), Vec2 { x: 0, y: 0 });
    assert_eq!(keys(true, false, false, false).to_dir(), Vec2 { x: 0, y: -DIR_ONE });
    assert_eq!(keys(false, true, false, false).to_dir(), Vec2 { x: 0, y: DIR_ONE });
    assert_eq!(keys(false, false, true, false).to_dir(), Vec2 { x: -DIR_ONE, y: 0 });
    assert_eq!(keys(true, false, false, true).to_dir(), Vec2 { x: DIAG_ONE, y: -DIAG_ONE });
    assert_eq!(keys(false, true, true, false).to_dir(), Vec2 { x: -DIAG_ONE, y: DIAG_ONE });
    // The later key of an opposite pair wins.
    assert_eq!(keys(true, true, true, true).to_dir(), Vec2 { x: DIAG_ONE, y: DIAG_ONE });
}

#[test]
fn facing_follows_horizontal_move() {
    let atlas = catalog();
    let mut c = actor(&atlas, 0, 0, Behavior::PlayerControlled, 5000);
    c.update(Vec2 { x: -5, y: 0 }, &atlas);
    assert_eq!(c.dir, Dir::Left);
    c.update(Vec2 { x: 0, y: 3 }, &atlas);
    assert_eq!(c.dir, Dir::Left);
    c.update(Vec2 { x: 1, y: 0 }, &atlas);
    assert_eq!(c.dir, Dir::Right);
}

#[test]
fn walking_cycles_every_frame() {
    let atlas = catalog();
    let mut c = actor(&atlas, 0, 0, Behavior::PlayerControlled, 5000);
    let mut seen = vec![false; 4];
    for tick in 1..=(3 * 4 * 2) {
        c.update(Vec2 { x: 5, y: 0 }, &atlas);
        assert!(c.walking);
        seen[c.frame] = true;
        if tick % 3 == 0 {
            assert_eq!(c.frame, (tick / 3) % 4);
            assert_eq!(c.frame_counter, 0);
        }
    }
    assert!(seen.iter().all(|s| *s));
}

#[test]
fn stopping_restarts_the_animation() {
    let atlas = catalog();
    let mut c = actor(&atlas, 0, 0, Behavior::PlayerControlled, 5000);
    for _ in 0..7 {
        c.update(Vec2 { x: 5, y: 0 }, &atlas);
    }
    assert_eq!(c.frame, 2);
    c.update(Vec2 { x: 0, y: 0 }, &atlas);
    assert!(!c.walking);
    assert_eq!(c.frame, 0);
}

#[test]
fn camera_centres_and_is_idempotent() {
    let atlas = catalog();
    let p = actor(&atlas, 600_000, 900_000, Behavior::PlayerControlled, 0);
    let mut cam = Camera::new(1200, 1000);
    cam.update(&p);
    let first = cam;
    assert_eq!((cam.x, cam.y), (0, 400_000));
    cam.update(&p);
    assert_eq!(cam, first);
    assert_eq!(cam.project(Vec2 { x: 10, y: 400_020 }), Vec2 { x: 10, y: 20 });
}

#[test]
fn debug_state_starts_off() {
    assert!(!DebugState::new().draw_forbidden);
}

#[test]
fn zone_membership_is_strict() {
    let zones = vec![MapForbidden { x: 5, y: 5, w: 2, h: 2 }];
    assert!(in_forbidden(Vec2 { x: 53_000, y: 60_000 }, &zones));
    assert!(!in_forbidden(Vec2 { x: 50_000, y: 60_000 }, &zones));
    assert!(!in_forbidden(Vec2 { x: 70_000, y: 60_000 }, &zones));
    assert!(!in_forbidden(Vec2 { x: 60_000, y: 70_000 }, &zones));
    assert!(!in_forbidden(Vec2 { x: 60_000, y: 60_000 }, &vec![]));
}

#[test]
fn move_into_zone_is_discarded_whole() {
    let atlas = catalog();
    let zones = vec![MapForbidden { x: 5, y: 5, w: 2, h: 2 }];
    let mut c = actor(&atlas, 48_000, 60_000, Behavior::PlayerControlled, 5000);
    move_character(&mut c, Vec2 { x: 5000, y: 0 }, &zones, &atlas);
    assert_eq!(c.pos, Vec2 { x: 48_000, y: 60_000 });
    // Facing and walking still follow the refused move.
    assert!(c.walking);
    assert_eq!(c.dir, Dir::Right);
    move_character(&mut c, Vec2 { x: -5000, y: 0 }, &zones, &atlas);
    assert_eq!(c.pos, Vec2 { x: 43_000, y: 60_000 });
    assert_eq!(c.dir, Dir::Left);
}

#[test]
fn player_blocked_by_zone_scenario() {
    let atlas = catalog();
    let mut map = empty_map();
    map.forbidden.push(MapForbidden { x: 5, y: 5, w: 2, h: 2 });
    let player = actor(&atlas, 48_000, 60_000, Behavior::PlayerControlled, 5000);
    let mut world = World::new(atlas, map, vec![player], 0).unwrap();
    let right = keys(false, false, false, true);
    let (mov, cue) = plan_move(&world.characters[0], world.characters[0].pos, &right);
    assert_eq!(mov, Vec2 { x: 5000, y: 0 });
    assert!(!cue);
    let cues = world.tick(&right);
    assert!(cues.is_empty());
    assert_eq!(world.characters[0].pos, Vec2 { x: 48_000, y: 60_000 });
}

#[test]
fn player_moves_by_keys() {
    let atlas = catalog();
    let player = actor(&atlas, 0, 0, Behavior::PlayerControlled, 13000);
    let mut world = World::new(atlas, empty_map(), vec![player], 0).unwrap();
    world.tick(&keys(false, true, false, true));
    // 13000 * 46341 / 65536, rounded toward zero.
    assert_eq!(world.characters[0].pos, Vec2 { x: 9192, y: 9192 });
    world.tick(&keys(true, false, false, false));
    assert_eq!(world.characters[0].pos, Vec2 { x: 9192, y: -3808 });
}

#[test]
fn npc_in_proximity_sounds_one_cue_and_stays() {
    let atlas = catalog();
    let player = actor(&atlas, 100_000, 100_000, Behavior::PlayerControlled, 5000);
    // Two pixels away: distance squared 4, under the threshold of 5.
    let npc = actor(&atlas, 102_000, 100_000, Behavior::SeekTarget, 10_000);
    let (mov, cue) = plan_move(&npc, player.pos, &PlayerInput::new());
    assert_eq!(mov, Vec2 { x: 0, y: 0 });
    assert!(cue);
    let mut world = World::new(atlas, empty_map(), vec![player, npc], 0).unwrap();
    let cues = world.tick(&PlayerInput::new());
    assert_eq!(cues, vec![1]);
    assert_eq!(world.characters[1].pos, Vec2 { x: 102_000, y: 100_000 });
    assert!(!world.characters[1].walking);
}

#[test]
fn npc_outside_proximity_chases_at_half_speed() {
    let atlas = catalog();
    let player = actor(&atlas, 0, 0, Behavior::PlayerControlled, 5000);
    let npc = actor(&atlas, 30_000, -40_000, Behavior::SeekTarget, 10_000);
    let (mov, cue) = plan_move(&npc, player.pos, &PlayerInput::new());
    assert!(!cue);
    // Direction (-0.6, 0.8) at half of 10000: (-3000, 4000), give or take rounding.
    assert_eq!(mov, Vec2 { x: -2999, y: 3999 });
    let mut world = World::new(atlas, empty_map(), vec![player, npc], 0).unwrap();
    let cues = world.tick(&PlayerInput::new());
    assert!(cues.is_empty());
    assert_eq!(world.characters[1].pos, Vec2 { x: 27_001, y: -36_001 });
    assert_eq!(world.characters[1].dir, Dir::Left);
}

#[test]
fn npcs_chase_where_the_player_stood() {
    let atlas = catalog();
    let player = actor(&atlas, 0, 0, Behavior::PlayerControlled, 5000);
    let npc = actor(&atlas, 1500, 0, Behavior::SeekTarget, 10_000);
    let mut world = World::new(atlas, empty_map(), vec![player, npc], 0).unwrap();
    // The player steps away, but the chaser judges distance from the old spot.
    let cues = world.tick(&keys(false, false, true, false));
    assert_eq!(world.characters[0].pos, Vec2 { x: -5000, y: 0 });
    assert_eq!(cues, vec![1]);
}

#[test]
fn decorations_stay_and_animate() {
    let atlas = catalog();
    let player = actor(&atlas, 0, 0, Behavior::PlayerControlled, 5000);
    let mut map = empty_map();
    map.animations.push(MapAnimation { x: 2, y: 2, animation: "slime".to_string(), frame: 0 });
    let mut world = World::new(atlas, map, vec![player], 0).unwrap();
    assert_eq!(world.characters.len(), 2);
    let deco = world.characters[1];
    assert_eq!(deco.behavior, Behavior::Decorative);
    for _ in 0..3 {
        let cues = world.tick(&PlayerInput::new());
        assert!(cues.is_empty());
    }
    assert_eq!(world.characters[1].pos, deco.pos);
    assert_eq!(world.characters[1].frame, 1);
    assert_eq!(world.map.animations[0].frame, 1);
    assert_eq!(world.map_clock, 0);
    for _ in 0..3 {
        world.tick(&PlayerInput::new());
    }
    assert_eq!(world.map.animations[0].frame, 0);
}

#[test]
fn decorations_follow_the_shared_clock() {
    let atlas = catalog();
    let player = actor(&atlas, 0, 0, Behavior::PlayerControlled, 5000);
    let mut map = empty_map();
    map.animations.push(MapAnimation { x: 2, y: 2, animation: "slime".to_string(), frame: 0 });
    let mut world = World::new(atlas, map, vec![player], 0).unwrap();
    world.map_clock = 1;
    world.tick(&PlayerInput::new());
    assert_eq!(world.characters[1].frame, 0);
    world.tick(&PlayerInput::new());
    assert_eq!(world.characters[1].frame, 1);
    assert_eq!(world.characters[1].frame_counter, 0);
    assert!(!world.characters[1].walking);
}

#[test]
fn map_clock_advances_every_third_tick() {
    let atlas = catalog();
    let player = actor(&atlas, 0, 0, Behavior::PlayerControlled, 5000);
    let mut map = empty_map();
    map.animations.push(MapAnimation { x: 0, y: 0, animation: "hero_run".to_string(), frame: 3 });
    let mut world = World::new(atlas, map, vec![player], 0).unwrap();
    world.tick(&PlayerInput::new());
    world.tick(&PlayerInput::new());
    assert_eq!(world.map.animations[0].frame, 3);
    assert_eq!(world.map_clock, 2);
    world.tick(&PlayerInput::new());
    assert_eq!(world.map.animations[0].frame, 0);
}

#[test]
fn unknown_map_animation_is_an_asset_error() {
    let atlas = catalog();
    let player = actor(&atlas, 0, 0, Behavior::PlayerControlled, 5000);
    let mut map = empty_map();
    map.animations.push(MapAnimation { x: 0, y: 0, animation: "ghost".to_string(), frame: 0 });
    let r = World::new(atlas, map, vec![player], 0);
    assert_eq!(r.unwrap_err(), AssetError::Unknown { name: "ghost".to_string() });
}

#[test]
fn frameless_map_animation_is_an_asset_error() {
    let mut atlas = catalog();
    atlas.extend(parse_tiles("still 0 0 1 1 0", "generic").unwrap());
    let player = actor(&atlas, 0, 0, Behavior::PlayerControlled, 5000);
    let mut map = empty_map();
    map.animations.push(MapAnimation { x: 0, y: 0, animation: "still".to_string(), frame: 0 });
    let r = World::new(atlas, map, vec![player], 0);
    assert_eq!(r.unwrap_err(), AssetError::NoFrames { name: "still".to_string() });
}

#[test]
fn draw_order_sorts_by_anchor_y() {
    let atlas = catalog();
    let chars = vec![
        actor(&atlas, 0, 30, Behavior::SeekTarget, 0),
        actor(&atlas, 0, 10, Behavior::SeekTarget, 0),
        actor(&atlas, 0, 20, Behavior::SeekTarget, 0),
    ];
    assert_eq!(draw_order(&chars), vec![1, 2, 0]);
}

#[test]
fn draw_order_breaks_ties_by_roster_position() {
    let atlas = catalog();
    let chars = vec![
        actor(&atlas, 0, 5, Behavior::SeekTarget, 0),
        actor(&atlas, 0, -5, Behavior::SeekTarget, 0),
        actor(&atlas, 9, 5, Behavior::SeekTarget, 0),
        actor(&atlas, 3, -5, Behavior::SeekTarget, 0),
    ];
    assert_eq!(draw_order(&chars), vec![1, 3, 0, 2]);
    assert_eq!(draw_order(&vec![]), Vec::<usize>::new());
}

#[test]
fn compose_draws_tiles_then_entities_back_to_front() {
    let atlas = catalog();
    let mut map = empty_map();
    map.tiles.push(MapTile { x: 1, y: 2, tile: "floor".to_string() });
    let mut a = actor(&atlas, 30_000, 300_000, Behavior::PlayerControlled, 0);
    a.dir = Dir::Left;
    let b = actor(&atlas, 50_000, 100_000, Behavior::SeekTarget, 0);
    let mut c = actor(&atlas, 70_000, 200_000, Behavior::SeekTarget, 0);
    c.walking = true;
    c.frame = 2;
    let world = World::new(atlas, map, vec![a, b, c], 0).unwrap();
    let cam = Camera { x: 5_500, y: -1_000, w: 100, h: 100 };
    let cmds = compose(&world, &cam).unwrap();
    assert_eq!(cmds.len(), 4);
    assert_eq!(cmds[0].texture, "generic");
    assert_eq!(cmds[0].src, Rect { x: 0, y: 0, w: 16, h: 16 });
    assert_eq!(cmds[0].dst, Rect { x: 4, y: 21, w: 160, h: 160 });
    assert!(!cmds[0].flip);
    // b (y 100000), then c (y 200000), then a (y 300000).
    assert_eq!(cmds[1].dst, Rect { x: 34, y: 71, w: 20, h: 30 });
    assert_eq!(cmds[1].src, Rect { x: 0, y: 100, w: 2, h: 3 });
    assert_eq!(cmds[2].src, Rect { x: 4, y: 200, w: 2, h: 3 });
    assert_eq!(cmds[2].dst, Rect { x: 54, y: 171, w: 20, h: 30 });
    assert!(!cmds[2].flip);
    assert_eq!(cmds[3].dst, Rect { x: 14, y: 271, w: 20, h: 30 });
    assert!(cmds[3].flip);
}

#[test]
fn compose_rounds_toward_zero_left_of_camera() {
    let atlas = catalog();
    let mut map = empty_map();
    map.tiles.push(MapTile { x: 0, y: 0, tile: "floor".to_string() });
    let player = actor(&atlas, 0, 0, Behavior::PlayerControlled, 0);
    let world = World::new(atlas, map, vec![player], 0).unwrap();
    let cam = Camera { x: 1_500, y: -2_500, w: 10, h: 10 };
    let cmds = compose(&world, &cam).unwrap();
    assert_eq!((cmds[0].dst.x, cmds[0].dst.y), (-1, 2));
}

#[test]
fn compose_reports_unknown_tile() {
    let atlas = catalog();
    let mut map = empty_map();
    map.tiles.push(MapTile { x: 0, y: 0, tile: "floor".to_string() });
    map.tiles.push(MapTile { x: 1, y: 0, tile: "lava".to_string() });
    let player = actor(&atlas, 0, 0, Behavior::PlayerControlled, 0);
    let world = World::new(atlas, map, vec![player], 0).unwrap();
    let r = compose(&world, &Camera::new(10, 10));
    assert_eq!(r.unwrap_err(), AssetError::Unknown { name: "lava".to_string() });
}

#[test]
fn debug_overlay_outlines_zones_and_marks_positions() {
    let atlas = catalog();
    let mut map = empty_map();
    map.forbidden.push(MapForbidden { x: 5, y: 5, w: 2, h: 3 });
    let player = actor(&atlas, 48_000, 61_999, Behavior::PlayerControlled, 0);
    let world = World::new(atlas, map, vec![player], 0).unwrap();
    let cam = Camera { x: 10_000, y: 0, w: 10, h: 10 };
    let r = debug_overlay(&world, &cam);
    assert_eq!(
        r,
        vec![Rect { x: 40, y: 50, w: 20, h: 30 }, Rect { x: 38, y: 61, w: 2, h: 2 }]
    );
}
