//! The map model and the per-tick simulation: seek AI, forbidden-zone
//! collision, entity animation and the map's shared frame clock.

use vstd::prelude::*;
use crate::atlas::Atlas;
use crate::atlas::last_named;
use crate::entity::{frame_count, key_axis, Behavior, Character, PlayerInput, DIAG_ONE, SPEED_LIMIT};
use crate::geom::{
    normalize, normalized_comp, pos_in_range, sq_len, trunc_div, Vec2, COORD_LIMIT, DIR_ONE,
    TILE_SUBPIXELS,
};

verus! {

/// A static tile placed at tile `(x, y)`.
#[derive(Clone, Debug, PartialEq, Eq)]
pub struct MapTile {
    pub x: i32,
    pub y: i32,
    pub tile: String,
}

/// An animation placed at tile `(x, y)`, showing frame `frame`.
#[derive(Clone, Debug, PartialEq, Eq)]
pub struct MapAnimation {
    pub x: i32,
    pub y: i32,
    pub animation: String,
    pub frame: usize,
}

/// A rectangle of tiles that entities may not enter.
#[derive(Clone, Copy, Debug, PartialEq, Eq, Structural)]
pub struct MapForbidden {
    pub x: i32,
    pub y: i32,
    pub w: u32,
    pub h: u32,
}

/// A level: placed tiles and animations, forbidden zones, and its size in
/// tiles.
#[derive(Clone, Debug, PartialEq, Eq)]
pub struct TileMap {
    pub tiles: Vec<MapTile>,
    pub animations: Vec<MapAnimation>,
    pub forbidden: Vec<MapForbidden>,
    pub width: u32,
    pub height: u32,
}

/// Squared distance, in sub-pixels squared, under which a chasing entity
/// has reached the player: five square pixels.
pub const PROXIMITY: i64 = 5_000_000;

/// Ticks between two frames of the map's placed animations.
pub const MAP_FRAME_PERIOD: usize = 3;

/// `p` lies strictly inside zone `z`.
pub open spec fn inside_zone(p: Vec2, z: MapForbidden) -> bool {
    &&& z.x * TILE_SUBPIXELS < p.x < (z.x + z.w) * TILE_SUBPIXELS
    &&& z.y * TILE_SUBPIXELS < p.y < (z.y + z.h) * TILE_SUBPIXELS
}

/// `p` lies strictly inside one of the zones.
pub open spec fn blocked(p: Vec2, zones: Seq<MapForbidden>) -> bool {
    exists|i: int| 0 <= i < zones.len() && inside_zone(p, #[trigger] zones[i])
}

/// Whether `p` lies strictly inside one of the zones.
pub fn in_forbidden(p: Vec2, zones: &Vec<MapForbidden>) -> (r: bool)
    ensures
        r == blocked(p, zones@),
{
    let mut i: usize = 0;
    while i < zones.len()
        invariant
            i <= zones@.len(),
            forall|k: int| 0 <= k < i ==> !inside_zone(p, #[trigger] zones@[k]),
        decreases zones@.len() - i,
    {
        let z = zones[i];
        let t = TILE_SUBPIXELS;
        if (z.x as i64) * t < p.x && p.x < (z.x as i64 + z.w as i64) * t && (z.y as i64) * t < p.y
            && p.y < (z.y as i64 + z.h as i64) * t {
            assert(inside_zone(p, zones@[i as int]));
            return true;
        }
        i = i + 1;
    }
    false
}

/// The sub-pixel displacement for direction component `c` (of a `DIR_ONE`
/// long vector) at `speed`.
pub open spec fn speed_comp(c: int, speed: int) -> int {
    trunc_div(c * speed, DIR_ONE as int)
}

/// `c * speed / DIR_ONE`, rounded toward zero.
fn scale_by_speed(c: i64, speed: i64) -> (r: i64)
    requires
        -DIR_ONE <= c <= DIR_ONE,
        0 <= speed <= SPEED_LIMIT,
    ensures
        r == speed_comp(c as int, speed as int),
        -speed <= r <= speed,
{
    let a: i64 = if c >= 0 {
        c
    } else {
        -c
    };
    assert(0 <= a * speed <= DIR_ONE * speed) by (nonlinear_arith)
        requires
            0 <= a <= DIR_ONE,
            0 <= speed,
    ;
    assert(DIR_ONE * speed <= 65536 * 1_000_000_000) by (nonlinear_arith)
        requires
            0 <= speed <= 1_000_000_000,
    ;
    let q = a * speed / DIR_ONE;
    proof {
        vstd::arithmetic::div_mod::lemma_div_is_ordered(a * speed, DIR_ONE * speed, DIR_ONE as int);
        vstd::arithmetic::div_mod::lemma_div_multiples_vanish(speed as int, DIR_ONE as int);
        if c < 0 {
            assert(c * speed == -(a * speed)) by (nonlinear_arith)
                requires
                    a == -c,
            ;
        }
    }
    if c >= 0 {
        q
    } else {
        -q
    }
}

/// What an entity wants to do in a tick: its pre-collision displacement,
/// and whether it has reached the player (which sounds a cue).
pub open spec fn desired_move(c: Character, player_pos: Vec2, keys: PlayerInput) -> (Vec2, bool) {
    match c.behavior {
        Behavior::PlayerControlled => {
            let ax = key_axis(keys.left, keys.right);
            let ay = key_axis(keys.up, keys.down);
            let m = if ax != 0 && ay != 0 {
                DIAG_ONE as int
            } else {
                DIR_ONE as int
            };
            (
                Vec2 {
                    x: speed_comp(ax * m, c.speed as int) as i64,
                    y: speed_comp(ay * m, c.speed as int) as i64,
                },
                false,
            )
        },
        Behavior::SeekTarget => {
            let d = Vec2 { x: (player_pos.x - c.pos.x) as i64, y: (player_pos.y - c.pos.y) as i64 };
            if sq_len(d.x as int, d.y as int) < PROXIMITY {
                (Vec2 { x: 0, y: 0 }, true)
            } else {
                (
                    Vec2 {
                        x: speed_comp(normalized_comp(d.x as int, d, DIR_ONE / 2), c.speed as int)
                            as i64,
                        y: speed_comp(normalized_comp(d.y as int, d, DIR_ONE / 2), c.speed as int)
                            as i64,
                    },
                    false,
                )
            }
        },
        Behavior::Decorative => (Vec2 { x: 0, y: 0 }, false),
    }
}

/// Computes what entity `c` wants to do this tick, as `desired_move` says:
/// the player steers by the keys; a chasing entity heads for the player at
/// half its speed, or stops and sounds a cue once within the proximity
/// distance; a decoration stays.
pub fn plan_move(c: &Character, player_pos: Vec2, keys: &PlayerInput) -> (r: (Vec2, bool))
    requires
        pos_in_range(c.pos),
        pos_in_range(player_pos),
        0 <= c.speed <= SPEED_LIMIT,
    ensures
        r == desired_move(*c, player_pos, *keys),
        -c.speed <= r.0.x <= c.speed,
        -c.speed <= r.0.y <= c.speed,
{
    match c.behavior {
        Behavior::PlayerControlled => {
            let dir = keys.to_dir();
            (Vec2 { x: scale_by_speed(dir.x, c.speed), y: scale_by_speed(dir.y, c.speed) }, false)
        },
        Behavior::SeekTarget => {
            let d = Vec2 { x: player_pos.x - c.pos.x, y: player_pos.y - c.pos.y };
            let dx = d.x as i128;
            let dy = d.y as i128;
            assert(0 <= dx * dx <= 40_000_000_000_000_000_000_000_000_000) by (nonlinear_arith)
                requires
                    -200_000_000_000_000 <= dx <= 200_000_000_000_000,
            ;
            assert(0 <= dy * dy <= 40_000_000_000_000_000_000_000_000_000) by (nonlinear_arith)
                requires
                    -200_000_000_000_000 <= dy <= 200_000_000_000_000,
            ;
            let sq: i128 = dx * dx + dy * dy;
            if sq < PROXIMITY as i128 {
                (Vec2 { x: 0, y: 0 }, true)
            } else {
                let dir = normalize(d, DIR_ONE / 2);
                (Vec2 { x: scale_by_speed(dir.x, c.speed), y: scale_by_speed(dir.y, c.speed) }, false)
            }
        },
        Behavior::Decorative => (Vec2 { x: 0, y: 0 }, false),
    }
}

/// Where an entity at `pos` ends up after asking to move by `mov`: the
/// proposed position, unless it leaves the coordinate bounds or lies strictly
/// inside a zone, in which case the entity stays where it is.
pub open spec fn resolved_pos(pos: Vec2, mov: Vec2, zones: Seq<MapForbidden>) -> Vec2 {
    let p = Vec2 { x: (pos.x + mov.x) as i64, y: (pos.y + mov.y) as i64 };
    if pos_in_range(p) && !blocked(p, zones) {
        p
    } else {
        pos
    }
}

/// An entity whose proposed position lies strictly inside a forbidden zone
/// stays exactly where it was: the move is dropped whole, not clipped.
pub proof fn lemma_blocked_move_discarded(pos: Vec2, mov: Vec2, zones: Seq<MapForbidden>)
    requires
        blocked(Vec2 { x: (pos.x + mov.x) as i64, y: (pos.y + mov.y) as i64 }, zones),
    ensures
        resolved_pos(pos, mov, zones) == pos,
{
}

/// The entity after one tick in which it asks to move by `mov`.
pub open spec fn moved(c: Character, mov: Vec2, zones: Seq<MapForbidden>, idle_n: nat, walk_n: nat) -> Character {
    Character { pos: resolved_pos(c.pos, mov, zones), ..c.ticked(mov, idle_n, walk_n) }
}

/// One tick of entity `c` asking to move by `mov`: facing, walking state and
/// frame follow `mov` (even where the move is refused); the position moves
/// by all of `mov` or not at all.
pub fn move_character(c: &mut Character, mov: Vec2, zones: &Vec<MapForbidden>, atlas: &Atlas)
    requires
        old(c).wf(atlas@),
        -old(c).speed <= mov.x <= old(c).speed,
        -old(c).speed <= mov.y <= old(c).speed,
    ensures
        *final(c) == moved(
            *old(c),
            mov,
            zones@,
            frame_count(atlas@, old(c).idle_anim as int),
            frame_count(atlas@, old(c).walk_anim as int),
        ),
        final(c).wf(atlas@),
        blocked(Vec2 { x: (old(c).pos.x + mov.x) as i64, y: (old(c).pos.y + mov.y) as i64 }, zones@)
            ==> final(c).pos == old(c).pos,
{
    c.update(mov, atlas);
    let p = Vec2 { x: c.pos.x + mov.x, y: c.pos.y + mov.y };
    let in_range = -COORD_LIMIT <= p.x && p.x <= COORD_LIMIT && -COORD_LIMIT <= p.y && p.y
        <= COORD_LIMIT;
    if in_range && !in_forbidden(p, zones) {
        c.pos = p;
    }
}

/// A map or roster refers to an animation that the catalog lacks, or that
/// has no frames.
#[derive(Clone, Debug, PartialEq, Eq)]
pub enum AssetError {
    Unknown { name: String },
    NoFrames { name: String },
}

/// The running world: the catalog, the map, every entity (the player among
/// them) and the map's shared frame clock.
#[derive(Clone, Debug)]
pub struct World {
    pub atlas: Atlas,
    pub map: TileMap,
    pub characters: Vec<Character>,
    /// Which entity the player controls.
    pub player: usize,
    /// The catalog position of each of the map's placed animations.
    pub map_anims: Vec<usize>,
    /// Ticks since the map's placed animations last advanced.
    pub map_clock: usize,
}

impl World {
    pub open spec fn wf(&self) -> bool {
        &&& self.player < self.characters@.len()
        &&& forall|i: int|
            0 <= i < self.characters@.len() ==> (#[trigger] self.characters@[i]).wf(self.atlas@)
        &&& self.map_anims@.len() == self.map.animations@.len()
        &&& forall|i: int|
            0 <= i < self.map_anims@.len() ==> (#[trigger] self.map_anims@[i])
                < self.atlas@.anims.len() && frame_count(self.atlas@, self.map_anims@[i] as int)
                > 0
        &&& self.map_clock < MAP_FRAME_PERIOD
    }

    /// The map's shared frame clock fires on the coming tick.
    pub open spec fn clock_fires(&self) -> bool {
        self.map_clock + 1 == MAP_FRAME_PERIOD
    }

    /// Entity `c` after the coming tick, with the player at `player_pos`
    /// holding `keys`: a decoration stays put and shows its next frame when
    /// the shared frame clock fires; any other entity moves as `moved` says.
    pub open spec fn next_character(&self, c: Character, player_pos: Vec2, keys: PlayerInput) -> Character {
        if c.behavior == Behavior::Decorative {
            if self.clock_fires() {
                Character {
                    frame: ((c.frame + 1) % (frame_count(self.atlas@, c.anim_spec() as int) as int))
                        as usize,
                    ..c
                }
            } else {
                c
            }
        } else {
            moved(
                c,
                desired_move(c, player_pos, keys).0,
                self.map.forbidden@,
                self.counts(c).0,
                self.counts(c).1,
            )
        }
    }

    /// The frame counts of entity `c`'s idle and walk animations.
    pub open spec fn counts(&self, c: Character) -> (nat, nat) {
        (frame_count(self.atlas@, c.idle_anim as int), frame_count(self.atlas@, c.walk_anim as int))
    }

    /// Sets up a world from a catalog, a map and a roster of entities: one
    /// decoration is added after the roster for each of the map's placed
    /// animations, in order.
    pub fn new(atlas: Atlas, map: TileMap, characters: Vec<Character>, player: usize) -> (r: Result<
        World,
        AssetError,
    >)
        requires
            player < characters@.len(),
            forall|i: int| 0 <= i < characters@.len() ==> (#[trigger] characters@[i]).wf(atlas@),
        ensures
            match r {
                Ok(w) => {
                    &&& w.wf()
                    &&& w.atlas@ == atlas@
                    &&& w.map == map
                    &&& w.player == player
                    &&& w.map_clock == 0
                    &&& w.characters@.len() == characters@.len() + map.animations@.len()
                    &&& w.characters@.subrange(0, characters@.len() as int) == characters@
                    &&& forall|k: int|
                        0 <= k < map.animations@.len() ==> {
                            let a = #[trigger] map.animations@[k];
                            &&& last_named(atlas@.anims, a.animation@, w.map_anims@[k] as int)
                            &&& w.characters@[characters@.len() + k] == Character::decoration(
                                a.x,
                                a.y,
                                w.map_anims@[k],
                                atlas@,
                            )
                        }
                },
                Err(e) => exists|k: int|
                    0 <= k < map.animations@.len() && (forall|j: int|
                        0 <= j < k ==> atlas@.anim_map().contains_key(
                            (#[trigger] map.animations@[j]).animation@,
                        ) && atlas@.anim_map()[map.animations@[j].animation@].frames.len() > 0) && {
                        let name = (#[trigger] map.animations@[k]).animation@;
                        match e {
                            AssetError::Unknown { name: n } => n@ == name
                                && !atlas@.anim_map().contains_key(name),
                            AssetError::NoFrames { name: n } => n@ == name
                                && atlas@.anim_map().contains_key(name)
                                && atlas@.anim_map()[name].frames.len() == 0,
                        }
                    },
            },
            r is Ok <==> forall|k: int|
                0 <= k < map.animations@.len() ==> atlas@.anim_map().contains_key(
                    (#[trigger] map.animations@[k]).animation@,
                ) && atlas@.anim_map()[map.animations@[k].animation@].frames.len() > 0,
    {
        let mut chars = characters;
        let mut map_anims: Vec<usize> = Vec::new();
        let n0 = chars.len();
        let mut k: usize = 0;
        while k < map.animations.len()
            invariant
                k <= map.animations@.len(),
                n0 == characters@.len(),
                chars@.len() == n0 + k,
                map_anims@.len() == k,
                chars@.subrange(0, n0 as int) == characters@,
                forall|i: int| 0 <= i < chars@.len() ==> (#[trigger] chars@[i]).wf(atlas@),
                forall|j: int|
                    0 <= j < k ==> {
                        let a = #[trigger] map.animations@[j];
                        &&& last_named(atlas@.anims, a.animation@, map_anims@[j] as int)
                        &&& atlas@.anim_map().contains_key(a.animation@)
                        &&& atlas@.anim_map()[a.animation@].frames.len() > 0
                        &&& map_anims@[j] < atlas@.anims.len()
                        &&& frame_count(atlas@, map_anims@[j] as int) > 0
                        &&& chars@[n0 + j] == Character::decoration(a.x, a.y, map_anims@[j], atlas@)
                    },
            decreases map.animations@.len() - k,
        {
            let a = &map.animations[k];
            match atlas.animation_index(&a.animation) {
                None => {
                    return Err(AssetError::Unknown { name: a.animation.clone() });
                },
                Some(idx) => {
                    if atlas.anims[idx].1.tiles.len() == 0 {
                        return Err(AssetError::NoFrames { name: a.animation.clone() });
                    }
                    let d = Character::from_anim(a.x, a.y, idx, &atlas);
                    let ghost before = chars@;
                    chars.push(d);
                    map_anims.push(idx);
                    assert(chars@.subrange(0, n0 as int) =~= before.subrange(0, n0 as int));
                },
            }
            k = k + 1;
        }
        let w = World { atlas, map, characters: chars, player, map_anims, map_clock: 0 };
        proof {
            assert forall|i: int| 0 <= i < w.map_anims@.len() implies (#[trigger] w.map_anims@[i])
                < w.atlas@.anims.len() && frame_count(w.atlas@, w.map_anims@[i] as int) > 0 by {
                let a = w.map.animations@[i];
            }
        }
        Ok(w)
    }

    /// One tick of the simulation, with the player holding `keys`. Every
    /// entity but the decorations asks for its move from where the player
    /// stood before the tick, and moves as `moved` says; decorations and the
    /// map's placed animations advance one frame every `MAP_FRAME_PERIOD`
    /// ticks, on the shared frame clock. Returns, in increasing order,
    /// the entities that reached the player, one sound cue each.
    pub fn tick(&mut self, keys: &PlayerInput) -> (cues: Vec<usize>)
        requires
            old(self).wf(),
        ensures
            final(self).wf(),
            final(self).atlas == old(self).atlas,
            final(self).map.tiles == old(self).map.tiles,
            final(self).map.forbidden == old(self).map.forbidden,
            final(self).map.width == old(self).map.width,
            final(self).map.height == old(self).map.height,
            final(self).player == old(self).player,
            final(self).map_anims == old(self).map_anims,
            final(self).characters@.len() == old(self).characters@.len(),
            forall|i: int|
                0 <= i < old(self).characters@.len() ==> final(self).characters@[i]
                    == old(self).next_character(
                    #[trigger] old(self).characters@[i],
                    old(self).characters@[old(self).player as int].pos,
                    *keys,
                ),
            forall|i: int, j: int| 0 <= i < j < cues@.len() ==> cues@[i] < cues@[j],
            forall|i: int| 0 <= i < cues@.len() ==> cues@[i] < old(self).characters@.len(),
            forall|i: int|
                0 <= i < old(self).characters@.len() ==> (cues@.contains(i as usize) <==> desired_move(
                    #[trigger] old(self).characters@[i],
                    old(self).characters@[old(self).player as int].pos,
                    *keys,
                ).1),
            final(self).map_clock == (old(self).map_clock + 1) % (MAP_FRAME_PERIOD as int),
            final(self).map.animations@.len() == old(self).map.animations@.len(),
            forall|k: int|
                0 <= k < old(self).map.animations@.len() ==> {
                    let a = #[trigger] old(self).map.animations@[k];
                    let b = final(self).map.animations@[k];
                    &&& b.x == a.x && b.y == a.y && b.animation == a.animation
                    &&& b.frame == if old(self).map_clock + 1 == MAP_FRAME_PERIOD {
                        (a.frame + 1) % (frame_count(old(self).atlas@, old(self).map_anims@[k] as int)
                            as int)
                    } else {
                        a.frame as int
                    }
                },
    {
        let player_pos = self.characters[self.player].pos;
        let mut cues: Vec<usize> = Vec::new();
        let n = self.characters.len();
        let mut i: usize = 0;
        while i < n
            invariant
                old(self).wf(),
                n == old(self).characters@.len(),
                self.characters@.len() == n,
                self.atlas == old(self).atlas,
                self.map == old(self).map,
                self.player == old(self).player,
                self.map_anims == old(self).map_anims,
                self.map_clock == old(self).map_clock,
                i <= n,
                player_pos == old(self).characters@[old(self).player as int].pos,
                forall|k: int| i <= k < n ==> self.characters@[k] == old(self).characters@[k],
                forall|k: int|
                    0 <= k < i ==> self.characters@[k] == old(self).next_character(
                        #[trigger] old(self).characters@[k],
                        player_pos,
                        *keys,
                    ),
                forall|k: int| 0 <= k < n ==> (#[trigger] self.characters@[k]).wf(self.atlas@),
                forall|a: int, b: int| 0 <= a < b < cues@.len() ==> cues@[a] < cues@[b],
                forall|a: int| 0 <= a < cues@.len() ==> cues@[a] < i,
                forall|k: int|
                    0 <= k < i ==> (cues@.contains(k as usize) <==> desired_move(
                        #[trigger] old(self).characters@[k],
                        player_pos,
                        *keys,
                    ).1),
            decreases n - i,
        {
            let mut c = self.characters[i];
            assert(c.wf(self.atlas@));
            let (mov, cue) = plan_move(&c, player_pos, keys);
            if c.behavior == Behavior::Decorative {
                if self.map_clock + 1 == MAP_FRAME_PERIOD {
                    let n = self.atlas.anims[c.anim()].1.tiles.len();
                    assert(n == frame_count(self.atlas@, c.anim_spec() as int));
                    c.frame = (c.frame + 1) % n;
                }
            } else {
                move_character(&mut c, mov, &self.map.forbidden, &self.atlas);
            }
            self.characters.set(i, c);
            if cue {
                let ghost before = cues@;
                cues.push(i);
                proof {
                    assert forall|k: int| 0 <= k < i implies (#[trigger] cues@.contains(k as usize) <==> before.contains(k as usize)) by {
                        if cues@.contains(k as usize) {
                            let j = choose|j: int| 0 <= j < cues@.len() && cues@[j] == k as usize;
                            if j == before.len() {
                            } else {
                                assert(before[j] == k as usize);
                            }
                        }
                        if before.contains(k as usize) {
                            let j = choose|j: int| 0 <= j < before.len() && before[j] == k as usize;
                            assert(cues@[j] == k as usize);
                        }
                    }
                    assert(cues@[before.len() as int] == i);
                }
            } else {
                proof {
                    assert(!cues@.contains(i));
                }
            }
            i = i + 1;
        }
        self.advance_map_clock();
        cues
    }

    /// Advances the map's shared frame clock by one tick; every
    /// `MAP_FRAME_PERIOD` ticks each placed animation moves to its next frame.
    fn advance_map_clock(&mut self)
        requires
            old(self).wf(),
        ensures
            final(self).wf(),
            final(self).atlas == old(self).atlas,
            final(self).characters == old(self).characters,
            final(self).map.tiles == old(self).map.tiles,
            final(self).map.forbidden == old(self).map.forbidden,
            final(self).map.width == old(self).map.width,
            final(self).map.height == old(self).map.height,
            final(self).player == old(self).player,
            final(self).map_anims == old(self).map_anims,
            final(self).map_clock == (old(self).map_clock + 1) % (MAP_FRAME_PERIOD as int),
            final(self).map.animations@.len() == old(self).map.animations@.len(),
            forall|k: int|
                0 <= k < old(self).map.animations@.len() ==> {
                    let a = #[trigger] old(self).map.animations@[k];
                    let b = final(self).map.animations@[k];
                    &&& b.x == a.x && b.y == a.y && b.animation == a.animation
                    &&& b.frame == if old(self).map_clock + 1 == MAP_FRAME_PERIOD {
                        (a.frame + 1) % (frame_count(old(self).atlas@, old(self).map_anims@[k] as int)
                            as int)
                    } else {
                        a.frame as int
                    }
                },
    {
        self.map_clock = self.map_clock + 1;
        if self.map_clock < MAP_FRAME_PERIOD {
            return;
        }
        self.map_clock = 0;
        let n = self.map.animations.len();
        let mut k: usize = 0;
        while k < n
            invariant
                old(self).wf(),
                n == old(self).map.animations@.len(),
                self.map.animations@.len() == n,
                self.atlas == old(self).atlas,
                self.characters == old(self).characters,
                self.map.tiles == old(self).map.tiles,
                self.map.forbidden == old(self).map.forbidden,
                self.map.width == old(self).map.width,
                self.map.height == old(self).map.height,
                self.player == old(self).player,
                self.map_anims == old(self).map_anims,
                self.map_clock == 0,
                old(self).map_clock + 1 == MAP_FRAME_PERIOD,
                k <= n,
                forall|j: int| k <= j < n ==> self.map.animations@[j] == old(self).map.animations@[j],
                forall|j: int|
                    0 <= j < k ==> {
                        let a = #[trigger] old(self).map.animations@[j];
                        let b = self.map.animations@[j];
                        &&& b.x == a.x && b.y == a.y && b.animation == a.animation
                        &&& b.frame == (a.frame + 1) % (frame_count(
                            old(self).atlas@,
                            old(self).map_anims@[j] as int,
                        ) as int)
                    },
            decreases n - k,
        {
            let idx = self.map_anims[k];
            let count = self.atlas.anims[idx].1.tiles.len();
            assert(count == frame_count(self.atlas@, idx as int));
            let old_a = &self.map.animations[k];
            let f = old_a.frame;
            let a = MapAnimation {
                x: old_a.x,
                y: old_a.y,
                animation: old_a.animation.clone(),
                frame: (f % count + 1) % count,
            };
            proof {
                vstd::arithmetic::div_mod::lemma_add_mod_noop(f as int, 1, count as int);
                vstd::arithmetic::div_mod::lemma_mod_twice(1, count as int);
                if count > 1 {
                    vstd::arithmetic::div_mod::lemma_small_mod(1, count as nat);
                } else {
                    vstd::arithmetic::div_mod::lemma_mod_bound(f as int + 1, 1);
                    vstd::arithmetic::div_mod::lemma_mod_bound(f as int % 1 + 1, 1);
                }
            }
            self.map.animations.set(k, a);
            k = k + 1;
        }
    }
}

} // verus!
