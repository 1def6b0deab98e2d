//! Entities: positioned, animated actors with a facing direction and a
//! frame clock of their own; the player's input; and the camera that
//! follows the player.

use vstd::prelude::*;
use crate::atlas::{Atlas, AtlasModel};
use crate::geom::{
    is_floor_sqrt, lemma_floor_sqrt_is, normalize, pos_in_range, sq_len, Vec2,
    COORD_LIMIT, DIR_ONE, SUBPIXELS, TILE_SUBPIXELS,
};

verus! {

/// Ticks an entity holds each animation frame.
pub const FRAME_HOLD: usize = 3;

/// Bound on an entity's speed, in sub-pixels per tick.
pub const SPEED_LIMIT: i64 = 1_000_000_000;

/// Bound on the pixel coordinates an entity is placed at.
pub const PIXEL_LIMIT: i64 = 10_000_000_000;

/// The way an entity faces; sprites are drawn mirrored when it faces left.
#[derive(Clone, Copy, Debug, PartialEq, Eq, Structural)]
pub enum Dir {
    Left,
    Right,
}

impl Dir {
    /// Whether a sprite facing this way is drawn mirrored.
    pub fn flip(&self) -> (r: bool)
        ensures
            r == (*self == Dir::Left),
    {
        match self {
            Dir::Left => true,
            Dir::Right => false,
        }
    }
}

/// How an entity decides where to go.
#[derive(Clone, Copy, Debug, PartialEq, Eq, Structural)]
pub enum Behavior {
    /// Moved by the player's keys.
    PlayerControlled,
    /// Chases the player.
    SeekTarget,
    /// A decoration: it never moves.
    Decorative,
}

/// An actor of the world. Its position is the bottom-centre of its sprite,
/// in sub-pixels; its animations are positions in the catalog.
#[derive(Clone, Copy, Debug, PartialEq, Eq, Structural)]
pub struct Character {
    pub pos: Vec2,
    pub walking: bool,
    pub frame: usize,
    pub dir: Dir,
    pub idle_anim: usize,
    pub walk_anim: usize,
    /// Ticks each frame is held.
    pub frame_rate: usize,
    /// Ticks the current frame has been held.
    pub frame_counter: usize,
    pub behavior: Behavior,
    /// Sub-pixels per tick at full speed.
    pub speed: i64,
    /// The sprite size in tiles, from the idle animation.
    pub w: u32,
    pub h: u32,
}

/// The number of frames of the animation at position `i` of the catalog.
pub open spec fn frame_count(atlas: AtlasModel, i: int) -> nat {
    atlas.anims[i].1.frames.len()
}

impl Character {
    /// The animation shown now: the walk animation while walking.
    pub open spec fn anim_spec(self) -> usize {
        if self.walking {
            self.walk_anim
        } else {
            self.idle_anim
        }
    }

    /// The entity's animations exist and have frames, its clocks are in
    /// range and its position and speed are within bounds.
    pub open spec fn wf(self, atlas: AtlasModel) -> bool {
        &&& self.idle_anim < atlas.anims.len()
        &&& self.walk_anim < atlas.anims.len()
        &&& frame_count(atlas, self.idle_anim as int) > 0
        &&& frame_count(atlas, self.walk_anim as int) > 0
        &&& self.frame < frame_count(atlas, self.anim_spec() as int)
        &&& 1 <= self.frame_rate
        &&& self.frame_counter < self.frame_rate
        &&& pos_in_range(self.pos)
        &&& 0 <= self.speed <= SPEED_LIMIT
    }

    /// The state after one tick in which the entity wants to move by `mov`,
    /// where its idle and walk animations have `idle_n` and `walk_n` frames.
    /// The facing follows the sign of `mov.x`; the entity walks where `mov`
    /// is not zero, and starts its animation over when that changes; its
    /// frame advances once every `frame_rate` ticks. Its position is left to
    /// the caller.
    pub open spec fn ticked(self, mov: Vec2, idle_n: nat, walk_n: nat) -> Character {
        let walking = mov.x != 0 || mov.y != 0;
        let dir = if mov.x > 0 {
            Dir::Right
        } else if mov.x < 0 {
            Dir::Left
        } else {
            self.dir
        };
        let frame0 = if walking != self.walking {
            0
        } else {
            self.frame as int
        };
        let n = if walking {
            walk_n
        } else {
            idle_n
        };
        let held = self.frame_counter + 1;
        Character {
            walking,
            dir,
            frame: (if held >= self.frame_rate {
                (frame0 + 1) % (n as int)
            } else {
                frame0
            }) as usize,
            frame_counter: (if held >= self.frame_rate {
                0
            } else {
                held
            }) as usize,
            ..self
        }
    }

    /// An entity placed with its sprite's top-left corner at pixel `(x, y)`,
    /// facing right, idle, at its first frame.
    pub fn new(
        x: i64,
        y: i64,
        idle_anim: usize,
        walk_anim: usize,
        atlas: &Atlas,
        player: bool,
        speed: i64,
    ) -> (r: Character)
        requires
            -PIXEL_LIMIT <= x <= PIXEL_LIMIT,
            -PIXEL_LIMIT <= y <= PIXEL_LIMIT,
            idle_anim < atlas@.anims.len(),
            walk_anim < atlas@.anims.len(),
            frame_count(atlas@, idle_anim as int) > 0,
            frame_count(atlas@, walk_anim as int) > 0,
            0 <= speed <= SPEED_LIMIT,
        ensures
            r.wf(atlas@),
            r.pos.x == x * SUBPIXELS + atlas@.anims[idle_anim as int].1.w * TILE_SUBPIXELS / 2,
            r.pos.y == y * SUBPIXELS + atlas@.anims[idle_anim as int].1.h * TILE_SUBPIXELS,
            r.w == atlas@.anims[idle_anim as int].1.w,
            r.h == atlas@.anims[idle_anim as int].1.h,
            !r.walking,
            r.frame == 0,
            r.frame_counter == 0,
            r.frame_rate == FRAME_HOLD,
            r.dir == Dir::Right,
            r.idle_anim == idle_anim,
            r.walk_anim == walk_anim,
            r.behavior == (if player {
                Behavior::PlayerControlled
            } else {
                Behavior::SeekTarget
            }),
            r.speed == speed,
    {
        let w = atlas.anims[idle_anim].1.w;
        let h = atlas.anims[idle_anim].1.h;
        Character {
            pos: Vec2 {
                x: x * SUBPIXELS + (w as i64) * TILE_SUBPIXELS / 2,
                y: y * SUBPIXELS + (h as i64) * TILE_SUBPIXELS,
            },
            walking: false,
            frame: 0,
            dir: Dir::Right,
            idle_anim,
            walk_anim,
            frame_rate: FRAME_HOLD,
            frame_counter: 0,
            behavior: if player {
                Behavior::PlayerControlled
            } else {
                Behavior::SeekTarget
            },
            speed,
            w,
            h,
        }
    }

    /// A decoration showing animation `anim`, with its sprite's top-left
    /// corner at tile `(x, y)`: idle, facing right, at its first frame.
    pub open spec fn decoration(x: i32, y: i32, anim: usize, atlas: AtlasModel) -> Character {
        let w = atlas.anims[anim as int].1.w;
        let h = atlas.anims[anim as int].1.h;
        Character {
            pos: Vec2 {
                x: (x * TILE_SUBPIXELS + w * TILE_SUBPIXELS / 2) as i64,
                y: (y * TILE_SUBPIXELS + h * TILE_SUBPIXELS) as i64,
            },
            walking: false,
            frame: 0,
            dir: Dir::Right,
            idle_anim: anim,
            walk_anim: anim,
            frame_rate: FRAME_HOLD,
            frame_counter: 0,
            behavior: Behavior::Decorative,
            speed: 0,
            w: w as u32,
            h: h as u32,
        }
    }

    /// A decoration showing animation `anim`, with its sprite's top-left
    /// corner at tile `(x, y)`.
    pub fn from_anim(x: i32, y: i32, anim: usize, atlas: &Atlas) -> (r: Character)
        requires
            anim < atlas@.anims.len(),
            frame_count(atlas@, anim as int) > 0,
        ensures
            r == Character::decoration(x, y, anim, atlas@),
            r.wf(atlas@),
    {
        let w = atlas.anims[anim].1.w;
        let h = atlas.anims[anim].1.h;
        Character {
            pos: Vec2 {
                x: (x as i64) * TILE_SUBPIXELS + (w as i64) * TILE_SUBPIXELS / 2,
                y: (y as i64) * TILE_SUBPIXELS + (h as i64) * TILE_SUBPIXELS,
            },
            walking: false,
            frame: 0,
            dir: Dir::Right,
            idle_anim: anim,
            walk_anim: anim,
            frame_rate: FRAME_HOLD,
            frame_counter: 0,
            behavior: Behavior::Decorative,
            speed: 0,
            w,
            h,
        }
    }

    /// The animation shown now.
    pub fn anim(&self) -> (r: usize)
        ensures
            r == self.anim_spec(),
    {
        if self.walking {
            self.walk_anim
        } else {
            self.idle_anim
        }
    }

    /// One tick in which the entity wants to move by `mov`: sets its facing,
    /// walking state and frame as `ticked` says, and leaves its position.
    pub fn update(&mut self, mov: Vec2, atlas: &Atlas)
        requires
            old(self).wf(atlas@),
        ensures
            *final(self) == old(self).ticked(
                mov,
                frame_count(atlas@, old(self).idle_anim as int),
                frame_count(atlas@, old(self).walk_anim as int),
            ),
            final(self).wf(atlas@),
    {
        if mov.x > 0 {
            self.dir = Dir::Right;
        }
        if mov.x < 0 {
            self.dir = Dir::Left;
        }
        let walking_before = self.walking;
        self.walking = mov.x != 0 || mov.y != 0;
        if self.walking != walking_before {
            self.frame = 0;
        }
        let held = self.frame_counter + 1;
        if held >= self.frame_rate {
            let a = self.anim();
            let n = atlas.anims[a].1.tiles.len();
            assert(n == frame_count(atlas@, a as int));
            self.frame = (self.frame + 1) % n;
            self.frame_counter = 0;
        } else {
            self.frame_counter = held;
        }
    }

    /// The size in tiles of the sprite shown now.
    pub fn width_height(&self, atlas: &Atlas) -> (r: (u32, u32))
        requires
            self.wf(atlas@),
        ensures
            r.0 == atlas@.anims[self.anim_spec() as int].1.w,
            r.1 == atlas@.anims[self.anim_spec() as int].1.h,
    {
        let a = &atlas.anims[self.anim()].1;
        (a.w, a.h)
    }

    /// The top-left corner of the entity's sprite, in sub-pixels.
    pub fn top_left(&self) -> (r: Vec2)
        requires
            pos_in_range(self.pos),
        ensures
            r.x == self.pos.x - self.w * TILE_SUBPIXELS / 2,
            r.y == self.pos.y - self.h * TILE_SUBPIXELS,
    {
        Vec2 {
            x: self.pos.x - (self.w as i64) * TILE_SUBPIXELS / 2,
            y: self.pos.y - (self.h as i64) * TILE_SUBPIXELS,
        }
    }
}

/// The state after `k` ticks in each of which the entity wants to move by
/// `mov`.
pub open spec fn ticks(c: Character, mov: Vec2, idle_n: nat, walk_n: nat, k: nat) -> Character
    decreases k,
{
    if k == 0 {
        c
    } else {
        ticks(c, mov, idle_n, walk_n, (k - 1) as nat).ticked(mov, idle_n, walk_n)
    }
}

proof fn lemma_walking_ticks(c: Character, mov: Vec2, idle_n: nat, walk_n: nat, j: nat)
    requires
        mov.x != 0 || mov.y != 0,
        c.frame == 0,
        c.frame_counter == 0,
        c.frame_rate >= 1,
        1 <= walk_n <= usize::MAX,
    ensures
        ticks(c, mov, idle_n, walk_n, j).frame == (j as int / c.frame_rate as int) % (walk_n as int),
        ticks(c, mov, idle_n, walk_n, j).frame_counter == j as int % c.frame_rate as int,
        ticks(c, mov, idle_n, walk_n, j).frame_rate == c.frame_rate,
        j > 0 ==> ticks(c, mov, idle_n, walk_n, j).walking,
    decreases j,
{
    let t = c.frame_rate as int;
    let n = walk_n as int;
    if j > 0 {
        let p = (j - 1) as nat;
        lemma_walking_ticks(c, mov, idle_n, walk_n, p);
        let prev = ticks(c, mov, idle_n, walk_n, p);
        let q = p as int / t;
        let r = p as int % t;
        vstd::arithmetic::div_mod::lemma_fundamental_div_mod(p as int, t);
        vstd::arithmetic::div_mod::lemma_mod_bound(p as int, t);
        assert(p == q * t + r) by (nonlinear_arith)
            requires
                p == t * q + r,
        ;
        if p == 0 {
            vstd::arithmetic::div_mod::lemma_div_basics(t);
        }
        let frame0 = if prev.walking != true { 0 } else { prev.frame as int };
        assert(frame0 == q % n) by {
            if p == 0 {
                vstd::arithmetic::div_mod::lemma_small_mod(0, n as nat);
            }
        }
        vstd::arithmetic::div_mod::lemma_mod_bound(q, n);
        if r + 1 >= t {
            assert(j == (q + 1) * t + 0) by (nonlinear_arith)
                requires
                    j == p + 1,
                    p == q * t + r,
                    r + 1 == t,
            ;
            vstd::arithmetic::div_mod::lemma_fundamental_div_mod_converse_div(j as int, t, q + 1, 0);
            vstd::arithmetic::div_mod::lemma_fundamental_div_mod_converse_mod(j as int, t, q + 1, 0);
            vstd::arithmetic::div_mod::lemma_add_mod_noop(q, 1, n);
            if n > 1 {
                vstd::arithmetic::div_mod::lemma_small_mod(1, n as nat);
            } else {
                vstd::arithmetic::div_mod::lemma_mod_bound(q + 1, 1);
                vstd::arithmetic::div_mod::lemma_mod_bound(q % n + 1, 1);
            }
            assert((frame0 + 1) % n == (q + 1) % n);
            let cur = prev.ticked(mov, idle_n, walk_n);
            assert(ticks(c, mov, idle_n, walk_n, j) == cur);
            assert(prev.frame_counter + 1 >= prev.frame_rate);
            assert(cur.frame == ((frame0 + 1) % n) as usize);
        } else {
            assert(j == q * t + (r + 1));
            vstd::arithmetic::div_mod::lemma_fundamental_div_mod_converse_div(j as int, t, q, r + 1);
            vstd::arithmetic::div_mod::lemma_fundamental_div_mod_converse_mod(j as int, t, q, r + 1);
            let cur = prev.ticked(mov, idle_n, walk_n);
            assert(ticks(c, mov, idle_n, walk_n, j) == cur);
            assert(cur.frame == frame0 as usize);
        }
    } else {
        vstd::arithmetic::div_mod::lemma_div_basics(t);
        vstd::arithmetic::div_mod::lemma_small_mod(0, n as nat);
        vstd::arithmetic::div_mod::lemma_small_mod(0, t as nat);
    }
}

/// Within `limit` ticks of wanting to move by `mov` on every tick, the
/// entity shows frame `i`.
pub open spec fn shows_frame_within(
    c: Character,
    mov: Vec2,
    idle_n: nat,
    walk_n: nat,
    i: nat,
    limit: nat,
) -> bool {
    exists|j: nat| j <= limit && (#[trigger] ticks(c, mov, idle_n, walk_n, j)).frame == i
}

/// An entity that starts its animation afresh and then wants to move on
/// every tick shows frame `k mod N` of its `N`-frame walk animation after
/// `k` times its hold threshold of ticks, and so shows every one of those
/// frames within `N` times the threshold.
pub proof fn lemma_walk_cycle(c: Character, mov: Vec2, idle_n: nat, walk_n: nat, k: nat)
    requires
        mov.x != 0 || mov.y != 0,
        c.frame == 0,
        c.frame_counter == 0,
        c.frame_rate >= 1,
        1 <= walk_n <= usize::MAX,
    ensures
        ticks(c, mov, idle_n, walk_n, (k * c.frame_rate) as nat).frame == k % walk_n,
        forall|i: nat|
            i < walk_n ==> #[trigger] shows_frame_within(
                c,
                mov,
                idle_n,
                walk_n,
                i,
                (walk_n * c.frame_rate) as nat,
            ),
{
    let t = c.frame_rate as int;
    lemma_walking_ticks(c, mov, idle_n, walk_n, (k * c.frame_rate) as nat);
    vstd::arithmetic::div_mod::lemma_div_multiples_vanish(k as int, t);
    assert((k * c.frame_rate) as int == t * k) by (nonlinear_arith)
        requires
            t == c.frame_rate as int,
    ;
    assert forall|i: nat| i < walk_n implies #[trigger] shows_frame_within(
        c,
        mov,
        idle_n,
        walk_n,
        i,
        (walk_n * c.frame_rate) as nat,
    ) by {
        let j: nat = (i * c.frame_rate) as nat;
        lemma_walking_ticks(c, mov, idle_n, walk_n, j);
        vstd::arithmetic::div_mod::lemma_div_multiples_vanish(i as int, t);
        assert(j as int == t * i) by (nonlinear_arith)
            requires
                t == c.frame_rate as int,
                j == i * c.frame_rate,
        ;
        vstd::arithmetic::div_mod::lemma_small_mod(i, walk_n);
        assert(j <= walk_n * c.frame_rate) by (nonlinear_arith)
            requires
                j == i * c.frame_rate,
                i < walk_n,
        ;
    }
}

/// Which movement keys are held.
#[derive(Clone, Copy, Debug, PartialEq, Eq, Structural)]
pub struct PlayerInput {
    pub up: bool,
    pub down: bool,
    pub left: bool,
    pub right: bool,
}

/// Each component of a diagonal unit direction: `DIR_ONE / sqrt(2)`,
/// rounded toward zero.
pub const DIAG_ONE: i64 = 46341;

/// The sign that two opposite keys give an axis; the positive key wins
/// where both are held.
pub open spec fn key_axis(neg: bool, pos: bool) -> int {
    if pos {
        1
    } else if neg {
        -1
    } else {
        0
    }
}

impl PlayerInput {
    /// No key held.
    pub fn new() -> (r: PlayerInput)
        ensures
            !r.up && !r.down && !r.left && !r.right,
    {
        PlayerInput { up: false, down: false, left: false, right: false }
    }

    /// The unit direction the held keys ask for (`DIR_ONE` long), with
    /// diagonals shortened to unit length; zero where no key is held.
    pub fn to_dir(&self) -> (r: Vec2)
        ensures
            ({
                let ax = key_axis(self.left, self.right);
                let ay = key_axis(self.up, self.down);
                let m = if ax != 0 && ay != 0 {
                    DIAG_ONE
                } else {
                    DIR_ONE
                };
                r.x == ax * m && r.y == ay * m
            }),
    {
        let mut x: i64 = 0;
        let mut y: i64 = 0;
        if self.up {
            y = -DIR_ONE;
        }
        if self.down {
            y = DIR_ONE;
        }
        if self.left {
            x = -DIR_ONE;
        }
        if self.right {
            x = DIR_ONE;
        }
        let raw = Vec2 { x, y };
        proof {
            if x != 0 && y != 0 {
                assert(sq_len(x as int, y as int) == 8589934592) by (nonlinear_arith)
                    requires
                        x == 65536 || x == -65536,
                        y == 65536 || y == -65536,
                ;
                assert(is_floor_sqrt(8589934592, 92681));
                lemma_floor_sqrt_is(8589934592, 92681);
                assert(4294967296int / 92681int == 46341) by (nonlinear_arith);
            } else if x != 0 || y != 0 {
                assert(sq_len(x as int, y as int) == 4294967296) by (nonlinear_arith)
                    requires
                        x == 65536 || x == -65536 || x == 0,
                        y == 65536 || y == -65536 || y == 0,
                        x == 0 || y == 0,
                        x != 0 || y != 0,
                ;
                assert(is_floor_sqrt(4294967296, 65536));
                lemma_floor_sqrt_is(4294967296, 65536);
                assert(4294967296int / 65536int == 65536) by (nonlinear_arith);
                assert(0int / 65536int == 0) by (nonlinear_arith);
            }
        }
        normalize(raw, DIR_ONE)
    }
}

/// Debug drawing switches.
#[derive(Clone, Copy, Debug, PartialEq, Eq, Structural)]
pub struct DebugState {
    /// Outline forbidden zones and mark entity positions.
    pub draw_forbidden: bool,
}

impl DebugState {
    /// Debug drawing off.
    pub fn new() -> (r: DebugState)
        ensures
            !r.draw_forbidden,
    {
        DebugState { draw_forbidden: false }
    }
}

/// The viewport: its top-left corner in sub-pixels and its size in pixels.
#[derive(Clone, Copy, Debug, PartialEq, Eq, Structural)]
pub struct Camera {
    pub x: i64,
    pub y: i64,
    pub w: u32,
    pub h: u32,
}

impl Camera {
    /// The camera centred on point `p`.
    pub open spec fn centered_on(self, p: Vec2) -> Camera {
        Camera {
            x: (p.x - self.w * SUBPIXELS / 2) as i64,
            y: (p.y - self.h * SUBPIXELS / 2) as i64,
            ..self
        }
    }

    /// The camera's corner is no further out than a centred camera's can be.
    pub open spec fn in_range(self) -> bool {
        -2 * COORD_LIMIT <= self.x <= 2 * COORD_LIMIT && -2 * COORD_LIMIT <= self.y <= 2
            * COORD_LIMIT
    }

    /// A viewport of `w` by `h` pixels at the origin.
    pub fn new(w: u32, h: u32) -> (r: Camera)
        ensures
            r.x == 0 && r.y == 0 && r.w == w && r.h == h,
            r.in_range(),
    {
        Camera { x: 0, y: 0, w, h }
    }

    /// Centres the viewport on the entity's position.
    pub fn update(&mut self, character: &Character)
        requires
            pos_in_range(character.pos),
        ensures
            *final(self) == old(self).centered_on(character.pos),
            final(self).x == character.pos.x - old(self).w * SUBPIXELS / 2,
            final(self).y == character.pos.y - old(self).h * SUBPIXELS / 2,
            final(self).in_range(),
    {
        self.x = character.pos.x - (self.w as i64) * SUBPIXELS / 2;
        self.y = character.pos.y - (self.h as i64) * SUBPIXELS / 2;
    }

    /// Where the world point `p` appears in the viewport, in sub-pixels.
    pub fn project(&self, p: Vec2) -> (r: Vec2)
        requires
            pos_in_range(p),
            self.in_range(),
        ensures
            r.x == p.x - self.x,
            r.y == p.y - self.y,
    {
        Vec2 { x: p.x - self.x, y: p.y - self.y }
    }
}

/// Centring the camera twice on one position gives what centring it once
/// gives.
pub proof fn lemma_camera_idempotent(c: Camera, p: Vec2)
    requires
        pos_in_range(p),
    ensures
        c.centered_on(p).centered_on(p) == c.centered_on(p),
{
}

} // verus!
