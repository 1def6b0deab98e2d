//! The compositor: the draw commands of a frame, map tiles first and then
//! every entity in painter's order (ascending anchor y, ties by position in
//! the roster), relative to the camera.

use vstd::prelude::*;
use itertools::Itertools;
use crate::atlas::{AtlasModel, TileModel};
use crate::entity::{Camera, Character, Dir};
use crate::geom::{trunc_div, Vec2, SUBPIXELS, TILE_PIXELS, TILE_SUBPIXELS};
use crate::world::{AssetError, MapForbidden, MapTile, World};

verus! {

/// A rectangle in pixels.
#[derive(Clone, Copy, Debug, PartialEq, Eq, Structural)]
pub struct Rect {
    pub x: i32,
    pub y: i32,
    pub w: u32,
    pub h: u32,
}

/// Copy rectangle `src` of image `texture` onto the screen at `dst`,
/// mirrored where `flip` is set.
#[derive(Clone, Debug, PartialEq, Eq)]
pub struct DrawCommand {
    pub texture: String,
    pub src: Rect,
    pub dst: Rect,
    pub flip: bool,
}

pub struct DrawModel {
    pub texture: Seq<char>,
    pub src: Rect,
    pub dst: Rect,
    pub flip: bool,
}

impl View for DrawCommand {
    type V = DrawModel;

    open spec fn view(&self) -> DrawModel {
        DrawModel { texture: self.texture@, src: self.src, dst: self.dst, flip: self.flip }
    }
}

/// The screen pixel of a sub-pixel offset from the camera: rounded toward
/// zero and held to the range of `i32`.
pub open spec fn screen(v: int) -> i32 {
    let p = trunc_div(v, SUBPIXELS as int);
    (if p < i32::MIN {
        i32::MIN as int
    } else if p > i32::MAX {
        i32::MAX as int
    } else {
        p
    }) as i32
}

/// The on-screen length in pixels of `n` tiles, held to the range of `u32`.
pub open spec fn span(n: nat) -> u32 {
    (if n * TILE_PIXELS > u32::MAX {
        u32::MAX as int
    } else {
        n * TILE_PIXELS
    }) as u32
}

/// The command that draws map tile `mt`, showing tile `t`.
pub open spec fn tile_command(mt: MapTile, t: TileModel, cam: Camera) -> DrawModel {
    DrawModel {
        texture: t.texture,
        src: Rect { x: t.x as i32, y: t.y as i32, w: t.w as u32, h: t.h as u32 },
        dst: Rect {
            x: screen(mt.x * TILE_SUBPIXELS - cam.x),
            y: screen(mt.y * TILE_SUBPIXELS - cam.y),
            w: span(t.w),
            h: span(t.h),
        },
        flip: false,
    }
}

/// The command that draws entity `c` at its current frame: its sprite's
/// top-left corner sits half its idle width left of, and its idle height
/// above, its position.
pub open spec fn entity_command(c: Character, atlas: AtlasModel, cam: Camera) -> DrawModel {
    let a = atlas.anims[c.anim_spec() as int].1;
    let f = a.frames[c.frame as int];
    DrawModel {
        texture: f.texture,
        src: Rect { x: f.x as i32, y: f.y as i32, w: a.w as u32, h: a.h as u32 },
        dst: Rect {
            x: screen(c.pos.x - c.w * TILE_SUBPIXELS / 2 - cam.x),
            y: screen(c.pos.y - c.h * TILE_SUBPIXELS - cam.y),
            w: span(a.w),
            h: span(a.h),
        },
        flip: c.dir == Dir::Left,
    }
}

/// `order` lists every entity once, by ascending anchor y, entities of equal
/// y by ascending position in the roster.
pub open spec fn is_draw_order(chars: Seq<Character>, order: Seq<usize>) -> bool {
    &&& order.len() == chars.len()
    &&& forall|a: int| 0 <= a < order.len() ==> (#[trigger] order[a]) < chars.len()
    &&& order.no_duplicates()
    &&& forall|a: int, b: int|
        0 <= a < b < order.len() ==> key_lt(
            (chars[order[a] as int].pos.y, order[a]),
            (chars[order[b] as int].pos.y, order[b]),
        )
}

/// The lexicographic order of the pairs.
pub open spec fn key_lt(p: (i64, usize), q: (i64, usize)) -> bool {
    p.0 < q.0 || (p.0 == q.0 && p.1 < q.1)
}

pub open spec fn key_le(p: (i64, usize), q: (i64, usize)) -> bool {
    p.0 < q.0 || (p.0 == q.0 && p.1 <= q.1)
}

/// A draw order lists every entity.
proof fn lemma_draw_order_covers(chars: Seq<Character>, order: Seq<usize>, k: int)
    requires
        is_draw_order(chars, order),
        0 <= k < chars.len(),
    ensures
        exists|a: int| 0 <= a < order.len() && order[a] == k,
{
    let ints = order.map_values(|u: usize| u as int);
    assert(ints.no_duplicates()) by {
        assert forall|a: int, b: int| 0 <= a < ints.len() && 0 <= b < ints.len() && a != b implies ints[a]
            != ints[b] by {
            assert(order[a] != order[b]);
        }
    }
    ints.unique_seq_to_set();
    let range = vstd::set_lib::set_int_range(0, chars.len() as int);
    vstd::set_lib::lemma_int_range(0, chars.len() as int);
    assert forall|i: int| ints.to_set().contains(i) implies range.contains(i) by {
        let a = choose|a: int| 0 <= a < ints.len() && ints[a] == i;
        assert(order[a] < chars.len());
    }
    vstd::set_lib::lemma_len_subset(ints.to_set(), range);
    vstd::set_lib::lemma_subset_equality(ints.to_set(), range);
    assert(range.contains(k));
    assert(ints.to_set().contains(k));
    let a = choose|a: int| 0 <= a < ints.len() && ints[a] == k;
    assert(order[a] == k);
}

proof fn lemma_draw_order_prefix(chars: Seq<Character>, o1: Seq<usize>, o2: Seq<usize>, a: int)
    requires
        is_draw_order(chars, o1),
        is_draw_order(chars, o2),
        0 <= a < o1.len(),
    ensures
        forall|b: int| 0 <= b <= a ==> o1[b] == o2[b],
    decreases a,
{
    if a > 0 {
        lemma_draw_order_prefix(chars, o1, o2, a - 1);
    }
    let x = o1[a];
    let y = o2[a];
    if x != y {
        lemma_draw_order_covers(chars, o1, y as int);
        lemma_draw_order_covers(chars, o2, x as int);
        let p = choose|p: int| 0 <= p < o1.len() && o1[p] == y;
        let q = choose|q: int| 0 <= q < o2.len() && o2[q] == x;
        if p < a {
            assert(o2[p] == y);
        }
        if q < a {
            assert(o1[q] == x);
        }
        assert(key_lt((chars[x as int].pos.y, x), (chars[y as int].pos.y, y)));
        assert(key_lt((chars[y as int].pos.y, y), (chars[x as int].pos.y, x)));
    }
}

/// There is exactly one draw order of a roster: ties in anchor y are broken
/// by roster position, so the order of drawing never depends on chance.
pub proof fn lemma_draw_order_unique(chars: Seq<Character>, o1: Seq<usize>, o2: Seq<usize>)
    requires
        is_draw_order(chars, o1),
        is_draw_order(chars, o2),
    ensures
        o1 == o2,
{
    if o1.len() > 0 {
        lemma_draw_order_prefix(chars, o1, o2, o1.len() - 1);
    }
    assert(o1 =~= o2);
}

/// Relies on itertools' `Itertools::sorted`, which collects the items into a
/// `Vec` and sorts it with `slice::sort`: the same items, in ascending order,
/// which for pairs is their lexicographic order.
#[verifier::external_body]
fn sort_keys(keys: Vec<(i64, usize)>) -> (r: Vec<(i64, usize)>)
    ensures
        r@.to_multiset() == keys@.to_multiset(),
        forall|a: int, b: int| 0 <= a < b < r@.len() ==> key_le(r@[a], r@[b]),
{
    keys.into_iter().sorted().collect()
}

/// The order in which the entities are drawn.
pub fn draw_order(chars: &Vec<Character>) -> (r: Vec<usize>)
    ensures
        is_draw_order(chars@, r@),
{
    broadcast use vstd::seq_lib::group_to_multiset_ensures;

    let mut keys: Vec<(i64, usize)> = Vec::new();
    let mut i: usize = 0;
    while i < chars.len()
        invariant
            i <= chars@.len(),
            keys@.len() == i,
            forall|k: int| 0 <= k < i ==> #[trigger] keys@[k] == (chars@[k].pos.y, k as usize),
        decreases chars@.len() - i,
    {
        keys.push((chars[i].pos.y, i));
        i = i + 1;
    }
    let ghost ks = keys@;
    assert(ks.no_duplicates());
    let sorted = sort_keys(keys);
    proof {
        ks.lemma_multiset_has_no_duplicates();
        assert forall|x: (i64, usize)| sorted@.to_multiset().contains(x) implies sorted@.to_multiset().count(x) == 1 by {}
        sorted@.lemma_multiset_has_no_duplicates_conv();
        assert forall|a: int| 0 <= a < sorted@.len() implies #[trigger] sorted@[a] == ks[sorted@[a].1 as int]
            && sorted@[a].1 < chars@.len() by {
            assert(sorted@.contains(sorted@[a]));
            assert(sorted@.to_multiset().count(sorted@[a]) > 0);
            assert(ks.contains(sorted@[a]));
        }
    }
    let mut order: Vec<usize> = Vec::new();
    let mut j: usize = 0;
    while j < sorted.len()
        invariant
            j <= sorted@.len(),
            order@.len() == j,
            forall|k: int| 0 <= k < j ==> #[trigger] order@[k] == sorted@[k].1,
        decreases sorted@.len() - j,
    {
        order.push(sorted[j].1);
        j = j + 1;
    }
    proof {
        assert(sorted@.len() == ks.len()) by {
            assert(sorted@.to_multiset().len() == ks.to_multiset().len());
        }
        assert forall|a: int, b: int| 0 <= a < order@.len() && 0 <= b < order@.len() && a != b implies order@[a] != order@[b] by {
            assert(sorted@[a] != sorted@[b]);
            assert(sorted@[a] == ks[sorted@[a].1 as int]);
            assert(sorted@[b] == ks[sorted@[b].1 as int]);
        }
        assert forall|a: int, b: int| 0 <= a < b < order@.len() implies key_lt(
            (chars@[order@[a] as int].pos.y, order@[a]),
            (chars@[order@[b] as int].pos.y, order@[b]),
        ) by {
            assert(sorted@[a] == ks[sorted@[a].1 as int]);
            assert(sorted@[b] == ks[sorted@[b].1 as int]);
            assert(key_le(sorted@[a], sorted@[b]));
            assert(order@[a] != order@[b]);
        }
    }
    order
}

/// The screen pixel of the sub-pixel offset `v`.
fn screen_px(v: i64) -> (r: i32)
    ensures
        r == screen(v as int),
{
    let p: i64 = if v >= 0 {
        v / SUBPIXELS
    } else {
        -((-(v as i128)) / (SUBPIXELS as i128)) as i64
    };
    if p < i32::MIN as i64 {
        i32::MIN
    } else if p > i32::MAX as i64 {
        i32::MAX
    } else {
        p as i32
    }
}

/// The on-screen length in pixels of `n` tiles.
fn span_px(n: u32) -> (r: u32)
    ensures
        r == span(n as nat),
{
    let p: u64 = (n as u64) * (TILE_PIXELS as u64);
    if p > u32::MAX as u64 {
        u32::MAX
    } else {
        p as u32
    }
}

/// The commands that draw the map's tiles, in map order, where each tile
/// name is in the catalog.
pub open spec fn tile_commands(w: World, cam: Camera) -> Seq<DrawModel> {
    Seq::new(
        w.map.tiles@.len(),
        |k: int|
            tile_command(w.map.tiles@[k], w.atlas@.tile_map()[w.map.tiles@[k].tile@], cam),
    )
}

/// The commands that draw the entities in the order `order`.
pub open spec fn entity_commands(w: World, order: Seq<usize>, cam: Camera) -> Seq<DrawModel> {
    order.map_values(|i: usize| entity_command(w.characters@[i as int], w.atlas@, cam))
}

/// The draw commands of one frame seen through `camera`: every map tile, in
/// map order, then every entity in painter's order. A map tile whose name is
/// not in the catalog is an error.
pub fn compose(world: &World, camera: &Camera) -> (r: Result<Vec<DrawCommand>, AssetError>)
    requires
        world.wf(),
        camera.in_range(),
    ensures
        r is Ok <==> forall|k: int|
            0 <= k < world.map.tiles@.len() ==> world.atlas@.tile_map().contains_key(
                (#[trigger] world.map.tiles@[k]).tile@,
            ),
        match r {
            Ok(cmds) => exists|order: Seq<usize>|
                is_draw_order(world.characters@, order) && cmds@.map_values(|c: DrawCommand| c@)
                    == tile_commands(*world, *camera) + entity_commands(*world, order, *camera),
            Err(e) => exists|k: int|
                0 <= k < world.map.tiles@.len() && (forall|j: int|
                    0 <= j < k ==> world.atlas@.tile_map().contains_key(
                        (#[trigger] world.map.tiles@[j]).tile@,
                    )) && e == AssetError::Unknown {
                    name: (#[trigger] world.map.tiles@[k]).tile,
                } && !world.atlas@.tile_map().contains_key(world.map.tiles@[k].tile@),
        },
{
    let mut cmds: Vec<DrawCommand> = Vec::new();
    let mut k: usize = 0;
    while k < world.map.tiles.len()
        invariant
            world.wf(),
            camera.in_range(),
            k <= world.map.tiles@.len(),
            cmds@.len() == k,
            forall|j: int|
                0 <= j < k ==> world.atlas@.tile_map().contains_key(
                    (#[trigger] world.map.tiles@[j]).tile@,
                ),
            forall|j: int|
                0 <= j < k ==> (#[trigger] cmds@[j])@ == tile_commands(*world, *camera)[j],
        decreases world.map.tiles@.len() - k,
    {
        let mt = &world.map.tiles[k];
        match world.atlas.tile(&mt.tile) {
            None => {
                return Err(AssetError::Unknown { name: mt.tile.clone() });
            },
            Some(t) => {
                let dx = (mt.x as i64) * TILE_SUBPIXELS - camera.x;
                let dy = (mt.y as i64) * TILE_SUBPIXELS - camera.y;
                cmds.push(
                    DrawCommand {
                        texture: t.texture.clone(),
                        src: Rect { x: t.x, y: t.y, w: t.w, h: t.h },
                        dst: Rect { x: screen_px(dx), y: screen_px(dy), w: span_px(t.w), h: span_px(t.h) },
                        flip: false,
                    },
                );
            },
        }
        k = k + 1;
    }
    let order = draw_order(&world.characters);
    let nt = cmds.len();
    let mut j: usize = 0;
    while j < order.len()
        invariant
            world.wf(),
            camera.in_range(),
            is_draw_order(world.characters@, order@),
            nt == world.map.tiles@.len(),
            j <= order@.len(),
            cmds@.len() == nt + j,
            forall|a: int| 0 <= a < nt ==> (#[trigger] cmds@[a])@ == tile_commands(*world, *camera)[a],
            forall|a: int|
                0 <= a < j ==> (#[trigger] cmds@[nt + a])@ == entity_commands(*world, order@, *camera)[a],
        decreases order@.len() - j,
    {
        let i = order[j];
        let c = &world.characters[i];
        assert(c.wf(world.atlas@));
        let a = &world.atlas.anims[c.anim()].1;
        let f = &a.tiles[c.frame];
        let tl = c.top_left();
        let dx = tl.x - camera.x;
        let dy = tl.y - camera.y;
        cmds.push(
            DrawCommand {
                texture: f.texture.clone(),
                src: Rect { x: f.x, y: f.y, w: a.w, h: a.h },
                dst: Rect { x: screen_px(dx), y: screen_px(dy), w: span_px(a.w), h: span_px(a.h) },
                flip: c.dir.flip(),
            },
        );
        j = j + 1;
    }
    proof {
        let lhs = cmds@.map_values(|c: DrawCommand| c@);
        let rhs = tile_commands(*world, *camera) + entity_commands(*world, order@, *camera);
        assert(lhs.len() == rhs.len());
        assert forall|a: int| 0 <= a < lhs.len() implies lhs[a] == rhs[a] by {
            if a < nt {
                assert(cmds@[a]@ == tile_commands(*world, *camera)[a]);
            } else {
                assert(cmds@[nt + (a - nt)]@ == entity_commands(*world, order@, *camera)[a - nt]);
            }
        }
        assert(lhs =~= rhs);
    }
    Ok(cmds)
}

/// The outline of zone `z` on screen.
pub open spec fn zone_outline(z: MapForbidden, cam: Camera) -> Rect {
    Rect {
        x: screen(z.x * TILE_SUBPIXELS - cam.x),
        y: screen(z.y * TILE_SUBPIXELS - cam.y),
        w: span(z.w as nat),
        h: span(z.h as nat),
    }
}

/// The two-pixel marker at point `p` on screen.
pub open spec fn position_marker(p: Vec2, cam: Camera) -> Rect {
    Rect { x: screen(p.x - cam.x), y: screen(p.y - cam.y), w: 2, h: 2 }
}

/// The debug overlay: the outline of every forbidden zone, in map order,
/// then a marker at every entity's position, in roster order.
pub fn debug_overlay(world: &World, camera: &Camera) -> (r: Vec<Rect>)
    requires
        world.wf(),
        camera.in_range(),
    ensures
        r@ == world.map.forbidden@.map_values(|z: MapForbidden| zone_outline(z, *camera))
            + world.characters@.map_values(|c: Character| position_marker(c.pos, *camera)),
{
    let mut r: Vec<Rect> = Vec::new();
    let mut k: usize = 0;
    while k < world.map.forbidden.len()
        invariant
            camera.in_range(),
            k <= world.map.forbidden@.len(),
            r@ == world.map.forbidden@.subrange(0, k as int).map_values(
                |z: MapForbidden| zone_outline(z, *camera),
            ),
        decreases world.map.forbidden@.len() - k,
    {
        let z = world.map.forbidden[k];
        let dx = (z.x as i64) * TILE_SUBPIXELS - camera.x;
        let dy = (z.y as i64) * TILE_SUBPIXELS - camera.y;
        r.push(Rect { x: screen_px(dx), y: screen_px(dy), w: span_px(z.w), h: span_px(z.h) });
        assert(world.map.forbidden@.subrange(0, k + 1 as int) =~= world.map.forbidden@.subrange(0, k as int).push(z));
        k = k + 1;
    }
    assert(world.map.forbidden@.subrange(0, k as int) =~= world.map.forbidden@);
    let ghost zs = r@;
    let mut i: usize = 0;
    while i < world.characters.len()
        invariant
            world.wf(),
            camera.in_range(),
            i <= world.characters@.len(),
            r@ == zs + world.characters@.subrange(0, i as int).map_values(
                |c: Character| position_marker(c.pos, *camera),
            ),
        decreases world.characters@.len() - i,
    {
        let c = world.characters[i];
        assert(c.wf(world.atlas@));
        let dx = c.pos.x - camera.x;
        let dy = c.pos.y - camera.y;
        r.push(Rect { x: screen_px(dx), y: screen_px(dy), w: 2, h: 2 });
        assert(world.characters@.subrange(0, i + 1 as int) =~= world.characters@.subrange(0, i as int).push(c));
        i = i + 1;
    }
    assert(world.characters@.subrange(0, i as int) =~= world.characters@);
    r
}

} // verus!
