//! The atlas catalog: named static tiles and named animations, each a
//! rectangle (or row of rectangles) within a shared source image, read from
//! a line-oriented description.
//!
//! A tile record is `name x y w h`; an animation record is
//! `name x y frameWidth frameHeight frameCount`, whose frames are
//! `frameCount` rectangles of `frameWidth` laid side by side from `(x, y)`.
//! Lines with another number of fields are skipped.

use vstd::prelude::*;
use vstd::string::StrSliceExecFns;
use crate::text::{
    bounded_in, chars_of, field_spans, fields, find_line_end, i32_field, line_end, u32_field,
};

verus! {

broadcast use vstd::string::group_string_axioms;

/// A rectangle of a source image.
#[derive(Clone, Debug, PartialEq, Eq)]
pub struct Tile {
    pub x: i32,
    pub y: i32,
    pub w: u32,
    pub h: u32,
    /// The tag of the source image.
    pub texture: String,
}

/// A sequence of same-sized frames, played in order.
#[derive(Clone, Debug, PartialEq, Eq)]
pub struct Animation {
    pub w: u32,
    pub h: u32,
    pub tiles: Vec<Tile>,
}

pub struct TileModel {
    pub x: int,
    pub y: int,
    pub w: nat,
    pub h: nat,
    pub texture: Seq<char>,
}

pub struct AnimModel {
    pub w: nat,
    pub h: nat,
    pub frames: Seq<TileModel>,
}

impl View for Tile {
    type V = TileModel;

    open spec fn view(&self) -> TileModel {
        TileModel {
            x: self.x as int,
            y: self.y as int,
            w: self.w as nat,
            h: self.h as nat,
            texture: self.texture@,
        }
    }
}

impl View for Animation {
    type V = AnimModel;

    open spec fn view(&self) -> AnimModel {
        AnimModel { w: self.w as nat, h: self.h as nat, frames: self.tiles@.map_values(|t: Tile| t@) }
    }
}

/// The records of a catalog, in the order they were read. Where two share a
/// name, the later one is the one looked up.
pub struct AtlasModel {
    pub tiles: Seq<(Seq<char>, TileModel)>,
    pub anims: Seq<(Seq<char>, AnimModel)>,
}

/// A catalog of tiles and animations.
#[derive(Clone, Debug)]
pub struct Atlas {
    pub tiles: Vec<(String, Tile)>,
    pub anims: Vec<(String, Animation)>,
}

impl View for Atlas {
    type V = AtlasModel;

    open spec fn view(&self) -> AtlasModel {
        AtlasModel {
            tiles: self.tiles@.map_values(|e: (String, Tile)| (e.0@, e.1@)),
            anims: self.anims@.map_values(|e: (String, Animation)| (e.0@, e.1@)),
        }
    }
}

/// A malformed tile or animation record, on the given line (counted from 1).
#[derive(Clone, Copy, Debug, PartialEq, Eq, Structural)]
pub struct ParseError {
    pub line: usize,
}

/// What one line of a description holds.
pub enum LineModel {
    Skip,
    Bad,
    TileLine(Seq<char>, TileModel),
    AnimLine(Seq<char>, AnimModel),
}

/// The frames of an animation record: `count` rectangles of width `w`, the
/// `i`-th at x-offset `x + i * w`, all at `y`.
pub open spec fn animation_frames(x: int, y: int, w: nat, h: nat, count: nat, texture: Seq<char>) -> Seq<TileModel> {
    Seq::new(count, |i: int| TileModel { x: x + w * i, y, w, h, texture })
}

/// Every frame's x-offset is a 32-bit signed integer.
pub open spec fn frames_fit(x: int, w: int, count: int) -> bool {
    count == 0 || x + w * (count - 1) <= i32::MAX
}

/// The record that a line with fields `f` holds.
pub open spec fn line_model(f: Seq<Seq<char>>, texture: Seq<char>) -> LineModel {
    if f.len() == 5 {
        match (i32_field(f[1]), i32_field(f[2]), u32_field(f[3]), u32_field(f[4])) {
            (Some(x), Some(y), Some(w), Some(h)) => LineModel::TileLine(
                f[0],
                TileModel { x, y, w: w as nat, h: h as nat, texture },
            ),
            _ => LineModel::Bad,
        }
    } else if f.len() == 6 {
        match (i32_field(f[1]), i32_field(f[2]), u32_field(f[3]), u32_field(f[4]), u32_field(f[5])) {
            (Some(x), Some(y), Some(w), Some(h), Some(n)) => if frames_fit(x, w, n) {
                LineModel::AnimLine(
                    f[0],
                    AnimModel {
                        w: w as nat,
                        h: h as nat,
                        frames: animation_frames(x, y, w as nat, h as nat, n as nat, texture),
                    },
                )
            } else {
                LineModel::Bad
            },
            _ => LineModel::Bad,
        }
    } else {
        LineModel::Skip
    }
}

pub open spec fn empty_atlas() -> AtlasModel {
    AtlasModel { tiles: Seq::empty(), anims: Seq::empty() }
}

/// `rest` with the record of one line put in front.
pub open spec fn prepend_line(l: LineModel, rest: AtlasModel) -> AtlasModel {
    match l {
        LineModel::TileLine(n, t) => AtlasModel { tiles: seq![(n, t)] + rest.tiles, anims: rest.anims },
        LineModel::AnimLine(n, a) => AtlasModel { tiles: rest.tiles, anims: seq![(n, a)] + rest.anims },
        _ => rest,
    }
}

/// The catalog that the text `t` describes, with tiles on image `texture`,
/// where its first line is line `line`; or the number of its first
/// malformed record.
pub open spec fn atlas_from(t: Seq<char>, line: nat, texture: Seq<char>) -> Result<AtlasModel, nat>
    decreases t.len(),
{
    let e = line_end(t, 0);
    let l = line_model(fields(t.subrange(0, e)), texture);
    if l is Bad {
        Err(line)
    } else if 0 <= e < t.len() {
        match atlas_from(t.subrange(e + 1, t.len() as int), line + 1, texture) {
            Ok(rest) => Ok(prepend_line(l, rest)),
            Err(n) => Err(n),
        }
    } else {
        Ok(prepend_line(l, empty_atlas()))
    }
}

/// The catalog that `text` describes, with tiles on image `texture`.
pub open spec fn atlas_of(text: Seq<char>, texture: Seq<char>) -> Result<AtlasModel, nat> {
    atlas_from(text, 1, texture)
}

/// What one line of a description holds.
pub enum Line {
    Skip,
    Bad,
    TileLine(String, Tile),
    AnimLine(String, Animation),
}

impl View for Line {
    type V = LineModel;

    open spec fn view(&self) -> LineModel {
        match self {
            Line::Skip => LineModel::Skip,
            Line::Bad => LineModel::Bad,
            Line::TileLine(n, t) => LineModel::TileLine(n@, t@),
            Line::AnimLine(n, a) => LineModel::AnimLine(n@, a@),
        }
    }
}

/// The `count` frames of an animation record, side by side from `(x, y)`.
fn build_frames(x: i32, y: i32, w: u32, h: u32, count: u32, texture: &str) -> (r: Vec<Tile>)
    requires
        frames_fit(x as int, w as int, count as int),
    ensures
        r@.map_values(|t: Tile| t@) == animation_frames(
            x as int,
            y as int,
            w as nat,
            h as nat,
            count as nat,
            texture@,
        ),
{
    let mut frames: Vec<Tile> = Vec::new();
    let mut i: u32 = 0;
    while i < count
        invariant
            i <= count,
            frames_fit(x as int, w as int, count as int),
            frames@.len() == i,
            forall|k: int|
                0 <= k < i ==> (#[trigger] frames@[k])@ == (TileModel {
                    x: x + w * k,
                    y: y as int,
                    w: w as nat,
                    h: h as nat,
                    texture: texture@,
                }),
        decreases count - i,
    {
        proof {
            vstd::arithmetic::mul::lemma_mul_inequality(i as int, count - 1, w as int);
            assert(0 <= (w as int) * (i as int)) by (nonlinear_arith)
                requires
                    w >= 0,
                    i >= 0,
            ;
        }
        let off: i64 = (w as i64) * (i as i64);
        let fx: i32 = (x as i64 + off) as i32;
        frames.push(Tile { x: fx, y, w, h, texture: texture.to_owned() });
        i = i + 1;
    }
    proof {
        assert(frames@.map_values(|t: Tile| t@) =~= animation_frames(
            x as int,
            y as int,
            w as nat,
            h as nat,
            count as nat,
            texture@,
        ));
    }
    frames
}

/// The record that the line `cs[a..b]` of `text` holds.
pub fn parse_line(text: &str, cs: &Vec<char>, a: usize, b: usize, texture: &str) -> (r: Line)
    requires
        cs@ == text@,
        a <= b <= cs@.len(),
    ensures
        r@ == line_model(fields(cs@.subrange(a as int, b as int)), texture@),
        r@ is Bad ==> a < b,
{
    let ghost f = fields(cs@.subrange(a as int, b as int));
    let spans = field_spans(cs, a, b);
    assert(a == b ==> f.len() == 0);
    if spans.len() != 5 && spans.len() != 6 {
        return Line::Skip;
    }
    let x = bounded_in(cs, spans[1].0, spans[1].1, true, i32::MIN as i64, i32::MAX as i64);
    let y = bounded_in(cs, spans[2].0, spans[2].1, true, i32::MIN as i64, i32::MAX as i64);
    let w = bounded_in(cs, spans[3].0, spans[3].1, false, 0, u32::MAX as i64);
    let h = bounded_in(cs, spans[4].0, spans[4].1, false, 0, u32::MAX as i64);
    let name = text.substring_char(spans[0].0, spans[0].1).to_owned();
    match (x, y, w, h) {
        (Some(x), Some(y), Some(w), Some(h)) => {
            if spans.len() == 5 {
                Line::TileLine(
                    name,
                    Tile { x: x as i32, y: y as i32, w: w as u32, h: h as u32, texture: texture.to_owned() },
                )
            } else {
                            let n = bounded_in(cs, spans[5].0, spans[5].1, false, 0, u32::MAX as i64);
                match n {
                    Some(n) => {
                        if n > 0 {
                            let wi: i128 = w as i128;
                            let ni: i128 = (n - 1) as i128;
                            assert(wi * ni <= 0x1_0000_0000_0000_0000i128) by (nonlinear_arith)
                                requires
                                    0 <= wi <= 0xFFFF_FFFF,
                                    0 <= ni <= 0xFFFF_FFFF,
                            ;
                            if (x as i128) + wi * ni > i32::MAX as i128 {
                                return Line::Bad;
                            }
                        }
                        let frames = build_frames(x as i32, y as i32, w as u32, h as u32, n as u32, texture);
                        let anim = Animation { w: w as u32, h: h as u32, tiles: frames };
                        Line::AnimLine(name, anim)
                    },
                    None => Line::Bad,
                }
            }
        },
        _ => Line::Bad,
    }
}

/// Reads a catalog from `text`, every tile on the image tagged `texture`.
/// Lines that do not have five or six fields are skipped; a line that has
/// them but does not hold a tile or animation record is an error.
pub fn parse_tiles(text: &str, texture: &str) -> (r: Result<Atlas, ParseError>)
    ensures
        match atlas_of(text@, texture@) {
            Ok(m) => r matches Ok(a) && a@ == m,
            Err(n) => r == Err::<Atlas, ParseError>(ParseError { line: n as usize }),
        },
{
    let cs = chars_of(text);
    let mut atlas = Atlas { tiles: Vec::new(), anims: Vec::new() };
    let mut pos: usize = 0;
    let mut line_idx: usize = 0;
    proof {
        assert(cs@.subrange(0, cs@.len() as int) =~= cs@);
        match atlas_from(cs@, 1, texture@) {
            Ok(rest) => {
                assert(atlas@.tiles + rest.tiles =~= rest.tiles);
                assert(atlas@.anims + rest.anims =~= rest.anims);
            },
            Err(_) => {},
        }
    }
    loop
        invariant
            cs@ == text@,
            pos <= cs@.len(),
            line_idx <= pos,
            atlas_of(text@, texture@) == match atlas_from(
                cs@.subrange(pos as int, cs@.len() as int),
                (line_idx + 1) as nat,
                texture@,
            ) {
                Ok(rest) => Ok(
                    AtlasModel { tiles: atlas@.tiles + rest.tiles, anims: atlas@.anims + rest.anims },
                ),
                Err(n) => Err(n),
            },
        decreases cs@.len() - pos,
    {
        let ghost t = cs@.subrange(pos as int, cs@.len() as int);
        let e = find_line_end(&cs, pos);
        assert(t.subrange(0, e - pos) =~= cs@.subrange(pos as int, e as int));
        let line = parse_line(text, &cs, pos, e, texture);
        let ghost rest_atlas = atlas@;
        match line {
            Line::Bad => {
                return Err(ParseError { line: line_idx + 1 });
            },
            Line::Skip => {},
            Line::TileLine(n, tile) => {
                atlas.tiles.push((n, tile));
            },
            Line::AnimLine(n, anim) => {
                atlas.anims.push((n, anim));
            },
        }
        proof {
            assert(atlas@.tiles =~= rest_atlas.tiles + prepend_line(line@, empty_atlas()).tiles);
            assert(atlas@.anims =~= rest_atlas.anims + prepend_line(line@, empty_atlas()).anims);
        }
        if e == cs.len() {
            proof {
                assert(atlas@.tiles + empty_atlas().tiles =~= atlas@.tiles);
                assert(atlas@.anims + empty_atlas().anims =~= atlas@.anims);
            }
            return Ok(atlas);
        }
        proof {
            let t2 = cs@.subrange(e + 1, cs@.len() as int);
            assert(t.subrange(e - pos + 1, t.len() as int) =~= t2);
            match atlas_from(t2, (line_idx + 2) as nat, texture@) {
                Ok(rest) => {
                    let p = prepend_line(line@, rest);
                    assert(atlas@.tiles + rest.tiles =~= rest_atlas.tiles + p.tiles);
                    assert(atlas@.anims + rest.anims =~= rest_atlas.anims + p.anims);
                },
                Err(_) => {},
            }
        }
        pos = e + 1;
        line_idx = line_idx + 1;
    }
}

/// The mapping from names to values that a sequence of named records
/// gives, each record overriding the earlier ones of its name.
pub open spec fn named_map<V>(s: Seq<(Seq<char>, V)>) -> Map<Seq<char>, V>
    decreases s.len(),
{
    if s.len() == 0 {
        Map::empty()
    } else {
        named_map(s.drop_last()).insert(s.last().0, s.last().1)
    }
}

/// Index `i` holds the last record named `k`.
pub open spec fn last_named<V>(s: Seq<(Seq<char>, V)>, k: Seq<char>, i: int) -> bool {
    0 <= i < s.len() && s[i].0 == k && forall|j: int| i < j < s.len() ==> s[j].0 != k
}

impl AtlasModel {
    pub open spec fn tile_map(self) -> Map<Seq<char>, TileModel> {
        named_map(self.tiles)
    }

    pub open spec fn anim_map(self) -> Map<Seq<char>, AnimModel> {
        named_map(self.anims)
    }
}

/// The last record of a name is the one its name maps to.
pub proof fn lemma_named_map_last<V>(s: Seq<(Seq<char>, V)>, k: Seq<char>, i: int)
    requires
        last_named(s, k, i),
    ensures
        named_map(s).contains_key(k),
        named_map(s)[k] == s[i].1,
    decreases s.len(),
{
    if i < s.len() - 1 {
        let p = s.drop_last();
        assert(last_named(p, k, i));
        lemma_named_map_last(p, k, i);
    }
}

/// A name that no record has maps to nothing.
pub proof fn lemma_named_map_absent<V>(s: Seq<(Seq<char>, V)>, k: Seq<char>)
    requires
        forall|j: int| 0 <= j < s.len() ==> s[j].0 != k,
    ensures
        !named_map(s).contains_key(k),
    decreases s.len(),
{
    if s.len() > 0 {
        let p = s.drop_last();
        assert forall|j: int| 0 <= j < p.len() implies p[j].0 != k by {
            assert(p[j] == s[j]);
        }
        lemma_named_map_absent(p, k);
    }
}

/// Merging two catalogs: a name maps to the second catalog's record where it
/// has one, and to the first's otherwise.
pub proof fn lemma_named_map_append<V>(a: Seq<(Seq<char>, V)>, b: Seq<(Seq<char>, V)>)
    ensures
        named_map(a + b) == named_map(a).union_prefer_right(named_map(b)),
    decreases b.len(),
{
    if b.len() == 0 {
        assert(a + b =~= a);
        assert(named_map(a).union_prefer_right(named_map(b)) =~= named_map(a));
    } else {
        lemma_named_map_append(a, b.drop_last());
        assert((a + b).drop_last() =~= a + b.drop_last());
        assert(named_map(a + b) =~= named_map(a).union_prefer_right(named_map(b)));
    }
}

/// The index of the last record in `s` named `name`.
fn find_last<V>(s: &Vec<(String, V)>, name: &String) -> (r: Option<usize>)
    ensures
        match r {
            Some(i) => i < s@.len() && s@[i as int].0@ == name@ && forall|j: int|
                i < j < s@.len() ==> (#[trigger] s@[j]).0@ != name@,
            None => forall|j: int| 0 <= j < s@.len() ==> (#[trigger] s@[j]).0@ != name@,
        },
{
    let mut i = s.len();
    while i > 0
        invariant
            i <= s@.len(),
            forall|j: int| i <= j < s@.len() ==> (#[trigger] s@[j]).0@ != name@,
        decreases i,
    {
        i = i - 1;
        if s[i].0 == *name {
            return Some(i);
        }
    }
    None
}

impl Atlas {
    /// The empty catalog.
    pub fn new() -> (r: Atlas)
        ensures
            r@ == empty_atlas(),
    {
        let r = Atlas { tiles: Vec::new(), anims: Vec::new() };
        assert(r@.tiles =~= Seq::empty() && r@.anims =~= Seq::empty());
        r
    }

    /// The tile that `name` refers to.
    pub fn tile(&self, name: &String) -> (r: Option<&Tile>)
        ensures
            r is Some <==> self@.tile_map().contains_key(name@),
            r matches Some(t) ==> t@ == self@.tile_map()[name@],
    {
        match find_last(&self.tiles, name) {
            Some(i) => {
                proof {
                    assert forall|j: int| i < j < self@.tiles.len() implies self@.tiles[j].0 != name@ by {
                        assert(self@.tiles[j].0 == self.tiles@[j].0@);
                    }
                    assert(last_named(self@.tiles, name@, i as int));
                    lemma_named_map_last(self@.tiles, name@, i as int);
                }
                Some(&self.tiles[i].1)
            },
            None => {
                proof {
                    assert forall|j: int| 0 <= j < self@.tiles.len() implies self@.tiles[j].0 != name@ by {
                        assert(self@.tiles[j].0 == self.tiles@[j].0@);
                    }
                    lemma_named_map_absent(self@.tiles, name@);
                }
                None
            },
        }
    }

    /// The position of the animation that `name` refers to, which stays
    /// valid as long as the catalog is only extended.
    pub fn animation_index(&self, name: &String) -> (r: Option<usize>)
        ensures
            r is Some <==> self@.anim_map().contains_key(name@),
            r matches Some(i) ==> last_named(self@.anims, name@, i as int) && self@.anims[i as int].1
                == self@.anim_map()[name@],
    {
        match find_last(&self.anims, name) {
            Some(i) => {
                proof {
                    assert forall|j: int| i < j < self@.anims.len() implies self@.anims[j].0 != name@ by {
                        assert(self@.anims[j].0 == self.anims@[j].0@);
                    }
                    assert(last_named(self@.anims, name@, i as int));
                    lemma_named_map_last(self@.anims, name@, i as int);
                }
                Some(i)
            },
            None => {
                proof {
                    assert forall|j: int| 0 <= j < self@.anims.len() implies self@.anims[j].0 != name@ by {
                        assert(self@.anims[j].0 == self.anims@[j].0@);
                    }
                    lemma_named_map_absent(self@.anims, name@);
                }
                None
            },
        }
    }

    /// Adds the records of `other` after this catalog's own, so that its
    /// names override this catalog's.
    pub fn extend(&mut self, other: Atlas)
        ensures
            final(self)@.tiles == old(self)@.tiles + other@.tiles,
            final(self)@.anims == old(self)@.anims + other@.anims,
            final(self)@.tile_map() == old(self)@.tile_map().union_prefer_right(other@.tile_map()),
            final(self)@.anim_map() == old(self)@.anim_map().union_prefer_right(other@.anim_map()),
    {
        let mut other = other;
        let ghost o = other@;
        self.tiles.append(&mut other.tiles);
        self.anims.append(&mut other.anims);
        proof {
            assert(self@.tiles =~= old(self)@.tiles + o.tiles);
            assert(self@.anims =~= old(self)@.anims + o.anims);
            lemma_named_map_append(old(self)@.tiles, o.tiles);
            lemma_named_map_append(old(self)@.anims, o.anims);
        }
    }
}

proof fn lemma_line_end_unbroken(t: Seq<char>, i: int)
    requires
        0 <= i <= t.len(),
        forall|k: int| i <= k < t.len() ==> t[k] != '\n',
    ensures
        line_end(t, i) == t.len(),
    decreases t.len() - i,
{
    if i < t.len() {
        lemma_line_end_unbroken(t, i + 1);
    }
}

/// A text of one line without a line break is read as that line alone.
proof fn lemma_single_line(line: Seq<char>, texture: Seq<char>)
    requires
        forall|k: int| 0 <= k < line.len() ==> line[k] != '\n',
        !(line_model(fields(line), texture) is Bad),
    ensures
        atlas_of(line, texture) == Ok::<AtlasModel, nat>(
            prepend_line(line_model(fields(line), texture), empty_atlas()),
        ),
{
    lemma_line_end_unbroken(line, 0);
    assert(line.subrange(0, line.len() as int) =~= line);
}

/// A line of five fields whose last four are 32-bit integers (the first two
/// signed, the others unsigned) gives exactly one tile, under the first
/// field, with the numbers read exactly.
pub proof fn lemma_tile_record(line: Seq<char>, texture: Seq<char>)
    requires
        forall|k: int| 0 <= k < line.len() ==> line[k] != '\n',
        fields(line).len() == 5,
        i32_field(fields(line)[1]) is Some,
        i32_field(fields(line)[2]) is Some,
        u32_field(fields(line)[3]) is Some,
        u32_field(fields(line)[4]) is Some,
    ensures
        ({
            let f = fields(line);
            atlas_of(line, texture) matches Ok(m) && m.anims.len() == 0 && m.tiles.len() == 1
                && m.tile_map() == map![f[0] => TileModel {
                    x: i32_field(f[1])->0,
                    y: i32_field(f[2])->0,
                    w: u32_field(f[3])->0 as nat,
                    h: u32_field(f[4])->0 as nat,
                    texture,
                }]
        }),
{
    lemma_single_line(line, texture);
    let m = prepend_line(line_model(fields(line), texture), empty_atlas());
    assert(m.tiles =~= seq![m.tiles[0]]);
    assert(m.tiles.drop_last() =~= Seq::<(Seq<char>, TileModel)>::empty());
    assert(named_map(m.tiles.drop_last()) == Map::<Seq<char>, TileModel>::empty());
    assert(m.tiles.last() == m.tiles[0]);
    assert(m.tile_map() =~= map![m.tiles[0].0 => m.tiles[0].1]);
}

/// A line of six fields whose last five are 32-bit integers (the first two
/// signed, the others unsigned), and whose frames all have 32-bit x-offsets,
/// gives exactly one animation of `frameCount` frames, the `i`-th at
/// x-offset `x + i * frameWidth`, all sharing `y` and the frame size.
pub proof fn lemma_animation_record(line: Seq<char>, texture: Seq<char>)
    requires
        forall|k: int| 0 <= k < line.len() ==> line[k] != '\n',
        fields(line).len() == 6,
        i32_field(fields(line)[1]) is Some,
        i32_field(fields(line)[2]) is Some,
        u32_field(fields(line)[3]) is Some,
        u32_field(fields(line)[4]) is Some,
        u32_field(fields(line)[5]) is Some,
        frames_fit(
            i32_field(fields(line)[1])->0,
            u32_field(fields(line)[3])->0,
            u32_field(fields(line)[5])->0,
        ),
    ensures
        ({
            let f = fields(line);
            let x = i32_field(f[1])->0;
            let y = i32_field(f[2])->0;
            let w = u32_field(f[3])->0;
            let h = u32_field(f[4])->0;
            let n = u32_field(f[5])->0;
            atlas_of(line, texture) matches Ok(m) && m.tiles.len() == 0 && m.anims.len() == 1
                && m.anim_map().dom() == set![f[0]] && m.anim_map()[f[0]].w == w
                && m.anim_map()[f[0]].h == h && m.anim_map()[f[0]].frames.len() == n && forall|
                i: int,
            |
                0 <= i < n ==> (#[trigger] m.anim_map()[f[0]].frames[i]).x == x + i * w
                    && m.anim_map()[f[0]].frames[i].y == y && m.anim_map()[f[0]].frames[i].w
                    == w && m.anim_map()[f[0]].frames[i].h == h
        }),
{
    lemma_single_line(line, texture);
    let m = prepend_line(line_model(fields(line), texture), empty_atlas());
    assert(m.anims =~= seq![m.anims[0]]);
    assert(m.anims.drop_last() =~= Seq::<(Seq<char>, AnimModel)>::empty());
    assert(named_map(m.anims.drop_last()) == Map::<Seq<char>, AnimModel>::empty());
    assert(m.anims.last() == m.anims[0]);
    assert(m.anim_map() =~= map![m.anims[0].0 => m.anims[0].1]);
    assert(m.anim_map().dom() =~= set![fields(line)[0]]);
    let x = i32_field(fields(line)[1])->0;
    let w = u32_field(fields(line)[3])->0;
    assert forall|i: int| 0 <= i < m.anims[0].1.frames.len() implies (#[trigger] m.anims[0].1.frames[i]).x
        == x + i * w by {
        assert(w * i == i * w) by (nonlinear_arith);
    }
}

} // verus!
