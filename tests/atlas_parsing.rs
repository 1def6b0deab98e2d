use tileworld::atlas::{parse_tiles, Atlas, ParseError, Tile};

#[test]
fn tile_record_gives_one_tile() {
    let atlas = parse_tiles("floor_1 16 64 16 16", "generic").unwrap();
    assert_eq!(atlas.tiles.len(), 1);
    assert_eq!(atlas.anims.len(), 0);
    let t = atlas.tile(&"floor_1".to_string()).unwrap();
    assert_eq!(
        *t,
        Tile { x: 16, y: 64, w: 16, h: 16, texture: "generic".to_string() }
    );
}

#[test]
fn tile_record_reads_signs_and_extremes() {
    let atlas = parse_tiles("edge -2147483648 +7 4294967295 0", "t").unwrap();
    let t = atlas.tile(&"edge".to_string()).unwrap();
    assert_eq!(t.x, i32::MIN);
    assert_eq!(t.y, 7);
    assert_eq!(t.w, u32::MAX);
    assert_eq!(t.h, 0);
}

#[test]
fn animation_record_lays_frames_side_by_side() {
    let atlas = parse_tiles("elf_m_run_anim 192 36 16 28 4", "generic").unwrap();
    assert_eq!(atlas.tiles.len(), 0);
    let i = atlas.animation_index(&"elf_m_run_anim".to_string()).unwrap();
    let a = &atlas.anims[i].1;
    assert_eq!(a.w, 16);
    assert_eq!(a.h, 28);
    assert_eq!(a.tiles.len(), 4);
    for (k, f) in a.tiles.iter().enumerate() {
        assert_eq!(f.x, 192 + 16 * k as i32);
        assert_eq!(f.y, 36);
        assert_eq!(f.w, 16);
        assert_eq!(f.h, 28);
        assert_eq!(f.texture, "generic");
    }
}

#[test]
fn animation_with_no_frames() {
    let atlas = parse_tiles("empty 1 2 3 4 0", "g").unwrap();
    let i = atlas.animation_index(&"empty".to_string()).unwrap();
    assert_eq!(atlas.anims[i].1.tiles.len(), 0);
}

#[test]
fn other_arities_and_blank_lines_are_skipped() {
    let text = "\n# a comment line\nwall 0 0 16 16\n  \nname 1 2\ntoo many 1 2 3 4 5 6\nlast 1 1 1 1\n";
    let atlas = parse_tiles(text, "g").unwrap();
    assert_eq!(atlas.tiles.len(), 2);
    assert_eq!(atlas.tiles[0].0, "wall");
    assert_eq!(atlas.tiles[1].0, "last");
    assert!(atlas.tile(&"name".to_string()).is_none());
}

#[test]
fn fields_split_on_runs_of_spaces_and_tabs() {
    let atlas = parse_tiles("  door\t 3   4 5\t6  \r", "g").unwrap();
    let t = atlas.tile(&"door".to_string()).unwrap();
    assert_eq!((t.x, t.y, t.w, t.h), (3, 4, 5, 6));
}

#[test]
fn bad_number_is_an_error_with_its_line() {
    let r = parse_tiles("ok 1 2 3 4\nbad 1 x 3 4\n", "g");
    assert_eq!(r.unwrap_err(), ParseError { line: 2 });
}

#[test]
fn negative_size_is_an_error() {
    let r = parse_tiles("bad 1 2 -3 4", "g");
    assert_eq!(r.unwrap_err(), ParseError { line: 1 });
}

#[test]
fn out_of_range_number_is_an_error() {
    assert_eq!(parse_tiles("a 2147483648 0 1 1", "g").unwrap_err(), ParseError { line: 1 });
    assert_eq!(parse_tiles("a 0 0 4294967296 1", "g").unwrap_err(), ParseError { line: 1 });
    assert_eq!(parse_tiles("a + 0 1 1", "g").unwrap_err(), ParseError { line: 1 });
}

#[test]
fn frames_past_the_integer_range_are_an_error() {
    let r = parse_tiles("\n\nwide 2147483000 0 1000 1 2", "g");
    assert_eq!(r.unwrap_err(), ParseError { line: 3 });
    assert!(parse_tiles("wide 2147483000 0 1000 1 1", "g").is_ok());
}

#[test]
fn later_record_of_a_name_wins() {
    let atlas = parse_tiles("a 1 1 1 1\na 2 2 2 2", "g").unwrap();
    assert_eq!(atlas.tile(&"a".to_string()).unwrap().x, 2);
}

#[test]
fn extend_merges_with_the_second_catalog_winning() {
    let mut a = parse_tiles("shared 1 1 1 1\nonly_a 5 5 5 5\nrun 0 0 2 2 3", "first").unwrap();
    let b = parse_tiles("shared 9 9 9 9\nrun 10 0 4 4 2", "second").unwrap();
    a.extend(b);
    let s = a.tile(&"shared".to_string()).unwrap();
    assert_eq!((s.x, s.texture.as_str()), (9, "second"));
    assert_eq!(a.tile(&"only_a".to_string()).unwrap().texture, "first");
    let i = a.animation_index(&"run".to_string()).unwrap();
    assert_eq!(a.anims[i].1.tiles.len(), 2);
    assert_eq!(a.anims[i].1.tiles[1].x, 14);
}

#[test]
fn empty_catalog_has_nothing() {
    let a = Atlas::new();
    assert!(a.tile(&"x".to_string()).is_none());
    assert!(a.animation_index(&"x".to_string()).is_none());
    let parsed = parse_tiles("", "g").unwrap();
    assert_eq!(parsed.tiles.len() + parsed.anims.len(), 0);
}
