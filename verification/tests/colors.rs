use raydium::gfx::{pack_rgb, pack_rgba, unpack_rgb, unpack_rgba, wall_color, Rgb};
use raydium::grid::Grid;

#[test]
fn pack_channels_exactly() {
    assert_eq!(pack_rgba(1, 2, 3, 4), 0x01020304);
    assert_eq!(pack_rgb(255, 0, 0), 0xFF0000FF);
    assert_eq!(pack_rgba(0, 0, 0, 0), 0);
    assert_eq!(pack_rgb(0x12, 0x34, 0x56), 0x123456FF);
}

#[test]
fn unpack_channels_exactly() {
    assert_eq!(unpack_rgba(0x01020304), (1, 2, 3, 4));
    assert_eq!(unpack_rgb(0xFF8000FF), (255, 128, 0));
    assert_eq!(unpack_rgba(0xFFFFFFFF), (255, 255, 255, 255));
}

#[test]
fn pack_then_unpack_round_trips() {
    let cases = [(0u8, 0u8, 0u8, 0u8), (1, 2, 3, 4), (255, 254, 253, 252), (218, 112, 214, 255)];
    for (r, g, b, a) in cases {
        assert_eq!(unpack_rgba(pack_rgba(r, g, b, a)), (r, g, b, a));
    }
}

#[test]
fn palette_maps_known_values() {
    assert_eq!(wall_color(1, 0), Rgb { r: 255, g: 0, b: 0 });
    assert_eq!(wall_color(2, 0), Rgb { r: 0, g: 255, b: 0 });
    assert_eq!(wall_color(3, 0), Rgb { r: 0, g: 0, b: 255 });
    assert_eq!(wall_color(4, 0), Rgb { r: 218, g: 112, b: 214 });
    // unknown values fall back to white
    assert_eq!(wall_color(7, 0), Rgb { r: 255, g: 255, b: 255 });
    assert_eq!(wall_color(0, 0), Rgb { r: 255, g: 255, b: 255 });
}

#[test]
fn shading_halves_every_channel() {
    for v in 0u8..8 {
        let bright = wall_color(v, 0);
        let dark = wall_color(v, 1);
        assert_eq!(dark.r, bright.r / 2);
        assert_eq!(dark.g, bright.g / 2);
        assert_eq!(dark.b, bright.b / 2);
    }
    assert_eq!(wall_color(4, 1), Rgb { r: 109, g: 56, b: 107 });
}

#[test]
fn grid_color_lookup_uses_palette() {
    let cells = vec![
        1, 2, 3, //
        4, 0, 1, //
        2, 3, 4,
    ];
    let g = Grid::new(3, 3, cells).unwrap();
    assert_eq!(g.color_for(0, 0), Rgb { r: 255, g: 0, b: 0 });
    assert_eq!(g.color_for(0, 1), Rgb { r: 0, g: 255, b: 0 });
    assert_eq!(g.color_for(1, 0), Rgb { r: 218, g: 112, b: 214 });
    // empty and out-of-bounds cells read as the default color
    assert_eq!(g.color_for(1, 1), Rgb { r: 255, g: 255, b: 255 });
    assert_eq!(g.color_for(-3, 9), Rgb { r: 255, g: 255, b: 255 });
}
