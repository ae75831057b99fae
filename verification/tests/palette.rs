//! The 256-color palette and its fixed points.

use explotty::color::{
    black, blue, cyan, gray, green, magenta, process_256_color_palette, red, rgb, to_bright,
    to_faint, transparent, white, yellow,
};

#[test]
fn palette_standard_and_bright_colors() {
    assert_eq!(process_256_color_palette(0), black());
    assert_eq!(process_256_color_palette(1), red());
    assert_eq!(process_256_color_palette(2), green());
    assert_eq!(process_256_color_palette(3), yellow());
    assert_eq!(process_256_color_palette(4), blue());
    assert_eq!(process_256_color_palette(5), magenta());
    assert_eq!(process_256_color_palette(6), cyan());
    assert_eq!(process_256_color_palette(7), white());
    assert_eq!(process_256_color_palette(8), to_bright(black()));
    assert_eq!(process_256_color_palette(9), to_bright(red()));
    assert_eq!(process_256_color_palette(10), to_bright(green()));
    assert_eq!(process_256_color_palette(11), to_bright(yellow()));
    assert_eq!(process_256_color_palette(12), to_bright(blue()));
    assert_eq!(process_256_color_palette(13), to_bright(magenta()));
    assert_eq!(process_256_color_palette(14), to_bright(cyan()));
    assert_eq!(process_256_color_palette(15), to_bright(white()));
}

#[test]
fn palette_cube_and_gray_fixed_points() {
    assert_eq!(process_256_color_palette(16), rgb(0, 0, 0));
    assert_eq!(process_256_color_palette(231), rgb(255, 255, 255));
    assert_eq!(process_256_color_palette(232), gray(8));
    assert_eq!(process_256_color_palette(255), gray(238));
}

#[test]
fn palette_cube_levels() {
    // 16 + 36*1 + 6*2 + 3: the cube entry at levels (1, 2, 3).
    assert_eq!(process_256_color_palette(16 + 36 + 12 + 3), rgb(95, 135, 175));
    assert_eq!(process_256_color_palette(196), rgb(255, 0, 0));
}

#[test]
fn bright_saturates_and_faint_darkens() {
    assert_eq!(to_bright(rgb(0, 100, 255)), rgb(0, 120, 255));
    assert_eq!(to_faint(rgb(255, 100, 0)), rgb(204, 80, 0));
    assert_eq!(transparent().a, 0);
    assert_eq!(white().a, 255);
}
