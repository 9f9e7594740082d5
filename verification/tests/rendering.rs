use tile_fetch::address::TileAddress;
use tile_fetch::render::{
    bounding_box, bounds_text, failure_line, insert_bounds, insert_size, needs_bounds,
    render_url, tile_directory, tile_path, TileRequest,
};
use tile_fetch::text::{contains, decimal_string, replace};

fn tile(zoom: u32, x: u32, y: u32) -> TileAddress {
    TileAddress { zoom, x, y }
}

#[test]
fn decimal_of_small_and_large_numbers() {
    assert_eq!(decimal_string(0), "0");
    assert_eq!(decimal_string(7), "7");
    assert_eq!(decimal_string(10), "10");
    assert_eq!(decimal_string(1905), "1905");
    assert_eq!(decimal_string(4_294_967_295), "4294967295");
}

#[test]
fn replace_takes_matches_from_the_left() {
    assert_eq!(replace("aaa", "aa", "b"), "ba");
    assert_eq!(replace("abcabc", "bc", ""), "aa");
    assert_eq!(replace("abc", "abcd", "x"), "abc");
    assert_eq!(replace("", "a", "x"), "");
    assert_eq!(replace("{x}{x}", "{x}", "12"), "1212");
    assert_eq!(replace("é{x}ü", "{x}", "ß"), "éßü");
    assert_eq!(replace("abc", "", "x"), "abc");
}

#[test]
fn contains_finds_a_token_anywhere() {
    assert!(contains("a{bounds}", "{bounds}"));
    assert!(contains("{bounds}", "{bounds}"));
    assert!(!contains("{bound}s", "{bounds}"));
    assert!(!contains("", "{bounds}"));
    assert!(contains("abc", ""));
}

#[test]
fn url_has_coordinates_filled_in() {
    assert_eq!(render_url("http://maps/{z}/{x}/{y}.png", tile(3, 5, 2)), "http://maps/3/5/2.png");
    assert_eq!(render_url("{x}{y}{z}{x}", tile(12, 3000, 41)), "300041123000");
}

#[test]
fn url_tokens_are_case_sensitive() {
    assert_eq!(render_url("http://maps/{Z}/{X}/{Y}.png", tile(3, 5, 2)), "http://maps/{Z}/{X}/{Y}.png");
}

#[test]
fn url_keeps_other_brace_text() {
    assert_eq!(render_url("m?{q}&x={x}&b={bounds}", tile(1, 0, 1)), "m?{q}&x=0&b={bounds}");
}

#[test]
fn rendering_twice_gives_the_same() {
    let t = tile(7, 100, 27);
    assert_eq!(render_url("h/{z}/{x}/{y}", t), render_url("h/{z}/{x}/{y}", t));
    assert_eq!(tile_path("o", t), tile_path("o", t));
}

#[test]
fn path_of_a_tile() {
    assert_eq!(tile_path("out", tile(3, 5, 2)), "out/3/5/2.png");
    assert_eq!(tile_path(".", tile(0, 0, 0)), "./0/0/0.png");
}

#[test]
fn directory_of_a_tile() {
    assert_eq!(tile_directory("out", tile(3, 5, 2)), "out/3/5");
}

#[test]
fn request_holds_url_and_path() {
    let r = TileRequest::new("http://t/{z}/{x}/{y}?b={bounds}", "tiles", tile(2, 3, 1));
    assert_eq!(r.url, "http://t/2/3/1?b={bounds}");
    assert_eq!(r.destination_path, "tiles/2/3/1.png");
}

#[test]
fn bounds_token_is_detected() {
    assert!(needs_bounds("https://map?bbox={bounds}"));
    assert!(!needs_bounds("https://map/{z}/{x}/{y}"));
}

#[test]
fn bounds_are_written_as_a_tuple() {
    assert_eq!(bounds_text("90", "0", "-180", "0"), "(90,0,-180,0)");
    assert_eq!(
        insert_bounds("https://map?bbox={bounds}", "90", "0", "-180", "0"),
        "https://map?bbox=(90,0,-180,0)"
    );
    assert_eq!(insert_bounds("https://map", "90", "0", "-180", "0"), "https://map");
}

#[test]
fn size_tokens_are_filled() {
    assert_eq!(insert_size("m?w={w}&h={h}", 256, 512), "m?w=256&h=512");
}

#[test]
fn bounding_box_at_zoom_one() {
    let a = bounding_box(tile(1, 0, 0));
    assert_eq!((a.north, a.south, a.west, a.east, a.scale), (180, 0, -360, 0, 2));
    let s = a.scale as f64;
    assert_eq!(
        (a.north as f64 / s, a.south as f64 / s, a.west as f64 / s, a.east as f64 / s),
        (90.0, 0.0, -180.0, 0.0)
    );
    let b = bounding_box(tile(1, 1, 1));
    let s = b.scale as f64;
    assert_eq!(
        (b.north as f64 / s, b.south as f64 / s, b.west as f64 / s, b.east as f64 / s),
        (0.0, -90.0, 0.0, 180.0)
    );
}

#[test]
fn bounding_box_at_zoom_zero_is_the_world() {
    let w = bounding_box(tile(0, 0, 0));
    assert_eq!((w.north, w.south, w.west, w.east, w.scale), (90, -90, -180, 180, 1));
}

#[test]
fn bounding_box_at_the_deepest_corner() {
    let last: u32 = 2_147_483_647;
    let b = bounding_box(tile(31, last, last));
    assert_eq!(b.scale, 2_147_483_648);
    assert_eq!(b.south, -90 * 2_147_483_648i64);
    assert_eq!(b.east, 180 * 2_147_483_648i64);
    assert_eq!(b.north, b.south + 180);
    assert_eq!(b.west, b.east - 360);
}

#[test]
fn failure_is_reported_with_the_url() {
    assert_eq!(
        failure_line("http://t/1/0/0.png", "connection refused"),
        "Failed to save http://t/1/0/0.png. Error: connection refused"
    );
}
