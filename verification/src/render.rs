//! From a tile address to the URL that is requested and the file that is
//! written, and the tile's geographic bounds.

use vstd::prelude::*;
use vstd::string::*;
use crate::address::{TileAddress, grid_width, grid_size, MAX_ZOOM};
use crate::text::{decimal, decimal_string, replace_all, replace, occurs, contains};

verus! {

/// The token `{x}`, replaced by the tile's column.
pub open spec fn token_x() -> Seq<char> {
    seq!['{', 'x', '}']
}

/// The token `{y}`, replaced by the tile's row.
pub open spec fn token_y() -> Seq<char> {
    seq!['{', 'y', '}']
}

/// The token `{z}`, replaced by the zoom level.
pub open spec fn token_z() -> Seq<char> {
    seq!['{', 'z', '}']
}

/// The token `{w}`, replaced by the tile width.
pub open spec fn token_w() -> Seq<char> {
    seq!['{', 'w', '}']
}

/// The token `{h}`, replaced by the tile height.
pub open spec fn token_h() -> Seq<char> {
    seq!['{', 'h', '}']
}

/// The token `{bounds}`, replaced by the tile's bounding box.
pub open spec fn token_bounds() -> Seq<char> {
    seq!['{', 'b', 'o', 'u', 'n', 'd', 's', '}']
}

/// The template with `{x}`, then `{y}`, then `{z}` replaced by the tile's
/// coordinates in decimal. Other text in braces stays as it is.
pub open spec fn url_of(template: Seq<char>, tile: TileAddress) -> Seq<char> {
    replace_all(
        replace_all(
            replace_all(template, token_x(), decimal(tile.x as nat)),
            token_y(),
            decimal(tile.y as nat),
        ),
        token_z(),
        decimal(tile.zoom as nat),
    )
}

/// The URL with `{w}`, then `{h}` replaced by the tile size in decimal.
pub open spec fn sized_url_of(url: Seq<char>, width: nat, height: nat) -> Seq<char> {
    replace_all(replace_all(url, token_w(), decimal(width)), token_h(), decimal(height))
}

/// The four edges as `(north,south,west,east)`.
pub open spec fn bounds_text_of(
    north: Seq<char>,
    south: Seq<char>,
    west: Seq<char>,
    east: Seq<char>,
) -> Seq<char> {
    seq!['('] + north + seq![','] + south + seq![','] + west + seq![','] + east + seq![')']
}

/// `output_dir/zoom/x`.
pub open spec fn directory_of(output_dir: Seq<char>, tile: TileAddress) -> Seq<char> {
    output_dir + seq!['/'] + decimal(tile.zoom as nat) + seq!['/'] + decimal(tile.x as nat)
}

/// `output_dir/zoom/x/y.png`.
pub open spec fn path_of(output_dir: Seq<char>, tile: TileAddress) -> Seq<char> {
    directory_of(output_dir, tile) + seq!['/'] + decimal(tile.y as nat) + seq!['.', 'p', 'n', 'g']
}

/// The request URL of a tile: the template with its `{x}`, `{y}` and `{z}`
/// filled in.
pub fn render_url(template: &str, tile: TileAddress) -> (url: String)
    ensures
        url@ == url_of(template@, tile),
{
    proof {
        reveal_strlit("{x}");
        reveal_strlit("{y}");
        reveal_strlit("{z}");
        assert("{x}"@ =~= token_x());
        assert("{y}"@ =~= token_y());
        assert("{z}"@ =~= token_z());
    }
    let x = decimal_string(tile.x);
    let y = decimal_string(tile.y);
    let z = decimal_string(tile.zoom);
    let with_x = replace(template, "{x}", x.as_str());
    let with_y = replace(with_x.as_str(), "{y}", y.as_str());
    replace(with_y.as_str(), "{z}", z.as_str())
}

/// Fills `{w}` and `{h}` with the tile size.
pub fn insert_size(url: &str, width: u32, height: u32) -> (sized: String)
    ensures
        sized@ == sized_url_of(url@, width as nat, height as nat),
{
    proof {
        reveal_strlit("{w}");
        reveal_strlit("{h}");
        assert("{w}"@ =~= token_w());
        assert("{h}"@ =~= token_h());
    }
    let w = decimal_string(width);
    let h = decimal_string(height);
    let with_w = replace(url, "{w}", w.as_str());
    replace(with_w.as_str(), "{h}", h.as_str())
}

/// Whether the URL asks for the tile's bounding box.
pub fn needs_bounds(url: &str) -> (r: bool)
    ensures
        r == occurs(url@, token_bounds()),
{
    proof {
        reveal_strlit("{bounds}");
        assert("{bounds}"@ =~= token_bounds());
    }
    contains(url, "{bounds}")
}

/// Writes the four edges, each already in text, as `(north,south,west,east)`.
pub fn bounds_text(north: &str, south: &str, west: &str, east: &str) -> (text: String)
    ensures
        text@ == bounds_text_of(north@, south@, west@, east@),
{
    proof {
        reveal_strlit("(");
        reveal_strlit(",");
        reveal_strlit(")");
        assert("("@ =~= seq!['(']);
        assert(","@ =~= seq![',']);
        assert(")"@ =~= seq![')']);
    }
    let mut text = String::from_str("(");
    text.append(north);
    text.append(",");
    text.append(south);
    text.append(",");
    text.append(west);
    text.append(",");
    text.append(east);
    text.append(")");
    text
}

/// Fills `{bounds}` with the four edges, each already in text.
pub fn insert_bounds(url: &str, north: &str, south: &str, west: &str, east: &str) -> (filled:
    String)
    ensures
        filled@ == replace_all(
            url@,
            token_bounds(),
            bounds_text_of(north@, south@, west@, east@),
        ),
{
    proof {
        reveal_strlit("{bounds}");
        assert("{bounds}"@ =~= token_bounds());
    }
    let text = bounds_text(north, south, west, east);
    replace(url, "{bounds}", text.as_str())
}

/// The directory that holds the tile's column.
pub fn tile_directory(output_dir: &str, tile: TileAddress) -> (dir: String)
    ensures
        dir@ == directory_of(output_dir@, tile),
{
    proof {
        reveal_strlit("/");
        assert("/"@ =~= seq!['/']);
    }
    let z = decimal_string(tile.zoom);
    let x = decimal_string(tile.x);
    let mut dir = String::from_str(output_dir);
    dir.append("/");
    dir.append(z.as_str());
    dir.append("/");
    dir.append(x.as_str());
    dir
}

/// The file that the tile is saved to.
pub fn tile_path(output_dir: &str, tile: TileAddress) -> (path: String)
    ensures
        path@ == path_of(output_dir@, tile),
{
    proof {
        reveal_strlit("/");
        reveal_strlit(".png");
        assert("/"@ =~= seq!['/']);
        assert(".png"@ =~= seq!['.', 'p', 'n', 'g']);
    }
    let y = decimal_string(tile.y);
    let mut path = tile_directory(output_dir, tile);
    path.append("/");
    path.append(y.as_str());
    path.append(".png");
    path
}

/// What is fetched for one tile, and where it is saved.
#[derive(Debug)]
pub struct TileRequest {
    pub url: String,
    pub destination_path: String,
}

impl TileRequest {
    /// The request for `tile`: its URL from the template, its path under
    /// `output_dir`. A `{bounds}` in the template is still to be filled.
    pub fn new(template: &str, output_dir: &str, tile: TileAddress) -> (request: TileRequest)
        ensures
            request.url@ == url_of(template@, tile),
            request.destination_path@ == path_of(output_dir@, tile),
    {
        TileRequest {
            url: render_url(template, tile),
            destination_path: tile_path(output_dir, tile),
        }
    }
}

/// The line that reports a tile that could not be saved.
pub fn failure_line(url: &str, reason: &str) -> (line: String)
    ensures
        line@ == "Failed to save "@ + url@ + ". Error: "@ + reason@,
{
    let mut line = String::from_str("Failed to save ");
    line.append(url);
    line.append(". Error: ");
    line.append(reason);
    line
}

/// Equal templates and equal tiles give equal URLs, and equal directories
/// and tiles give equal paths: rendering depends on nothing else.
pub proof fn rendering_is_a_function(
    template_a: Seq<char>,
    template_b: Seq<char>,
    dir_a: Seq<char>,
    dir_b: Seq<char>,
    a: TileAddress,
    b: TileAddress,
)
    requires
        template_a == template_b,
        dir_a == dir_b,
        a == b,
    ensures
        url_of(template_a, a) == url_of(template_b, b),
        path_of(dir_a, a) == path_of(dir_b, b),
{
}

/// A template that holds none of `{x}`, `{y}` and `{z}` is its own URL for
/// every tile.
pub proof fn plain_template_unchanged(template: Seq<char>, tile: TileAddress)
    requires
        !occurs(template, token_x()),
        !occurs(template, token_y()),
        !occurs(template, token_z()),
    ensures
        url_of(template, tile) == template,
{
    crate::text::replace_absent(template, token_x(), decimal(tile.x as nat));
    crate::text::replace_absent(template, token_y(), decimal(tile.y as nat));
    crate::text::replace_absent(template, token_z(), decimal(tile.zoom as nat));
}

/// A URL without `{bounds}` is left as it is, whatever the edges are.
pub proof fn bounds_untouched(url: Seq<char>, text: Seq<char>)
    requires
        !occurs(url, token_bounds()),
    ensures
        replace_all(url, token_bounds(), text) == url,
{
    crate::text::replace_absent(url, token_bounds(), text);
}

/// The rectangle of the earth that a tile covers, in exact arithmetic:
/// each edge is the field's value divided by `scale`, in degrees.
#[derive(Clone, Copy, Debug, PartialEq, Eq, Structural)]
pub struct BoundingBox {
    pub north: i64,
    pub south: i64,
    pub west: i64,
    pub east: i64,
    pub scale: u32,
}

/// The bounds of the tile `(x, y)` on a grid of width `n`, times `n`: a row
/// is `180 / n` degrees high and counts down from 90, a column is `360 / n`
/// degrees wide and counts up from -180.
pub open spec fn bounds_of(x: int, y: int, n: int) -> (int, int, int, int) {
    (90 * n - 180 * y, 90 * n - 180 * y - 180, 360 * x - 180 * n, 360 * x - 180 * n + 360)
}

/// The bounding box of a tile.
pub fn bounding_box(tile: TileAddress) -> (b: BoundingBox)
    requires
        tile.zoom <= MAX_ZOOM,
    ensures
        b.scale == grid_width(tile.zoom as int),
        (b.north as int, b.south as int, b.west as int, b.east as int) == bounds_of(
            tile.x as int,
            tile.y as int,
            b.scale as int,
        ),
{
    let n: u32 = grid_size(tile.zoom);
    let north: i64 = 90 * (n as i64) - 180 * (tile.y as i64);
    let west: i64 = 360 * (tile.x as i64) - 180 * (n as i64);
    BoundingBox { north, south: north - 180, west, east: west + 360, scale: n }
}

} // verus!
