//! Integer side of the map renderer: which tiles cover a view, where each is
//! fetched from and where it is drawn, and which zoom level a view gets.
//! Coordinates in tile space come from the projection, which is done in
//! floating point by the caller; here a tile is its integer index.
use crate::paths::push_char;
use vstd::prelude::*;
use vstd::string::StrSliceExecFns;
use vstd::string::StringExecFns;

verus! {

/// A zoom level of the tile grid: `2^zoom` tiles along each axis.
#[derive(Debug, Clone, Copy, PartialEq, Eq, Structural)]
pub struct Zoom {
    pub zoom: u8,
}

impl Zoom {
    pub fn new(zoom: u8) -> (z: Zoom)
        ensures
            z.zoom == zoom,
    {
        Zoom { zoom }
    }
}

/// Side of a tile in pixels.
pub const TILE_SIZE: i64 = 256;

/// Tiles fetched at once from the tile servers.
pub const FETCH_WINDOW: usize = 2;

/// Highest zoom level the renderer tries.
pub const MAX_ZOOM: u8 = 18;

/// How long a fetched tile stays fresh in the cache: 31 days, in
/// milliseconds.
pub const TILE_CACHE_TTL_MS: u64 = 31 * 24 * 60 * 60 * 1000;

/// Bound on tile indices and pixel origins the planner accepts.
pub const COORD_LIMIT: i64 = 1073741824;

pub open spec fn digit_char(d: nat) -> char
    recommends
        d < 10,
{
    seq!['0', '1', '2', '3', '4', '5', '6', '7', '8', '9'][d as int]
}

/// The decimal digits of `n`.
pub open spec fn digits(n: nat) -> Seq<char>
    decreases n,
{
    if n < 10 {
        seq![digit_char(n)]
    } else {
        digits(n / 10).push(digit_char(n % 10))
    }
}

/// `n` in decimal, with a leading `-` where it is negative.
pub open spec fn decimal(n: int) -> Seq<char> {
    if n < 0 {
        seq!['-'] + digits((-n) as nat)
    } else {
        digits(n as nat)
    }
}

pub(crate) fn push_digits(s: &mut String, n: u64)
    ensures
        final(s)@ == old(s)@ + digits(n as nat),
    decreases n,
{
    if n >= 10 {
        push_digits(s, n / 10);
    }
    let d = (n % 10) as u8;
    let c = if d == 0 {
        '0'
    } else if d == 1 {
        '1'
    } else if d == 2 {
        '2'
    } else if d == 3 {
        '3'
    } else if d == 4 {
        '4'
    } else if d == 5 {
        '5'
    } else if d == 6 {
        '6'
    } else if d == 7 {
        '7'
    } else if d == 8 {
        '8'
    } else {
        '9'
    };
    push_char(s, c);
    proof {
        if n >= 10 {
            assert(old(s)@ + digits(n as nat) =~= old(s)@ + digits((n / 10) as nat) + seq![c]);
        } else {
            assert(old(s)@ + digits(n as nat) =~= old(s)@.push(c));
        }
    }
}

/// Appends `n` in decimal.
pub fn push_decimal(s: &mut String, n: i64)
    requires
        n > i64::MIN,
    ensures
        final(s)@ == old(s)@ + decimal(n as int),
{
    if n < 0 {
        push_char(s, '-');
        push_digits(s, (-n) as u64);
        assert(old(s)@ + decimal(n as int) =~= old(s)@.push('-') + digits((-n) as nat));
    } else {
        push_digits(s, n as u64);
    }
}

/// The mirror of `n` tile servers that serves tile `(x, y)`.
/// `(x + y) mod n`, the remainder taken in `0..n` also where `x + y` is
/// negative.
pub open spec fn mirror(x: int, y: int, n: int) -> int
    recommends
        n > 0,
{
    if x + y >= 0 {
        (x + y) % n
    } else if (-(x + y)) % n == 0 {
        0
    } else {
        n - (-(x + y)) % n
    }
}

/// Where tile `(x, y)` at `zoom` is fetched from `base`:
/// `<base>/<zoom>/<x>/<y>.png`.
pub open spec fn tile_url(base: Seq<char>, zoom: int, x: int, y: int) -> Seq<char> {
    base + seq!['/'] + decimal(zoom) + seq!['/'] + decimal(x) + seq!['/'] + decimal(y) + ".png"@
}

/// The tiles `(x, min_y)` to `(x, min_y + h - 1)`.
pub open spec fn tile_column(x: int, min_y: int, h: nat) -> Seq<(i64, i64)> {
    Seq::new(h, |j: int| (x as i64, (min_y + j) as i64))
}

/// The tiles of `w` columns from `min_x` on, each of `h` tiles from `min_y`
/// on, column after column.
pub open spec fn tile_grid(min_x: int, min_y: int, w: nat, h: nat) -> Seq<(i64, i64)>
    decreases w,
{
    if w == 0 {
        Seq::empty()
    } else {
        tile_grid(min_x, min_y, (w - 1) as nat, h) + tile_column(min_x + w - 1, min_y, h)
    }
}

/// The tiles that cover the tile-space rectangle from `min` to `max`
/// (integer parts): both ranges inclusive, and one tile more past each
/// maximum so that no seam is left.
pub open spec fn covering_tiles(min: (i64, i64), max: (i64, i64)) -> Seq<(i64, i64)> {
    tile_grid(min.0 as int, min.1 as int, (max.0 - min.0 + 2) as nat, (max.1 - min.1 + 2) as nat)
}

pub open spec fn in_limits(v: i64) -> bool {
    -COORD_LIMIT <= v <= COORD_LIMIT
}

/// A tile index within the limits, or one past them.
pub open spec fn tile_bounded(t: (i64, i64)) -> bool {
    -COORD_LIMIT <= t.0 <= COORD_LIMIT + 1 && -COORD_LIMIT <= t.1 <= COORD_LIMIT + 1
}

/// The tiles covering the rectangle from `min` to `max`, column after
/// column.
pub fn covering_tile_range(min: (i64, i64), max: (i64, i64)) -> (r: Vec<(i64, i64)>)
    requires
        min.0 <= max.0,
        min.1 <= max.1,
        in_limits(min.0) && in_limits(min.1) && in_limits(max.0) && in_limits(max.1),
    ensures
        r@ == covering_tiles(min, max),
{
    let mut r: Vec<(i64, i64)> = Vec::new();
    let w: i64 = max.0 - min.0 + 2;
    let h: i64 = max.1 - min.1 + 2;
    let mut i: i64 = 0;
    while i < w
        invariant
            0 <= i <= w,
            w == max.0 - min.0 + 2,
            h == max.1 - min.1 + 2,
            h > 0,
            in_limits(min.0) && in_limits(min.1) && in_limits(max.0) && in_limits(max.1),
            r@ == tile_grid(min.0 as int, min.1 as int, i as nat, h as nat),
        decreases w - i,
    {
        let mut j: i64 = 0;
        while j < h
            invariant
                0 <= i < w,
                0 <= j <= h,
                w == max.0 - min.0 + 2,
                h == max.1 - min.1 + 2,
                in_limits(min.0) && in_limits(min.1) && in_limits(max.0) && in_limits(max.1),
                r@ == tile_grid(min.0 as int, min.1 as int, i as nat, h as nat) + tile_column(
                    min.0 + i,
                    min.1 as int,
                    j as nat,
                ),
            decreases h - j,
        {
            r.push((min.0 + i, min.1 + j));
            assert(tile_column(min.0 + i, min.1 as int, (j + 1) as nat) =~= tile_column(
                min.0 + i,
                min.1 as int,
                j as nat,
            ).push(((min.0 + i) as i64, (min.1 + j) as i64)));
            j = j + 1;
        }
        i = i + 1;
    }
    r
}

/// Where the tiles of a view come from and where they are drawn.
pub struct TilePlan {
    pub zoom: u8,
    /// The tiles, column after column.
    pub tiles: Vec<(i64, i64)>,
    /// `urls[k]` is where `tiles[k]` is fetched from.
    pub urls: Vec<String>,
    /// `offsets[k]` is the canvas pixel of the top left corner of `tiles[k]`.
    pub offsets: Vec<(i64, i64)>,
}

/// The address of one tile, with the mirror picked by `(x + y) mod n`.
pub fn tile_address(bases: &Vec<String>, zoom: u8, x: i64, y: i64) -> (r: String)
    requires
        bases@.len() > 0,
        tile_bounded((x, y)),
    ensures
        r@ == tile_url(
            bases@[mirror(x as int, y as int, bases@.len() as int)]@,
            zoom as int,
            x as int,
            y as int,
        ),
{
    let n = bases.len() as u64;
    let sum = x + y;
    let m: usize = if sum >= 0 {
        ((sum as u64) % n) as usize
    } else {
        let r = ((-sum) as u64) % n;
        if r == 0 {
            0
        } else {
            (n - r) as usize
        }
    };
    let mut s = bases[m].clone();
    push_char(&mut s, '/');
    push_decimal(&mut s, zoom as i64);
    push_char(&mut s, '/');
    push_decimal(&mut s, x);
    push_char(&mut s, '/');
    push_decimal(&mut s, y);
    s.append(".png");
    assert(s@ =~= tile_url(bases@[m as int]@, zoom as int, x as int, y as int));
    s
}

/// Plans the tiles of a view at `zoom` whose corners lie in tiles `min` and
/// `max`, drawn on a canvas whose top left corner is the pixel `origin` of
/// the map at that zoom.
pub fn plan_tiles(zoom: u8, min: (i64, i64), max: (i64, i64), origin: (i64, i64), bases: &Vec<String>) -> (r: TilePlan)
    requires
        bases@.len() > 0,
        min.0 <= max.0,
        min.1 <= max.1,
        in_limits(min.0) && in_limits(min.1) && in_limits(max.0) && in_limits(max.1),
        in_limits(origin.0) && in_limits(origin.1),
    ensures
        r.zoom == zoom,
        r.tiles@ == covering_tiles(min, max),
        r.urls@.len() == r.tiles@.len(),
        r.offsets@.len() == r.tiles@.len(),
        forall|k: int|
            0 <= k < r.tiles@.len() ==> {
                let (x, y) = #[trigger] r.tiles@[k];
                &&& r.urls@[k]@ == tile_url(
                    bases@[mirror(x as int, y as int, bases@.len() as int)]@,
                    zoom as int,
                    x as int,
                    y as int,
                )
                &&& r.offsets@[k] == ((x * TILE_SIZE - origin.0) as i64, (y * TILE_SIZE
                    - origin.1) as i64)
            },
{
    let tiles = covering_tile_range(min, max);
    proof {
        lemma_grid_bounds(min.0 as int, min.1 as int, (max.0 - min.0 + 2) as nat, (max.1 - min.1 + 2) as nat);
    }
    let mut urls: Vec<String> = Vec::new();
    let mut offsets: Vec<(i64, i64)> = Vec::new();
    let mut k: usize = 0;
    while k < tiles.len()
        invariant
            bases@.len() > 0,
            in_limits(origin.0) && in_limits(origin.1),
            0 <= k <= tiles@.len(),
            urls@.len() == k,
            offsets@.len() == k,
            forall|t: int| 0 <= t < tiles@.len() ==> tile_bounded(#[trigger] tiles@[t]),
            forall|t: int|
                0 <= t < k ==> {
                    let (x, y) = #[trigger] tiles@[t];
                    &&& urls@[t]@ == tile_url(
                        bases@[mirror(x as int, y as int, bases@.len() as int)]@,
                        zoom as int,
                        x as int,
                        y as int,
                    )
                    &&& offsets@[t] == ((x * TILE_SIZE - origin.0) as i64, (y * TILE_SIZE
                        - origin.1) as i64)
                },
        decreases tiles@.len() - k,
    {
        let (x, y) = tiles[k];
        assert(tile_bounded(tiles@[k as int]));
        urls.push(tile_address(bases, zoom, x, y));
        offsets.push((x * TILE_SIZE - origin.0, y * TILE_SIZE - origin.1));
        k = k + 1;
    }
    TilePlan { zoom, tiles, urls, offsets }
}

/// The zoom level a view gets, given `fits[z]`: whether its footprint at
/// zoom `z` fits strictly inside the canvas. Going down from the highest
/// level, the first that fits; level 1 where none above it does.
pub open spec fn zoom_for(fits: Seq<bool>) -> int
    decreases MAX_ZOOM,
{
    zoom_from(fits, MAX_ZOOM as int)
}

/// The first level from `z` down to 2 that fits, else 1.
pub open spec fn zoom_from(fits: Seq<bool>, z: int) -> int
    decreases z,
{
    if z <= 1 {
        1
    } else if fits[z] {
        z
    } else {
        zoom_from(fits, z - 1)
    }
}

/// Picks the zoom level of a view from whether it fits at each level.
pub fn choose_zoom(fits: &Vec<bool>) -> (z: u8)
    requires
        fits@.len() == MAX_ZOOM + 1,
    ensures
        z == zoom_for(fits@),
        1 <= z <= MAX_ZOOM,
        z > 1 ==> fits@[z as int],
        forall|k: int| z < k <= MAX_ZOOM ==> !fits@[k],
{
    let mut z: u8 = MAX_ZOOM;
    while z > 1 && !fits[z as usize]
        invariant
            1 <= z <= MAX_ZOOM,
            fits@.len() == MAX_ZOOM + 1,
            zoom_from(fits@, z as int) == zoom_for(fits@),
            forall|k: int| z < k <= MAX_ZOOM ==> !fits@[k],
        decreases z,
    {
        z = z - 1;
    }
    z
}

/// `s` without each leading repetition of `p`.
pub open spec fn strip_repeated(s: Seq<char>, p: Seq<char>) -> Seq<char>
    decreases s.len(),
{
    if p.len() > 0 && p.is_prefix_of(s) {
        strip_repeated(s.subrange(p.len() as int, s.len() as int), p)
    } else {
        s
    }
}

fn strip_prefixes(s: &str, p: &str) -> (r: String)
    ensures
        r@ == strip_repeated(s@, p@),
{
    let n = s.unicode_len();
    let m = p.unicode_len();
    let mut rest = String::from_str(s);
    if m == 0 {
        return rest;
    }
    while crate::paths::starts_with(rest.as_str(), p)
        invariant
            m == p@.len(),
            m > 0,
            strip_repeated(rest@, p@) == strip_repeated(s@, p@),
        decreases rest@.len(),
    {
        let len = rest.as_str().unicode_len();
        let next = String::from_str(rest.as_str().substring_char(m, len));
        rest = next;
    }
    rest
}

/// The cache key of a tile: its address without the leading scheme.
pub open spec fn tile_key(url: Seq<char>) -> Seq<char> {
    strip_repeated(strip_repeated(url, "https://"@), "http://"@)
}

/// The cache key of the tile at `url`.
pub fn tile_cache_key(url: &str) -> (r: String)
    ensures
        r@ == tile_key(url@),
{
    let a = strip_prefixes(url, "https://");
    strip_prefixes(a.as_str(), "http://")
}

/// All of `parts`, one after another.
pub open spec fn joined(parts: Seq<String>) -> Seq<char>
    decreases parts.len(),
{
    if parts.len() == 0 {
        Seq::empty()
    } else {
        joined(parts.drop_last()) + parts.last()@
    }
}

/// Where a rendered map is kept and where the site serves it.
pub struct MapEmbed {
    /// The image file, relative to the project root.
    pub cache_file: String,
    /// The address of the image in the site.
    pub url: String,
}

/// The name of the map of `input` drawn from `bases`.
pub open spec fn map_name(input: Seq<char>, bases: Seq<String>) -> Seq<char> {
    crate::checksum::checksum_of(vstd::utf8::encode_utf8(input + joined(bases)))
}

/// `<dir>/<width>/<height>/<name>.png`.
pub open spec fn sized_image_path(dir: Seq<char>, width: nat, height: nat, name: Seq<char>) -> Seq<char> {
    dir + seq!['/'] + digits(width) + seq!['/'] + digits(height) + seq!['/'] + name + ".png"@
}

/// The file and the address of the map of the track `input`, drawn from
/// the tile servers `bases` at `width` by `height` pixels: named by the
/// checksum of the track path and the servers, so that the same request
/// finds the same file.
pub fn map_embed(input: &str, bases: &Vec<String>, width: u64, height: u64) -> (r: MapEmbed)
    ensures
        r.cache_file@ == sized_image_path(".cache/gpx_embed"@, width as nat, height as nat, map_name(input@, bases@)),
        r.url@ == sized_image_path("/public/gpx_embed"@, width as nat, height as nat, map_name(input@, bases@)),
{
    let mut key = String::from_str(input);
    let mut i: usize = 0;
    while i < bases.len()
        invariant
            0 <= i <= bases@.len(),
            key@ == input@ + joined(bases@.take(i as int)),
        decreases bases@.len() - i,
    {
        assert(bases@.take(i + 1).drop_last() =~= bases@.take(i as int));
        key.append(bases[i].as_str());
        i = i + 1;
    }
    assert(bases@.take(i as int) =~= bases@);
    let name = crate::checksum::checksum_text(key.as_str().as_bytes());
    let mut cache_file = String::from_str(".cache/gpx_embed");
    let mut url = String::from_str("/public/gpx_embed");
    push_char(&mut cache_file, '/');
    push_char(&mut url, '/');
    push_digits(&mut cache_file, width);
    push_digits(&mut url, width);
    push_char(&mut cache_file, '/');
    push_char(&mut url, '/');
    push_digits(&mut cache_file, height);
    push_digits(&mut url, height);
    push_char(&mut cache_file, '/');
    push_char(&mut url, '/');
    cache_file.append(name.as_str());
    url.append(name.as_str());
    cache_file.append(".png");
    url.append(".png");
    MapEmbed { cache_file, url }
}

proof fn lemma_grid_bounds(min_x: int, min_y: int, w: nat, h: nat)
    requires
        -COORD_LIMIT <= min_x,
        min_x + w <= COORD_LIMIT + 2,
        -COORD_LIMIT <= min_y,
        min_y + h <= COORD_LIMIT + 2,
    ensures
        forall|t: int|
            0 <= t < tile_grid(min_x, min_y, w, h).len() ==> tile_bounded(
                #[trigger] tile_grid(min_x, min_y, w, h)[t],
            ),
    decreases w,
{
    if w > 0 {
        lemma_grid_bounds(min_x, min_y, (w - 1) as nat, h);
        let prev = tile_grid(min_x, min_y, (w - 1) as nat, h);
        let col = tile_column(min_x + w - 1, min_y, h);
        assert forall|t: int| 0 <= t < (prev + col).len() implies tile_bounded(#[trigger] (prev + col)[t]) by {
            if t >= prev.len() {
                assert((prev + col)[t] == col[t - prev.len()]);
            }
        }
    }
}

} // verus!
