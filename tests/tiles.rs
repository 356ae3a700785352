use bar::cache::{Cache, CacheEntry};
use bar::runner::{Outcome, Window};
use bar::tiles::{
    choose_zoom, covering_tile_range, map_embed, plan_tiles, tile_address, tile_cache_key,
    FETCH_WINDOW, TILE_CACHE_TTL_MS, TILE_SIZE,
};
use std::collections::HashMap;

#[test]
fn covering_tiles_overscan_by_one() {
    let tiles = covering_tile_range((3, 7), (4, 7));
    assert_eq!(
        tiles,
        vec![(3, 7), (3, 8), (4, 7), (4, 8), (5, 7), (5, 8)]
    );
}

#[test]
fn single_tile_view_fetches_four() {
    assert_eq!(covering_tile_range((0, 0), (0, 0)), vec![(0, 0), (0, 1), (1, 0), (1, 1)]);
}

#[test]
fn mirrors_rotate_by_tile_sum() {
    let bases = vec!["https://a.tile".to_string(), "https://b.tile".to_string(), "https://c.tile".to_string()];
    assert_eq!(tile_address(&bases, 8, 162, 119), "https://c.tile/8/162/119.png");
    assert_eq!(tile_address(&bases, 8, 163, 119), "https://a.tile/8/163/119.png");
    assert_eq!(tile_address(&bases, 12, 0, 0), "https://a.tile/12/0/0.png");
    assert_eq!(tile_address(&bases, 3, -1, 0), "https://c.tile/3/-1/0.png");
}

#[test]
fn plan_places_tiles_from_the_view_origin() {
    let bases = vec!["https://tile.openstreetmap.org".to_string()];
    let plan = plan_tiles(8, (162, 119), (162, 119), (162 * 256 + 59, 119 * 256 + 182), &bases);
    assert_eq!(plan.zoom, 8);
    assert_eq!(plan.tiles, vec![(162, 119), (162, 120), (163, 119), (163, 120)]);
    assert_eq!(plan.urls[0], "https://tile.openstreetmap.org/8/162/119.png");
    assert_eq!(plan.urls[3], "https://tile.openstreetmap.org/8/163/120.png");
    assert_eq!(plan.offsets, vec![(-59, -182), (-59, 74), (197, -182), (197, 74)]);
    assert_eq!(TILE_SIZE, 256);
}

#[test]
fn zoom_is_the_highest_that_fits() {
    let mut fits = vec![false; 19];
    for z in 0..=11 {
        fits[z] = true;
    }
    assert_eq!(choose_zoom(&fits), 11);
    assert_eq!(choose_zoom(&vec![true; 19]), 18);
    assert_eq!(choose_zoom(&vec![false; 19]), 1);
    let mut only_one = vec![false; 19];
    only_one[1] = true;
    assert_eq!(choose_zoom(&only_one), 1);
}

#[test]
fn tile_keys_drop_the_scheme() {
    assert_eq!(tile_cache_key("https://tile.osm.org/1/2/3.png"), "tile.osm.org/1/2/3.png");
    assert_eq!(tile_cache_key("http://tile.osm.org/1/2/3.png"), "tile.osm.org/1/2/3.png");
    assert_eq!(tile_cache_key("https://https://x"), "x");
    assert_eq!(tile_cache_key("tile/1.png"), "tile/1.png");
}

#[test]
fn map_embed_names_by_checksum() {
    let bases = vec!["https://a.tile".to_string(), "https://b.tile".to_string()];
    let embed = map_embed("/p/tracks/run.gpx", &bases, 800, 600);
    let name = bar::checksum::checksum_text(b"/p/tracks/run.gpxhttps://a.tilehttps://b.tile");
    assert_eq!(name.len(), 6);
    assert_eq!(embed.cache_file, format!(".cache/gpx_embed/800/600/{name}.png"));
    assert_eq!(embed.url, format!("/public/gpx_embed/800/600/{name}.png"));
    let other = map_embed("/p/tracks/walk.gpx", &bases, 800, 600);
    assert_ne!(other.url, embed.url);
}

/// A tile source that answers every address with bytes derived from it,
/// and counts the requests it gets.
struct StubServer {
    requests: usize,
}

impl StubServer {
    fn fetch(&mut self, url: &str) -> Result<Vec<u8>, String> {
        self.requests += 1;
        Ok(url.bytes().rev().take(8).collect())
    }
}

/// Fetches the tiles of a plan two at a time through the cache, and draws
/// each at its offset into a canvas of `w` by `h` cells (one byte per tile
/// corner stands for the tile's pixels).
fn render(
    plan: &bar::tiles::TilePlan,
    server: &mut StubServer,
    files: &mut HashMap<String, CacheEntry<Vec<u8>>>,
    now: u64,
    w: i64,
    h: i64,
) -> Vec<u8> {
    let cache: Cache<Vec<u8>> = Cache::new("gpx_tile", 1).with_ttl(TILE_CACHE_TTL_MS);
    let mut canvas = vec![0u8; (w * h) as usize];
    let mut window: Window<(usize, Vec<u8>), String> = Window::new(plan.tiles.len(), FETCH_WINDOW);
    let mut in_flight = Vec::new();
    loop {
        while let Some(k) = window.start_next() {
            in_flight.push(k);
        }
        assert!(in_flight.len() <= FETCH_WINDOW);
        let Some(k) = in_flight.pop() else { break };
        let key = tile_cache_key(&plan.urls[k]);
        let path = cache.get_path(&key);
        let stored = files.get(&path).map(|e| CacheEntry {
            data: e.data.clone(),
            version: e.version,
            created_at: e.created_at,
        });
        let outcome = match cache.get(stored, now) {
            Some(bytes) => Outcome::Done((k, bytes)),
            None => match server.fetch(&plan.urls[k]) {
                Ok(bytes) => {
                    let (path, entry) = cache.set(&key, bytes.clone(), now);
                    files.insert(path, entry);
                    Outcome::Done((k, bytes))
                }
                Err(e) => Outcome::Failed(e),
            },
        };
        if let Outcome::Done((k, bytes)) = &outcome {
            let (x, y) = plan.offsets[*k];
            let (cx, cy) = (x.div_euclid(TILE_SIZE) + 1, y.div_euclid(TILE_SIZE) + 1);
            if cx >= 0 && cy >= 0 && cx < w && cy < h {
                canvas[(cy * w + cx) as usize] = bytes[0];
            }
        }
        window.complete(k, outcome);
        if window.is_finished() {
            break;
        }
    }
    window.into_result().ok().unwrap();
    canvas
}

#[test]
fn warm_cache_renders_the_same_without_requests() {
    let bases = vec!["https://a.tile".to_string(), "https://b.tile".to_string()];
    let plan = plan_tiles(15, (17400, 11370), (17401, 11371), (17400 * 256 + 10, 11370 * 256 + 20), &bases);
    assert_eq!(plan.tiles.len(), 9);
    let mut files = HashMap::new();
    let mut server = StubServer { requests: 0 };
    let cold = render(&plan, &mut server, &mut files, 1_000, 4, 4);
    assert_eq!(server.requests, 9);
    let mut warm_server = StubServer { requests: 0 };
    let warm = render(&plan, &mut warm_server, &mut files, 2_000, 4, 4);
    assert_eq!(warm_server.requests, 0);
    assert_eq!(cold, warm);
    let mut late_server = StubServer { requests: 0 };
    let late = render(&plan, &mut late_server, &mut files, 1_000 + TILE_CACHE_TTL_MS, 4, 4);
    assert_eq!(late_server.requests, 9);
    assert_eq!(late, cold);
}
