use bar::line::Line;

fn waypoint(lat: f64, lon: f64) -> (f64, f64) {
    (lon, lat)
}

fn collect(tracks: &Vec<Vec<Vec<(f64, f64)>>>) -> Vec<(f64, f64)> {
    let mut line = Line::new(tracks);
    let mut out = Vec::new();
    while let Some(p) = line.next() {
        out.push(*p);
    }
    assert!(line.next().is_none());
    out
}

#[test]
fn test_line_iterates_all_waypoints() {
    let seg = vec![waypoint(1.0, 2.0), waypoint(3.0, 4.0)];
    let seg2 = vec![waypoint(5.0, 6.0), waypoint(7.0, 8.0)];
    let trk = vec![seg, seg2];
    let tracks = vec![trk];
    let points = collect(&tracks);
    assert_eq!(points.len(), 4);
    assert_eq!(points[0], (2.0, 1.0));
    assert_eq!(points[1], (4.0, 3.0));
    assert_eq!(points[2], (6.0, 5.0));
    assert_eq!(points[3], (8.0, 7.0));
}

#[test]
fn test_line_empty_tracks() {
    let tracks: Vec<Vec<Vec<(f64, f64)>>> = vec![];
    let mut line = Line::new(&tracks);
    assert!(line.next().is_none());
}

#[test]
fn line_skips_empty_tracks_and_segments() {
    let tracks: Vec<Vec<Vec<u32>>> = vec![
        vec![],
        vec![vec![], vec![1, 2], vec![]],
        vec![vec![3]],
        vec![vec![], vec![]],
        vec![vec![4, 5]],
    ];
    let mut line = Line::new(&tracks);
    let mut out = Vec::new();
    while let Some(p) = line.next() {
        out.push(*p);
    }
    assert_eq!(out, vec![1, 2, 3, 4, 5]);
}
