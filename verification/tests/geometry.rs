use rustigc::analysis::flight::{hold_and_settle, stretches, Flight, FlightSelection, MAX_GAP};
use rustigc::decode::fix::Fix;
use rustigc::fixtures::stem_of;
use rustigc::utils::geometry::{
    lon_round, AntimeridianCheck, AntimeridianUnwrap, BBox, Flat, PointCoords, PointNew,
    PointSetCoords, FULL_TURN, HALF_TURN,
};
use rustigc::utils::iter::pairs;
use rustigc::window::parse_window;

/// A `[lat, lon]` point given in degrees, in thousandths of a minute.
fn at(lat: f64, lon: f64) -> [i64; 2] {
    [(lat * 60000.0).round() as i64, (lon * 60000.0).round() as i64]
}

#[test]
fn geometry_euclidean_distance() {
    let p1: [i64; 2] = [0, 0];
    let p2: [i64; 2] = [3, 4];
    assert_eq!((Flat::distance_squared(&p1, &p2) as f64).sqrt(), 5.0);
}

#[test]
fn euclidean_distance() {
    let p1: [i64; 2] = [0, 0];
    let p2: [i64; 2] = [3, 4];
    assert_eq!((Flat::distance_squared(&p2, &p1) as f64).sqrt(), 5.0);
}

#[test]
fn unwrapped_without_crossing() {
    let t = vec![at(45.0, 6.9), at(45.1, 7.0), at(45.2, 7.1)];

    assert_eq!(t.as_slice().unwrapped(), t);
}

#[test]
fn unwrapped_with_crossing() {
    let t = [at(45.0, 179.9), at(45.0, -179.9), at(45.0, 179.9)];
    let want = [at(45.0, 179.9), at(45.0, 180.1), at(45.0, 179.9)];

    assert_eq!(t.as_slice().unwrapped(), want);
}

#[test]
fn crossing_is_spotted() {
    let t = [at(45.0, 179.9), at(45.0, -179.9)];
    assert!(t.as_slice().crosses_antimeridian());
    let u = t.as_slice().unwrapped();
    assert!(!u.as_slice().crosses_antimeridian());
    let calm = [at(45.0, 6.9), at(45.0, 7.0)];
    assert!(!calm.as_slice().crosses_antimeridian());
    let single = [at(45.0, 6.9)];
    assert!(!single.as_slice().crosses_antimeridian());
}

#[test]
fn fixes_are_points() {
    let f = Fix { timestamp: 0, lat: 3_126_343, lon: -6_198, baro_alt: 0, gnss_alt: 0 };
    assert_eq!(f.x(), -6_198);
    assert_eq!(f.y(), 3_126_343);
    let track = [f, Fix { lon: 10_799_000, ..f }];
    assert!(track.as_slice().crosses_antimeridian());
}

#[test]
fn lon_round_wraps_once() {
    assert_eq!(lon_round(0), 0);
    assert_eq!(lon_round(HALF_TURN), -HALF_TURN);
    assert_eq!(lon_round(-HALF_TURN), HALF_TURN);
    assert_eq!(lon_round(HALF_TURN - 1), HALF_TURN - 1);
    assert_eq!(lon_round(FULL_TURN - 5), -5);
    assert_eq!(lon_round(-FULL_TURN + 5), 5);
}

#[test]
fn point_setters() {
    let mut p: [i64; 2] = <[i64; 2] as PointNew>::new(7, 3);
    assert_eq!(p, [3, 7]);
    p.set_x(9);
    p.set_y(1);
    assert_eq!((p.x(), p.y()), (9, 1));
}

#[test]
fn geometry_bbox_from_items() {
    let v: [[i64; 2]; 5] = [[10, 10], [10, 30], [14, 27], [50, 10], [50, 30]];
    let b = BBox::<[i64; 2]>::from_items(v.as_slice()).unwrap();

    assert_eq!(b.min, [10, 10]);
    assert_eq!(b.max, [50, 30]);
}

#[test]
fn geometry_bbox_empty() {
    let points: Vec<[i64; 2]> = vec![];
    assert!(BBox::<[i64; 2]>::from_items(&points).is_none());
}

#[test]
fn geometry_bbox_single_point() {
    let points = [[2i64, 3]];
    let bbox = BBox::<[i64; 2]>::from_items(&points).unwrap();
    assert_eq!(bbox.min, [2, 3]);
    assert_eq!(bbox.max, [2, 3]);
    assert_eq!(Flat::distance_squared(&bbox.min, &bbox.max), 0);
}

#[test]
fn bbox_merge_and_vertices() {
    let mut a = BBox { min: [0i64, 0], max: [2, 2] };
    a.merge(&BBox { min: [1, -1], max: [5, 1] });
    assert_eq!(a, BBox { min: [0, -1], max: [5, 2] });
    assert_eq!(a.vertices(), vec![[0, -1], [5, 2], [5, -1], [0, 2]]);
    assert_eq!(BBox { min: [1i64, 1], max: [1, 1] }.vertices(), vec![[1, 1]]);
    assert_eq!(BBox { min: [1i64, 1], max: [1, 4] }.vertices(), vec![[1, 1], [1, 4]]);
}

#[test]
fn pairs_open_and_closed() {
    let s = [1, 2, 3];
    assert_eq!(pairs(&s, false), vec![(1, 2), (2, 3)]);
    assert_eq!(pairs(&s, true), vec![(1, 2), (2, 3), (3, 1)]);
    let empty: [u8; 0] = [];
    assert!(pairs(&empty, false).is_empty());
    assert!(pairs(&empty, true).is_empty());
    assert_eq!(pairs(&[7], true), vec![(7, 7)]);
}

#[test]
fn longest_flight_last_on_a_tie() {
    let flights = [
        Flight { start: 0, stop: 10 },
        Flight { start: 20, stop: 40 },
        Flight { start: 50, stop: 70 },
        Flight { start: 80, stop: 85 },
    ];
    assert_eq!(flights.longest(), Some(&Flight { start: 50, stop: 70 }));
    let none: [Flight; 0] = [];
    assert_eq!(none.longest(), None);
}

fn fix_at(timestamp: u32) -> Fix {
    Fix { timestamp, lat: 0, lon: 0, baro_alt: 0, gnss_alt: 0 }
}

#[test]
fn stretches_cut_at_long_gaps() {
    let track: Vec<Fix> =
        [0, 1_000, 2_000, 400_000, 401_000, 402_000, 403_000].iter().map(|t| fix_at(*t)).collect();
    assert_eq!(stretches(&track, MAX_GAP), vec![[0, 2], [3, 6]]);
    assert_eq!(stretches(&track[..3], MAX_GAP), vec![[0, 2]]);
    assert_eq!(stretches(&[], MAX_GAP), Vec::<[usize; 2]>::new());
    assert_eq!(stretches(&track[..1], MAX_GAP), vec![[0, 0]]);
    let last_gap: Vec<Fix> = [0, 1_000, 900_000].iter().map(|t| fix_at(*t)).collect();
    assert_eq!(stretches(&last_gap, MAX_GAP), vec![[0, 1], [2, 2]]);
}

#[test]
fn window_parses() {
    assert_eq!(parse_window("125,25425"), Ok((125, 25425)));
    assert_eq!(parse_window(" 3 , +4 "), Ok((3, 4)));
    assert_eq!(parse_window("3;4"), Err("expected \"start,stop\"".to_string()));
    assert_eq!(parse_window("x,4"), Err("invalid start: x".to_string()));
    assert_eq!(parse_window("3, -4"), Err("invalid stop:  -4".to_string()));
    assert_eq!(parse_window("3,4,5"), Err("invalid stop: 4,5".to_string()));
    assert_eq!(parse_window(",4"), Err("invalid start: ".to_string()));
}

#[test]
fn fixture_stems() {
    assert_eq!(stem_of("problem_small_gap"), "problem-small-gap");
    assert_eq!(stem_of("fai_01"), "fai-01");
    assert_eq!(stem_of("plain"), "plain");
}

// The rounding form the branchy wrap replaced, as the oracle: the two agree over every difference
// two parsed longitudes can take, here every thousandth of a degree from one turn west to one east.
#[test]
fn lon_round_matches_the_rounding_form() {
    let rounding = |l: f64| l - (l / FULL_TURN as f64).round() * FULL_TURN as f64;

    for i in -360_000i64..=360_000 {
        let l = i * 60;
        assert_eq!(lon_round(l) as f64, rounding(l as f64), "at {l}");
    }

    // Ties, where the two forms are easiest to get wrong and the sweep's step may not land
    for l in [-FULL_TURN, -HALF_TURN, 0, HALF_TURN, FULL_TURN] {
        assert_eq!(lon_round(l) as f64, rounding(l as f64), "at {l}");
    }
}

// A longitude past half a turn, which a fix can hold, is taken like any other: the step to it is
// wrapped once.
#[test]
fn unwrapped_past_half_a_turn_wraps_once() {
    let t: Vec<[i64; 2]> = vec![[0, 0], [0, 18_000_000]];
    assert_eq!(t.as_slice().unwrapped(), vec![[0, 0], [0, -3_600_000]]);
}

#[test]
fn hold_and_settle_finds_the_first_held_run_and_its_end() {
    let (t, f) = (true, false);
    let fast = [f, t, t, t, f, f, t, f, f];
    let dt = [20_000i64; 9];
    assert_eq!(hold_and_settle(&fast, &dt, 30_000), Some((1, 7)));
    // Ending fast: the last fast reading is where it stops.
    assert_eq!(hold_and_settle(&[t, t, f, t], &[20_000; 4], 30_000), Some((0, 3)));
    // A slow reading resets the time held.
    assert_eq!(hold_and_settle(&[t, f, t, f], &[20_000; 4], 30_000), None);
    assert_eq!(hold_and_settle(&[], &[], 30_000), None);
}
