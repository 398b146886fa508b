use rustigc::error::ScoreError;
use rustigc::score::cache::BoxCache;
use rustigc::score::candidate::Candidate;
use rustigc::score::furthest::FurthestList;
use rustigc::score::leg::Leg;
use rustigc::score::margin::Band;
use rustigc::score::search::{Search, Solution, Step};
use rustigc::score::rules::cfd::{Cfd, TriangleFai};
use rustigc::score::rules::crazy::Crazy;
use rustigc::score::rules::misc::{Oar, OutAndReturn, StraightDistance};
use rustigc::score::rules::xcontest::{FaiTriangle, FreeFlight, FreeTriangle, Xcontest};
use rustigc::score::rules::{
    known_league, league_names, league_rules, pick, Closing, LeagueInfo, Limit, Rule,
    RuleDescription, RuleShape, Variant, VariantKind,
};
use rustigc::score::shapes::{BalancedCircuit, ClosedCircuit, Geometry, OpenPolyline, ShapeKind};

/// A kilometre, in millimetres.
const KM: u64 = 1_000_000;

#[test]
fn leagues_names_unique() {
    let mut names = league_names();
    let listed = names.len();

    names.sort_unstable();
    names.dedup();

    assert_eq!(names.len(), listed);
}

#[test]
fn leagues_rules_reachable() {
    for name in league_names() {
        let rules = league_rules(name).expect("league unreachable by its own name");
        assert!(!rules.is_empty(), "{name} scores nothing");
    }
}

#[test]
fn league_names_in_order() {
    assert_eq!(league_names(), vec!["cfd", "xcontest", "1tp", "2tp", "line", "oar"]);
}

#[test]
fn unknown_league_is_refused() {
    assert_eq!(known_league("xcontest"), Ok(()));
    assert_eq!(known_league("misc4tp"), Err(ScoreError::UnknownLeague));
    assert_eq!(known_league("XContest"), Err(ScoreError::UnknownLeague));
    assert!(league_rules("").is_none());
}

#[test]
fn registry_lists_each_league_rules() {
    let cfd = league_rules("cfd").unwrap();
    assert_eq!(cfd.len(), 3);
    assert_eq!(cfd[0].geometry, Geometry::Open { points: 5 });
    assert_eq!(cfd[2].geometry, Geometry::Balanced { turnpoints: 3, min_side: 280 });
    assert_eq!(cfd[0].minimum, 15_000_000_000);
    assert_eq!(cfd[1].league, "cfd");
    assert_eq!(league_rules("oar").unwrap()[0].geometry, Geometry::Closed { turnpoints: 2 });
    assert_eq!(Xcontest.rules().len(), 3);
    assert_eq!(Crazy.name(), "misc4tp");
}

#[test]
fn cardinalities() {
    assert_eq!(OpenPolyline::<5>::cardinality(), 3);
    assert_eq!(OpenPolyline::<3>::cardinality(), 3);
    assert_eq!(OpenPolyline::<2>::cardinality(), 2);
    assert_eq!(ClosedCircuit::<3>::cardinality(), 3);
    assert_eq!(BalancedCircuit::<3, 280>::cardinality(), 3);
    assert_eq!(FreeFlight.cardinality(), 3);
    assert_eq!(StraightDistance.shape(), Geometry::Open { points: 2 });
    assert_eq!(FaiTriangle.shape(), Geometry::Balanced { turnpoints: 3, min_side: 280 });
}

#[test]
fn limits_and_penalties() {
    assert_eq!(Limit::Nothing.of(100 * KM), 0);
    // Limits come out in micrometres, exactly.
    assert_eq!(Limit::Fixed(3 * KM).of(100 * KM), 3_000_000_000);
    assert_eq!(Limit::Ratio(50).of(100 * KM), 5_000_000_000);
    assert_eq!(Limit::Ratio(50).of(999), 49_950);

    let cfd = Closing::new(Limit::Fixed(3 * KM), Limit::Ratio(50));
    assert_eq!(cfd.limit(100 * KM), 5_000_000_000);
    assert_eq!(cfd.limit(20 * KM), 3_000_000_000);
    assert_eq!(cfd.penalty(100 * KM, 2 * KM), Some(0));
    assert_eq!(cfd.penalty(100 * KM, 4 * KM), Some(4 * KM));
    assert_eq!(cfd.penalty(100 * KM, 6 * KM), None);

    assert!(VariantKind::Open.accepts(100 * KM, 0));
    assert!(!VariantKind::Open.accepts(100 * KM, 1));
    assert_eq!(VariantKind::Open.penalty(100 * KM, 1), None);
    assert_eq!(VariantKind::Open.limit(100 * KM), 0);
}

#[test]
fn variant_picked_strictest_first() {
    let vs = FreeTriangle.variants();
    // 4 % closes the circuit, 10 % still counts, 30 % is past every variant.
    assert_eq!(pick(&vs, 100 * KM, 4 * KM), 0);
    assert_eq!(pick(&vs, 100 * KM, 10 * KM), 1);
    assert_eq!(pick(&vs, 100 * KM, 30 * KM), 1);
    let v: Variant = vs[0];
    assert_eq!(v.name, "closed free triangle");
    assert_eq!(v.multiplier, 1400);
}

#[test]
fn xcontest_triangle_scores() {
    let rule = FreeTriangle.scoring_rule();
    // 100 km with a 4 km gap: (100 - 4) km at ×1.4, in micrometres.
    assert_eq!(rule.score(100 * KM, 4 * KM), 96 * KM as u128 * 1400);
    // A 10 km gap drops to the open rate.
    assert_eq!(rule.score(100 * KM, 10 * KM), 90 * KM as u128 * 1200);
    // Past 20 % nothing closes.
    assert_eq!(rule.score(100 * KM, 30 * KM), 0);
    let s = rule.scored(100 * KM, 10 * KM);
    assert_eq!(s.description, "free triangle");
    assert_eq!(s.distance, 90 * KM);
    assert_eq!(s.penalty, Some(10 * KM));
    assert_eq!(s.threshold, 20 * KM as u128 * 1000);
    assert_eq!(s.multiplier, 1200);
    assert_eq!(s.league, "xcontest");
}

#[test]
fn cfd_minimum_and_free_gap() {
    let rule = TriangleFai.scoring_rule();
    // A 2 km gap is free: 100 km at ×1.4.
    assert_eq!(rule.score(100 * KM, 2 * KM), 100 * KM as u128 * 1400);
    let s = rule.scored(100 * KM, 2 * KM);
    assert_eq!(s.penalty, Some(0));
    assert_eq!(s.score, 140 * KM as u128 * 1000);
    // 10 km at ×1.4 is 14 points, under the 15 the CFD asks.
    let small = rule.scored(10 * KM, 0);
    assert_eq!(small.score, 0);
    assert_eq!(small.distance, 10 * KM);
    assert_eq!(Cfd.name(), "cfd");
}

#[test]
fn gap_never_pays_and_distance_never_costs() {
    let rules = [FreeTriangle.scoring_rule(), OutAndReturn.scoring_rule(), TriangleFai.scoring_rule()];
    for rule in rules.iter() {
        for d in [10 * KM, 50 * KM, 100 * KM, 250 * KM] {
            let mut previous = rule.score(d, 0);
            for g in (0..40).map(|k| k * KM / 2) {
                let s = rule.score(d, g);
                assert!(s <= previous, "{:?} at {d} {g}", rule.geometry);
                assert!(s <= rule.score(d + KM, g));
                previous = s;
            }
        }
    }
    assert_eq!(Oar.rules().len(), 1);
}

#[test]
fn leg_sides() {
    assert_eq!(Leg::Entry.index(), 0);
    assert_eq!(Leg::Exit.index(), 1);
    assert_eq!(Leg::Entry.tp(&[4, 9]), 4);
    assert_eq!(Leg::Exit.tp(&[4, 9]), 9);
}

#[test]
fn candidate_trims_to_flight_order() {
    let c = Candidate::new(vec![[5, 20], [0, 10], [8, 30]]);
    assert_eq!(c.ranges, vec![[5, 10], [5, 10], [8, 30]]);
    assert!(!c.is_leaf());
    assert_eq!(c.rlen(2), 22);
    assert_eq!(c.positions(), vec![5, 5, 8]);
    assert!(c.first_last_overlap());
}

#[test]
fn candidate_initial_covers_the_window() {
    let c = Candidate::initial(100, 3);
    assert_eq!(c.ranges, vec![[0, 99]; 3]);
    assert_eq!(c.widest(), 0);
    assert!(!c.is_leaf());
}

#[test]
fn candidate_leaf_and_overlap() {
    let c = Candidate::new(vec![[3, 3], [7, 7], [9, 2]]);
    assert!(c.is_leaf());
    assert_eq!(c.rlen(2), 0);
    let c = Candidate::new(vec![[0, 4], [10, 20]]);
    assert!(!c.first_last_overlap());
}

#[test]
fn split_narrows_both_children() {
    let c = Candidate::initial(100, 2);
    let best = c.widest();
    let (left, right) = c.halves(best);
    assert_eq!(left.ranges, vec![[0, 49], [0, 99]]);
    assert_eq!(right.ranges, vec![[50, 99], [50, 99]]);
    let width = |c: &Candidate| c.ranges.iter().map(|r| r[1].saturating_sub(r[0])).sum::<usize>();
    assert!(width(&left) < width(&c));
    assert!(width(&right) < width(&c));
}

#[test]
fn widest_takes_the_first_on_a_tie() {
    let c = Candidate::new(vec![[0, 10], [10, 20], [20, 25]]);
    assert_eq!(c.widest(), 0);
    let c = Candidate::new(vec![[0, 5], [5, 20], [20, 35]]);
    assert_eq!(c.widest(), 1);
}

#[test]
fn hand_built_variants_price_alike() {
    let vs = vec![Variant { name: "only", multiplier: 1000, kind: VariantKind::Open }];
    assert_eq!(pick(&vs, 5, 0), 0);
    assert_eq!(pick(&vs, 5, 3), 0);
}

fn queued(bound: u128, rule: usize) -> Solution {
    Solution { bound, candidate: Candidate::initial(10, 2), rule }
}

#[test]
fn search_pops_best_bound_first() {
    let mut search = Search::new(0);
    search.offer(queued(5, 0));
    search.offer(queued(9, 1));
    search.offer(queued(7, 2));
    search.offer(queued(9, 3));
    search.offer(queued(0, 4));
    assert_eq!(search.len(), 4);
    // The last queued of the best wins a tie.
    assert_eq!(search.pop().unwrap().rule, 3);
    assert_eq!(search.pop().unwrap().rule, 1);
    assert_eq!(search.pop().unwrap().rule, 2);
    assert_eq!(search.pop().unwrap().rule, 0);
    assert!(search.pop().is_none());
}

#[test]
fn search_floor_prunes() {
    let mut search = Search::new(6);
    search.offer(queued(5, 0));
    search.offer(queued(8, 1));
    search.offer(queued(12, 2));
    assert_eq!(search.len(), 2);
    assert!(!search.raise(3));
    assert_eq!(search.floor(), 6);
    assert!(search.raise(10));
    assert_eq!(search.floor(), 10);
    assert_eq!(search.len(), 1);
    assert_eq!(search.pop().unwrap().bound, 12);
    search.offer(queued(10, 5));
    assert_eq!(search.len(), 1);
}

#[test]
fn furthest_list_adopts_the_further_scan() {
    let mut list = FurthestList::new();
    assert!(list.get(4).is_none());
    // A scan up to 3 found fix 1 at distance 50.
    assert_eq!(list.insert(1, 3, 50), (1, 50));
    let (e, covered) = list.get(3).unwrap();
    assert_eq!((e.start, e.stop, e.distance, covered), (1, 3, 50, true));
    // Resumed up to 4, the new stretch found fix 4 nearer: fix 1 is kept, its bound grown.
    assert_eq!(list.insert(4, 4, 20), (1, 50));
    let (e, covered) = list.get(4).unwrap();
    assert_eq!((e.start, e.stop, covered), (1, 4, true));
    // Up to 6, fix 6 lies further: a second entry.
    assert_eq!(list.insert(6, 6, 90), (6, 90));
    let (e, _) = list.get(6).unwrap();
    assert_eq!(e.start, 6);
    let (e, covered) = list.get(5).unwrap();
    assert_eq!((e.start, covered), (1, false));
    assert!(list.get(0).is_none());
}

#[test]
fn band_rows_by_latitude() {
    assert_eq!(Band::of(0).row(), 0);
    assert_eq!(Band::of(19).row(), 0);
    assert_eq!(Band::of(20).row(), 1);
    assert_eq!(Band::of(45).row(), 3);
    assert_eq!(Band::of(79).row(), 6);
    assert_eq!(Band::of(90).row(), 6);
}

#[test]
fn band_columns_by_distance() {
    assert_eq!(Band::column(0), 0);
    assert_eq!(Band::column(50_000_000), 0);
    assert_eq!(Band::column(50_000_001), 1);
    assert_eq!(Band::column(120_000_000), 3);
    assert_eq!(Band::column(2_000_000_000), 10);
    assert_eq!(Band::column(2_000_000_001), 11);
    assert_eq!(Band::column(u64::MAX), 11);
}

fn box_points() -> Vec<[i64; 2]> {
    vec![[0, 0], [1, 3], [4, 1], [2, 2], [5, 5]]
}

#[test]
fn bbox_correct_coverage() {
    let p = box_points();
    let mut cache = BoxCache::new();

    let b = cache.bbox(&p, &[1, 3]);

    assert_eq!(b.min, [1, 1]);
    assert_eq!(b.max, [4, 3]);
}

#[test]
fn bbox_cache_hit() {
    let p = box_points();
    let mut cache = BoxCache::new();

    let first = cache.bbox(&p, &[0, 2]);
    let second = cache.bbox(&p, &[0, 2]);

    assert_eq!(first, second);
    assert_eq!(cache.len(), 1);
}

#[test]
fn bbox_cache_miss() {
    let p = box_points();
    let mut cache = BoxCache::new();

    cache.bbox(&p, &[0, 2]);
    cache.bbox(&p, &[2, 4]);

    assert_eq!(cache.len(), 2);
}

#[test]
fn bbox_get_point() {
    let p = box_points();
    let mut cache = BoxCache::new();

    let b = cache.bbox(&p, &[2, 2]);

    assert_eq!(b.min, p[2]);
    assert_eq!(b.max, p[2]);
}

#[test]
fn bbox_cache_answers_what_it_stored() {
    let p = box_points();
    let mut cache = BoxCache::new();

    let whole = cache.bbox(&p, &[0, 4]);
    assert_eq!(whole.min, [0, 0]);
    assert_eq!(whole.max, [5, 5]);
    // A different track under the same range answers the stored box: the cache belongs to one track.
    let other = vec![[9, 9]; 5];
    assert_eq!(cache.bbox(&other, &[0, 4]), whole);
    assert_eq!(cache.len(), 1);
}

#[test]
fn closing_limit_is_exact_below_a_millimetre() {
    // 5 % of 19_990 mm is 999.5 mm: a gap of 999 mm closes, one of 1000 mm does not.
    let five = Closing::new(Limit::Nothing, Limit::Ratio(50));
    assert_eq!(five.limit(19_990), 999_500);
    assert_eq!(five.penalty(19_990, 999), Some(999));
    assert_eq!(five.penalty(19_990, 1000), None);
    // At exactly the limit the gap still closes.
    assert_eq!(five.penalty(20_000, 1000), Some(1000));
}

#[test]
fn search_next_reports_leaves_and_splits_the_rest() {
    let mut search = Search::new(0);
    let leaf = Candidate { ranges: vec![[3, 3], [5, 5]], leaf: true };
    search.offer(Solution { bound: 9, candidate: leaf, rule: 1 });
    search.offer(queued(4, 0));
    match search.next() {
        Step::Report(s) => assert_eq!(s.rule, 1),
        other => panic!("expected a report, got {other:?}"),
    }
    match search.next() {
        Step::Split(s) => assert_eq!(s.rule, 0),
        other => panic!("expected a split, got {other:?}"),
    }
    assert!(matches!(search.next(), Step::Exhausted));
}
