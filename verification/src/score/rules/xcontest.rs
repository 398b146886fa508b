//! XContest scoring rules.
//!
//! No minimum score. Gaps are charged in full, and a gap over 20 % of the distance does not
//! close. Both triangles come in two variants, on the gap as a share of the distance: up to 5 %
//! the closed variant and its better multiplier, up to 20 % the open one.
//!
//! - Free flight: polyline through 3 turnpoints, ×1.0.
//! - Free triangle: closed circuit through 3 turnpoints, ×1.4 closed, ×1.2 open.
//! - FAI triangle: the same, its shortest side at least 28 % of the total, ×1.6 closed, ×1.4 open.

use vstd::prelude::*;

use crate::score::rules::{
    pair, rule_view, rules_view, single, Closing, LeagueInfo, Limit, Rule, RuleDescription,
    RuleGeometry, ScoringRule, ScoringRuleView, Variant, VariantKind,
};
use crate::score::shapes::{BalancedCircuit, ClosedCircuit, OpenPolyline};

verus! {

pub struct Xcontest;

/// A circuit closing this tightly counts as closed and pays the better rate.
pub open spec fn xcontest_closed() -> Closing {
    Closing { free: Limit::Nothing, charged: Limit::Ratio(50) }
}

/// Above the closed share a circuit still counts, at the open rate, out to this one.
pub open spec fn xcontest_open() -> Closing {
    Closing { free: Limit::Nothing, charged: Limit::Ratio(200) }
}

impl LeagueInfo for Xcontest {
    open spec fn spec_name(&self) -> &'static str {
        "xcontest"
    }

    open spec fn spec_rules(&self) -> Seq<ScoringRuleView> {
        seq![rule_view(FreeFlight), rule_view(FreeTriangle), rule_view(FaiTriangle)]
    }

    fn name(&self) -> (n: &'static str) {
        "xcontest"
    }

    fn rules(&self) -> (r: Vec<ScoringRule>) {
        let mut r = Vec::new();
        r.push(FreeFlight.scoring_rule());
        r.push(FreeTriangle.scoring_rule());
        r.push(FaiTriangle.scoring_rule());
        assert(rules_view(r@) =~= self.spec_rules());
        r
    }
}

#[derive(Debug)]
pub struct FreeFlight;

impl RuleGeometry for FreeFlight {
    type Shape = OpenPolyline<5>;
}

impl RuleDescription for FreeFlight {
    open spec fn spec_variants(&self) -> Seq<Variant> {
        seq![Variant { name: "free flight", multiplier: 1000, kind: VariantKind::Open }]
    }

    open spec fn spec_minimum(&self) -> u128 {
        0
    }

    open spec fn spec_league(&self) -> &'static str {
        "xcontest"
    }

    fn variants(&self) -> (v: Vec<Variant>) {
        single(Variant { name: "free flight", multiplier: 1000, kind: VariantKind::Open })
    }

    fn minimum(&self) -> (m: u128) {
        0
    }

    fn league(&self) -> (l: &'static str) {
        "xcontest"
    }
}

#[derive(Debug)]
pub struct FreeTriangle;

impl RuleGeometry for FreeTriangle {
    type Shape = ClosedCircuit<3>;
}

impl RuleDescription for FreeTriangle {
    open spec fn spec_variants(&self) -> Seq<Variant> {
        seq![
            Variant {
                name: "closed free triangle",
                multiplier: 1400,
                kind: VariantKind::Closing(xcontest_closed()),
            },
            Variant {
                name: "free triangle",
                multiplier: 1200,
                kind: VariantKind::Closing(xcontest_open()),
            },
        ]
    }

    open spec fn spec_minimum(&self) -> u128 {
        0
    }

    open spec fn spec_league(&self) -> &'static str {
        "xcontest"
    }

    fn variants(&self) -> (v: Vec<Variant>) {
        pair(
            Variant {
                name: "closed free triangle",
                multiplier: 1400,
                kind: VariantKind::Closing(Closing::new(Limit::Nothing, Limit::Ratio(50))),
            },
            Variant {
                name: "free triangle",
                multiplier: 1200,
                kind: VariantKind::Closing(Closing::new(Limit::Nothing, Limit::Ratio(200))),
            },
        )
    }

    fn minimum(&self) -> (m: u128) {
        0
    }

    fn league(&self) -> (l: &'static str) {
        "xcontest"
    }
}

#[derive(Debug)]
pub struct FaiTriangle;

impl RuleGeometry for FaiTriangle {
    type Shape = BalancedCircuit<3, 280>;
}

impl RuleDescription for FaiTriangle {
    open spec fn spec_variants(&self) -> Seq<Variant> {
        seq![
            Variant {
                name: "closed fai triangle",
                multiplier: 1600,
                kind: VariantKind::Closing(xcontest_closed()),
            },
            Variant {
                name: "fai triangle",
                multiplier: 1400,
                kind: VariantKind::Closing(xcontest_open()),
            },
        ]
    }

    open spec fn spec_minimum(&self) -> u128 {
        0
    }

    open spec fn spec_league(&self) -> &'static str {
        "xcontest"
    }

    fn variants(&self) -> (v: Vec<Variant>) {
        pair(
            Variant {
                name: "closed fai triangle",
                multiplier: 1600,
                kind: VariantKind::Closing(Closing::new(Limit::Nothing, Limit::Ratio(50))),
            },
            Variant {
                name: "fai triangle",
                multiplier: 1400,
                kind: VariantKind::Closing(Closing::new(Limit::Nothing, Limit::Ratio(200))),
            },
        )
    }

    fn minimum(&self) -> (m: u128) {
        0
    }

    fn league(&self) -> (l: &'static str) {
        "xcontest"
    }
}

} // verus!
