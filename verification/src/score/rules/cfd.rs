//! CFD scoring rules (FFVL distance competitions).
//!
//! Minimum score: 15 points. A gap up to 3 km is free, a gap up to 5 % of the distance is charged
//! in full, a larger one does not close.
//!
//! - Distance 3 points: polyline through 3 turnpoints, ×1.0.
//! - Triangle plat: closed circuit through 3 turnpoints, ×1.2.
//! - Triangle FAI: the same, its shortest side at least 28 % of the total, ×1.4.

use vstd::prelude::*;

use crate::score::rules::{
    rule_view, rules_view, single, Closing, LeagueInfo, Limit, Rule, RuleDescription,
    RuleGeometry, ScoringRule, ScoringRuleView, Variant, VariantKind,
};
use crate::score::shapes::{BalancedCircuit, ClosedCircuit, OpenPolyline};

verus! {

/// Least score that counts: 15 points, 15 km at ×1.0, in micrometres.
pub const CFD_MINIMUM: u128 = 15_000_000_000;

/// 3 km free, then charged in full out to 5 % of the distance.
pub open spec fn cfd_closing() -> Closing {
    Closing { free: Limit::Fixed(3_000_000), charged: Limit::Ratio(50) }
}

pub struct Cfd;

impl LeagueInfo for Cfd {
    open spec fn spec_name(&self) -> &'static str {
        "cfd"
    }

    open spec fn spec_rules(&self) -> Seq<ScoringRuleView> {
        seq![rule_view(Distance3Points), rule_view(TrianglePlat), rule_view(TriangleFai)]
    }

    fn name(&self) -> (n: &'static str) {
        "cfd"
    }

    fn rules(&self) -> (r: Vec<ScoringRule>) {
        let mut r = Vec::new();
        r.push(Distance3Points.scoring_rule());
        r.push(TrianglePlat.scoring_rule());
        r.push(TriangleFai.scoring_rule());
        assert(rules_view(r@) =~= self.spec_rules());
        r
    }
}

#[derive(Debug)]
pub struct Distance3Points;

impl RuleGeometry for Distance3Points {
    type Shape = OpenPolyline<5>;
}

impl RuleDescription for Distance3Points {
    open spec fn spec_variants(&self) -> Seq<Variant> {
        seq![
            Variant { name: "distance 3 points", multiplier: 1000, kind: VariantKind::Open },
        ]
    }

    open spec fn spec_minimum(&self) -> u128 {
        CFD_MINIMUM
    }

    open spec fn spec_league(&self) -> &'static str {
        "cfd"
    }

    fn variants(&self) -> (v: Vec<Variant>) {
        single(Variant { name: "distance 3 points", multiplier: 1000, kind: VariantKind::Open })
    }

    fn minimum(&self) -> (m: u128) {
        CFD_MINIMUM
    }

    fn league(&self) -> (l: &'static str) {
        "cfd"
    }
}

#[derive(Debug)]
pub struct TrianglePlat;

impl RuleGeometry for TrianglePlat {
    type Shape = ClosedCircuit<3>;
}

impl RuleDescription for TrianglePlat {
    open spec fn spec_variants(&self) -> Seq<Variant> {
        seq![
            Variant { name: "triangle plat", multiplier: 1200, kind: VariantKind::Closing(cfd_closing()) },
        ]
    }

    open spec fn spec_minimum(&self) -> u128 {
        CFD_MINIMUM
    }

    open spec fn spec_league(&self) -> &'static str {
        "cfd"
    }

    fn variants(&self) -> (v: Vec<Variant>) {
        single(Variant { name: "triangle plat", multiplier: 1200, kind: VariantKind::Closing(Closing::new(Limit::Fixed(3_000_000), Limit::Ratio(50))) })
    }

    fn minimum(&self) -> (m: u128) {
        CFD_MINIMUM
    }

    fn league(&self) -> (l: &'static str) {
        "cfd"
    }
}

#[derive(Debug)]
pub struct TriangleFai;

impl RuleGeometry for TriangleFai {
    type Shape = BalancedCircuit<3, 280>;
}

impl RuleDescription for TriangleFai {
    open spec fn spec_variants(&self) -> Seq<Variant> {
        seq![
            Variant { name: "triangle fai", multiplier: 1400, kind: VariantKind::Closing(cfd_closing()) },
        ]
    }

    open spec fn spec_minimum(&self) -> u128 {
        CFD_MINIMUM
    }

    open spec fn spec_league(&self) -> &'static str {
        "cfd"
    }

    fn variants(&self) -> (v: Vec<Variant>) {
        single(Variant { name: "triangle fai", multiplier: 1400, kind: VariantKind::Closing(Closing::new(Limit::Fixed(3_000_000), Limit::Ratio(50))) })
    }

    fn minimum(&self) -> (m: u128) {
        CFD_MINIMUM
    }

    fn league(&self) -> (l: &'static str) {
        "cfd"
    }
}

} // verus!
