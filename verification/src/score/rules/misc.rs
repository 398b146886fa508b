//! Single-rule leagues, each exercising one geometry on its own: nothing charged and no minimum,
//! except for the out-and-return, charged in full out to 10 % of the distance.

use vstd::prelude::*;

use crate::score::rules::{
    rule_view, rules_view, single, Closing, LeagueInfo, Limit, Rule, RuleDescription,
    RuleGeometry, ScoringRule, ScoringRuleView, Variant, VariantKind,
};
use crate::score::shapes::{ClosedCircuit, OpenPolyline};

verus! {

pub struct TwoTurnpoints;

impl LeagueInfo for TwoTurnpoints {
    open spec fn spec_name(&self) -> &'static str {
        "2tp"
    }

    open spec fn spec_rules(&self) -> Seq<ScoringRuleView> {
        seq![rule_view(FreeDistance2)]
    }

    fn name(&self) -> (n: &'static str) {
        "2tp"
    }

    fn rules(&self) -> (r: Vec<ScoringRule>) {
        let mut r = Vec::new();
        r.push(FreeDistance2.scoring_rule());
        assert(rules_view(r@) =~= self.spec_rules());
        r
    }
}

#[derive(Debug)]
pub struct FreeDistance2;

impl RuleGeometry for FreeDistance2 {
    type Shape = OpenPolyline<4>;
}

impl RuleDescription for FreeDistance2 {
    open spec fn spec_variants(&self) -> Seq<Variant> {
        seq![
            Variant { name: "2 turnpoints free distance", multiplier: 1000, kind: VariantKind::Open },
        ]
    }

    open spec fn spec_minimum(&self) -> u128 {
        0
    }

    open spec fn spec_league(&self) -> &'static str {
        "2tp"
    }

    fn variants(&self) -> (v: Vec<Variant>) {
        single(Variant { name: "2 turnpoints free distance", multiplier: 1000, kind: VariantKind::Open })
    }

    fn minimum(&self) -> (m: u128) {
        0
    }

    fn league(&self) -> (l: &'static str) {
        "2tp"
    }
}

pub struct OneTurnpoint;

impl LeagueInfo for OneTurnpoint {
    open spec fn spec_name(&self) -> &'static str {
        "1tp"
    }

    open spec fn spec_rules(&self) -> Seq<ScoringRuleView> {
        seq![rule_view(FreeDistance1)]
    }

    fn name(&self) -> (n: &'static str) {
        "1tp"
    }

    fn rules(&self) -> (r: Vec<ScoringRule>) {
        let mut r = Vec::new();
        r.push(FreeDistance1.scoring_rule());
        assert(rules_view(r@) =~= self.spec_rules());
        r
    }
}

#[derive(Debug)]
pub struct FreeDistance1;

impl RuleGeometry for FreeDistance1 {
    type Shape = OpenPolyline<3>;
}

impl RuleDescription for FreeDistance1 {
    open spec fn spec_variants(&self) -> Seq<Variant> {
        seq![
            Variant { name: "1 turnpoint free distance", multiplier: 1000, kind: VariantKind::Open },
        ]
    }

    open spec fn spec_minimum(&self) -> u128 {
        0
    }

    open spec fn spec_league(&self) -> &'static str {
        "1tp"
    }

    fn variants(&self) -> (v: Vec<Variant>) {
        single(Variant { name: "1 turnpoint free distance", multiplier: 1000, kind: VariantKind::Open })
    }

    fn minimum(&self) -> (m: u128) {
        0
    }

    fn league(&self) -> (l: &'static str) {
        "1tp"
    }
}

pub struct Line;

impl LeagueInfo for Line {
    open spec fn spec_name(&self) -> &'static str {
        "line"
    }

    open spec fn spec_rules(&self) -> Seq<ScoringRuleView> {
        seq![rule_view(StraightDistance)]
    }

    fn name(&self) -> (n: &'static str) {
        "line"
    }

    fn rules(&self) -> (r: Vec<ScoringRule>) {
        let mut r = Vec::new();
        r.push(StraightDistance.scoring_rule());
        assert(rules_view(r@) =~= self.spec_rules());
        r
    }
}

/// The two furthest-apart fixes of the flight.
#[derive(Debug)]
pub struct StraightDistance;

impl RuleGeometry for StraightDistance {
    type Shape = OpenPolyline<2>;
}

impl RuleDescription for StraightDistance {
    open spec fn spec_variants(&self) -> Seq<Variant> {
        seq![
            Variant { name: "straight distance", multiplier: 1000, kind: VariantKind::Open },
        ]
    }

    open spec fn spec_minimum(&self) -> u128 {
        0
    }

    open spec fn spec_league(&self) -> &'static str {
        "line"
    }

    fn variants(&self) -> (v: Vec<Variant>) {
        single(Variant { name: "straight distance", multiplier: 1000, kind: VariantKind::Open })
    }

    fn minimum(&self) -> (m: u128) {
        0
    }

    fn league(&self) -> (l: &'static str) {
        "line"
    }
}

/// Charged in full out to 10 % of the distance.
pub open spec fn oar_closing() -> Closing {
    Closing { free: Limit::Nothing, charged: Limit::Ratio(100) }
}

pub struct Oar;

impl LeagueInfo for Oar {
    open spec fn spec_name(&self) -> &'static str {
        "oar"
    }

    open spec fn spec_rules(&self) -> Seq<ScoringRuleView> {
        seq![rule_view(OutAndReturn)]
    }

    fn name(&self) -> (n: &'static str) {
        "oar"
    }

    fn rules(&self) -> (r: Vec<ScoringRule>) {
        let mut r = Vec::new();
        r.push(OutAndReturn.scoring_rule());
        assert(rules_view(r@) =~= self.spec_rules());
        r
    }
}

#[derive(Debug)]
pub struct OutAndReturn;

impl RuleGeometry for OutAndReturn {
    type Shape = ClosedCircuit<2>;
}

impl RuleDescription for OutAndReturn {
    open spec fn spec_variants(&self) -> Seq<Variant> {
        seq![
            Variant { name: "out and return", multiplier: 1000, kind: VariantKind::Closing(oar_closing()) },
        ]
    }

    open spec fn spec_minimum(&self) -> u128 {
        0
    }

    open spec fn spec_league(&self) -> &'static str {
        "oar"
    }

    fn variants(&self) -> (v: Vec<Variant>) {
        single(Variant { name: "out and return", multiplier: 1000, kind: VariantKind::Closing(Closing::new(Limit::Nothing, Limit::Ratio(100))) })
    }

    fn minimum(&self) -> (m: u128) {
        0
    }

    fn league(&self) -> (l: &'static str) {
        "oar"
    }
}

} // verus!
