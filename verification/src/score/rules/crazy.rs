//! Heavy rules whose only purpose is to exercise the search at other cardinalities. They are not
//! in the registry.

use vstd::prelude::*;

use crate::score::rules::{
    rule_view, rules_view, single, Closing, LeagueInfo, Limit, Rule, RuleDescription,
    RuleGeometry, ScoringRule, ScoringRuleView, Variant, VariantKind,
};
use crate::score::shapes::{ClosedCircuit, OpenPolyline};

verus! {

/// Charged in full out to 10 % of the distance.
pub open spec fn crazy_closing() -> Closing {
    Closing { free: Limit::Nothing, charged: Limit::Ratio(100) }
}

pub struct Crazy;

impl LeagueInfo for Crazy {
    open spec fn spec_name(&self) -> &'static str {
        "misc4tp"
    }

    open spec fn spec_rules(&self) -> Seq<ScoringRuleView> {
        seq![rule_view(FreeDistance4TP), rule_view(Quad)]
    }

    fn name(&self) -> (n: &'static str) {
        "misc4tp"
    }

    fn rules(&self) -> (r: Vec<ScoringRule>) {
        let mut r = Vec::new();
        r.push(FreeDistance4TP.scoring_rule());
        r.push(Quad.scoring_rule());
        assert(rules_view(r@) =~= self.spec_rules());
        r
    }
}

#[derive(Debug)]
pub struct FreeDistance4TP;

impl RuleGeometry for FreeDistance4TP {
    type Shape = OpenPolyline<6>;
}

impl RuleDescription for FreeDistance4TP {
    open spec fn spec_variants(&self) -> Seq<Variant> {
        seq![
            Variant { name: "free distance 4 turnpoints", multiplier: 1000, kind: VariantKind::Open },
        ]
    }

    open spec fn spec_minimum(&self) -> u128 {
        0
    }

    open spec fn spec_league(&self) -> &'static str {
        "misc4tp"
    }

    fn variants(&self) -> (v: Vec<Variant>) {
        single(Variant { name: "free distance 4 turnpoints", multiplier: 1000, kind: VariantKind::Open })
    }

    fn minimum(&self) -> (m: u128) {
        0
    }

    fn league(&self) -> (l: &'static str) {
        "misc4tp"
    }
}

#[derive(Debug)]
pub struct Quad;

impl RuleGeometry for Quad {
    type Shape = ClosedCircuit<4>;
}

impl RuleDescription for Quad {
    open spec fn spec_variants(&self) -> Seq<Variant> {
        seq![
            Variant { name: "quadrilateral circuit", multiplier: 1200, kind: VariantKind::Closing(crazy_closing()) },
        ]
    }

    open spec fn spec_minimum(&self) -> u128 {
        0
    }

    open spec fn spec_league(&self) -> &'static str {
        "misc4tp"
    }

    fn variants(&self) -> (v: Vec<Variant>) {
        single(Variant { name: "quadrilateral circuit", multiplier: 1200, kind: VariantKind::Closing(Closing::new(Limit::Nothing, Limit::Ratio(100))) })
    }

    fn minimum(&self) -> (m: u128) {
        0
    }

    fn league(&self) -> (l: &'static str) {
        "misc4tp"
    }
}

} // verus!
