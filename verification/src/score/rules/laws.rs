//! What holds of every league: distinct names, each reaching its own rules, and scores that never
//! grow with the gap nor shrink with the distance, which is what lets the search prune.

use vstd::prelude::*;

use crate::score::rules::{
    closing_limit, closing_penalty, find_league, kind_accepts, kind_penalty, league_table,
    limit_of, net_distance, pick_from, spec_league_names, spec_league_rules, spec_pick,
    spec_score, variant_score, Closing, Limit, ScoringRuleView, Variant, VariantKind,
};
use crate::score::shapes::well_formed;

verus! {

/// `a` charges no more than `b`, a gap that does not close charging more than any other.
pub open spec fn charge_le(a: Option<u64>, b: Option<u64>) -> bool {
    match (a, b) {
        (_, None) => true,
        (None, Some(_)) => false,
        (Some(x), Some(y)) => x <= y,
    }
}

proof fn lemma_limit_grows(l: Limit, d1: u64, d2: u64)
    requires
        d1 <= d2,
    ensures
        limit_of(l, d1) <= limit_of(l, d2),
{
    if let Limit::Ratio(s) = l {
        assert(s * d1 <= s * d2) by (nonlinear_arith)
            requires
                d1 <= d2,
        ;
    }
}

proof fn lemma_kind_penalty_order(k: VariantKind, d1: u64, d2: u64, g1: u64, g2: u64)
    requires
        d1 <= d2,
        g2 <= g1,
    ensures
        charge_le(kind_penalty(k, d2, g2), kind_penalty(k, d1, g1)),
{
    if let VariantKind::Closing(c) = k {
        lemma_limit_grows(c.free, d1, d2);
        lemma_limit_grows(c.charged, d1, d2);
    }
}

/// A longer distance and a smaller gap never score less under one variant.
proof fn lemma_variant_score_order(v: Variant, d1: u64, d2: u64, g1: u64, g2: u64)
    requires
        d1 <= d2,
        g2 <= g1,
    ensures
        variant_score(v, d1, g1) <= variant_score(v, d2, g2),
{
    lemma_kind_penalty_order(v.kind, d1, d2, g1, g2);
    let n1 = net_distance(kind_penalty(v.kind, d1, g1), d1);
    let n2 = net_distance(kind_penalty(v.kind, d2, g2), d2);
    assert(0 <= n1 <= n2);
    let m = v.multiplier as int;
    assert(n1 * m <= n2 * m) by (nonlinear_arith)
        requires
            0 <= n1 <= n2,
            0 <= m,
    ;
}

/// What a variant accepts at some distance and gap it accepts at any longer distance and smaller
/// gap.
proof fn lemma_accepts_down(k: VariantKind, d1: u64, d2: u64, g1: u64, g2: u64)
    requires
        d1 <= d2,
        g2 <= g1,
        kind_accepts(k, d1, g1),
    ensures
        kind_accepts(k, d2, g2),
{
    if let VariantKind::Closing(c) = k {
        lemma_limit_grows(c.free, d1, d2);
        lemma_limit_grows(c.charged, d1, d2);
    }
}

/// Two variants that both charge the full gap, the first closing within a smaller share for a
/// better rate.
pub open spec fn ladder(a: Variant, b: Variant) -> bool {
    &&& a.kind matches VariantKind::Closing(ca) && ca.free == Limit::Nothing
    &&& b.kind matches VariantKind::Closing(cb) && cb.free == Limit::Nothing
    &&& a.kind->Closing_0.charged matches Limit::Ratio(ra)
    &&& b.kind->Closing_0.charged matches Limit::Ratio(rb)
    &&& ra <= rb
    &&& a.multiplier >= b.multiplier
}

proof fn lemma_ladder_step(a: Variant, b: Variant, d: u64, g: u64)
    requires
        ladder(a, b),
        kind_accepts(a.kind, d, g),
    ensures
        variant_score(b, d, g) <= variant_score(a, d, g),
{
    let ca = a.kind->Closing_0;
    let cb = b.kind->Closing_0;
    let ra = ca.charged->Ratio_0;
    let rb = cb.charged->Ratio_0;
    assert(ra * d <= rb * d) by (nonlinear_arith)
        requires
            ra <= rb,
    ;
    vstd::arithmetic::div_mod::lemma_div_is_ordered(ra * d, rb * d, 1000);
    let n = net_distance(kind_penalty(a.kind, d, g), d);
    assert(net_distance(kind_penalty(b.kind, d, g), d) == n);
    assert(n >= 0);
    assert(n * b.multiplier <= n * a.multiplier) by (nonlinear_arith)
        requires
            n >= 0,
            b.multiplier <= a.multiplier,
    ;
}

/// One variant alone prices monotonically, whatever it charges.
proof fn lemma_single_order(v: Variant, d1: u64, d2: u64, g1: u64, g2: u64)
    requires
        d1 <= d2,
        g2 <= g1,
    ensures
        spec_score(seq![v], d1, g1) <= spec_score(seq![v], d2, g2),
{
    assert(spec_pick(seq![v], d1, g1) == 0);
    assert(spec_pick(seq![v], d2, g2) == 0);
    lemma_variant_score_order(v, d1, d2, g1, g2);
}

/// A ladder of two variants prices monotonically.
proof fn lemma_pair_order(a: Variant, b: Variant, d1: u64, d2: u64, g1: u64, g2: u64)
    requires
        ladder(a, b),
        d1 <= d2,
        g2 <= g1,
    ensures
        spec_score(seq![a, b], d1, g1) <= spec_score(seq![a, b], d2, g2),
{
    let vs = seq![a, b];
    reveal_with_fuel(pick_from, 3);
    if kind_accepts(a.kind, d1, g1) {
        lemma_accepts_down(a.kind, d1, d2, g1, g2);
        lemma_variant_score_order(a, d1, d2, g1, g2);
    } else if kind_accepts(a.kind, d2, g2) {
        lemma_variant_score_order(b, d1, d2, g1, g2);
        lemma_ladder_step(a, b, d2, g2);
    } else {
        lemma_variant_score_order(b, d1, d2, g1, g2);
    }
}

/// The league names are pairwise distinct, so each reaches its own league.
pub proof fn lemma_league_names_distinct()
    ensures
        forall|i: int, j: int|
            0 <= i < j < spec_league_names().len() ==> (#[trigger] spec_league_names()[i])@
                != (#[trigger] spec_league_names()[j])@,
{
    reveal_strlit("cfd");
    reveal_strlit("xcontest");
    reveal_strlit("1tp");
    reveal_strlit("2tp");
    reveal_strlit("line");
    reveal_strlit("oar");
    let n = spec_league_names();
    assert(n =~= seq!["cfd", "xcontest", "1tp", "2tp", "line", "oar"]);
    assert forall|i: int, j: int| 0 <= i < j < n.len() implies (#[trigger] n[i])@ != (
    #[trigger] n[j])@ by {
        assert(n[i]@.len() != n[j]@.len() || n[i]@[0] != n[j]@[0]);
    }
}

/// Every listed league is reached by its own name, scores by at least one rule, and every rule
/// prices through at least one variant over a geometry the search can build.
pub proof fn lemma_leagues_reachable(i: int)
    requires
        0 <= i < spec_league_names().len(),
    ensures
        spec_league_rules(spec_league_names()[i]@) == Some(league_table()[i].1),
        league_table()[i].1.len() > 0,
        forall|j: int|
            0 <= j < league_table()[i].1.len() ==> (#[trigger] league_table()[i].1[j]).variants.len()
                > 0 && well_formed(league_table()[i].1[j].geometry),
{
    lemma_league_names_distinct();
    lemma_found_at(i, 0);
}

proof fn lemma_found_at(i: int, k: int)
    requires
        0 <= k <= i < spec_league_names().len(),
        forall|a: int, b: int|
            0 <= a < b < spec_league_names().len() ==> (#[trigger] spec_league_names()[a])@
                != (#[trigger] spec_league_names()[b])@,
    ensures
        find_league(spec_league_names()[i]@, k) == Some(league_table()[i].1),
    decreases i - k,
{
    assert(spec_league_names()[k] == league_table()[k].0);
    assert(spec_league_names()[i] == league_table()[i].0);
    if k < i {
        assert(spec_league_names()[k]@ != spec_league_names()[i]@);
        lemma_found_at(i, k + 1);
    }
}

/// Every rule of every league scores monotonically: a longer distance never scores less, and a
/// larger gap never scores more. The search prunes on this: the largest distance against the
/// smallest gap bounds everything below it, and a gap of nothing is the most a rule can be given.
pub proof fn lemma_scores_monotone(
    name: Seq<char>,
    rules: Seq<ScoringRuleView>,
    j: int,
    d1: u64,
    d2: u64,
    g1: u64,
    g2: u64,
)
    requires
        spec_league_rules(name) == Some(rules),
        0 <= j < rules.len(),
        d1 <= d2,
        g2 <= g1,
    ensures
        spec_score(rules[j].variants, d1, g1) <= spec_score(rules[j].variants, d2, g2),
{
    reveal_with_fuel(find_league, 7);
    let t = league_table();
    let k: int = if t[0].0@ == name {
        0
    } else if t[1].0@ == name {
        1
    } else if t[2].0@ == name {
        2
    } else if t[3].0@ == name {
        3
    } else if t[4].0@ == name {
        4
    } else {
        5
    };
    assert(rules == t[k].1);
    let vs = rules[j].variants;
    if vs.len() == 1 {
        assert(vs =~= seq![vs[0]]);
        lemma_single_order(vs[0], d1, d2, g1, g2);
    } else {
        assert(vs.len() == 2);
        assert(vs =~= seq![vs[0], vs[1]]);
        assert(ladder(vs[0], vs[1]));
        lemma_pair_order(vs[0], vs[1], d1, d2, g1, g2);
    }
}

} // verus!
