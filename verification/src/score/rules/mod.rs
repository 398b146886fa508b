//! Rules: what a league scores, and over which geometry.
//!
//! Distances and gaps are whole millimetres, shares per mille, multipliers per mille; a gap limit
//! is micrometres, a share of millimetres held exactly. A score is
//! the distance net of the penalty times the multiplier: millimetres per mille, so micrometres.
//! One file per league; a league's numbers belong in that file and nowhere else.

pub mod cfd;
pub mod crazy;
pub mod laws;
pub mod misc;
pub mod prices;
pub mod xcontest;

use vstd::prelude::*;

use crate::error::ScoreError;
use crate::score::rules::cfd::Cfd;
use crate::score::rules::misc::{Line, Oar, OneTurnpoint, TwoTurnpoints};
use crate::score::rules::xcontest::Xcontest;
use crate::score::shapes::{spec_cardinality, well_formed, Geometry, ShapeKind};
use crate::text::same_text;

verus! {

// ============= Pricing =============

/// A gap limit, as a rulebook states it.
#[derive(Debug, Clone, Copy, PartialEq, Eq)]
pub enum Limit {
    /// No allowance: nothing is free, or nothing closes once charged.
    Nothing,
    /// An absolute distance, in millimetres.
    Fixed(u64),
    /// A share of the distance, per mille.
    Ratio(u64),
}

/// What a limit comes to against a `distance` in millimetres, in micrometres: exactly, a share
/// per mille of millimetres being micrometres.
pub open spec fn limit_of(l: Limit, distance: u64) -> int {
    match l {
        Limit::Nothing => 0,
        Limit::Fixed(mm) => mm * 1000,
        Limit::Ratio(share) => share * distance,
    }
}

/// Whether a gap of `gap` millimetres lies within a limit of `limit` micrometres.
pub open spec fn within(gap: u64, limit: int) -> bool {
    gap * 1000 <= limit
}

impl Limit {
    /// What the limit comes to against `distance` millimetres, in micrometres, exactly.
    pub fn of(&self, distance: u64) -> (r: u128)
        ensures
            r == limit_of(*self, distance),
    {
        match *self {
            Limit::Nothing => 0,
            Limit::Fixed(mm) => (mm as u128) * 1000,
            Limit::Ratio(share) => {
                assert(share * distance <= u128::MAX) by (nonlinear_arith);
                (share as u128) * (distance as u128)
            },
        }
    }
}

/// A closing law: a gap up to `free` costs nothing, a gap up to `charged` costs itself, and a
/// larger one does not close.
#[derive(Debug, Clone, Copy, PartialEq, Eq)]
pub struct Closing {
    /// Gap allowed free of charge.
    pub free: Limit,
    /// Largest gap that closes once charged in full.
    pub charged: Limit,
}

/// Largest gap a closing law accepts against `distance`, in micrometres: a free gap closes whatever `charged`
/// says, hence the larger of the two.
pub open spec fn closing_limit(c: Closing, distance: u64) -> int {
    let f = limit_of(c.free, distance);
    let k = limit_of(c.charged, distance);
    if f >= k {
        f
    } else {
        k
    }
}

/// What a gap costs under a closing law; `None` for a gap it does not accept.
pub open spec fn closing_penalty(c: Closing, distance: u64, gap: u64) -> Option<u64> {
    if within(gap, limit_of(c.free, distance)) {
        Some(0)
    } else if within(gap, limit_of(c.charged, distance)) {
        Some(gap)
    } else {
        None
    }
}

impl Closing {
    pub fn new(free: Limit, charged: Limit) -> (c: Closing)
        ensures
            c == (Closing { free, charged }),
    {
        Closing { free, charged }
    }

    /// Largest gap this law accepts, in micrometres, against the raw distance.
    pub fn limit(&self, distance: u64) -> (r: u128)
        ensures
            r == closing_limit(*self, distance),
    {
        let f = self.free.of(distance);
        let k = self.charged.of(distance);
        if f >= k {
            f
        } else {
            k
        }
    }

    /// Charge for the gap; `None` for a gap this law does not accept.
    pub fn penalty(&self, distance: u64, gap: u64) -> (r: Option<u64>)
        ensures
            r == closing_penalty(*self, distance, gap),
    {
        if (gap as u128) * 1000 <= self.free.of(distance) {
            Some(0)
        } else if (gap as u128) * 1000 <= self.charged.of(distance) {
            Some(gap)
        } else {
            None
        }
    }
}

/// How a variant treats the closing leg.
#[derive(Debug, Clone, Copy, PartialEq, Eq)]
pub enum VariantKind {
    /// A shape with no closing leg.
    Open,
    /// A circuit closing under this law, which also charges the gap.
    Closing(Closing),
}

/// Whether a variant's closing law holds at this gap. An open shape holds only with nothing to
/// close.
pub open spec fn kind_accepts(k: VariantKind, distance: u64, gap: u64) -> bool {
    match k {
        VariantKind::Open => gap == 0,
        VariantKind::Closing(c) => within(gap, closing_limit(c, distance)),
    }
}

/// Charge for the gap under a variant; `None` once it no longer accepts the gap.
pub open spec fn kind_penalty(k: VariantKind, distance: u64, gap: u64) -> Option<u64> {
    match k {
        VariantKind::Open => if gap == 0 {
            Some(0)
        } else {
            None
        },
        VariantKind::Closing(c) => closing_penalty(c, distance, gap),
    }
}

/// Largest gap a variant accepts, in micrometres; 0 with no closing leg.
pub open spec fn kind_limit(k: VariantKind, distance: u64) -> int {
    match k {
        VariantKind::Open => 0,
        VariantKind::Closing(c) => closing_limit(c, distance),
    }
}

impl VariantKind {
    pub fn accepts(&self, distance: u64, gap: u64) -> (r: bool)
        ensures
            r == kind_accepts(*self, distance, gap),
    {
        match self {
            VariantKind::Open => gap == 0,
            VariantKind::Closing(c) => (gap as u128) * 1000 <= c.limit(distance),
        }
    }

    pub fn penalty(&self, distance: u64, gap: u64) -> (r: Option<u64>)
        ensures
            r == kind_penalty(*self, distance, gap),
    {
        match self {
            VariantKind::Open => if gap == 0 {
                Some(0)
            } else {
                None
            },
            VariantKind::Closing(c) => c.penalty(distance, gap),
        }
    }

    pub fn limit(&self, distance: u64) -> (r: u128)
        ensures
            r == kind_limit(*self, distance),
    {
        match self {
            VariantKind::Open => 0,
            VariantKind::Closing(c) => c.limit(distance),
        }
    }
}

/// One way a rule prices a geometry: what the gap costs, and what the rest is worth.
#[derive(Debug, Clone, Copy, PartialEq, Eq)]
pub struct Variant {
    pub name: &'static str,
    /// Per mille.
    pub multiplier: u64,
    pub kind: VariantKind,
}

/// Distance left once the penalty is taken off, never below nothing; nothing when the gap does
/// not close.
pub open spec fn net_distance(penalty: Option<u64>, distance: u64) -> int {
    match penalty {
        Some(p) => if p <= distance {
            distance - p
        } else {
            0
        },
        None => 0,
    }
}

/// A variant's score, in micrometres: the net distance times the multiplier.
pub open spec fn variant_score(v: Variant, distance: u64, gap: u64) -> int {
    net_distance(kind_penalty(v.kind, distance, gap), distance) * v.multiplier
}

/// Net distance, exactly.
fn net(penalty: Option<u64>, distance: u64) -> (r: u64)
    ensures
        r == net_distance(penalty, distance),
{
    match penalty {
        Some(p) => if p <= distance {
            distance - p
        } else {
            0
        },
        None => 0,
    }
}

impl Variant {
    /// Score of this variant, in micrometres.
    pub fn score(&self, distance: u64, gap: u64) -> (r: u128)
        ensures
            r == variant_score(*self, distance, gap),
    {
        let n = net(self.kind.penalty(distance, gap), distance);
        let m = self.multiplier;
        assert(n * m <= u128::MAX) by (nonlinear_arith)
            requires
                n <= u64::MAX,
                m <= u64::MAX,
        ;
        (n as u128) * (m as u128)
    }
}

/// Index of the variant a list prices a geometry at: the first, listed strictest first, whose
/// closing law holds at this gap, the loosest one if none does.
pub open spec fn pick_from(vs: Seq<Variant>, i: int, distance: u64, gap: u64) -> int
    decreases vs.len() - i,
{
    if i >= vs.len() - 1 {
        vs.len() - 1
    } else if kind_accepts(vs[i].kind, distance, gap) {
        i
    } else {
        pick_from(vs, i + 1, distance, gap)
    }
}

pub open spec fn spec_pick(vs: Seq<Variant>, distance: u64, gap: u64) -> int {
    pick_from(vs, 0, distance, gap)
}

proof fn lemma_pick_from(vs: Seq<Variant>, i: int, distance: u64, gap: u64)
    requires
        0 <= i < vs.len(),
    ensures
        i <= pick_from(vs, i, distance, gap) < vs.len(),
        forall|j: int|
            i <= j < pick_from(vs, i, distance, gap) ==> !kind_accepts(
                #[trigger] vs[j].kind,
                distance,
                gap,
            ),
        pick_from(vs, i, distance, gap) < vs.len() - 1 ==> kind_accepts(
            vs[pick_from(vs, i, distance, gap)].kind,
            distance,
            gap,
        ),
    decreases vs.len() - i,
{
    if i < vs.len() - 1 && !kind_accepts(vs[i].kind, distance, gap) {
        lemma_pick_from(vs, i + 1, distance, gap);
    }
}

/// Index of the variant `variants` prices a geometry at.
pub fn pick(variants: &[Variant], distance: u64, gap: u64) -> (r: usize)
    requires
        variants@.len() > 0,
    ensures
        r == spec_pick(variants@, distance, gap),
        r < variants@.len(),
{
    let last = variants.len() - 1;
    let mut i: usize = 0;
    proof {
        lemma_pick_from(variants@, 0, distance, gap);
    }
    while i < last
        invariant
            last == variants@.len() - 1,
            i <= last,
            pick_from(variants@, 0, distance, gap) == pick_from(variants@, i as int, distance, gap),
        decreases last - i,
    {
        if variants[i].kind.accepts(distance, gap) {
            return i;
        }
        i = i + 1;
    }
    i
}

/// A rule's score at a distance and gap, in micrometres: what the variant it picks makes of them.
pub open spec fn spec_score(vs: Seq<Variant>, distance: u64, gap: u64) -> int {
    variant_score(vs[spec_pick(vs, distance, gap)], distance, gap)
}

/// What a rule made of a geometry.
#[derive(Debug, Clone, Copy, PartialEq, Eq)]
pub struct Scored {
    /// Distance net of the penalty, in millimetres.
    pub distance: u64,
    /// Charge for the gap, in millimetres; `None` when no variant closes it.
    pub penalty: Option<u64>,
    /// In micrometres; 0 when the minimum is not met.
    pub score: u128,
    /// Per mille.
    pub multiplier: u64,
    /// Largest gap the picked variant still holds at, in micrometres, on the raw distance; 0 with
    /// no closing leg.
    pub threshold: u128,
    pub description: &'static str,
    pub league: &'static str,
}

/// How a rule presents its score on the winning geometry.
pub open spec fn spec_scored(
    vs: Seq<Variant>,
    minimum: u128,
    league: &'static str,
    distance: u64,
    gap: u64,
) -> Scored {
    let v = vs[spec_pick(vs, distance, gap)];
    let penalty = kind_penalty(v.kind, distance, gap);
    let score = variant_score(v, distance, gap);
    Scored {
        distance: net_distance(penalty, distance) as u64,
        penalty,
        score: if score >= minimum {
            score as u128
        } else {
            0
        },
        multiplier: v.multiplier,
        threshold: kind_limit(v.kind, distance) as u128,
        description: v.name,
        league,
    }
}

// ============= Rules =============

/// A rule as data: the geometry it scores over, the variants it prices it at, the least score
/// that counts, and the league it belongs to.
#[derive(Debug, Clone)]
pub struct ScoringRule {
    pub geometry: Geometry,
    pub variants: Vec<Variant>,
    pub minimum: u128,
    pub league: &'static str,
}

pub struct ScoringRuleView {
    pub geometry: Geometry,
    pub variants: Seq<Variant>,
    pub minimum: u128,
    pub league: &'static str,
}

impl View for ScoringRule {
    type V = ScoringRuleView;

    open spec fn view(&self) -> ScoringRuleView {
        ScoringRuleView {
            geometry: self.geometry,
            variants: self.variants@,
            minimum: self.minimum,
            league: self.league,
        }
    }
}

impl ScoringRule {
    /// Fix-index ranges the search branches on for this rule.
    pub fn cardinality(&self) -> (n: usize)
        ensures
            n == spec_cardinality(self.geometry),
    {
        self.geometry.cardinality()
    }

    /// Score at a distance and gap in millimetres, in micrometres, unrounded and before the
    /// minimum: the search prunes on this.
    pub fn score(&self, distance: u64, gap: u64) -> (r: u128)
        requires
            self@.variants.len() > 0,
        ensures
            r == spec_score(self@.variants, distance, gap),
    {
        let i = pick(self.variants.as_slice(), distance, gap);
        self.variants[i].score(distance, gap)
    }

    /// How the rule presents that score, once on the winning geometry.
    pub fn scored(&self, distance: u64, gap: u64) -> (r: Scored)
        requires
            self@.variants.len() > 0,
        ensures
            r == spec_scored(self@.variants, self.minimum, self.league, distance, gap),
    {
        let i = pick(self.variants.as_slice(), distance, gap);
        let v = self.variants[i];
        let penalty = v.kind.penalty(distance, gap);
        let score = v.score(distance, gap);
        Scored {
            distance: net(penalty, distance),
            penalty,
            score: if score >= self.minimum {
                score
            } else {
                0
            },
            multiplier: v.multiplier,
            threshold: v.kind.limit(distance),
            description: v.name,
            league: self.league,
        }
    }
}

/// The geometry a rule scores over, named by its type.
pub trait RuleGeometry {
    type Shape: ShapeKind;
}

/// What the search needs of a rule before it prices anything: its geometry.
pub trait RuleShape {
    spec fn spec_shape(&self) -> Geometry;

    fn shape(&self) -> (g: Geometry)
        ensures
            g == self.spec_shape(),
    ;

    fn cardinality(&self) -> (n: usize)
        ensures
            n == spec_cardinality(self.spec_shape()),
    ;
}

impl<T: RuleGeometry> RuleShape for T {
    open spec fn spec_shape(&self) -> Geometry {
        T::Shape::spec_geometry()
    }

    fn shape(&self) -> (g: Geometry) {
        T::Shape::geometry()
    }

    fn cardinality(&self) -> (n: usize) {
        T::Shape::cardinality()
    }
}

/// A rule pricing a geometry through one or more variants, listed from the strictest (tightest
/// gap allowance, best rate) to the loosest, for a league with a least score that counts.
pub trait RuleDescription {
    spec fn spec_variants(&self) -> Seq<Variant>;

    spec fn spec_minimum(&self) -> u128;

    spec fn spec_league(&self) -> &'static str;

    fn variants(&self) -> (v: Vec<Variant>)
        ensures
            v@ == self.spec_variants(),
    ;

    fn minimum(&self) -> (m: u128)
        ensures
            m == self.spec_minimum(),
    ;

    fn league(&self) -> (l: &'static str)
        ensures
            l == self.spec_league(),
    ;
}

/// A rule as the data a search runs on.
pub open spec fn rule_view<R: RuleShape + RuleDescription>(r: R) -> ScoringRuleView {
    ScoringRuleView {
        geometry: r.spec_shape(),
        variants: r.spec_variants(),
        minimum: r.spec_minimum(),
        league: r.spec_league(),
    }
}

/// One scoring rule of a league: a geometry and how it is priced.
pub trait Rule: RuleShape + RuleDescription + Sized {
    fn scoring_rule(&self) -> (r: ScoringRule)
        ensures
            r@ == rule_view(*self),
    {
        ScoringRule {
            geometry: self.shape(),
            variants: self.variants(),
            minimum: self.minimum(),
            league: self.league(),
        }
    }
}

impl<T: RuleShape + RuleDescription + Sized> Rule for T {

}

/// The data view of a list of rules.
pub open spec fn rules_view(rs: Seq<ScoringRule>) -> Seq<ScoringRuleView> {
    rs.map_values(|r: ScoringRule| r@)
}

/// A league as the registry sees it: its name and the rules it scores by.
pub trait LeagueInfo {
    spec fn spec_name(&self) -> &'static str;

    spec fn spec_rules(&self) -> Seq<ScoringRuleView>;

    fn name(&self) -> (n: &'static str)
        ensures
            n == self.spec_name(),
    ;

    fn rules(&self) -> (r: Vec<ScoringRule>)
        ensures
            rules_view(r@) == self.spec_rules(),
    ;
}

// ============= The registry =============

/// The leagues a caller can score against, in the order they are listed, each with its rules.
pub open spec fn league_table() -> Seq<(&'static str, Seq<ScoringRuleView>)> {
    seq![
        (Cfd.spec_name(), Cfd.spec_rules()),
        (Xcontest.spec_name(), Xcontest.spec_rules()),
        (OneTurnpoint.spec_name(), OneTurnpoint.spec_rules()),
        (TwoTurnpoints.spec_name(), TwoTurnpoints.spec_rules()),
        (Line.spec_name(), Line.spec_rules()),
        (Oar.spec_name(), Oar.spec_rules()),
    ]
}

/// Every league name, in the order they are listed.
pub open spec fn spec_league_names() -> Seq<&'static str> {
    league_table().map_values(|e: (&'static str, Seq<ScoringRuleView>)| e.0)
}

/// The rules of the first league from `i` on named `name`.
pub open spec fn find_league(name: Seq<char>, i: int) -> Option<Seq<ScoringRuleView>>
    decreases league_table().len() - i,
{
    if i < 0 || i >= league_table().len() {
        None
    } else if league_table()[i].0@ == name {
        Some(league_table()[i].1)
    } else {
        find_league(name, i + 1)
    }
}

/// The rules of the league named `name`, if one is.
pub open spec fn spec_league_rules(name: Seq<char>) -> Option<Seq<ScoringRuleView>> {
    find_league(name, 0)
}

/// Every league name scoring accepts, in the order they are listed.
pub fn league_names() -> (v: Vec<&'static str>)
    ensures
        v@ == spec_league_names(),
{
    let mut v = Vec::new();
    v.push(Cfd.name());
    v.push(Xcontest.name());
    v.push(OneTurnpoint.name());
    v.push(TwoTurnpoints.name());
    v.push(Line.name());
    v.push(Oar.name());
    assert(v@ =~= spec_league_names());
    v
}

/// The rules of the league named `name`, `None` when no league is.
pub fn league_rules(name: &str) -> (r: Option<Vec<ScoringRule>>)
    ensures
        match r {
            Some(v) => spec_league_rules(name@) == Some(rules_view(v@)),
            None => spec_league_rules(name@) is None,
        },
{
    proof {
        reveal_with_fuel(find_league, 7);
    }
    if same_text(name, Cfd.name()) {
        Some(Cfd.rules())
    } else if same_text(name, Xcontest.name()) {
        Some(Xcontest.rules())
    } else if same_text(name, OneTurnpoint.name()) {
        Some(OneTurnpoint.rules())
    } else if same_text(name, TwoTurnpoints.name()) {
        Some(TwoTurnpoints.rules())
    } else if same_text(name, Line.name()) {
        Some(Line.rules())
    } else if same_text(name, Oar.name()) {
        Some(Oar.rules())
    } else {
        None
    }
}

/// Refuses a name the registry does not hold.
pub fn known_league(name: &str) -> (r: Result<(), ScoreError>)
    ensures
        r is Ok <==> spec_league_rules(name@) is Some,
        r is Err ==> r == Err::<(), ScoreError>(ScoreError::UnknownLeague),
{
    match league_rules(name) {
        Some(_) => Ok(()),
        None => Err(ScoreError::UnknownLeague),
    }
}

/// A variant list of one.
pub(crate) fn single(a: Variant) -> (r: Vec<Variant>)
    ensures
        r@ == seq![a],
{
    let mut r = Vec::new();
    r.push(a);
    r
}

/// A variant list of two, the stricter first.
pub(crate) fn pair(a: Variant, b: Variant) -> (r: Vec<Variant>)
    ensures
        r@ == seq![a, b],
{
    let mut r = Vec::new();
    r.push(a);
    r.push(b);
    r
}

} // verus!
