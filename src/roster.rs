//! Unit stats, procurement cost and roster expansion.
use rand::rngs::StdRng;
use rand::seq::SliceRandom;
use vstd::prelude::*;
use vstd::string::StrSliceExecFns;

verus! {

/// Highest total cost a nation may field.
pub const COST_CAP: u32 = 2000;

/// One combat unit: remaining hit points, shots per round, remaining ammunition.
#[derive(Clone, Copy, Debug, PartialEq, Eq, Structural)]
pub struct GameTank {
    pub hit_point: i8,
    pub shot: i8,
    pub balls: i8,
}

impl GameTank {
    pub fn new(hit_point1: i8, shot1: i8, balls1: i8) -> (r: Self)
        ensures
            r.hit_point == hit_point1,
            r.shot == shot1,
            r.balls == balls1,
    {
        GameTank { hit_point: hit_point1, shot: shot1, balls: balls1 }
    }
}

/// How many units of one type a nation fields, and with which magazine.
pub struct Tank {
    pub number: u16,
    pub magazine: String,
}

/// A nation's roster over the three unit types.
pub struct FightingNation {
    pub name: String,
    pub win: u32,
    pub draw: u32,
    pub lose: u32,
    pub tako2000: Tank,
    pub tako3000: Tank,
    pub tako5000: Tank,
}

/// Cost surcharge of a magazine; unknown names cost nothing.
pub open spec fn magazine_cost_of(name: Seq<char>) -> u16 {
    if name == "grape2x4-hole1"@ {
        2
    } else if name == "grape5x4-hole2"@ {
        4
    } else if name == "grape5x3-hole3"@ {
        3
    } else {
        0
    }
}

/// Base hit points of a unit type; unknown names get none.
pub open spec fn hit_point_of(tank_name: Seq<char>) -> i8 {
    if tank_name == "tako2000"@ {
        2
    } else if tank_name == "tako3000"@ {
        4
    } else if tank_name == "tako5000"@ {
        7
    } else {
        0
    }
}

/// The unit built for a type and a magazine: an unknown type or an unknown
/// magazine gives an all-zero unit.
pub open spec fn tank_of(tank_name: Seq<char>, magazine: Seq<char>) -> GameTank {
    if hit_point_of(tank_name) == 0 {
        GameTank { hit_point: 0, shot: 0, balls: 0 }
    } else if magazine == "grape2x4-hole1"@ {
        GameTank { hit_point: hit_point_of(tank_name), shot: 1, balls: 8 }
    } else if magazine == "grape5x4-hole2"@ {
        GameTank { hit_point: hit_point_of(tank_name), shot: 2, balls: 20 }
    } else if magazine == "grape5x3-hole3"@ {
        GameTank { hit_point: hit_point_of(tank_name), shot: 3, balls: 15 }
    } else {
        GameTank { hit_point: 0, shot: 0, balls: 0 }
    }
}

/// What one roster entry costs: its count times (type base cost + magazine surcharge).
pub open spec fn entry_cost(t: Tank, base: int) -> int {
    t.number * (base + magazine_cost_of(t.magazine@))
}

/// A nation's total procurement cost.
pub open spec fn nation_cost(n: FightingNation) -> int {
    entry_cost(n.tako2000, 2) + entry_cost(n.tako3000, 6) + entry_cost(n.tako5000, 10)
}

/// The units of one roster entry, in order.
pub open spec fn entry_units(tank_name: Seq<char>, t: Tank) -> Seq<GameTank> {
    Seq::new(t.number as nat, |i: int| tank_of(tank_name, t.magazine@))
}

/// A nation's units in declaration order.
pub open spec fn roster_units(n: FightingNation) -> Seq<GameTank> {
    entry_units("tako2000"@, n.tako2000) + entry_units("tako3000"@, n.tako3000) + entry_units(
        "tako5000"@,
        n.tako5000,
    )
}

/// Neither shots per round nor ammunition is negative.
pub open spec fn unit_ok(u: GameTank) -> bool {
    0 <= u.shot && 0 <= u.balls
}

pub open spec fn fleet_ok(s: Seq<GameTank>) -> bool {
    forall|i: int| 0 <= i < s.len() ==> unit_ok(#[trigger] s[i])
}

fn same_text(a: &str, b: &str) -> (r: bool)
    ensures
        r == (a@ == b@),
{
    let n = a.unicode_len();
    if n != b.unicode_len() {
        return false;
    }
    let mut i: usize = 0;
    while i < n
        invariant
            n == a@.len(),
            n == b@.len(),
            i <= n,
            forall|j: int| 0 <= j < i ==> a@[j] == b@[j],
        decreases n - i,
    {
        if a.get_char(i) != b.get_char(i) {
            return false;
        }
        i += 1;
    }
    assert(a@ =~= b@);
    true
}

/// The cost surcharge of the magazine called `name`.
pub fn get_magazine_cost(name: &str) -> (r: u16)
    ensures
        r == magazine_cost_of(name@),
{
    if same_text(name, "grape2x4-hole1") {
        2
    } else if same_text(name, "grape5x4-hole2") {
        4
    } else if same_text(name, "grape5x3-hole3") {
        3
    } else {
        0
    }
}

/// A fresh unit of type `tank_name` loaded with `magazine_name`.
pub fn create_tank(tank_name: &str, magazine_name: &str) -> (r: GameTank)
    ensures
        r == tank_of(tank_name@, magazine_name@),
        unit_ok(r),
{
    let hit_point: i8 = if same_text(tank_name, "tako2000") {
        2
    } else if same_text(tank_name, "tako3000") {
        4
    } else if same_text(tank_name, "tako5000") {
        7
    } else {
        0
    };
    if hit_point == 0 {
        GameTank::new(0, 0, 0)
    } else if same_text(magazine_name, "grape2x4-hole1") {
        GameTank::new(hit_point, 1, 8)
    } else if same_text(magazine_name, "grape5x4-hole2") {
        GameTank::new(hit_point, 2, 20)
    } else if same_text(magazine_name, "grape5x3-hole3") {
        GameTank::new(hit_point, 3, 15)
    } else {
        GameTank::new(0, 0, 0)
    }
}

fn tank_cost(t: &Tank, base: u32) -> (r: u32)
    requires
        base <= 10,
    ensures
        r == entry_cost(*t, base as int),
        r <= 65535 * 14,
{
    let factor: u32 = base + get_magazine_cost(t.magazine.as_str()) as u32;
    let number: u32 = t.number as u32;
    assert(number * factor <= 65535 * 14) by (nonlinear_arith)
        requires
            number <= 65535,
            factor <= 14,
    ;
    number * factor
}

/// A nation's total procurement cost.
pub fn sum_cost(nation: &FightingNation) -> (r: u32)
    ensures
        r == nation_cost(*nation),
{
    tank_cost(&nation.tako2000, 2) + tank_cost(&nation.tako3000, 6) + tank_cost(
        &nation.tako5000,
        10,
    )
}

/// Whether a nation's cost breaks the regulation.
pub fn is_cost_over(nation: &FightingNation) -> (r: bool)
    ensures
        r == (nation_cost(*nation) > COST_CAP),
{
    COST_CAP < sum_cost(nation)
}

/// A match is played only when no nation at all is over the cost cap.
pub fn enable_game(nations: &Vec<FightingNation>) -> (r: bool)
    ensures
        r == (forall|i: int| 0 <= i < nations@.len() ==> nation_cost(#[trigger] nations@[i]) <= COST_CAP),
{
    let mut ok = true;
    let mut i: usize = 0;
    while i < nations.len()
        invariant
            i <= nations@.len(),
            ok == (forall|j: int| 0 <= j < i ==> nation_cost(#[trigger] nations@[j]) <= COST_CAP),
        decreases nations@.len() - i,
    {
        if is_cost_over(&nations[i]) {
            ok = false;
        }
        i += 1;
    }
    ok
}

fn push_units(units: &mut Vec<GameTank>, tank_name: &str, t: &Tank)
    requires
        fleet_ok(old(units)@),
    ensures
        final(units)@ == old(units)@ + entry_units(tank_name@, *t),
        fleet_ok(final(units)@),
{
    let ghost start = units@;
    let mut k: u16 = 0;
    while k < t.number
        invariant
            k <= t.number,
            units@ =~= start + Seq::new(k as nat, |i: int| tank_of(tank_name@, t.magazine@)),
            fleet_ok(units@),
            fleet_ok(start),
        decreases t.number - k,
    {
        let tank = create_tank(tank_name, t.magazine.as_str());
        units.push(tank);
        k += 1;
    }
    assert(units@ =~= start + entry_units(tank_name@, *t));
}

/// A nation's units, one per declared count, in declaration order.
pub fn expand_roster(nation: &FightingNation) -> (r: Vec<GameTank>)
    ensures
        r@ == roster_units(*nation),
        fleet_ok(r@),
{
    let mut units: Vec<GameTank> = Vec::new();
    push_units(&mut units, "tako2000", &nation.tako2000);
    push_units(&mut units, "tako3000", &nation.tako3000);
    push_units(&mut units, "tako5000", &nation.tako5000);
    units
}

#[verifier::external_type_specification]
#[verifier::external_body]
pub struct ExStdRng(StdRng);

/// Relies on rand's SliceRandom::shuffle, which only swaps elements of the slice.
#[verifier::external_body]
fn shuffle_units(units: &mut Vec<GameTank>, rng: &mut StdRng)
    ensures
        final(units)@.to_multiset() == old(units)@.to_multiset(),
{
    units.shuffle(rng)
}

/// A nation's fleet: its units in an order drawn from `rng`.
pub fn create_fleet(nation: &FightingNation, rng: &mut StdRng) -> (r: Vec<GameTank>)
    ensures
        r@.to_multiset() == roster_units(*nation).to_multiset(),
        r@.len() == nation.tako2000.number + nation.tako3000.number + nation.tako5000.number,
        fleet_ok(r@),
{
    let mut units = expand_roster(nation);
    let ghost before = units@;
    shuffle_units(&mut units, rng);
    proof {
        vstd::seq_lib::to_multiset_len(units@);
        vstd::seq_lib::to_multiset_len(before);
        assert forall|i: int| 0 <= i < units@.len() implies unit_ok(#[trigger] units@[i]) by {
            let u = units@[i];
            assert(units@.contains(u));
            vstd::seq_lib::to_multiset_contains(units@, u);
            vstd::seq_lib::to_multiset_contains(before, u);
            assert(before.contains(u));
        }
    }
    units
}

} // verus!
