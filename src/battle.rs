//! The combat engine: firing, round-robin damage, cleanup, rotation and the
//! round loop.
use crate::roster::{fleet_ok, unit_ok, GameTank};
use vstd::arithmetic::div_mod::lemma_fundamental_div_mod_converse_mod;
use vstd::prelude::*;

verus! {

/// How many units at the head of a fleet form its front line.
pub const FRONT_LINE_SIZE: usize = 20;

/// How many rounds a battle lasts at most.
pub const MAX_ROUNDS: usize = 100;

/// What one round produced.
#[derive(Clone, Copy, Debug, PartialEq, Eq, Structural)]
pub struct RoundReport {
    /// A fleet was found empty when its turn came.
    pub annihilated: bool,
    /// Shots fired by the first fleet.
    pub shots_first: u32,
    /// Shots fired by the second fleet.
    pub shots_second: u32,
}

/// How a battle ended.
#[derive(Clone, Copy, Debug, PartialEq, Eq, Structural)]
pub enum BattleEnd {
    Annihilated,
    RoundLimitReached,
}

/// Size of the front line of a fleet of `len` units.
pub open spec fn front_len(len: nat) -> nat {
    if len < FRONT_LINE_SIZE {
        len
    } else {
        FRONT_LINE_SIZE as nat
    }
}

/// Shots a unit fires in a round: its ammunition, at most its rate.
pub open spec fn fired(u: GameTank) -> int {
    if u.balls < u.shot {
        u.balls as int
    } else {
        u.shot as int
    }
}

pub open spec fn fire(u: GameTank) -> GameTank {
    GameTank { hit_point: u.hit_point, shot: u.shot, balls: (u.balls - fired(u)) as i8 }
}

/// The fleet after its front line has fired.
pub open spec fn fired_front(s: Seq<GameTank>) -> Seq<GameTank> {
    Seq::new(s.len(), |i: int| if i < FRONT_LINE_SIZE { fire(s[i]) } else { s[i] })
}

/// Shots fired by the first `k` units.
pub open spec fn shots_upto(s: Seq<GameTank>, k: int) -> int
    decreases k,
{
    if k <= 0 {
        0
    } else {
        shots_upto(s, k - 1) + fired(s[k - 1])
    }
}

/// Shots fired by a fleet's front line in one round.
pub open spec fn phase_shots(s: Seq<GameTank>) -> int {
    shots_upto(s, front_len(s.len()) as int)
}

/// One hit: a hit point less, never below the type's minimum.
pub open spec fn hit(u: GameTank) -> GameTank {
    GameTank {
        hit_point: if u.hit_point > -128 { (u.hit_point - 1) as i8 } else { u.hit_point },
        shot: u.shot,
        balls: u.balls,
    }
}

/// Which unit the shot numbered `k` (from 0) hits: the front line, round-robin.
pub open spec fn target_of(k: nat, len: nat) -> nat {
    k % front_len(len)
}

/// The fleet after absorbing `k` shots.
pub open spec fn damaged(s: Seq<GameTank>, k: nat) -> Seq<GameTank>
    decreases k,
{
    if k == 0 || s.len() == 0 {
        s
    } else {
        let p = damaged(s, (k - 1) as nat);
        let t = target_of((k - 1) as nat, s.len()) as int;
        p.update(t, hit(p[t]))
    }
}

/// The units still standing.
pub open spec fn survivors(s: Seq<GameTank>) -> Seq<GameTank> {
    s.filter(|u: GameTank| u.hit_point > 0)
}

pub open spec fn all_alive(s: Seq<GameTank>) -> bool {
    forall|i: int| 0 <= i < s.len() ==> (#[trigger] s[i]).hit_point > 0
}

/// Some unit of `old` has the shots per round of `u`, and no less ammunition.
pub open spec fn has_source(u: GameTank, old: Seq<GameTank>) -> bool {
    exists|j: int| 0 <= j < old.len() && u.shot == (#[trigger] old[j]).shot && u.balls <= old[j].balls
}

/// Every unit of `new` has the shots per round of some unit of `old`, and no
/// more ammunition than it.
pub open spec fn drawn_from(new: Seq<GameTank>, old: Seq<GameTank>) -> bool {
    forall|i: int| 0 <= i < new.len() ==> has_source(#[trigger] new[i], old)
}

proof fn lemma_drawn_from_trans(x: Seq<GameTank>, y: Seq<GameTank>, z: Seq<GameTank>)
    requires
        drawn_from(x, y),
        drawn_from(y, z),
    ensures
        drawn_from(x, z),
{
    assert forall|i: int| 0 <= i < x.len() implies has_source(#[trigger] x[i], z) by {
        assert(has_source(x[i], y));
        let j = choose|j: int|
            0 <= j < y.len() && x[i].shot == (#[trigger] y[j]).shot && x[i].balls <= y[j].balls;
        assert(has_source(y[j], z));
        let k = choose|k: int|
            0 <= k < z.len() && y[j].shot == (#[trigger] z[k]).shot && y[j].balls <= z[k].balls;
        assert(z[k] == z[k]);
    }
}

proof fn lemma_drawn_from_same_place(x: Seq<GameTank>, y: Seq<GameTank>)
    requires
        x.len() == y.len(),
        forall|i: int|
            0 <= i < x.len() ==> (#[trigger] x[i]).shot == y[i].shot && x[i].balls <= y[i].balls,
    ensures
        drawn_from(x, y),
{
    assert forall|i: int| 0 <= i < x.len() implies has_source(#[trigger] x[i], y) by {
        assert(y[i] == y[i]);
    }
}

/// The front line moved, in order, behind the rest.
pub open spec fn rotated(s: Seq<GameTank>) -> Seq<GameTank> {
    let m = front_len(s.len()) as int;
    s.subrange(m, s.len() as int) + s.subrange(0, m)
}

/// End of a round: cleanup, then rotation when nobody fired.
pub open spec fn finish_round(
    a: Seq<GameTank>,
    b: Seq<GameTank>,
    annihilated: bool,
    ta: int,
    tb: int,
) -> (Seq<GameTank>, Seq<GameTank>, RoundReport) {
    let report = RoundReport { annihilated, shots_first: ta as u32, shots_second: tb as u32 };
    if ta + tb == 0 {
        (rotated(survivors(a)), rotated(survivors(b)), report)
    } else {
        (survivors(a), survivors(b), report)
    }
}

/// One round: the first fleet attacks, then the second, each unless found empty.
pub open spec fn round(a: Seq<GameTank>, b: Seq<GameTank>) -> (
    Seq<GameTank>,
    Seq<GameTank>,
    RoundReport,
) {
    if a.len() == 0 {
        finish_round(a, b, true, 0, 0)
    } else {
        let ta = phase_shots(a);
        let a1 = fired_front(a);
        let b1 = damaged(b, ta as nat);
        if b1.len() == 0 {
            finish_round(a1, b1, true, ta, 0)
        } else {
            let tb = phase_shots(b1);
            finish_round(damaged(a1, tb as nat), fired_front(b1), false, ta, tb)
        }
    }
}

/// The battle from round `k` on: the fleets at its end, whether it ended by
/// annihilation, and the report of each round played.
pub open spec fn run_from(a: Seq<GameTank>, b: Seq<GameTank>, k: nat) -> (
    Seq<GameTank>,
    Seq<GameTank>,
    bool,
    Seq<RoundReport>,
)
    decreases MAX_ROUNDS - k,
{
    if k >= MAX_ROUNDS {
        (a, b, false, Seq::empty())
    } else {
        let (a1, b1, rep) = round(a, b);
        if rep.annihilated {
            (a1, b1, true, seq![rep])
        } else {
            let (a2, b2, ann, reps) = run_from(a1, b1, k + 1);
            (a2, b2, ann, seq![rep] + reps)
        }
    }
}

/// The front line fires: each of its units spends what it shoots. Returns the
/// number of shots.
pub fn fire_front_line(units: &mut Vec<GameTank>) -> (total: u32)
    requires
        fleet_ok(old(units)@),
    ensures
        final(units)@ == fired_front(old(units)@),
        total == phase_shots(old(units)@),
        fleet_ok(final(units)@),
        drawn_from(final(units)@, old(units)@),
{
    let ghost s0 = units@;
    let n = units.len();
    let m: usize = if n < FRONT_LINE_SIZE { n } else { FRONT_LINE_SIZE };
    let mut total: u32 = 0;
    let mut i: usize = 0;
    while i < m
        invariant
            units@.len() == n,
            n == s0.len(),
            m == front_len(n as nat),
            i <= m,
            fleet_ok(s0),
            total == shots_upto(s0, i as int),
            total <= 127 * i,
            forall|j: int| 0 <= j < i ==> #[trigger] units@[j] == fire(s0[j]),
            forall|j: int| i <= j < n ==> #[trigger] units@[j] == s0[j],
        decreases m - i,
    {
        let u = units[i];
        assert(unit_ok(s0[i as int]));
        let s: i8 = if u.balls < u.shot { u.balls } else { u.shot };
        units.set(i, GameTank { hit_point: u.hit_point, shot: u.shot, balls: u.balls - s });
        total = total + s as u32;
        i += 1;
    }
    assert(units@ =~= fired_front(s0));
    proof {
        lemma_drawn_from_same_place(units@, s0);
    }
    total
}

/// The fleet absorbs `shots` hits, one per shot, round-robin over its front
/// line from the head.
pub fn distribute_damage(units: &mut Vec<GameTank>, shots: u32)
    ensures
        final(units)@ == damaged(old(units)@, shots as nat),
        final(units)@.len() == old(units)@.len(),
        forall|i: int|
            0 <= i < old(units)@.len() ==> (#[trigger] final(units)@[i]).shot == old(units)@[i].shot
                && final(units)@[i].balls == old(units)@[i].balls,
        drawn_from(final(units)@, old(units)@),
{
    let ghost s0 = units@;
    let n = units.len();
    if n == 0 {
        proof {
            lemma_drawn_from_same_place(s0, s0);
        }
        return;
    }
    let m: usize = if n < FRONT_LINE_SIZE { n } else { FRONT_LINE_SIZE };
    let mut t: usize = 0;
    let mut k: u32 = 0;
    let ghost mut q: int = 0;
    while k < shots
        invariant
            n == s0.len(),
            n > 0,
            units@.len() == n,
            m == front_len(n as nat),
            0 < m <= n,
            t < m,
            k <= shots,
            q >= 0,
            k == q * m + t,
            units@ == damaged(s0, k as nat),
            forall|i: int|
                0 <= i < n ==> (#[trigger] units@[i]).shot == s0[i].shot && units@[i].balls
                    == s0[i].balls,
        decreases shots - k,
    {
        proof {
            lemma_fundamental_div_mod_converse_mod(k as int, m as int, q, t as int);
        }
        let u = units[t];
        let hp: i8 = if u.hit_point > -128 { u.hit_point - 1 } else { u.hit_point };
        units.set(t, GameTank { hit_point: hp, shot: u.shot, balls: u.balls });
        if t + 1 == m {
            t = 0;
            proof {
                assert((q + 1) * m == q * m + m) by (nonlinear_arith);
                q = q + 1;
            }
        } else {
            t = t + 1;
        }
        k = k + 1;
    }
    proof {
        lemma_drawn_from_same_place(units@, s0);
    }
}

/// Removes every unit whose hit points are gone, keeping the others in order.
pub fn remove_dead(units: &mut Vec<GameTank>)
    ensures
        final(units)@ == survivors(old(units)@),
        final(units)@.len() <= old(units)@.len(),
        drawn_from(final(units)@, old(units)@),
        all_alive(final(units)@),
        fleet_ok(old(units)@) ==> fleet_ok(final(units)@),
{
    let ghost s0 = units@;
    let mut kept: Vec<GameTank> = Vec::new();
    let mut i: usize = 0;
    while i < units.len()
        invariant
            units@ == s0,
            i <= s0.len(),
            kept@ == survivors(s0.subrange(0, i as int)),
            kept@.len() <= i,
            drawn_from(kept@, s0),
            all_alive(kept@),
            fleet_ok(s0) ==> fleet_ok(kept@),
        decreases s0.len() - i,
    {
        let u = units[i];
        proof {
            assert(s0.subrange(0, i + 1).drop_last() =~= s0.subrange(0, i as int));
            reveal(Seq::filter);
        }
        if u.hit_point > 0 {
            kept.push(u);
            proof {
                assert forall|x: int| 0 <= x < kept@.len() implies has_source(
                    #[trigger] kept@[x],
                    s0,
                ) by {
                    if x == kept@.len() - 1 {
                        assert(kept@[x] == s0[i as int]);
                    } else {
                        assert(kept@[x] == kept@.drop_last()[x]);
                    }
                }
            }
        }
        i += 1;
    }
    assert(s0.subrange(0, s0.len() as int) =~= s0);
    *units = kept;
}

/// Moves the front line, in order, behind the rest of the fleet.
pub fn rotate_front_line(units: &mut Vec<GameTank>)
    ensures
        final(units)@ == rotated(old(units)@),
        final(units)@.len() == old(units)@.len(),
        drawn_from(final(units)@, old(units)@),
        all_alive(old(units)@) ==> all_alive(final(units)@),
        fleet_ok(old(units)@) ==> fleet_ok(final(units)@),
{
    let ghost s0 = units@;
    let n = units.len();
    let m: usize = if n < FRONT_LINE_SIZE { n } else { FRONT_LINE_SIZE };
    let mut moved: Vec<GameTank> = Vec::new();
    let mut i: usize = m;
    while i < n
        invariant
            units@ == s0,
            n == s0.len(),
            m <= i <= n,
            moved@ =~= s0.subrange(m as int, i as int),
        decreases n - i,
    {
        moved.push(units[i]);
        i += 1;
    }
    let mut j: usize = 0;
    while j < m
        invariant
            units@ == s0,
            n == s0.len(),
            m <= n,
            j <= m,
            moved@ =~= s0.subrange(m as int, n as int) + s0.subrange(0, j as int),
        decreases m - j,
    {
        moved.push(units[j]);
        j += 1;
    }
    assert(moved@ =~= rotated(s0));
    proof {
        let r = moved@;
        let m0 = m as int;
        assert forall|x: int| 0 <= x < r.len() implies has_source(#[trigger] r[x], s0) by {
            if x < n - m0 {
                assert(r[x] == s0[x + m0]);
            } else {
                assert(r[x] == s0[x - (n - m0)]);
            }
        }
    }
    *units = moved;
}

fn end_round(
    a: &mut Vec<GameTank>,
    b: &mut Vec<GameTank>,
    annihilated: bool,
    ta: u32,
    tb: u32,
) -> (r: RoundReport)
    requires
        fleet_ok(old(a)@),
        fleet_ok(old(b)@),
    ensures
        (final(a)@, final(b)@, r) == finish_round(
            old(a)@,
            old(b)@,
            annihilated,
            ta as int,
            tb as int,
        ),
        final(a)@.len() <= old(a)@.len(),
        final(b)@.len() <= old(b)@.len(),
        drawn_from(final(a)@, old(a)@),
        drawn_from(final(b)@, old(b)@),
        fleet_ok(final(a)@),
        fleet_ok(final(b)@),
        all_alive(final(a)@),
        all_alive(final(b)@),
{
    let ghost a0 = a@;
    let ghost b0 = b@;
    remove_dead(a);
    remove_dead(b);
    if ta as u64 + tb as u64 == 0 {
        let ghost a1 = a@;
        let ghost b1 = b@;
        rotate_front_line(a);
        rotate_front_line(b);
        proof {
            lemma_drawn_from_trans(a@, a1, a0);
            lemma_drawn_from_trans(b@, b1, b0);
        }
    }
    RoundReport { annihilated, shots_first: ta, shots_second: tb }
}

/// One round of combat between fleets `a` (attacking first) and `b`.
pub fn play_round(a: &mut Vec<GameTank>, b: &mut Vec<GameTank>) -> (r: RoundReport)
    requires
        fleet_ok(old(a)@),
        fleet_ok(old(b)@),
    ensures
        (final(a)@, final(b)@, r) == round(old(a)@, old(b)@),
        final(a)@.len() <= old(a)@.len(),
        final(b)@.len() <= old(b)@.len(),
        drawn_from(final(a)@, old(a)@),
        drawn_from(final(b)@, old(b)@),
        drawn_from(final(a)@, old(a)@),
        drawn_from(final(b)@, old(b)@),
        fleet_ok(final(a)@),
        fleet_ok(final(b)@),
        all_alive(final(a)@),
        all_alive(final(b)@),
{
    let ghost a0 = a@;
    let ghost b0 = b@;
    if a.len() == 0 {
        return end_round(a, b, true, 0, 0);
    }
    let ta = fire_front_line(a);
    distribute_damage(b, ta);
    let ghost a1 = a@;
    let ghost b1 = b@;
    if b.len() == 0 {
        let r = end_round(a, b, true, ta, 0);
        proof {
            lemma_drawn_from_trans(a@, a1, a0);
            lemma_drawn_from_trans(b@, b1, b0);
        }
        return r;
    }
    let tb = fire_front_line(b);
    let ghost b2 = b@;
    distribute_damage(a, tb);
    let ghost a2 = a@;
    let r = end_round(a, b, false, ta, tb);
    proof {
        lemma_drawn_from_trans(a2, a1, a0);
        lemma_drawn_from_trans(a@, a2, a0);
        lemma_drawn_from_trans(b2, b1, b0);
        lemma_drawn_from_trans(b@, b2, b0);
    }
    r
}

/// Runs rounds until a fleet is found empty or the round limit is reached.
/// Returns how it ended and the report of each round.
pub fn battle(a: &mut Vec<GameTank>, b: &mut Vec<GameTank>) -> (r: (BattleEnd, Vec<RoundReport>))
    requires
        fleet_ok(old(a)@),
        fleet_ok(old(b)@),
    ensures
        final(a)@ == run_from(old(a)@, old(b)@, 0).0,
        final(b)@ == run_from(old(a)@, old(b)@, 0).1,
        (r.0 == BattleEnd::Annihilated) == run_from(old(a)@, old(b)@, 0).2,
        r.1@ == run_from(old(a)@, old(b)@, 0).3,
        1 <= r.1@.len() <= MAX_ROUNDS,
        final(a)@.len() <= old(a)@.len(),
        final(b)@.len() <= old(b)@.len(),
        drawn_from(final(a)@, old(a)@),
        drawn_from(final(b)@, old(b)@),
        all_alive(final(a)@),
        all_alive(final(b)@),
{
    let ghost a0 = a@;
    let ghost b0 = b@;
    let mut reports: Vec<RoundReport> = Vec::new();
    let mut k: usize = 0;
    let mut ended = false;
    proof {
        lemma_drawn_from_same_place(a0, a0);
        lemma_drawn_from_same_place(b0, b0);
    }
    while k < MAX_ROUNDS && !ended
        invariant
            k <= MAX_ROUNDS,
            reports@.len() == k,
            a@.len() <= a0.len(),
            b@.len() <= b0.len(),
            drawn_from(a@, a0),
            drawn_from(b@, b0),
            fleet_ok(a@),
            fleet_ok(b@),
            k > 0 ==> all_alive(a@) && all_alive(b@),
            !ended ==> ({
                let (fa, fb, ann, reps) = run_from(a@, b@, k as nat);
                run_from(a0, b0, 0) == (fa, fb, ann, reports@ + reps)
            }),
            ended ==> run_from(a0, b0, 0) == (a@, b@, true, reports@),
            ended ==> k > 0,
        decreases MAX_ROUNDS - k,
    {
        let ghost ga = a@;
        let ghost gb = b@;
        let ghost before = reports@;
        let rep = play_round(a, b);
        proof {
            lemma_drawn_from_trans(a@, ga, a0);
            lemma_drawn_from_trans(b@, gb, b0);
        }
        reports.push(rep);
        k += 1;
        if rep.annihilated {
            ended = true;
            proof {
                assert(run_from(ga, gb, (k - 1) as nat) == (a@, b@, true, seq![rep]));
                assert(reports@ =~= before + seq![rep]);
            }
        } else {
            proof {
                let (fa, fb, ann, reps) = run_from(a@, b@, k as nat);
                assert(run_from(ga, gb, (k - 1) as nat) == (fa, fb, ann, seq![rep] + reps));
                assert(before + (seq![rep] + reps) =~= reports@ + reps);
            }
        }
    }
    if ended {
        return (BattleEnd::Annihilated, reports);
    }
    assert(run_from(a@, b@, k as nat).3 =~= Seq::<RoundReport>::empty());
    assert(reports@ + Seq::<RoundReport>::empty() =~= reports@);
    (BattleEnd::RoundLimitReached, reports)
}

/// A fleet found empty when its turn comes ends the battle in that very
/// round, and the other fleet does not fire.
pub proof fn annihilation_ends_battle(a: Seq<GameTank>, b: Seq<GameTank>)
    requires
        a.len() == 0,
    ensures
        run_from(a, b, 0).2,
        run_from(a, b, 0).3 == seq![
            RoundReport { annihilated: true, shots_first: 0, shots_second: 0 },
        ],
        run_from(a, b, 0).1 == rotated(survivors(b)),
{
}

/// When neither front line fires in a round, each fleet ends it with the
/// front line of its survivors moved behind the rest, both parts in their
/// former order.
pub proof fn idle_round_rotates(a: Seq<GameTank>, b: Seq<GameTank>)
    requires
        a.len() > 0,
        b.len() > 0,
        phase_shots(a) == 0,
        phase_shots(b) == 0,
    ensures
        ({
            let sa = survivors(fired_front(a));
            let ma = front_len(sa.len()) as int;
            &&& round(a, b).0 == rotated(sa)
            &&& round(a, b).0.subrange(0, sa.len() - ma) == sa.subrange(ma, sa.len() as int)
            &&& round(a, b).0.subrange(sa.len() - ma, sa.len() as int) == sa.subrange(0, ma)
        }),
        ({
            let sb = survivors(fired_front(b));
            let mb = front_len(sb.len()) as int;
            &&& round(a, b).1 == rotated(sb)
            &&& round(a, b).1.subrange(0, sb.len() - mb) == sb.subrange(mb, sb.len() as int)
            &&& round(a, b).1.subrange(sb.len() - mb, sb.len() as int) == sb.subrange(0, mb)
        }),
{
    let sa = survivors(fired_front(a));
    let ma = front_len(sa.len()) as int;
    let sb = survivors(fired_front(b));
    let mb = front_len(sb.len()) as int;
    assert(damaged(b, 0) == b);
    assert(damaged(fired_front(a), 0) == fired_front(a));
    assert(rotated(sa).subrange(0, sa.len() - ma) =~= sa.subrange(ma, sa.len() as int));
    assert(rotated(sa).subrange(sa.len() - ma, sa.len() as int) =~= sa.subrange(0, ma));
    assert(rotated(sb).subrange(0, sb.len() - mb) =~= sb.subrange(mb, sb.len() as int));
    assert(rotated(sb).subrange(sb.len() - mb, sb.len() as int) =~= sb.subrange(0, mb));
}

} // verus!
