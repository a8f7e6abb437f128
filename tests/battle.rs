use linear_regression_wars::battle::{
    battle, distribute_damage, fire_front_line, play_round, remove_dead, rotate_front_line,
    BattleEnd, RoundReport,
};
use linear_regression_wars::roster::GameTank;

fn units(n: usize, hp: i8, shot: i8, balls: i8) -> Vec<GameTank> {
    (0..n).map(|_| GameTank::new(hp, shot, balls)).collect()
}

fn hps(v: &[GameTank]) -> Vec<i8> {
    v.iter().map(|u| u.hit_point).collect()
}

#[test]
fn damage_wraps_over_small_fleet() {
    let mut v = units(5, 10, 0, 0);
    distribute_damage(&mut v, 12);
    assert_eq!(hps(&v), vec![7, 7, 8, 8, 8]);
}

#[test]
fn damage_stays_in_front_line() {
    let mut v = units(25, 10, 0, 0);
    distribute_damage(&mut v, 22);
    let mut want = vec![8, 8];
    want.extend(vec![9; 18]);
    want.extend(vec![10; 5]);
    assert_eq!(hps(&v), want);
}

#[test]
fn damage_to_empty_fleet() {
    let mut v: Vec<GameTank> = vec![];
    distribute_damage(&mut v, 5);
    assert!(v.is_empty());
}

#[test]
fn damage_does_not_wrap_hit_points() {
    let mut v = units(1, -127, 0, 0);
    distribute_damage(&mut v, 3);
    assert_eq!(hps(&v), vec![-128]);
}

#[test]
fn front_line_fires() {
    let mut v = units(25, 5, 2, 3);
    assert_eq!(fire_front_line(&mut v), 40);
    assert!(v[..20].iter().all(|u| u.balls == 1));
    assert!(v[20..].iter().all(|u| u.balls == 3));
    assert_eq!(fire_front_line(&mut v), 20);
    assert_eq!(fire_front_line(&mut v), 0);
}

#[test]
fn dead_units_removed_in_order() {
    let mut v = vec![
        GameTank::new(1, 0, 0),
        GameTank::new(0, 0, 0),
        GameTank::new(-3, 0, 0),
        GameTank::new(2, 0, 0),
    ];
    remove_dead(&mut v);
    assert_eq!(hps(&v), vec![1, 2]);
}

#[test]
fn rotation_moves_front_line_back() {
    let mut v: Vec<GameTank> = (1..=25).map(|i| GameTank::new(i, 0, 0)).collect();
    rotate_front_line(&mut v);
    let mut want: Vec<i8> = (21..=25).collect();
    want.extend(1..=20);
    assert_eq!(hps(&v), want);
    let mut w: Vec<GameTank> = (1..=3).map(|i| GameTank::new(i, 0, 0)).collect();
    rotate_front_line(&mut w);
    assert_eq!(hps(&w), vec![1, 2, 3]);
}

#[test]
fn empty_attacker_is_annihilated() {
    let mut a: Vec<GameTank> = vec![];
    let mut b = vec![GameTank::new(3, 1, 8), GameTank::new(4, 1, 8)];
    let r = play_round(&mut a, &mut b);
    assert_eq!(r, RoundReport { annihilated: true, shots_first: 0, shots_second: 0 });
    assert_eq!(b, vec![GameTank::new(3, 1, 8), GameTank::new(4, 1, 8)]);
}

#[test]
fn round_trades_fire() {
    let mut a = units(2, 3, 2, 20);
    let mut b = units(3, 1, 1, 8);
    let r = play_round(&mut a, &mut b);
    assert_eq!(r, RoundReport { annihilated: false, shots_first: 4, shots_second: 3 });
    assert_eq!(hps(&a), vec![1, 2]);
    assert!(b.is_empty());
}

#[test]
fn battle_ends_by_annihilation() {
    let mut a = vec![GameTank::new(2, 3, 15)];
    let mut b = vec![GameTank::new(1, 0, 0)];
    let (end, reports) = battle(&mut a, &mut b);
    assert_eq!(end, BattleEnd::Annihilated);
    assert_eq!(
        reports,
        vec![
            RoundReport { annihilated: false, shots_first: 3, shots_second: 0 },
            RoundReport { annihilated: true, shots_first: 3, shots_second: 0 },
        ]
    );
    assert_eq!(a, vec![GameTank::new(2, 3, 9)]);
    assert!(b.is_empty());
}

#[test]
fn battle_without_ammunition_hits_round_limit() {
    let mut a = units(30, 1, 0, 0);
    let mut b = units(2, 1, 3, 0);
    let (end, reports) = battle(&mut a, &mut b);
    assert_eq!(end, BattleEnd::RoundLimitReached);
    assert_eq!(reports.len(), 100);
    assert_eq!(a.len(), 30);
    assert_eq!(b.len(), 2);
}

#[test]
fn battle_removes_dead_from_start() {
    let mut a = vec![GameTank::new(0, 1, 8), GameTank::new(5, 0, 0)];
    let mut b = vec![GameTank::new(5, 0, 0)];
    let (end, _) = battle(&mut a, &mut b);
    assert_eq!(end, BattleEnd::RoundLimitReached);
    assert_eq!(a, vec![GameTank::new(5, 0, 0)]);
    assert_eq!(hps(&b), vec![4]);
}

#[test]
fn battle_never_grows_fleets_or_changes_shots() {
    let mut a: Vec<GameTank> = (0..30).map(|i| GameTank::new(2 + (i % 3) as i8, 1 + (i % 3) as i8, 8)).collect();
    let mut b: Vec<GameTank> = (0..25).map(|i| GameTank::new(4, 2 + (i % 2) as i8, 15)).collect();
    let (a0, b0) = (a.clone(), b.clone());
    let (_, reports) = battle(&mut a, &mut b);
    assert!(!reports.is_empty() && reports.len() <= 100);
    assert!(a.len() <= a0.len() && b.len() <= b0.len());
    for u in &a {
        assert!(u.hit_point > 0);
        assert!(a0.iter().any(|o| o.shot == u.shot && u.balls <= o.balls));
    }
    for u in &b {
        assert!(u.hit_point > 0);
        assert!(b0.iter().any(|o| o.shot == u.shot && u.balls <= o.balls));
    }
}
