use ninja_killers::enemy::{may_spawn, new_enemy_level, MAX_ENEMIES};

#[test]
fn spawning_pauses_above_fifty_enemies() {
    assert_eq!(MAX_ENEMIES, 50);
    assert!(may_spawn(0));
    assert!(may_spawn(50));
    assert!(!may_spawn(51));
}

#[test]
fn enemy_level_stays_near_the_player() {
    let mut seen = [false; 4];
    for _ in 0..400 {
        let l = new_enemy_level(5);
        assert!((4..8).contains(&l), "level {} out of range", l);
        seen[(l - 4) as usize] = true;
    }
    assert!(seen.iter().all(|s| *s));
}

#[test]
fn enemy_level_at_level_one_may_be_zero() {
    for _ in 0..100 {
        let l = new_enemy_level(1);
        assert!((0..4).contains(&l));
    }
}
