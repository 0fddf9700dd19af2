use ninja_killers::leaderboard::{Leaderboard, PlayerName, Score};
use ninja_killers::level::Level;
use ninja_killers::player::{board_name, death_message, finish_level, record_hit, Experience, Player};

#[test]
fn new_player_starts_at_level_one() {
    let p = Player::default();
    assert_eq!(p.level, Level { value: 1, exp_max: 10 });
    assert_eq!(p.exp, Experience(0));
}

#[test]
fn level_up_raises_the_bar_by_five() {
    let mut p = Player::default();
    p.level_up();
    assert_eq!(p.level, Level { value: 2, exp_max: 15 });
    p.level_up();
    assert_eq!(p.level, Level { value: 3, exp_max: 20 });
}

#[test]
fn experience_below_the_bar_accumulates() {
    let mut p = Player::default();
    p.add_experience(Experience(4));
    p.add_experience(Experience(5));
    assert_eq!(p.exp, Experience(9));
    assert_eq!(p.level.value, 1);
}

#[test]
fn filling_the_bar_levels_up_and_resets() {
    let mut p = Player::default();
    p.add_experience(Experience(9));
    p.add_experience(Experience(1));
    assert_eq!(p.level, Level { value: 2, exp_max: 15 });
    assert_eq!(p.exp, Experience(0));
    p.add_experience(Experience(20));
    assert_eq!(p.level, Level { value: 3, exp_max: 20 });
    assert_eq!(p.exp, Experience(0));
}

#[test]
fn a_hit_scores_and_gives_experience() {
    let mut score = Score { score: 3 };
    let mut p = Player::default();
    record_hit(&mut score, &mut p);
    assert_eq!(score.score, 4);
    assert_eq!(p.exp, Experience(1));
    for _ in 0..9 {
        record_hit(&mut score, &mut p);
    }
    assert_eq!(score.score, 13);
    assert_eq!(p.level.value, 2);
    assert_eq!(p.exp, Experience(0));
}

#[test]
fn empty_name_is_recorded_as_anonymous() {
    assert_eq!(board_name(&PlayerName(String::new())), "Anonymous");
    assert_eq!(board_name(&PlayerName("Kat".to_string())), "Kat");
}

#[test]
fn finishing_a_level_records_and_resets_the_score() {
    let mut board = Leaderboard::default();
    let mut score = Score { score: 12 };
    finish_level(&mut board, &PlayerName(String::new()), &mut score);
    assert_eq!(score.score, 0);
    assert_eq!(board.leaderboard[0].0 .0, "Anonymous");
    assert_eq!(board.leaderboard[0].1.score, 12);
    let mut score = Score { score: 20 };
    finish_level(&mut board, &PlayerName("Kat".to_string()), &mut score);
    assert_eq!(board.leaderboard[0].0 .0, "Kat");
    assert_eq!(board.leaderboard[1].0 .0, "Anonymous");
    assert_eq!(board.leaderboard.len(), 10);
}

#[test]
fn death_message_is_one_of_the_known_lines() {
    let known = [
        "The ninjas got to you!",
        "Oh no you got hit again :(",
        "Did you try running away from the ninjas?",
        "Press Space to throw your shuriken!",
        "That was great, but you can do better!",
        "You need to practice turning into a cactus when you are still.",
    ];
    for _ in 0..50 {
        let m = death_message();
        assert!(known.contains(&m.as_str()), "unexpected message {}", m);
    }
}
