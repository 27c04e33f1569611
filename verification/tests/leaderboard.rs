use minesweeper::leaderboard::{Difficulty, Leaderboard};

#[test]
fn presets_are_the_three_fixed_boards() {
    assert_eq!(Difficulty::Beginner.preset(), (8, 8, 10));
    assert_eq!(Difficulty::Intermediate.preset(), (16, 16, 40));
    assert_eq!(Difficulty::Expert.preset(), (24, 20, 99));
}

#[test]
fn leaderboard_keeps_the_minimum_time_per_tier() {
    let mut l = Leaderboard::new();
    assert_eq!(l.best(Difficulty::Beginner), None);
    l.update(Difficulty::Beginner, 50);
    assert_eq!(l.best(Difficulty::Beginner), Some(50));
    l.update(Difficulty::Beginner, 30);
    assert_eq!(l.best(Difficulty::Beginner), Some(30));
    l.update(Difficulty::Beginner, 40);
    assert_eq!(l.best(Difficulty::Beginner), Some(30));
    assert_eq!(l.best(Difficulty::Intermediate), None);
    assert_eq!(l.best(Difficulty::Expert), None);
    l.update(Difficulty::Expert, 200);
    assert_eq!(l.best(Difficulty::Expert), Some(200));
    assert_eq!(l.best(Difficulty::Beginner), Some(30));
}
