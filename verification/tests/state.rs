use asteroids::GameState;

#[test]
fn high_score_starts_at_zero() {
    let s = GameState::new();
    assert_eq!(s.highscore(), 0);
}

#[test]
fn high_score_keeps_the_larger() {
    let mut s = GameState::new();
    s.record(30);
    s.record(10);
    assert_eq!(s.highscore(), 30);
    s.record(40);
    assert_eq!(s.highscore(), 40);
}
