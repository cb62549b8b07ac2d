use puretd_engine::board::{Move, Play};
use puretd_engine::ranking::{analysis_for, best_first, rank_plays, RankedPlay};

fn play_of(moves: &[(i32, i32)]) -> Play {
    let mut play = Play::default();
    for (i, (src, dst)) in moves.iter().enumerate() {
        play.moves[i] = Move { src: *src, dst: *dst };
    }
    play.num_moves = moves.len() as i32;
    play
}

fn ranked(notations: &[&str]) -> Vec<RankedPlay> {
    notations
        .iter()
        .enumerate()
        .map(|(i, n)| RankedPlay { index: i, rank: i as i32 + 1, move_notation: n.to_string() })
        .collect()
}

#[test]
fn larger_keys_rank_first() {
    assert_eq!(best_first(&vec![3, 9, -4, 5]), vec![1, 3, 0, 2]);
}

#[test]
fn ties_keep_generation_order() {
    assert_eq!(best_first(&vec![2, 7, 2, 7, 2]), vec![1, 3, 0, 2, 4]);
}

#[test]
fn nothing_to_rank() {
    assert_eq!(best_first(&vec![]), Vec::<usize>::new());
}

#[test]
fn extreme_keys_are_ordered() {
    assert_eq!(best_first(&vec![i64::MIN, i64::MAX, 0]), vec![1, 2, 0]);
}

#[test]
fn ranked_plays_carry_rank_and_notation() {
    let plays = vec![play_of(&[(7, 2)]), play_of(&[(7, 4), (5, 4)]), play_of(&[(23, 20), (12, 11)])];
    let ranked = rank_plays(&plays, &vec![-10, 25, 3]);
    assert_eq!(ranked.len(), 3);
    assert_eq!(ranked[0].index, 1);
    assert_eq!(ranked[0].rank, 1);
    assert_eq!(ranked[0].move_notation, "8/5 6/5");
    assert_eq!(ranked[1].index, 2);
    assert_eq!(ranked[1].rank, 2);
    assert_eq!(ranked[1].move_notation, "24/21 13/12");
    assert_eq!(ranked[2].index, 0);
    assert_eq!(ranked[2].rank, 3);
    assert_eq!(ranked[2].move_notation, "8/3");
}

#[test]
fn only_the_generated_plays_are_ranked() {
    let plays = vec![play_of(&[(7, 2)]), play_of(&[(5, 4)]), Play::default()];
    let ranked = rank_plays(&plays, &vec![1, 1]);
    assert_eq!(ranked.len(), 2);
    assert_eq!(ranked[0].index, 0);
    assert_eq!(ranked[1].index, 1);
}

#[test]
fn the_named_play_is_found() {
    let alternatives = ranked(&["8/5 6/5", "24/21 13/12", "13/10 24/23"]);
    let analysis = analysis_for(&alternatives, Some("13/10 24/23")).unwrap();
    assert_eq!(analysis.played, 2);
    assert_eq!(analysis.best, 0);
}

#[test]
fn the_first_of_equal_notations_is_taken() {
    let alternatives = ranked(&["8/5 6/5", "24/21", "24/21"]);
    let analysis = analysis_for(&alternatives, Some("24/21")).unwrap();
    assert_eq!(analysis.played, 1);
}

#[test]
fn an_unknown_play_falls_back_to_the_best() {
    let alternatives = ranked(&["8/5 6/5", "24/21 13/12"]);
    let analysis = analysis_for(&alternatives, Some("bar/20")).unwrap();
    assert_eq!(analysis.played, 0);
    assert_eq!(analysis.best, 0);
}

#[test]
fn no_named_play_falls_back_to_the_best() {
    let alternatives = ranked(&["8/5 6/5", "24/21 13/12"]);
    let analysis = analysis_for(&alternatives, None).unwrap();
    assert_eq!(analysis.played, 0);
}

#[test]
fn no_alternatives_no_analysis() {
    assert!(analysis_for(&Vec::new(), Some("8/5 6/5")).is_none());
    assert!(analysis_for(&Vec::new(), None).is_none());
}
