use puretd_engine::board::Board;
use puretd_engine::protocol::{
    check_dice, check_model, describe, evaluate_cube, generated_count, next_action,
    plan_evaluation, Action, Job, LevelKind, MessageKind, Method, ModelError, Refusal,
    CUBE_REFUSAL,
};

fn board() -> Board {
    let mut board: Board = [0; 26];
    board[6] = 5;
    board[19] = -5;
    board
}

#[test]
fn the_description_names_one_level_without_cube() {
    let d = describe("1.2.3");
    assert_eq!(d.protocol_version, "0.1");
    assert_eq!(d.family, "puretd");
    assert_eq!(d.display_name, "PureTD");
    assert_eq!(d.version, "1.2.3");
    assert_eq!(d.build, "puretd-engine 1.2.3");
    assert_eq!(d.max_parallel, 1);
    assert_eq!(d.ply_counting, "xg");
    assert_eq!(d.equity, "contract");
    assert_eq!(d.levels.len(), 1);
    let level = &d.levels[0];
    assert_eq!(level.id, "1ply");
    assert_eq!(level.kind, LevelKind::Ply);
    assert_eq!(level.display_name.as_deref(), Some("PureTD"));
    assert_eq!(level.ply_depth, Some(1));
    assert_eq!(
        level.methods.as_ref().unwrap(),
        &vec![Method::EvaluatePosition, Method::EvaluateMoves, Method::AnalyzeMove]
    );
    assert!(!level.methods.as_ref().unwrap().contains(&Method::EvaluateCube));
    assert!(!level.configurable);
    assert!(!level.supports_progress);
    assert!(!level.supports_cancel);
}

#[test]
fn requests_are_answered_notifications_are_not() {
    assert_eq!(next_action(MessageKind::Describe, true), Action::ReplyDescription);
    assert_eq!(next_action(MessageKind::Describe, false), Action::Nothing);
    assert_eq!(next_action(MessageKind::Shutdown, true), Action::Shutdown { reply: true });
    assert_eq!(next_action(MessageKind::Shutdown, false), Action::Shutdown { reply: false });
    assert_eq!(next_action(MessageKind::Cancel, true), Action::Nothing);
    assert_eq!(
        next_action(MessageKind::Evaluation(Method::EvaluateMoves), true),
        Action::Evaluate(Method::EvaluateMoves)
    );
    assert_eq!(
        next_action(MessageKind::Evaluation(Method::EvaluatePosition), false),
        Action::IgnoreNotification
    );
    assert_eq!(next_action(MessageKind::Unknown, true), Action::ReplyMethodNotFound);
    assert_eq!(next_action(MessageKind::Unknown, false), Action::Nothing);
}

#[test]
fn a_bad_position_id_is_refused_first() {
    let plan = plan_evaluation(
        Method::EvaluatePosition,
        Err("bad position id".to_string()),
        Err("bad match id".to_string()),
        "9ply",
        None,
        None,
    );
    match plan {
        Err(Refusal::InvalidId(message)) => assert_eq!(message, "bad position id"),
        _ => panic!("expected an invalid id"),
    }
}

#[test]
fn a_bad_match_id_is_refused() {
    let plan = plan_evaluation(
        Method::EvaluatePosition,
        Ok(board()),
        Err("bad match id".to_string()),
        "1ply",
        None,
        None,
    );
    match plan {
        Err(Refusal::InvalidId(message)) => assert_eq!(message, "bad match id"),
        _ => panic!("expected an invalid id"),
    }
}

#[test]
fn an_unknown_level_is_refused() {
    let plan = plan_evaluation(Method::EvaluatePosition, Ok(board()), Ok(()), "2ply", None, None);
    assert!(matches!(plan, Err(Refusal::UnknownLevel)));
}

#[test]
fn moves_need_both_dice() {
    let plan =
        plan_evaluation(Method::EvaluateMoves, Ok(board()), Ok(()), "1ply", Some(3), None);
    assert!(matches!(plan, Err(Refusal::MissingDice)));
    let plan = plan_evaluation(Method::AnalyzeMove, Ok(board()), Ok(()), "1ply", None, Some(1));
    assert!(matches!(plan, Err(Refusal::MissingDice)));
}

#[test]
fn dice_are_put_in_ascending_order() {
    let plan =
        plan_evaluation(Method::EvaluateMoves, Ok(board()), Ok(()), "1ply", Some(3), Some(1));
    match plan {
        Ok(Job::Moves { board: b, die1, die2 }) => {
            assert_eq!(b, board());
            assert_eq!((die1, die2), (1, 3));
        }
        _ => panic!("expected a move evaluation"),
    }
    let plan =
        plan_evaluation(Method::AnalyzeMove, Ok(board()), Ok(()), "1ply", Some(1), Some(3));
    match plan {
        Ok(Job::Analyze { die1, die2, .. }) => assert_eq!((die1, die2), (1, 3)),
        _ => panic!("expected a move analysis"),
    }
}

#[test]
fn position_and_cube_need_no_dice() {
    let plan = plan_evaluation(Method::EvaluatePosition, Ok(board()), Ok(()), "1ply", None, None);
    assert!(matches!(plan, Ok(Job::Position { .. })));
    let plan = plan_evaluation(Method::EvaluateCube, Ok(board()), Ok(()), "1ply", None, None);
    assert!(matches!(plan, Ok(Job::Cube { .. })));
}

#[test]
fn cube_questions_are_refused() {
    match evaluate_cube() {
        Err(message) => assert_eq!(message, CUBE_REFUSAL),
        Ok(()) => panic!("cube decisions are not answered"),
    }
}

#[test]
fn dice_outside_one_to_six_are_refused() {
    assert!(check_dice(1, 6).is_ok());
    assert!(check_dice(3, 3).is_ok());
    assert_eq!(check_dice(0, 4), Err("dice 0-4 are not both 1..6".to_string()));
    assert_eq!(check_dice(2, 7), Err("dice 2-7 are not both 1..6".to_string()));
    assert_eq!(check_dice(-1, 2), Err("dice -1-2 are not both 1..6".to_string()));
}

#[test]
fn a_negative_play_count_is_an_overflow() {
    assert_eq!(generated_count(0), Ok(0));
    assert_eq!(generated_count(21), Ok(21));
    assert_eq!(generated_count(-1), Err("move generation overflowed".to_string()));
}

#[test]
fn only_prob5_models_with_room_are_used() {
    assert_eq!(check_model(-1, 2, 200), Err(ModelError::NotAModel));
    assert_eq!(check_model(0, 1, 200), Err(ModelError::NotProb5 { output_mode: 1 }));
    assert_eq!(check_model(0, 2, 257), Err(ModelError::TooManyInputs { input_size: 257 }));
    assert_eq!(check_model(0, 2, -3), Err(ModelError::TooManyInputs { input_size: -3 }));
    assert_eq!(check_model(0, 2, 200), Ok(200));
    assert_eq!(check_model(0, 2, 256), Ok(256));
}
