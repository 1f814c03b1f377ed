use mangrove::color::{Color, ParseColorError};
use mangrove::score::Score;
use mangrove::search::{after_send, next_action, CommandPoll, SearchAction, SearchCommand, SearchThreadError};
use mangrove::pieces::{Move, MoveMeta, PieceKind};
use mangrove::square::Square;

#[test]
fn color_text_round_trip() {
    assert_eq!("w".parse::<Color>(), Ok(Color::White));
    assert_eq!("b".parse::<Color>(), Ok(Color::Black));
    assert_eq!("x".parse::<Color>(), Err(ParseColorError));
    assert_eq!("".parse::<Color>(), Err(ParseColorError));
    assert_eq!("wb".parse::<Color>(), Err(ParseColorError));
    assert_eq!(Color::White.to_text(), "w");
    assert_eq!(Color::Black.to_text(), "b");
    assert_eq!(!Color::White, Color::Black);
    assert_eq!(Color::Black.negate(), Color::White);
}

#[test]
fn mate_scores() {
    assert_eq!(Score::from_mate_distance(1).value(), 32766);
    assert_eq!(Score::from_mate_distance(-1).value(), -32766);
    assert_eq!(Score::from_mate_distance(0).value(), 0);
    assert!(Score::from_mate_distance(1).value() > Score::from_mate_distance(3).value());
    assert!(Score::from_mate_distance(3).value() > Score::from_evaluation(i16::MAX).value());
    assert!(Score::from_mate_distance(-1).value() < Score::from_mate_distance(-3).value());
    assert_eq!(Score::best().value(), 32766);
    assert_eq!(Score::worst().value(), -32766);
    assert_eq!(Score::draw().value(), 0);
}

#[test]
fn evaluations_are_clamped() {
    assert_eq!(Score::from_evaluation(3).value(), 3);
    assert_eq!(Score::from_evaluation(100).value(), 10);
    assert_eq!(Score::from_evaluation(-100).value(), -10);
    assert_eq!(Score::from_evaluation(i16::MIN).value(), -10);
}

#[test]
fn flipping_scores() {
    let s = Score::from_evaluation(7);
    assert_eq!(s.flip().value(), -7);
    assert_eq!(s.flip().flip(), s);
    let mut m = Score::from_mate_distance(5);
    m.flip_in_place();
    assert_eq!(m, Score::from_mate_distance(-5));
}

#[test]
fn score_text() {
    assert_eq!(Score::from_evaluation(7).to_text(), "7");
    assert_eq!(Score::from_evaluation(-3).to_text(), "-3");
    assert_eq!(Score::from_mate_distance(1).to_text(), "#1");
    assert_eq!(Score::from_mate_distance(3).to_text(), "#2");
    assert_eq!(Score::from_mate_distance(-3).to_text(), "#-2");
    assert_eq!(Score::from_mate_distance(-1).to_text(), "#-1");
    assert_eq!(Score::from_mate_distance(-2).to_text(), "#-1");
}

fn some_move() -> Move {
    Move {
        origin: Square::at(1, 4),
        target: Square::at(3, 4),
        moved_piece_kind: PieceKind::Pawn,
        meta: MoveMeta::DoublePush,
    }
}

#[test]
fn dropped_controller_stops_worker_without_sending() {
    assert_eq!(next_action(CommandPoll::Disconnected), SearchAction::Stop);
}

#[test]
fn worker_decisions() {
    assert_eq!(next_action(CommandPoll::Empty), SearchAction::Expand);
    assert_eq!(
        next_action(CommandPoll::Received(SearchCommand::SendAndPlayBestMove)),
        SearchAction::SendBestMove
    );
    assert_eq!(
        next_action(CommandPoll::Received(SearchCommand::PlayedMove(some_move()))),
        SearchAction::Advance(some_move())
    );
    assert_eq!(after_send(true, some_move()), SearchAction::Advance(some_move()));
    assert_eq!(after_send(false, some_move()), SearchAction::Stop);
}

#[test]
fn thread_errors() {
    match SearchThreadError::new(Some("boom".to_string())) {
        SearchThreadError::Error(m) => assert_eq!(m, "boom"),
        SearchThreadError::Unknown => panic!("expected a message"),
    }
    assert!(matches!(SearchThreadError::new(None), SearchThreadError::Unknown));
}
