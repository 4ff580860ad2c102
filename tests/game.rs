use chess_core::game::{Cmd, Game, MoveCmd, PromoteCmd, Stage};
use chess_core::piece::{Bishop, Camp, King, Knight, MoveError, Pawn, Piece, Queen, Rook};
use chess_core::vec2::Vec2;
use chess_core::ChessBoard;

fn v(x: i32, y: i32) -> Vec2 {
    Vec2::new(x, y)
}

fn mv(from: Vec2, to: Vec2) -> Cmd {
    Cmd::Move(MoveCmd::new(from, to))
}

fn game_with(turn: Camp, pieces: Vec<Piece>) -> Game {
    let mut board = ChessBoard::new();
    for p in pieces {
        board.insert_piece(p);
    }
    Game {
        stage: Stage {
            turn,
            is_promotion: false,
            winner: None,
        },
        board,
    }
}

fn same_game(a: &Game, b: &Game) -> bool {
    a.stage == b.stage && a.board.board == b.board.board
}

#[test]
fn new_game_layout() {
    let g = Game::new();
    assert_eq!(g.board.board.len(), 12);
    assert_eq!(g.stage.turn, Camp::White);
    assert_eq!(g.stage.winner, None);
    assert!(!g.stage.is_promotion);
    assert_eq!(
        g.board.get_piece(v(3, 0)),
        Some(Piece::King(King::new(3, 0, Camp::White)))
    );
    assert_eq!(
        g.board.get_piece(v(4, 7)),
        Some(Piece::Queen(Queen::new(4, 7, Camp::Black)))
    );
    assert_eq!(g.board.get_piece(v(5, 5)), None);
}

#[test]
fn rejected_command_leaves_game_unchanged() {
    let mut g = Game::new();
    let before = g.snapshot();
    assert_eq!(g.exec_cmd(&mv(v(3, 6), v(3, 5))), Err(MoveError::NotPlayersTurn));
    assert!(same_game(&g, &before));
    assert_eq!(g.exec_cmd(&mv(v(5, 5), v(5, 6))), Err(MoveError::PieceNotFound));
    assert!(same_game(&g, &before));
    assert_eq!(g.exec_cmd(&mv(v(4, 0), v(6, 1))), Err(MoveError::IllegalShape));
    assert!(same_game(&g, &before));
}

#[test]
fn successful_move_passes_the_turn() {
    let mut g = Game::new();
    assert_eq!(g.exec_cmd(&mv(v(3, 1), v(3, 3))), Ok(()));
    assert_eq!(g.stage.turn, Camp::Black);
    assert_eq!(
        g.board.get_piece(v(3, 3)),
        Some(Piece::Pawn(Pawn {
            pos: v(3, 3),
            camp: Camp::White,
            moved: true
        }))
    );
    assert_eq!(g.board.get_piece(v(3, 1)), None);
    assert_eq!(g.exec_cmd(&mv(v(3, 6), v(3, 4))), Ok(()));
    assert_eq!(g.stage.turn, Camp::White);
}

#[test]
fn moving_onto_own_piece_is_self_capture() {
    let mut g = Game::new();
    assert_eq!(g.exec_cmd(&mv(v(0, 0), v(1, 0))), Err(MoveError::SameSideCapture));
    assert_eq!(g.exec_cmd(&mv(v(4, 0), v(3, 0))), Err(MoveError::SameSideCapture));
    // the destination is tested against the side to move
    assert_eq!(g.exec_cmd(&mv(v(1, 7), v(2, 7))), Err(MoveError::NotPlayersTurn));
    assert_eq!(g.exec_cmd(&mv(v(1, 7), v(1, 0))), Err(MoveError::SameSideCapture));
}

#[test]
fn move_exposing_own_king_is_refused() {
    let mut g = game_with(
        Camp::White,
        vec![
            Piece::King(King::new(0, 0, Camp::White)),
            Piece::Rook(Rook::new(0, 1, Camp::White)),
            Piece::Rook(Rook::new(0, 7, Camp::Black)),
            Piece::King(King::new(7, 7, Camp::Black)),
        ],
    );
    let before = g.snapshot();
    assert_eq!(
        g.exec_cmd(&mv(v(0, 1), v(1, 1))),
        Err(MoveError::KingWouldBeExposed)
    );
    assert!(same_game(&g, &before));
    assert_eq!(g.exec_cmd(&mv(v(0, 1), v(0, 5))), Ok(()));
    assert_eq!(g.stage.turn, Camp::Black);
}

#[test]
fn rook_is_blocked_by_friendly_bishop() {
    let mut g = game_with(
        Camp::White,
        vec![
            Piece::Rook(Rook::new(0, 0, Camp::White)),
            Piece::Pawn(Pawn::new(0, 3, Camp::Black)),
            Piece::Bishop(Bishop::new(0, 2, Camp::White)),
        ],
    );
    let before = g.snapshot();
    assert_eq!(g.exec_cmd(&mv(v(0, 0), v(0, 5))), Err(MoveError::IllegalShape));
    assert!(same_game(&g, &before));

    let mut board = ChessBoard::new();
    board.insert_piece(Piece::Pawn(Pawn::new(0, 3, Camp::Black)));
    board.insert_piece(Piece::Bishop(Bishop::new(0, 2, Camp::White)));
    let rook = Rook::new(0, 0, Camp::White);
    board.insert_piece(Piece::Rook(rook));
    assert_eq!(rook.deal_move(v(0, 5), &mut board), Err(MoveError::IllegalShape));
    assert_eq!(board.get_piece(v(0, 0)), Some(Piece::Rook(rook)));
}

#[test]
fn knight_jumps_over_occupied_cells() {
    for to in [v(2, 2), v(0, 2), v(3, 1)] {
        let mut board = ChessBoard::new();
        let knight = Knight::new(1, 0, Camp::White);
        board.insert_piece(Piece::Knight(knight));
        board.insert_piece(Piece::Pawn(Pawn::new(2, 1, Camp::White)));
        board.insert_piece(Piece::Pawn(Pawn::new(1, 1, Camp::White)));
        board.insert_piece(Piece::Bishop(Bishop::new(2, 0, Camp::White)));
        assert_eq!(knight.deal_move(to, &mut board), Ok(()));
        assert_eq!(
            board.get_piece(to),
            Some(Piece::Knight(Knight { pos: to, camp: Camp::White }))
        );
        assert_eq!(board.get_piece(v(1, 0)), None);
    }
}

#[test]
fn queen_mate_ends_the_game() {
    let mut g = game_with(
        Camp::White,
        vec![
            Piece::King(King::new(5, 6, Camp::White)),
            Piece::King(King::new(7, 7, Camp::Black)),
            Piece::Queen(Queen::new(6, 0, Camp::White)),
        ],
    );
    assert_eq!(g.exec_cmd(&mv(v(6, 0), v(6, 6))), Ok(()));
    assert_eq!(g.stage.winner, Some(Camp::White));
    assert_eq!(g.stage.turn, Camp::Black);
    assert_eq!(
        g.exec_cmd(&mv(v(7, 7), v(6, 7))),
        Err(MoveError::GameAlreadyFinished)
    );
}

#[test]
fn game_goes_on_while_a_move_remains() {
    let mut g = game_with(
        Camp::White,
        vec![
            Piece::King(King::new(5, 5, Camp::White)),
            Piece::King(King::new(7, 7, Camp::Black)),
            Piece::Queen(Queen::new(6, 0, Camp::White)),
        ],
    );
    assert_eq!(g.exec_cmd(&mv(v(6, 0), v(6, 1))), Ok(()));
    assert_eq!(g.stage.winner, None);
}

#[test]
fn pending_promotion_blocks_moves() {
    let mut g = Game::new();
    g.stage.is_promotion = true;
    assert_eq!(g.exec_cmd(&mv(v(3, 1), v(3, 2))), Err(MoveError::PromotionPending));
}

#[test]
fn promote_command_passes_the_turn() {
    let mut g = Game::new();
    let c = Cmd::Promote(PromoteCmd {
        from: v(3, 1),
        to: "queen".to_string(),
    });
    assert_eq!(g.exec_cmd(&c), Ok(()));
    assert_eq!(g.stage.turn, Camp::Black);
    assert_eq!(g.board.board.len(), 12);
}

#[test]
fn pawn_rules() {
    let mut g = Game::new();
    assert_eq!(g.exec_cmd(&mv(v(3, 1), v(3, 4))), Err(MoveError::IllegalShape));
    assert_eq!(g.exec_cmd(&mv(v(3, 1), v(4, 2))), Err(MoveError::IllegalShape));
    assert_eq!(g.exec_cmd(&mv(v(3, 1), v(3, 2))), Ok(()));
    assert_eq!(g.exec_cmd(&mv(v(3, 6), v(3, 5))), Ok(()));
    // a moved pawn may not step two
    assert_eq!(g.exec_cmd(&mv(v(3, 2), v(3, 4))), Err(MoveError::IllegalShape));
    // a pawn may not go forward onto a piece
    assert_eq!(g.exec_cmd(&mv(v(3, 2), v(3, 3))), Ok(()));
    assert_eq!(g.exec_cmd(&mv(v(3, 5), v(3, 4))), Ok(()));
    assert_eq!(g.exec_cmd(&mv(v(3, 3), v(3, 4))), Err(MoveError::IllegalShape));
}

#[test]
fn pawn_captures_diagonally() {
    let mut board = ChessBoard::new();
    let pawn = Pawn::new(3, 3, Camp::Black);
    board.insert_piece(Piece::Pawn(pawn));
    board.insert_piece(Piece::Knight(Knight::new(2, 2, Camp::White)));
    board.insert_piece(Piece::Knight(Knight::new(4, 2, Camp::Black)));
    assert_eq!(pawn.deal_move(v(4, 2), &mut board), Err(MoveError::SameSideCapture));
    assert_eq!(pawn.deal_move(v(4, 4), &mut board), Err(MoveError::IllegalShape));
    assert_eq!(pawn.deal_move(v(2, 2), &mut board), Ok(()));
    assert_eq!(board.board.len(), 2);
    assert_eq!(
        board.get_piece(v(2, 2)),
        Some(Piece::Pawn(Pawn {
            pos: v(2, 2),
            camp: Camp::Black,
            moved: true
        }))
    );
}

#[test]
fn king_steps_and_castles() {
    let king = King::new(3, 0, Camp::White);
    assert!(king.is_regular_move(v(1, 1)));
    assert!(!king.is_regular_move(v(0, 0)));
    assert!(!king.is_regular_move(v(2, 0)));

    let mut board = ChessBoard::new();
    board.insert_piece(Piece::King(king));
    board.insert_piece(Piece::Rook(Rook::new(0, 0, Camp::White)));
    assert!(king.is_castling(v(1, 0), &board));
    assert!(!king.is_castling(v(1, 1), &board));
    assert_eq!(king.deal_move(v(1, 0), &mut board), Ok(()));
    assert_eq!(
        board.get_piece(v(1, 0)),
        Some(Piece::King(King {
            pos: v(1, 0),
            camp: Camp::White,
            moved: true
        }))
    );
    let moved = King {
        pos: v(1, 0),
        camp: Camp::White,
        moved: true,
    };
    assert!(!moved.is_castling(v(1, 0), &board));
    assert_eq!(moved.deal_move(v(5, 0), &mut board), Err(MoveError::IllegalShape));
}

#[test]
fn shapes_of_sliding_pieces() {
    let q = Queen::new(0, 0, Camp::White);
    assert!(q.is_legal_move(v(0, 5)));
    assert!(q.is_legal_move(v(-3, 3)));
    assert!(!q.is_legal_move(v(1, 2)));
    assert!(!q.is_legal_move(v(0, 0)));
    let b = Bishop::new(0, 0, Camp::White);
    assert!(b.is_legal_move(v(2, -2)));
    assert!(!b.is_legal_move(v(0, 2)));
    let r = Rook::new(0, 0, Camp::White);
    assert!(r.is_legal_move(v(0, -4)));
    assert!(!r.is_legal_move(v(1, 1)));
    let n = Knight::new(0, 0, Camp::White);
    assert!(n.is_legal_move(v(-1, 2)));
    assert!(!n.is_legal_move(v(2, 2)));
}

#[test]
fn black_moves_are_mirrored() {
    let base = Piece::Pawn(Pawn::new(3, 6, Camp::Black)).get_base();
    assert_eq!(base.relative_move(v(3, 5)), v(0, 1));
    assert_eq!(base.name, "pawn");
    assert!(!base.is_white());
    assert!(base.is_camp(Camp::Black));
    let white = Piece::Queen(Queen::new(4, 0, Camp::White)).get_base();
    assert_eq!(white.relative_move(v(4, 3)), v(0, 3));
    assert_eq!(white.name, "quee");
}

#[test]
fn board_queries() {
    let g = Game::new();
    let whites = g.board.get_piece_of_camp(Camp::White);
    assert_eq!(whites.len(), 6);
    let king = g.board.get_king_of_camp(Camp::Black).unwrap();
    assert_eq!(king.pos, v(3, 7));
    let empty = ChessBoard::new();
    assert!(empty.get_king_of_camp(Camp::White).is_none());
    assert!(g.board.path_clear(v(0, 1), v(0, 6)));
    assert!(!g.board.path_clear(v(0, 0), v(5, 0)));
}

#[test]
fn board_remove_and_move() {
    let mut board = ChessBoard::new();
    board.insert_piece(Piece::Rook(Rook::new(0, 0, Camp::White)));
    board.insert_piece(Piece::Knight(Knight::new(0, 4, Camp::Black)));
    assert_eq!(board.move_piece(v(3, 3), v(4, 4)), Err(MoveError::PieceNotFound));
    assert_eq!(board.move_piece(v(0, 0), v(0, 4)), Ok(()));
    assert_eq!(board.board.len(), 1);
    assert_eq!(
        board.remove_piece(v(0, 4)),
        Ok(Piece::Rook(Rook {
            pos: v(0, 4),
            camp: Camp::White,
            moved: true
        }))
    );
    assert_eq!(board.remove_piece(v(0, 4)), Err(MoveError::PieceNotFound));
}

#[test]
fn board_rebuilt_from_its_pieces_in_any_order() {
    let g = Game::new();
    let mut pieces = g.board.board.clone();
    pieces.reverse();
    let rebuilt = ChessBoard::from_pieces(&pieces);
    assert_eq!(rebuilt.board.len(), 12);
    for p in g.board.board.iter() {
        assert_eq!(rebuilt.get_piece(p.pos()), Some(*p));
    }
}

#[test]
fn from_pieces_keeps_the_later_piece_on_a_cell() {
    let pieces = vec![
        Piece::Pawn(Pawn::new(2, 2, Camp::White)),
        Piece::Rook(Rook::new(2, 2, Camp::Black)),
    ];
    let board = ChessBoard::from_pieces(&pieces);
    assert_eq!(board.board.len(), 1);
    assert_eq!(
        board.get_piece(v(2, 2)),
        Some(Piece::Rook(Rook::new(2, 2, Camp::Black)))
    );
}

#[test]
fn no_piece_moves_onto_its_own_side() {
    let cases = [
        (Piece::Knight(Knight::new(1, 0, Camp::White)), v(2, 2)),
        (Piece::King(King::new(0, 0, Camp::White)), v(0, 1)),
        (Piece::Queen(Queen::new(0, 0, Camp::White)), v(0, 1)),
        (Piece::Bishop(Bishop::new(0, 0, Camp::White)), v(1, 1)),
        (Piece::Rook(Rook::new(0, 0, Camp::White)), v(0, 1)),
        (Piece::Pawn(Pawn::new(0, 0, Camp::White)), v(0, 1)),
    ];
    for (piece, to) in cases {
        let mut board = ChessBoard::new();
        board.insert_piece(piece);
        board.insert_piece(Piece::Pawn(Pawn::new(to.x, to.y, Camp::White)));
        assert_eq!(piece.check_move(to, &board), Some(MoveError::SameSideCapture));
        assert_eq!(piece.deal_move(to, &mut board), Err(MoveError::SameSideCapture));
        assert_eq!(board.board.len(), 2);
        assert_eq!(board.get_piece(piece.pos()), Some(piece));
    }
}

#[test]
fn pieces_capture_the_other_side() {
    let knight = Knight::new(1, 0, Camp::White);
    let mut board = ChessBoard::new();
    board.insert_piece(Piece::Knight(knight));
    board.insert_piece(Piece::Pawn(Pawn::new(2, 2, Camp::Black)));
    assert_eq!(knight.deal_move(v(2, 2), &mut board), Ok(()));
    assert_eq!(board.board.len(), 1);
}

#[test]
fn castling_finds_a_rook_on_either_side() {
    let king = King::new(4, 0, Camp::White);
    let mut board = ChessBoard::new();
    board.insert_piece(Piece::King(king));
    board.insert_piece(Piece::Knight(Knight::new(5, 0, Camp::White)));
    board.insert_piece(Piece::Rook(Rook::new(7, 0, Camp::White)));
    // a knight left of (6,0) does not hide the rook right of it
    assert!(king.is_castling(v(6, 0), &board));
    let moved_rook = Rook {
        pos: v(7, 0),
        camp: Camp::White,
        moved: true,
    };
    board.insert_piece(Piece::Rook(moved_rook));
    assert!(!king.is_castling(v(6, 0), &board));
}

#[test]
fn legal_moves_listed_once_in_order() {
    let g = Game::new();
    let cmds = g.valid_cmds();
    // six pieces reach 28 cells; the king's step to (4,1) meets the black queen
    assert_eq!(cmds.len(), 27);
    let keys: Vec<i32> = cmds
        .iter()
        .map(|c| match c {
            Cmd::Move(m) => (m.from.x * 8 + m.from.y) * 64 + m.to.x * 8 + m.to.y,
            Cmd::Promote(_) => panic!("only moves are listed"),
        })
        .collect();
    for w in keys.windows(2) {
        assert!(w[0] < w[1]);
    }
    assert!(cmds
        .iter()
        .any(|c| matches!(c, Cmd::Move(m) if m.from == v(3, 1) && m.to == v(3, 3))));
    assert!(!cmds
        .iter()
        .any(|c| matches!(c, Cmd::Move(m) if m.from == v(1, 0) && m.to == v(3, 1))));
    assert!(!cmds
        .iter()
        .any(|c| matches!(c, Cmd::Move(m) if m.from == v(3, 0) && m.to == v(4, 1))));
}
