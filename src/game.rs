use vstd::prelude::*;
use crate::board::{lemma_cell_map_key, relocated, ChessBoard};
use crate::piece::{move_rule, Bishop, Camp, King, Knight, MoveError, Pawn, Piece, Queen, Rook};
use crate::vec2::{
    board_cells, cell_index, cell_key, lemma_cell_index_of, lemma_cell_key_index, on_board, Vec2,
};

verus! {

/// Whose turn it is, whether a promotion is pending, and who has won.
#[derive(Clone, Copy, Debug, PartialEq, Eq, Structural)]
pub struct Stage {
    pub turn: Camp,
    pub is_promotion: bool,
    pub winner: Option<Camp>,
}

impl Stage {
    /// Hands the turn to the other side.
    pub fn change_turn(&mut self)
        ensures
            *final(self) == (Stage { turn: old(self).turn.spec_opposite(), ..*old(self) }),
    {
        match self.turn {
            Camp::Black => {
                self.turn = Camp::White;
            },
            Camp::White => {
                self.turn = Camp::Black;
            },
        }
    }
}

/// Move the piece on `from` to `to`.
#[derive(Clone, Copy, Debug, PartialEq, Eq, Structural)]
pub struct MoveCmd {
    pub from: Vec2,
    pub to: Vec2,
}

impl MoveCmd {
    pub fn new(from: Vec2, to: Vec2) -> (r: MoveCmd)
        ensures
            r == (MoveCmd { from, to }),
    {
        MoveCmd { from, to }
    }
}

/// Promote the piece on `from` to the kind named `to`.
#[derive(Clone, Debug)]
pub struct PromoteCmd {
    pub from: Vec2,
    pub to: String,
}

/// A command given to the game.
#[derive(Clone, Debug)]
pub enum Cmd {
    Move(MoveCmd),
    Promote(PromoteCmd),
}

/// A game as a mathematical value: the stage and the pieces keyed by cell.
pub struct GameState {
    pub stage: Stage,
    pub board: Map<Vec2, Piece>,
}

/// The stage and the board of one game.
#[derive(Debug)]
pub struct Game {
    pub stage: Stage,
    pub board: ChessBoard,
}

impl View for Game {
    type V = GameState;

    open spec fn view(&self) -> GameState {
        GameState { stage: self.stage, board: self.board@ }
    }
}

/// The game with the turn handed to the other side.
pub open spec fn flipped(g: GameState) -> GameState {
    GameState { stage: Stage { turn: g.stage.turn.spec_opposite(), ..g.stage }, ..g }
}

/// Validates the move from `from` to `to` in `g` and applies it: the source
/// must hold a piece, the destination no piece of the side to move, the game
/// must be running with no promotion pending, the piece must belong to the
/// side to move, and its kind must allow the move.
pub open spec fn step_outcome(g: GameState, from: Vec2, to: Vec2) -> Result<GameState, MoveError> {
    let m = g.board;
    if !m.contains_key(from) {
        Err(MoveError::PieceNotFound)
    } else if m.contains_key(to) && m[to].spec_camp() == g.stage.turn {
        Err(MoveError::SameSideCapture)
    } else if g.stage.winner is Some {
        Err(MoveError::GameAlreadyFinished)
    } else if g.stage.is_promotion {
        Err(MoveError::PromotionPending)
    } else if m[from].spec_camp() != g.stage.turn {
        Err(MoveError::NotPlayersTurn)
    } else {
        match move_rule(m[from], m, to) {
            Some(e) => Err(e),
            None => Ok(GameState { board: relocated(m, from, to), ..g }),
        }
    }
}

/// Some king of `side` could be taken by some piece of the other side.
pub open spec fn in_check(m: Map<Vec2, Piece>, side: Camp) -> bool {
    exists|k: Vec2, a: Vec2|
        #![trigger m[k], m[a]]
        m.contains_key(k) && m[k] is King && m[k].spec_camp() == side && m.contains_key(a)
            && m[a].spec_camp() == side.spec_opposite() && move_rule(m[a], m, k) is None
}

proof fn lemma_in_check_witness(m: Map<Vec2, Piece>, side: Camp, k: Vec2, a: Vec2)
    requires
        m.contains_key(k),
        m[k] is King,
        m[k].spec_camp() == side,
        m.contains_key(a),
        m[a].spec_camp() == side.spec_opposite(),
        move_rule(m[a], m, k) is None,
    ensures
        in_check(m, side),
{
}

/// The side to move may play from `from` to `to` without leaving its own king
/// attackable.
pub open spec fn legal_move(g: GameState, from: Vec2, to: Vec2) -> bool {
    match step_outcome(g, from, to) {
        Ok(g1) => !in_check(g1.board, g.stage.turn),
        Err(_) => false,
    }
}

/// The side to move has a legal move between two cells of the board.
pub open spec fn has_legal_move(g: GameState) -> bool {
    exists|i: int, j: int|
        0 <= i < 64 && 0 <= j < 64 && #[trigger] legal_move(g, cell_index(i), cell_index(j))
}

/// What follows an applied command: refused if the mover's king is left
/// attackable; else the turn passes, and a side left with no legal move has
/// lost.
pub open spec fn finish_outcome(g: GameState) -> Result<GameState, MoveError> {
    if in_check(g.board, g.stage.turn) {
        Err(MoveError::KingWouldBeExposed)
    } else {
        let g2 = flipped(g);
        if has_legal_move(g2) {
            Ok(g2)
        } else {
            Ok(GameState { stage: Stage { winner: Some(g.stage.turn), ..g2.stage }, ..g2 })
        }
    }
}

/// The game after command `c`, or why `c` is refused. A promotion changes
/// nothing on the board.
pub open spec fn command_outcome(g: GameState, c: Cmd) -> Result<GameState, MoveError> {
    match c {
        Cmd::Move(mc) => match step_outcome(g, mc.from, mc.to) {
            Ok(g1) => finish_outcome(g1),
            Err(e) => Err(e),
        },
        Cmd::Promote(_) => finish_outcome(g),
    }
}

/// `c` is a move between two cells of the board that the side to move may
/// legally play.
pub open spec fn listed_legal(g: GameState, c: Cmd) -> bool {
    match c {
        Cmd::Move(mc) => on_board(mc.from) && on_board(mc.to) && legal_move(g, mc.from, mc.to),
        Cmd::Promote(_) => false,
    }
}

/// A move onto a piece of the side to move is refused as a capture of one's
/// own piece, whatever the shape of the move, once a piece stands on its
/// source cell.
pub proof fn lemma_no_self_capture(g: GameState, from: Vec2, to: Vec2)
    requires
        g.board.contains_key(from),
        g.board.contains_key(to),
        g.board[to].spec_camp() == g.stage.turn,
    ensures
        command_outcome(g, Cmd::Move(MoveCmd { from, to })) == Err::<GameState, MoveError>(
            MoveError::SameSideCapture,
        ),
{
}

/// A command that succeeds hands the turn to the other side.
pub proof fn lemma_turn_alternates(g: GameState, c: Cmd)
    requires
        command_outcome(g, c) is Ok,
    ensures
        command_outcome(g, c)->Ok_0.stage.turn == g.stage.turn.spec_opposite(),
{
}

/// After a command that succeeds, no piece of the side now to move could
/// take a king of the side that moved.
pub proof fn lemma_mover_king_safe(g: GameState, c: Cmd)
    requires
        command_outcome(g, c) is Ok,
    ensures
        !in_check(command_outcome(g, c)->Ok_0.board, g.stage.turn),
{
}

/// The starting layout: on each side a king, a pawn in front of it, a queen,
/// a rook, a knight and a bishop.
pub open spec fn initial_board() -> Map<Vec2, Piece> {
    let w = Camp::White;
    let b = Camp::Black;
    Map::<Vec2, Piece>::empty().insert(
        Vec2 { x: 3, y: 0 },
        Piece::King(King { pos: Vec2 { x: 3, y: 0 }, camp: w, moved: false }),
    ).insert(
        Vec2 { x: 3, y: 7 },
        Piece::King(King { pos: Vec2 { x: 3, y: 7 }, camp: b, moved: false }),
    ).insert(
        Vec2 { x: 3, y: 1 },
        Piece::Pawn(Pawn { pos: Vec2 { x: 3, y: 1 }, camp: w, moved: false }),
    ).insert(
        Vec2 { x: 3, y: 6 },
        Piece::Pawn(Pawn { pos: Vec2 { x: 3, y: 6 }, camp: b, moved: false }),
    ).insert(Vec2 { x: 4, y: 0 }, Piece::Queen(Queen { pos: Vec2 { x: 4, y: 0 }, camp: w })).insert(
        Vec2 { x: 4, y: 7 },
        Piece::Queen(Queen { pos: Vec2 { x: 4, y: 7 }, camp: b }),
    ).insert(
        Vec2 { x: 0, y: 0 },
        Piece::Rook(Rook { pos: Vec2 { x: 0, y: 0 }, camp: w, moved: false }),
    ).insert(
        Vec2 { x: 0, y: 7 },
        Piece::Rook(Rook { pos: Vec2 { x: 0, y: 7 }, camp: b, moved: false }),
    ).insert(
        Vec2 { x: 1, y: 0 },
        Piece::Knight(Knight { pos: Vec2 { x: 1, y: 0 }, camp: w }),
    ).insert(
        Vec2 { x: 1, y: 7 },
        Piece::Knight(Knight { pos: Vec2 { x: 1, y: 7 }, camp: b }),
    ).insert(
        Vec2 { x: 2, y: 0 },
        Piece::Bishop(Bishop { pos: Vec2 { x: 2, y: 0 }, camp: w }),
    ).insert(Vec2 { x: 2, y: 7 }, Piece::Bishop(Bishop { pos: Vec2 { x: 2, y: 7 }, camp: b }))
}

/// The place of a move in the order of source cell, then destination cell.
pub open spec fn move_key(c: Cmd) -> int {
    match c {
        Cmd::Move(mc) => cell_key(mc.from) * 64 + cell_key(mc.to),
        Cmd::Promote(_) => -1,
    }
}

/// The moves of `s` come in strictly increasing order, so none comes twice.
pub open spec fn strictly_ordered(s: Seq<Cmd>) -> bool {
    forall|a: int, b: int| 0 <= a < b < s.len() ==> move_key(#[trigger] s[a]) < move_key(#[trigger] s[b])
}

/// `s` holds the move from `from` to `to`.
pub open spec fn lists_move(s: Seq<Cmd>, from: Vec2, to: Vec2) -> bool {
    exists|k: int| 0 <= k < s.len() && s[k] == Cmd::Move(MoveCmd { from, to })
}

impl Game {
    /// A new game in the starting layout, the first side to move.
    pub fn new() -> (r: Self)
        ensures
            r.wf(),
            r.stage == (Stage { turn: Camp::White, is_promotion: false, winner: None }),
            r.board@ == initial_board(),
    {
        let mut game = Game {
            stage: Stage { turn: Camp::White, is_promotion: false, winner: None },
            board: ChessBoard::new(),
        };
        game.board.insert_piece(Piece::King(King::new(3, 0, Camp::White)));
        game.board.insert_piece(Piece::King(King::new(3, 7, Camp::Black)));
        game.board.insert_piece(Piece::Pawn(Pawn::new(3, 1, Camp::White)));
        game.board.insert_piece(Piece::Pawn(Pawn::new(3, 6, Camp::Black)));
        game.board.insert_piece(Piece::Queen(Queen::new(4, 0, Camp::White)));
        game.board.insert_piece(Piece::Queen(Queen::new(4, 7, Camp::Black)));
        game.board.insert_piece(Piece::Rook(Rook::new(0, 0, Camp::White)));
        game.board.insert_piece(Piece::Rook(Rook::new(0, 7, Camp::Black)));
        game.board.insert_piece(Piece::Knight(Knight::new(1, 0, Camp::White)));
        game.board.insert_piece(Piece::Knight(Knight::new(1, 7, Camp::Black)));
        game.board.insert_piece(Piece::Bishop(Bishop::new(2, 0, Camp::White)));
        game.board.insert_piece(Piece::Bishop(Bishop::new(2, 7, Camp::Black)));
        game
    }

    pub open spec fn wf(&self) -> bool {
        self.board.wf()
    }

    /// A copy of the game, piece for piece.
    pub fn snapshot(&self) -> (r: Game)
        ensures
            r.stage == self.stage,
            r.board.board@ == self.board.board@,
    {
        Game { stage: self.stage, board: self.board.snapshot() }
    }

    fn deal_move_target_confirm(&self, from: Vec2, to: Vec2) -> (r: Result<(), MoveError>)
        requires
            self.wf(),
        ensures
            !self.board@.contains_key(from) ==> r == Err::<(), MoveError>(MoveError::PieceNotFound),
            self.board@.contains_key(from) && self.board@.contains_key(to)
                && self.board@[to].spec_camp() == self.stage.turn ==> r == Err::<(), MoveError>(
                MoveError::SameSideCapture,
            ),
            self.board@.contains_key(from) && !(self.board@.contains_key(to)
                && self.board@[to].spec_camp() == self.stage.turn) ==> r == Ok::<(), MoveError>(()),
    {
        if self.board.get_piece(from).is_some() {
            if let Some(target) = self.board.get_piece(to) {
                if target.get_base().is_camp(self.stage.turn) {
                    return Err(MoveError::SameSideCapture);
                }
            }
            Ok(())
        } else {
            Err(MoveError::PieceNotFound)
        }
    }

    fn deal_move_turn(&self, from: Vec2) -> (r: Result<(), MoveError>)
        requires
            self.wf(),
            self.board@.contains_key(from),
        ensures
            self.stage.winner is Some ==> r == Err::<(), MoveError>(MoveError::GameAlreadyFinished),
            self.stage.winner is None && self.stage.is_promotion ==> r == Err::<(), MoveError>(
                MoveError::PromotionPending,
            ),
            self.stage.winner is None && !self.stage.is_promotion ==> if self.board@[from].spec_camp()
                == self.stage.turn {
                r == Ok::<(), MoveError>(())
            } else {
                r == Err::<(), MoveError>(MoveError::NotPlayersTurn)
            },
    {
        if self.stage.winner.is_some() {
            return Err(MoveError::GameAlreadyFinished);
        }
        if self.stage.is_promotion {
            return Err(MoveError::PromotionPending);
        }
        match self.board.get_piece(from) {
            Some(piece) => if piece.get_base().is_your_turn(&self.stage) {
                Ok(())
            } else {
                Err(MoveError::NotPlayersTurn)
            },
            None => Err(MoveError::PieceNotFound),
        }
    }

    fn deal_move_piece(&mut self, from: Vec2, to: Vec2) -> (r: Result<(), MoveError>)
        requires
            old(self).wf(),
            old(self).board@.contains_key(from),
        ensures
            final(self).wf(),
            final(self).stage == old(self).stage,
            match move_rule(old(self).board@[from], old(self).board@, to) {
                Some(e) => r == Err::<(), MoveError>(e) && final(self)@ == old(self)@,
                None => r == Ok::<(), MoveError>(()) && final(self).board@ == relocated(
                    old(self).board@,
                    from,
                    to,
                ),
            },
    {
        proof {
            lemma_cell_map_key(self.board.board@, from);
        }
        match self.board.get_piece(from) {
            Some(piece) => piece.deal_move(to, &mut self.board),
            None => Err(MoveError::PieceNotFound),
        }
    }

    /// Validates and plays the move from `from` to `to`, not yet looking at
    /// the mover's own king.
    fn deal_move(&mut self, from: Vec2, to: Vec2) -> (r: Result<(), MoveError>)
        requires
            old(self).wf(),
        ensures
            final(self).wf(),
            match step_outcome(old(self)@, from, to) {
                Ok(g1) => r == Ok::<(), MoveError>(()) && final(self)@ == g1,
                Err(e) => r == Err::<(), MoveError>(e) && final(self)@ == old(self)@,
            },
    {
        let r = self.deal_move_target_confirm(from, to);
        if r.is_err() {
            return r;
        }
        let r = self.deal_move_turn(from);
        if r.is_err() {
            return r;
        }
        self.deal_move_piece(from, to)
    }

    /// Refuses a position in which some king of the side to move could be
    /// taken by some piece of the other side.
    fn after_check_king_dangerous(&self) -> (r: Result<(), MoveError>)
        requires
            self.wf(),
        ensures
            in_check(self.board@, self.stage.turn) ==> r == Err::<(), MoveError>(
                MoveError::KingWouldBeExposed,
            ),
            !in_check(self.board@, self.stage.turn) ==> r == Ok::<(), MoveError>(()),
    {
        let turn = self.stage.turn;
        let ours = self.board.get_piece_of_camp(turn);
        let theirs = self.board.get_piece_of_camp(turn.opposite());
        let ghost m = self.board@;
        let mut i: usize = 0;
        while i < ours.len()
            invariant
                self.wf(),
                m == self.board@,
                turn == self.stage.turn,
                i <= ours@.len(),
                forall|k: int|
                    0 <= k < ours@.len() ==> #[trigger] ours@[k].spec_camp() == turn
                        && m.contains_key(ours@[k].spec_pos()) && m[ours@[k].spec_pos()]
                        == ours@[k],
                forall|k: int|
                    0 <= k < theirs@.len() ==> #[trigger] theirs@[k].spec_camp()
                        == turn.spec_opposite() && m.contains_key(theirs@[k].spec_pos())
                        && m[theirs@[k].spec_pos()] == theirs@[k],
                forall|k: int, a: int|
                    0 <= k < i && 0 <= a < theirs@.len() && ours@[k] is King ==> move_rule(
                        #[trigger] theirs@[a],
                        m,
                        #[trigger] ours@[k].spec_pos(),
                    ) is Some,
            decreases ours@.len() - i,
        {
            if let Piece::King(king) = ours[i] {
                let mut j: usize = 0;
                while j < theirs.len()
                    invariant
                        self.wf(),
                        m == self.board@,
                        turn == self.stage.turn,
                        i < ours@.len(),
                        ours@[i as int] == Piece::King(king),
                        j <= theirs@.len(),
                        forall|k: int|
                            0 <= k < ours@.len() ==> #[trigger] ours@[k].spec_camp() == turn
                                && m.contains_key(ours@[k].spec_pos()) && m[ours@[k].spec_pos()]
                                == ours@[k],
                        forall|k: int|
                            0 <= k < theirs@.len() ==> #[trigger] theirs@[k].spec_camp()
                                == turn.spec_opposite() && m.contains_key(theirs@[k].spec_pos())
                                && m[theirs@[k].spec_pos()] == theirs@[k],
                        forall|k: int, a: int|
                            0 <= k < i && 0 <= a < theirs@.len() && ours@[k] is King ==> move_rule(
                                #[trigger] theirs@[a],
                                m,
                                #[trigger] ours@[k].spec_pos(),
                            ) is Some,
                        forall|a: int|
                            0 <= a < j ==> move_rule(#[trigger] theirs@[a], m, king.pos) is Some,
                    decreases theirs@.len() - j,
                {
                    if theirs[j].check_move(king.pos, &self.board).is_none() {
                        proof {
                            let kp = ours@[i as int].spec_pos();
                            let ap = theirs@[j as int].spec_pos();
                            assert(ours@[i as int].spec_camp() == turn);
                            assert(theirs@[j as int].spec_camp() == turn.spec_opposite());
                            assert(m.contains_key(kp) && m[kp] == ours@[i as int]);
                            assert(m.contains_key(ap) && m[ap] == theirs@[j as int]);
                            lemma_in_check_witness(m, turn, kp, ap);
                        }
                        return Err(MoveError::KingWouldBeExposed);
                    }
                    j = j + 1;
                }
            }
            i = i + 1;
        }
        proof {
            assert forall|k: Vec2, a: Vec2|
                m.contains_key(k) && #[trigger] m[k] is King && m[k].spec_camp() == turn
                    && m.contains_key(a) && #[trigger] m[a].spec_camp() == turn.spec_opposite()
                implies move_rule(m[a], m, k) is Some by {
                lemma_cell_map_key(self.board.board@, k);
                lemma_cell_map_key(self.board.board@, a);
                let ki = choose|ki: int| 0 <= ki < ours@.len() && #[trigger] ours@[ki].spec_pos() == k;
                let ai = choose|ai: int| 0 <= ai < theirs@.len() && #[trigger] theirs@[ai].spec_pos() == a;
                assert(ours@[ki].spec_camp() == turn);
                assert(theirs@[ai].spec_camp() == turn.spec_opposite());
                assert(ours@[ki] == m[k]);
                assert(theirs@[ai] == m[a]);
            }
        }
        Ok(())
    }

    /// Whether the side to move may play from `from` to `to` without leaving
    /// its own king attackable.
    fn is_legal(&self, from: Vec2, to: Vec2) -> (r: bool)
        requires
            self.wf(),
        ensures
            r == legal_move(self@, from, to),
    {
        let mut copy = self.snapshot();
        match copy.deal_move(from, to) {
            Ok(()) => copy.after_check_king_dangerous().is_ok(),
            Err(_) => false,
        }
    }

    /// Every legal move of the side to move between two cells of the board.
    pub fn valid_cmds(&self) -> (r: Vec<Cmd>)
        requires
            self.wf(),
        ensures
            forall|k: int| 0 <= k < r@.len() ==> listed_legal(self@, #[trigger] r@[k]),
            forall|i: int, j: int|
                0 <= i < 64 && 0 <= j < 64 && #[trigger] legal_move(
                    self@,
                    cell_index(i),
                    cell_index(j),
                ) ==> lists_move(r@, cell_index(i), cell_index(j)),
            strictly_ordered(r@),
            r@.len() <= 4096,
    {
        let mut cmds: Vec<Cmd> = Vec::new();
        let cells = board_cells();
        let mut i: usize = 0;
        while i < 64
            invariant
                self.wf(),
                i <= 64,
                cells@.len() == 64,
                forall|n: int| 0 <= n < 64 ==> #[trigger] cells@[n] == cell_index(n),
                forall|k: int| 0 <= k < cmds@.len() ==> listed_legal(self@, #[trigger] cmds@[k]),
                forall|a: int, b: int|
                    0 <= a < i && 0 <= b < 64 && #[trigger] legal_move(
                        self@,
                        cell_index(a),
                        cell_index(b),
                    ) ==> lists_move(cmds@, cell_index(a), cell_index(b)),
                strictly_ordered(cmds@),
                cmds@.len() <= 64 * i,
                forall|k: int| 0 <= k < cmds@.len() ==> move_key(#[trigger] cmds@[k]) < 64 * i,
            decreases 64 - i,
        {
            let from = cells[i];
            let mut j: usize = 0;
            while j < 64
                invariant
                    self.wf(),
                    i < 64,
                    j <= 64,
                    from == cell_index(i as int),
                    cells@.len() == 64,
                    forall|n: int| 0 <= n < 64 ==> #[trigger] cells@[n] == cell_index(n),
                    forall|k: int|
                        0 <= k < cmds@.len() ==> listed_legal(self@, #[trigger] cmds@[k]),
                    forall|a: int, b: int|
                        (0 <= a < i && 0 <= b < 64 || a == i && 0 <= b < j) && #[trigger] legal_move(
                            self@,
                            cell_index(a),
                            cell_index(b),
                        ) ==> lists_move(cmds@, cell_index(a), cell_index(b)),
                    strictly_ordered(cmds@),
                    cmds@.len() <= 64 * i + j,
                    forall|k: int|
                        0 <= k < cmds@.len() ==> move_key(#[trigger] cmds@[k]) < 64 * i + j,
                decreases 64 - j,
            {
                let to = cells[j];
                if self.is_legal(from, to) {
                    let ghost old_cmds = cmds@;
                    cmds.push(Cmd::Move(MoveCmd { from, to }));
                    proof {
                        lemma_cell_key_index(i as int);
                        lemma_cell_key_index(j as int);
                        let nk = old_cmds.len() as int;
                        assert(move_key(cmds@[nk]) == 64 * i + j);
                        assert forall|k: int| 0 <= k < cmds@.len() implies move_key(
                            #[trigger] cmds@[k],
                        ) < 64 * i + j + 1 by {
                            if k < nk {
                                assert(cmds@[k] == old_cmds[k]);
                            }
                        }
                        assert forall|a: int, b: int|
                            0 <= a < b < cmds@.len() implies move_key(#[trigger] cmds@[a])
                            < move_key(#[trigger] cmds@[b]) by {
                            assert(cmds@[a] == old_cmds[a]);
                            if b < nk {
                                assert(cmds@[b] == old_cmds[b]);
                            }
                        }
                        assert forall|k: int| 0 <= k < cmds@.len() implies listed_legal(
                            self@,
                            #[trigger] cmds@[k],
                        ) by {
                            if k < old_cmds.len() {
                                assert(cmds@[k] == old_cmds[k]);
                            }
                        }
                        assert forall|a: int, b: int|
                            (0 <= a < i && 0 <= b < 64 || a == i && 0 <= b < j + 1)
                                && #[trigger] legal_move(
                                self@,
                                cell_index(a),
                                cell_index(b),
                            ) implies lists_move(cmds@, cell_index(a), cell_index(b)) by {
                            if a == i && b == j {
                                assert(cmds@[old_cmds.len() as int] == Cmd::Move(
                                    MoveCmd { from, to },
                                ));
                            } else {
                                let k = choose|k: int|
                                    0 <= k < old_cmds.len() && old_cmds[k] == Cmd::Move(
                                        MoveCmd { from: cell_index(a), to: cell_index(b) },
                                    );
                                assert(cmds@[k] == old_cmds[k]);
                            }
                        }
                    }
                }
                j = j + 1;
            }
            i = i + 1;
        }
        cmds
    }

    /// Checks the mover's king, hands over the turn, and declares the mover
    /// the winner if the other side is left without a legal move.
    fn exec_cmd_after(&mut self) -> (r: Result<(), MoveError>)
        requires
            old(self).wf(),
        ensures
            final(self).wf(),
            match finish_outcome(old(self)@) {
                Ok(g) => r == Ok::<(), MoveError>(()) && final(self)@ == g,
                Err(e) => r == Err::<(), MoveError>(e) && final(self)@ == old(self)@,
            },
    {
        let r = self.after_check_king_dangerous();
        if r.is_err() {
            return r;
        }
        self.stage.change_turn();
        let cmds = self.valid_cmds();
        proof {
            let g2 = self@;
            assert(g2 == flipped(old(self)@));
            if cmds@.len() > 0 {
                assert(listed_legal(g2, cmds@[0]));
                if let Cmd::Move(mc) = cmds@[0] {
                    lemma_cell_index_of(mc.from);
                    lemma_cell_index_of(mc.to);
                    assert(legal_move(g2, cell_index(mc.from.x * 8 + mc.from.y), cell_index(mc.to.x * 8 + mc.to.y)));
                }
                assert(has_legal_move(g2));
            } else {
                assert(!has_legal_move(g2));
            }
        }
        if cmds.len() == 0 {
            self.stage.winner = Some(self.stage.turn.opposite());
        }
        Ok(())
    }

    /// Executes `c` as one transaction: the move is validated and played,
    /// refused if it leaves the mover's king attackable, the turn passes, and
    /// a side left without a legal move loses. A refused command leaves the
    /// game exactly as it was.
    pub fn exec_cmd(&mut self, c: &Cmd) -> (r: Result<(), MoveError>)
        requires
            old(self).wf(),
        ensures
            final(self).wf(),
            match command_outcome(old(self)@, *c) {
                Ok(g) => r == Ok::<(), MoveError>(()) && final(self)@ == g,
                Err(e) => r == Err::<(), MoveError>(e),
            },
            r is Err ==> final(self)@ == old(self)@ && final(self).board.board@
                == old(self).board.board@,
            r is Ok ==> final(self).stage.turn == old(self).stage.turn.spec_opposite(),
            r is Ok ==> !in_check(final(self).board@, old(self).stage.turn),
    {
        let backup = self.snapshot();
        let res = self.exec_cmd_pre(c);
        if res.is_err() {
            *self = backup;
            return res;
        }
        let ghost g1 = self@;
        let res = self.exec_cmd_after();
        if res.is_err() {
            *self = backup;
            return res;
        }
        proof {
            assert(g1.stage.turn == old(self).stage.turn);
        }
        Ok(())
    }

    fn exec_cmd_pre(&mut self, c: &Cmd) -> (r: Result<(), MoveError>)
        requires
            old(self).wf(),
        ensures
            final(self).wf(),
            match *c {
                Cmd::Move(mc) => match step_outcome(old(self)@, mc.from, mc.to) {
                    Ok(g1) => r == Ok::<(), MoveError>(()) && final(self)@ == g1,
                    Err(e) => r == Err::<(), MoveError>(e) && final(self)@ == old(self)@,
                },
                Cmd::Promote(_) => r == Ok::<(), MoveError>(()) && final(self)@ == old(self)@,
            },
    {
        match c {
            Cmd::Move(x) => self.deal_move(x.from, x.to),
            Cmd::Promote(_) => Ok(()),
        }
    }
}

} // verus!
