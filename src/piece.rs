use vstd::prelude::*;
use crate::board::{blocked, relocated, ChessBoard};
use crate::game::Stage;
use crate::vec2::{abs, iabs, Vec2};

verus! {

/// The two sides of the game.
#[derive(Clone, Copy, Debug, PartialEq, Eq, Structural, Hash)]
pub enum Camp {
    White,
    Black,
}

impl Camp {
    pub open spec fn spec_opposite(self) -> Camp {
        match self {
            Camp::White => Camp::Black,
            Camp::Black => Camp::White,
        }
    }

    #[verifier::when_used_as_spec(spec_opposite)]
    pub fn opposite(self) -> (r: Camp)
        ensures
            r == self.spec_opposite(),
    {
        match self {
            Camp::White => Camp::Black,
            Camp::Black => Camp::White,
        }
    }
}

/// Why a move or a command was refused.
#[derive(Clone, Copy, Debug, PartialEq, Eq, Structural, Hash)]
pub enum MoveError {
    /// No piece stands on the source square.
    PieceNotFound,
    /// The destination holds a piece of the moving side.
    SameSideCapture,
    /// The piece on the source square belongs to the side not to move.
    NotPlayersTurn,
    /// The game already has a winner.
    GameAlreadyFinished,
    /// A promotion must be resolved first.
    PromotionPending,
    /// The piece cannot move that way, or its path is blocked.
    IllegalShape,
    /// The move would leave the mover's own king attackable.
    KingWouldBeExposed,
}

/// What every piece kind shares: where it stands, its side, its display name.
#[derive(Clone, Debug)]
pub struct BasePiece {
    pub pos: Vec2,
    pub camp: Camp,
    pub name: String,
}

/// Displacement from `from` to `to` seen from `camp`'s side of the board:
/// the second side's moves are mirrored, so that forward is always `+1`.
pub open spec fn displacement(camp: Camp, from: Vec2, to: Vec2) -> (int, int) {
    if camp == Camp::White {
        (to.x - from.x, to.y - from.y)
    } else {
        (from.x - to.x, from.y - to.y)
    }
}

/// Displacement in 64-bit integers, where no coordinate pair can overflow.
fn wide_displacement(camp: Camp, from: Vec2, to: Vec2) -> (r: (i64, i64))
    ensures
        r.0 == displacement(camp, from, to).0,
        r.1 == displacement(camp, from, to).1,
        i32::MIN - i32::MAX <= r.0 <= i32::MAX - i32::MIN,
        i32::MIN - i32::MAX <= r.1 <= i32::MAX - i32::MIN,
{
    if camp == Camp::White {
        (to.x as i64 - from.x as i64, to.y as i64 - from.y as i64)
    } else {
        (from.x as i64 - to.x as i64, from.y as i64 - to.y as i64)
    }
}

impl BasePiece {
    pub fn new(x: i32, y: i32, camp: Camp, name: String) -> (r: Self)
        ensures
            r.pos == (Vec2 { x, y }),
            r.camp == camp,
            r.name@ == name@,
    {
        BasePiece { pos: Vec2 { x, y }, camp, name }
    }

    pub fn is_white(&self) -> (r: bool)
        ensures
            r == (self.camp == Camp::White),
    {
        self.camp == Camp::White
    }

    pub fn is_camp(&self, camp: Camp) -> (r: bool)
        ensures
            r == (self.camp == camp),
    {
        self.camp == camp
    }

    /// Whether the side to move in `s` owns this piece.
    pub fn is_your_turn(&self, s: &Stage) -> (r: bool)
        ensures
            r == (self.camp == s.turn),
    {
        match s.turn {
            Camp::White => self.camp == Camp::White,
            Camp::Black => self.camp == Camp::Black,
        }
    }

    /// Displacement from this piece to `newpos`, mirrored for the second side.
    pub fn relative_move(&self, newpos: Vec2) -> (r: Vec2)
        requires
            i32::MIN <= displacement(self.camp, self.pos, newpos).0 <= i32::MAX,
            i32::MIN <= displacement(self.camp, self.pos, newpos).1 <= i32::MAX,
        ensures
            r.x == displacement(self.camp, self.pos, newpos).0,
            r.y == displacement(self.camp, self.pos, newpos).1,
    {
        if self.camp == Camp::White {
            Vec2::new(newpos.x - self.pos.x, newpos.y - self.pos.y)
        } else {
            Vec2::new(self.pos.x - newpos.x, self.pos.y - newpos.y)
        }
    }
}

/// One of the eight neighbouring cells.
pub open spec fn king_shape(dx: int, dy: int) -> bool {
    &&& -1 <= dx <= 1
    &&& -1 <= dy <= 1
    &&& !(dx == 0 && dy == 0)
}

/// Any move along a rank, a file or a diagonal.
pub open spec fn queen_shape(dx: int, dy: int) -> bool {
    &&& !(dx == 0 && dy == 0)
    &&& (dx == 0 || dy == 0 || iabs(dx) == iabs(dy))
}

/// Any move along a diagonal.
pub open spec fn bishop_shape(dx: int, dy: int) -> bool {
    &&& !(dx == 0 && dy == 0)
    &&& iabs(dx) == iabs(dy)
}

/// Any move along a rank or a file.
pub open spec fn rook_shape(dx: int, dy: int) -> bool {
    &&& !(dx == 0 && dy == 0)
    &&& (dx == 0 || dy == 0)
}

/// Two cells one way and one cell the other.
pub open spec fn knight_shape(dx: int, dy: int) -> bool {
    ||| (iabs(dx) == 2 && iabs(dy) == 1)
    ||| (iabs(dx) == 1 && iabs(dy) == 2)
}

fn is_king_shape(dx: i64, dy: i64) -> (r: bool)
    ensures
        r == king_shape(dx as int, dy as int),
{
    if dx > 1 || dx < -1 {
        return false;
    }
    if dy > 1 || dy < -1 {
        return false;
    }
    !(dx == 0 && dy == 0)
}

fn is_queen_shape(dx: i64, dy: i64) -> (r: bool)
    requires
        dx > i64::MIN,
        dy > i64::MIN,
    ensures
        r == queen_shape(dx as int, dy as int),
{
    if dx == 0 && dy == 0 {
        return false;
    }
    dx == 0 || dy == 0 || abs(dx) == abs(dy)
}

fn is_bishop_shape(dx: i64, dy: i64) -> (r: bool)
    requires
        dx > i64::MIN,
        dy > i64::MIN,
    ensures
        r == bishop_shape(dx as int, dy as int),
{
    !(dx == 0 && dy == 0) && abs(dx) == abs(dy)
}

fn is_rook_shape(dx: i64, dy: i64) -> (r: bool)
    ensures
        r == rook_shape(dx as int, dy as int),
{
    !(dx == 0 && dy == 0) && (dx == 0 || dy == 0)
}

fn is_knight_shape(dx: i64, dy: i64) -> (r: bool)
    requires
        dx > i64::MIN,
        dy > i64::MIN,
    ensures
        r == knight_shape(dx as int, dy as int),
{
    let ax = abs(dx);
    let ay = abs(dy);
    (ax == 2 && ay == 1) || (ax == 1 && ay == 2)
}

/// A pawn; `moved` records whether it has left its starting cell.
#[derive(Clone, Copy, Debug, PartialEq, Eq, Structural)]
pub struct Pawn {
    pub pos: Vec2,
    pub camp: Camp,
    pub moved: bool,
}

/// A king; `moved` governs castling.
#[derive(Clone, Copy, Debug, PartialEq, Eq, Structural)]
pub struct King {
    pub pos: Vec2,
    pub camp: Camp,
    pub moved: bool,
}

#[derive(Clone, Copy, Debug, PartialEq, Eq, Structural)]
pub struct Queen {
    pub pos: Vec2,
    pub camp: Camp,
}

#[derive(Clone, Copy, Debug, PartialEq, Eq, Structural)]
pub struct Bishop {
    pub pos: Vec2,
    pub camp: Camp,
}

/// A rook; `moved` governs castling.
#[derive(Clone, Copy, Debug, PartialEq, Eq, Structural)]
pub struct Rook {
    pub pos: Vec2,
    pub camp: Camp,
    pub moved: bool,
}

#[derive(Clone, Copy, Debug, PartialEq, Eq, Structural)]
pub struct Knight {
    pub pos: Vec2,
    pub camp: Camp,
}

/// A piece of any kind.
#[derive(Clone, Copy, Debug, PartialEq, Eq, Structural)]
pub enum Piece {
    Pawn(Pawn),
    King(King),
    Queen(Queen),
    Knight(Knight),
    Bishop(Bishop),
    Rook(Rook),
}


impl Piece {
    pub open spec fn spec_pos(&self) -> Vec2 {
        match self {
            Piece::Pawn(p) => p.pos,
            Piece::King(p) => p.pos,
            Piece::Queen(p) => p.pos,
            Piece::Knight(p) => p.pos,
            Piece::Bishop(p) => p.pos,
            Piece::Rook(p) => p.pos,
        }
    }

    pub open spec fn spec_camp(&self) -> Camp {
        match self {
            Piece::Pawn(p) => p.camp,
            Piece::King(p) => p.camp,
            Piece::Queen(p) => p.camp,
            Piece::Knight(p) => p.camp,
            Piece::Bishop(p) => p.camp,
            Piece::Rook(p) => p.camp,
        }
    }

    /// The display name of the piece's kind.
    pub open spec fn kind_name(self) -> Seq<char> {
        match self {
            Piece::Pawn(_) => "pawn"@,
            Piece::King(_) => "king"@,
            Piece::Queen(_) => "quee"@,
            Piece::Knight(_) => "Knig"@,
            Piece::Bishop(_) => "Bish"@,
            Piece::Rook(_) => "rook"@,
        }
    }

    /// The piece after it has been put on `to`: pawns, kings and rooks
    /// remember that they have moved.
    pub open spec fn moved_to(self, to: Vec2) -> Piece {
        match self {
            Piece::Pawn(p) => Piece::Pawn(Pawn { pos: to, moved: true, ..p }),
            Piece::King(p) => Piece::King(King { pos: to, moved: true, ..p }),
            Piece::Rook(p) => Piece::Rook(Rook { pos: to, moved: true, ..p }),
            Piece::Queen(p) => Piece::Queen(Queen { pos: to, ..p }),
            Piece::Knight(p) => Piece::Knight(Knight { pos: to, ..p }),
            Piece::Bishop(p) => Piece::Bishop(Bishop { pos: to, ..p }),
        }
    }

    #[verifier::when_used_as_spec(spec_pos)]
    pub fn pos(&self) -> (r: Vec2)
        ensures
            r == self.spec_pos(),
    {
        match self {
            Piece::Pawn(p) => p.pos,
            Piece::King(p) => p.pos,
            Piece::Queen(p) => p.pos,
            Piece::Knight(p) => p.pos,
            Piece::Bishop(p) => p.pos,
            Piece::Rook(p) => p.pos,
        }
    }

    #[verifier::when_used_as_spec(spec_camp)]
    pub fn camp(&self) -> (r: Camp)
        ensures
            r == self.spec_camp(),
    {
        match self {
            Piece::Pawn(p) => p.camp,
            Piece::King(p) => p.camp,
            Piece::Queen(p) => p.camp,
            Piece::Knight(p) => p.camp,
            Piece::Bishop(p) => p.camp,
            Piece::Rook(p) => p.camp,
        }
    }

    /// Position, side and display name of the piece.
    pub fn get_base(&self) -> (r: BasePiece)
        ensures
            r.pos == self.spec_pos(),
            r.camp == self.spec_camp(),
            r.name@ == self.kind_name(),
    {
        let name = match self {
            Piece::Pawn(_) => String::from_str("pawn"),
            Piece::King(_) => String::from_str("king"),
            Piece::Queen(_) => String::from_str("quee"),
            Piece::Knight(_) => String::from_str("Knig"),
            Piece::Bishop(_) => String::from_str("Bish"),
            Piece::Rook(_) => String::from_str("rook"),
        };
        BasePiece { pos: self.pos(), camp: self.camp(), name }
    }

    /// Puts the piece on `newpos`, flagging pawns, kings and rooks as moved.
    pub fn change_pos(&mut self, newpos: Vec2)
        ensures
            *final(self) == old(self).moved_to(newpos),
    {
        match self {
            Piece::Pawn(p) => {
                p.pos = newpos;
                p.moved = true;
            },
            Piece::King(p) => {
                p.pos = newpos;
                p.moved = true;
            },
            Piece::Rook(p) => {
                p.pos = newpos;
                p.moved = true;
            },
            Piece::Queen(p) => p.pos = newpos,
            Piece::Knight(p) => p.pos = newpos,
            Piece::Bishop(p) => p.pos = newpos,
        }
    }
}

/// The cell `c` holds a rook that has not moved.
pub open spec fn unmoved_rook_at(m: Map<Vec2, Piece>, c: Vec2) -> bool {
    m.contains_key(c) && match m[c] {
        Piece::Rook(r) => !r.moved,
        _ => false,
    }
}

/// An unmoved rook stands on a cell next to `to` on its rank, on either side.
pub open spec fn rook_beside(m: Map<Vec2, Piece>, to: Vec2) -> bool {
    ||| (to.x > i32::MIN && unmoved_rook_at(m, Vec2 { x: (to.x - 1) as i32, y: to.y }))
    ||| (to.x < i32::MAX && unmoved_rook_at(m, Vec2 { x: (to.x + 1) as i32, y: to.y }))
}

/// An unmoved king going sideways next to an unmoved rook.
pub open spec fn castling(k: King, m: Map<Vec2, Piece>, to: Vec2) -> bool {
    &&& !k.moved
    &&& displacement(k.camp, k.pos, to).1 == 0
    &&& rook_beside(m, to)
}

pub open spec fn pawn_rule(p: Pawn, m: Map<Vec2, Piece>, to: Vec2) -> Option<MoveError> {
    let (dx, dy) = displacement(p.camp, p.pos, to);
    if dx == 0 && dy == 1 {
        if m.contains_key(to) {
            Some(MoveError::IllegalShape)
        } else {
            None
        }
    } else if dx == 0 && dy == 2 {
        if p.moved || m.contains_key(to) || blocked(m, p.pos, to) {
            Some(MoveError::IllegalShape)
        } else {
            None
        }
    } else if iabs(dx) == 1 && dy == 1 {
        if !m.contains_key(to) {
            Some(MoveError::IllegalShape)
        } else if m[to].spec_camp() == p.camp {
            Some(MoveError::SameSideCapture)
        } else {
            None
        }
    } else {
        Some(MoveError::IllegalShape)
    }
}

pub open spec fn king_rule(k: King, m: Map<Vec2, Piece>, to: Vec2) -> Option<MoveError> {
    let (dx, dy) = displacement(k.camp, k.pos, to);
    if king_shape(dx, dy) || castling(k, m, to) {
        None
    } else {
        Some(MoveError::IllegalShape)
    }
}

/// A piece that slides along its `shape` and is stopped by any piece in between.
pub open spec fn slide_rule(shape: bool, m: Map<Vec2, Piece>, from: Vec2, to: Vec2) -> Option<
    MoveError,
> {
    if !shape || blocked(m, from, to) {
        Some(MoveError::IllegalShape)
    } else {
        None
    }
}

/// Why the rule of `p`'s kind forbids going to `to` on the board `m`; `None`
/// when it allows it.
#[verifier::opaque]
pub open spec fn kind_rule(p: Piece, m: Map<Vec2, Piece>, to: Vec2) -> Option<MoveError> {
    let (dx, dy) = displacement(p.spec_camp(), p.spec_pos(), to);
    match p {
        Piece::Pawn(q) => pawn_rule(q, m, to),
        Piece::King(q) => king_rule(q, m, to),
        Piece::Queen(q) => slide_rule(queen_shape(dx, dy), m, q.pos, to),
        Piece::Bishop(q) => slide_rule(bishop_shape(dx, dy), m, q.pos, to),
        Piece::Rook(q) => slide_rule(rook_shape(dx, dy), m, q.pos, to),
        Piece::Knight(_) => if knight_shape(dx, dy) {
            None
        } else {
            Some(MoveError::IllegalShape)
        },
    }
}

/// The cell `to` holds a piece of side `camp`.
pub open spec fn own_piece_at(m: Map<Vec2, Piece>, to: Vec2, camp: Camp) -> bool {
    m.contains_key(to) && m[to].spec_camp() == camp
}

/// Why `p` may not go to `to` on the board `m`, ignoring whose turn it is and
/// whether its own king is left attackable; `None` when it may. No piece may
/// go onto a piece of its own side.
#[verifier::opaque]
pub open spec fn move_rule(p: Piece, m: Map<Vec2, Piece>, to: Vec2) -> Option<MoveError> {
    if own_piece_at(m, to, p.spec_camp()) {
        Some(MoveError::SameSideCapture)
    } else {
        kind_rule(p, m, to)
    }
}

/// Refuses a destination held by a piece of `p`'s own side, else gives the
/// verdict `kind` of `p`'s kind.
fn guard_own_side(p: Piece, kind: Option<MoveError>, to: Vec2, board: &ChessBoard) -> (r: Option<
    MoveError,
>)
    requires
        board.wf(),
        kind == kind_rule(p, board@, to),
    ensures
        r == move_rule(p, board@, to),
{
    proof {
        reveal(move_rule);
    }
    match board.get_piece(to) {
        Some(q) => if q.camp() == p.camp() {
            Some(MoveError::SameSideCapture)
        } else {
            kind
        },
        None => kind,
    }
}

/// What moving `p` to `to` on `m` returns, and the board after it: refused by
/// the piece's rule, refused because `p` is not on the board, or done.
pub open spec fn move_outcome(p: Piece, m: Map<Vec2, Piece>, to: Vec2) -> (
    Result<(), MoveError>,
    Map<Vec2, Piece>,
) {
    match move_rule(p, m, to) {
        Some(e) => (Err(e), m),
        None => if m.contains_key(p.spec_pos()) {
            (Ok(()), relocated(m, p.spec_pos(), to))
        } else {
            (Err(MoveError::PieceNotFound), m)
        },
    }
}

/// Applies a move already allowed by the piece's rule.
fn apply_move(p: Piece, rule: Option<MoveError>, to: Vec2, board: &mut ChessBoard) -> (r: Result<
    (),
    MoveError,
>)
    requires
        old(board).wf(),
        rule == move_rule(p, old(board)@, to),
    ensures
        final(board).wf(),
        (r, final(board)@) == move_outcome(p, old(board)@, to),
{
    match rule {
        Some(e) => Err(e),
        None => board.move_piece(p.pos(), to),
    }
}

impl Pawn {
    pub fn new(x: i32, y: i32, camp: Camp) -> (r: Self)
        ensures
            r == (Pawn { pos: Vec2 { x, y }, camp, moved: false }),
    {
        Pawn { pos: Vec2 { x, y }, camp, moved: false }
    }

    fn check_move(&self, to: Vec2, board: &ChessBoard) -> (r: Option<MoveError>)
        requires
            board.wf(),
        ensures
            r == pawn_rule(*self, board@, to),
    {
        let (dx, dy) = wide_displacement(self.camp, self.pos, to);
        if dx == 0 && dy == 1 {
            if board.get_piece(to).is_some() {
                return Some(MoveError::IllegalShape);
            }
        } else if dx == 0 && dy == 2 {
            if self.moved {
                return Some(MoveError::IllegalShape);
            }
            if board.get_piece(to).is_some() {
                return Some(MoveError::IllegalShape);
            }
            if !board.path_clear(self.pos, to) {
                return Some(MoveError::IllegalShape);
            }
        } else if abs(dx) == 1 && dy == 1 {
            match board.get_piece(to) {
                Some(p) => {
                    if p.camp() == self.camp {
                        return Some(MoveError::SameSideCapture);
                    }
                },
                None => {
                    return Some(MoveError::IllegalShape);
                },
            }
        } else {
            return Some(MoveError::IllegalShape);
        }
        None
    }

    /// Moves the pawn one cell forward onto an empty cell, two from its
    /// starting cell over empty cells, or one diagonally forward onto an
    /// opposing piece.
    pub fn deal_move(&self, to: Vec2, board: &mut ChessBoard) -> (r: Result<(), MoveError>)
        requires
            old(board).wf(),
        ensures
            final(board).wf(),
            (r, final(board)@) == move_outcome(Piece::Pawn(*self), old(board)@, to),
    {
        let kind = self.check_move(to, board);
        proof {
            reveal(kind_rule);
        }
        let rule = guard_own_side(Piece::Pawn(*self), kind, to, board);
        apply_move(Piece::Pawn(*self), rule, to, board)
    }
}

impl King {
    pub fn new(x: i32, y: i32, camp: Camp) -> (r: Self)
        ensures
            r == (King { pos: Vec2 { x, y }, camp, moved: false }),
    {
        King { pos: Vec2 { x, y }, camp, moved: false }
    }

    /// Whether `rmove` is a step to one of the eight neighbouring cells.
    pub fn is_regular_move(&self, rmove: Vec2) -> (r: bool)
        ensures
            r == king_shape(rmove.x as int, rmove.y as int),
    {
        is_king_shape(rmove.x as i64, rmove.y as i64)
    }

    /// Whether going to `to` is a castling: the king has not moved, goes
    /// sideways, and a cell next to `to` on its rank, on either side, holds an
    /// unmoved rook.
    pub fn is_castling(&self, to: Vec2, board: &ChessBoard) -> (r: bool)
        requires
            board.wf(),
        ensures
            r == castling(*self, board@, to),
    {
        if self.moved {
            return false;
        }
        let (_dx, dy) = wide_displacement(self.camp, self.pos, to);
        if dy != 0 {
            return false;
        }
        let left = to.x > i32::MIN && match board.get_piece(Vec2 { x: to.x - 1, y: to.y }) {
            Some(Piece::Rook(r)) => !r.moved,
            _ => false,
        };
        let right = to.x < i32::MAX && match board.get_piece(Vec2 { x: to.x + 1, y: to.y }) {
            Some(Piece::Rook(r)) => !r.moved,
            _ => false,
        };
        left || right
    }

    fn check_move(&self, to: Vec2, board: &ChessBoard) -> (r: Option<MoveError>)
        requires
            board.wf(),
        ensures
            r == king_rule(*self, board@, to),
    {
        let (dx, dy) = wide_displacement(self.camp, self.pos, to);
        if is_king_shape(dx, dy) || self.is_castling(to, board) {
            None
        } else {
            Some(MoveError::IllegalShape)
        }
    }

    /// Moves the king one cell in any direction, or castles.
    pub fn deal_move(&self, to: Vec2, board: &mut ChessBoard) -> (r: Result<(), MoveError>)
        requires
            old(board).wf(),
        ensures
            final(board).wf(),
            (r, final(board)@) == move_outcome(Piece::King(*self), old(board)@, to),
    {
        let kind = self.check_move(to, board);
        proof {
            reveal(kind_rule);
        }
        let rule = guard_own_side(Piece::King(*self), kind, to, board);
        apply_move(Piece::King(*self), rule, to, board)
    }
}

/// The rule of a sliding piece whose shape test gave `shape`.
fn check_slide(shape: bool, from: Vec2, to: Vec2, board: &ChessBoard) -> (r: Option<MoveError>)
    requires
        board.wf(),
    ensures
        r == slide_rule(shape, board@, from, to),
{
    if !shape || !board.path_clear(from, to) {
        Some(MoveError::IllegalShape)
    } else {
        None
    }
}

impl Queen {
    pub fn new(x: i32, y: i32, camp: Camp) -> (r: Self)
        ensures
            r == (Queen { pos: Vec2 { x, y }, camp }),
    {
        Queen { pos: Vec2 { x, y }, camp }
    }

    /// Whether `rmove` runs along a rank, a file or a diagonal.
    pub fn is_legal_move(&self, rmove: Vec2) -> (r: bool)
        ensures
            r == queen_shape(rmove.x as int, rmove.y as int),
    {
        is_queen_shape(rmove.x as i64, rmove.y as i64)
    }

    /// Slides the queen along a rank, a file or a diagonal over empty cells.
    pub fn deal_move(&self, to: Vec2, board: &mut ChessBoard) -> (r: Result<(), MoveError>)
        requires
            old(board).wf(),
        ensures
            final(board).wf(),
            (r, final(board)@) == move_outcome(Piece::Queen(*self), old(board)@, to),
    {
        proof {
            reveal(kind_rule);
        }
        let (dx, dy) = wide_displacement(self.camp, self.pos, to);
        let kind = check_slide(is_queen_shape(dx, dy), self.pos, to, board);
        let rule = guard_own_side(Piece::Queen(*self), kind, to, board);
        apply_move(Piece::Queen(*self), rule, to, board)
    }
}

impl Bishop {
    pub fn new(x: i32, y: i32, camp: Camp) -> (r: Self)
        ensures
            r == (Bishop { pos: Vec2 { x, y }, camp }),
    {
        Bishop { pos: Vec2 { x, y }, camp }
    }

    /// Whether `rmove` runs along a diagonal.
    pub fn is_legal_move(&self, rmove: Vec2) -> (r: bool)
        ensures
            r == bishop_shape(rmove.x as int, rmove.y as int),
    {
        is_bishop_shape(rmove.x as i64, rmove.y as i64)
    }

    /// Slides the bishop along a diagonal over empty cells.
    pub fn deal_move(&self, to: Vec2, board: &mut ChessBoard) -> (r: Result<(), MoveError>)
        requires
            old(board).wf(),
        ensures
            final(board).wf(),
            (r, final(board)@) == move_outcome(Piece::Bishop(*self), old(board)@, to),
    {
        proof {
            reveal(kind_rule);
        }
        let (dx, dy) = wide_displacement(self.camp, self.pos, to);
        let kind = check_slide(is_bishop_shape(dx, dy), self.pos, to, board);
        let rule = guard_own_side(Piece::Bishop(*self), kind, to, board);
        apply_move(Piece::Bishop(*self), rule, to, board)
    }
}

impl Rook {
    pub fn new(x: i32, y: i32, camp: Camp) -> (r: Self)
        ensures
            r == (Rook { pos: Vec2 { x, y }, camp, moved: false }),
    {
        Rook { pos: Vec2 { x, y }, camp, moved: false }
    }

    /// Whether `rmove` runs along a rank or a file.
    pub fn is_legal_move(&self, rmove: Vec2) -> (r: bool)
        ensures
            r == rook_shape(rmove.x as int, rmove.y as int),
    {
        is_rook_shape(rmove.x as i64, rmove.y as i64)
    }

    /// Slides the rook along a rank or a file over empty cells.
    pub fn deal_move(&self, to: Vec2, board: &mut ChessBoard) -> (r: Result<(), MoveError>)
        requires
            old(board).wf(),
        ensures
            final(board).wf(),
            (r, final(board)@) == move_outcome(Piece::Rook(*self), old(board)@, to),
    {
        proof {
            reveal(kind_rule);
        }
        let (dx, dy) = wide_displacement(self.camp, self.pos, to);
        let kind = check_slide(is_rook_shape(dx, dy), self.pos, to, board);
        let rule = guard_own_side(Piece::Rook(*self), kind, to, board);
        apply_move(Piece::Rook(*self), rule, to, board)
    }
}

impl Knight {
    pub fn new(x: i32, y: i32, camp: Camp) -> (r: Self)
        ensures
            r == (Knight { pos: Vec2 { x, y }, camp }),
    {
        Knight { pos: Vec2 { x, y }, camp }
    }

    /// Whether `rmove` is two cells one way and one the other.
    pub fn is_legal_move(&self, rmove: Vec2) -> (r: bool)
        ensures
            r == knight_shape(rmove.x as int, rmove.y as int),
    {
        is_knight_shape(rmove.x as i64, rmove.y as i64)
    }

    /// Jumps the knight; nothing in between can stop it.
    pub fn deal_move(&self, to: Vec2, board: &mut ChessBoard) -> (r: Result<(), MoveError>)
        requires
            old(board).wf(),
        ensures
            final(board).wf(),
            (r, final(board)@) == move_outcome(Piece::Knight(*self), old(board)@, to),
    {
        proof {
            reveal(kind_rule);
        }
        let (dx, dy) = wide_displacement(self.camp, self.pos, to);
        let kind = if is_knight_shape(dx, dy) {
            None
        } else {
            Some(MoveError::IllegalShape)
        };
        let rule = guard_own_side(Piece::Knight(*self), kind, to, board);
        apply_move(Piece::Knight(*self), rule, to, board)
    }
}

impl Piece {
    /// Why this piece may not go to `to` on `board`; `None` when it may.
    pub fn check_move(&self, to: Vec2, board: &ChessBoard) -> (r: Option<MoveError>)
        requires
            board.wf(),
        ensures
            r == move_rule(*self, board@, to),
    {
        proof {
            reveal(kind_rule);
        }
        let (dx, dy) = wide_displacement(self.camp(), self.pos(), to);
        let kind = match self {
            Piece::Pawn(p) => p.check_move(to, board),
            Piece::King(p) => p.check_move(to, board),
            Piece::Queen(p) => check_slide(is_queen_shape(dx, dy), p.pos, to, board),
            Piece::Bishop(p) => check_slide(is_bishop_shape(dx, dy), p.pos, to, board),
            Piece::Rook(p) => check_slide(is_rook_shape(dx, dy), p.pos, to, board),
            Piece::Knight(_) => if is_knight_shape(dx, dy) {
                None
            } else {
                Some(MoveError::IllegalShape)
            },
        };
        guard_own_side(*self, kind, to, board)
    }

    /// Moves this piece to `to` on `board` if its kind allows it.
    pub fn deal_move(&self, to: Vec2, board: &mut ChessBoard) -> (r: Result<(), MoveError>)
        requires
            old(board).wf(),
        ensures
            final(board).wf(),
            (r, final(board)@) == move_outcome(*self, old(board)@, to),
    {
        match self {
            Piece::Pawn(p) => p.deal_move(to, board),
            Piece::King(p) => p.deal_move(to, board),
            Piece::Queen(p) => p.deal_move(to, board),
            Piece::Bishop(p) => p.deal_move(to, board),
            Piece::Knight(p) => p.deal_move(to, board),
            Piece::Rook(p) => p.deal_move(to, board),
        }
    }
}

} // verus!
