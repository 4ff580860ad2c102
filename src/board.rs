use vstd::prelude::*;
use crate::piece::{Camp, King, MoveError, Piece};
use crate::vec2::{cells_between, lemma_between_is_segment, on_open_segment, strictly_between, Vec2};

verus! {

/// No two pieces of `s` stand on the same cell.
pub open spec fn distinct_cells(s: Seq<Piece>) -> bool {
    forall|i: int, j: int|
        0 <= i < s.len() && 0 <= j < s.len() && i != j ==> #[trigger] s[i].spec_pos()
            != #[trigger] s[j].spec_pos()
}

/// Some piece of `s` stands on `c`.
pub open spec fn occupies(s: Seq<Piece>, c: Vec2) -> bool {
    exists|i: int| 0 <= i < s.len() && #[trigger] s[i].spec_pos() == c
}

/// The pieces of `s` keyed by the cell each stands on.
pub open spec fn cell_map(s: Seq<Piece>) -> Map<Vec2, Piece> {
    Map::new(
        |c: Vec2| occupies(s, c),
        |c: Vec2| s[choose|i: int| 0 <= i < s.len() && #[trigger] s[i].spec_pos() == c],
    )
}

/// Each piece of a board without shared cells is found under its own cell.
pub proof fn lemma_cell_map_index(s: Seq<Piece>, i: int)
    requires
        distinct_cells(s),
        0 <= i < s.len(),
    ensures
        cell_map(s).contains_key(s[i].spec_pos()),
        cell_map(s)[s[i].spec_pos()] == s[i],
{
    let c = s[i].spec_pos();
    assert(occupies(s, c));
    let j = choose|j: int| 0 <= j < s.len() && #[trigger] s[j].spec_pos() == c;
    assert(s[j].spec_pos() == c);
    assert(j == i);
}

/// Every piece in the map stands on the cell it is keyed by.
pub proof fn lemma_cell_map_key(s: Seq<Piece>, c: Vec2)
    requires
        cell_map(s).contains_key(c),
    ensures
        cell_map(s)[c].spec_pos() == c,
{
}

/// Taking out the piece at index `i` takes its cell out of the map.
pub proof fn lemma_cell_map_remove(s: Seq<Piece>, i: int)
    requires
        distinct_cells(s),
        0 <= i < s.len(),
    ensures
        distinct_cells(s.remove(i)),
        cell_map(s.remove(i)) =~= cell_map(s).remove(s[i].spec_pos()),
{
    let t = s.remove(i);
    let c0 = s[i].spec_pos();
    assert forall|a: int, b: int|
        0 <= a < t.len() && 0 <= b < t.len() && a != b implies #[trigger] t[a].spec_pos()
            != #[trigger] t[b].spec_pos() by {
        let a2 = if a < i { a } else { a + 1 };
        let b2 = if b < i { b } else { b + 1 };
        assert(t[a] == s[a2]);
        assert(t[b] == s[b2]);
    }
    assert forall|c: Vec2| #[trigger] occupies(t, c) == (occupies(s, c) && c != c0) by {
        if occupies(t, c) {
            let a = choose|a: int| 0 <= a < t.len() && #[trigger] t[a].spec_pos() == c;
            let a2 = if a < i { a } else { a + 1 };
            assert(s[a2].spec_pos() == c);
            assert(a2 != i);
        }
        if occupies(s, c) && c != c0 {
            let a = choose|a: int| 0 <= a < s.len() && #[trigger] s[a].spec_pos() == c;
            assert(a != i);
            let a2 = if a < i { a } else { a - 1 };
            assert(t[a2].spec_pos() == c);
        }
    }
    assert forall|c: Vec2| #[trigger] cell_map(t).contains_key(c) implies cell_map(t)[c]
        == cell_map(s)[c] by {
        let a = choose|a: int| 0 <= a < t.len() && #[trigger] t[a].spec_pos() == c;
        let a2 = if a < i { a } else { a + 1 };
        assert(t[a] == s[a2]);
        lemma_cell_map_index(s, a2);
    }
}

/// Adding a piece on a free cell adds it to the map.
pub proof fn lemma_cell_map_push(s: Seq<Piece>, p: Piece)
    requires
        distinct_cells(s),
        !occupies(s, p.spec_pos()),
    ensures
        distinct_cells(s.push(p)),
        cell_map(s.push(p)) =~= cell_map(s).insert(p.spec_pos(), p),
{
    let t = s.push(p);
    assert forall|a: int, b: int|
        0 <= a < t.len() && 0 <= b < t.len() && a != b implies #[trigger] t[a].spec_pos()
            != #[trigger] t[b].spec_pos() by {
        if a < s.len() && b < s.len() {
            assert(t[a] == s[a] && t[b] == s[b]);
        } else if a < s.len() {
            assert(t[a] == s[a]);
        } else {
            assert(t[b] == s[b]);
        }
    }
    assert forall|c: Vec2| #[trigger] occupies(t, c) == (occupies(s, c) || c == p.spec_pos()) by {
        if occupies(t, c) {
            let a = choose|a: int| 0 <= a < t.len() && #[trigger] t[a].spec_pos() == c;
            if a < s.len() {
                assert(s[a].spec_pos() == c);
            }
        }
        if occupies(s, c) {
            let a = choose|a: int| 0 <= a < s.len() && #[trigger] s[a].spec_pos() == c;
            assert(t[a].spec_pos() == c);
        }
        if c == p.spec_pos() {
            assert(t[s.len() as int].spec_pos() == c);
        }
    }
    assert forall|c: Vec2| #[trigger] cell_map(t).contains_key(c) implies cell_map(t)[c]
        == cell_map(s).insert(p.spec_pos(), p)[c] by {
        let a = choose|a: int| 0 <= a < t.len() && #[trigger] t[a].spec_pos() == c;
        lemma_cell_map_index(t, a);
        if a < s.len() {
            assert(t[a] == s[a]);
            lemma_cell_map_index(s, a);
        }
    }
}

/// Replacing the piece at index `i` by one on the same cell replaces it in the map.
pub proof fn lemma_cell_map_update(s: Seq<Piece>, i: int, p: Piece)
    requires
        distinct_cells(s),
        0 <= i < s.len(),
        p.spec_pos() == s[i].spec_pos(),
    ensures
        distinct_cells(s.update(i, p)),
        cell_map(s.update(i, p)) =~= cell_map(s).insert(p.spec_pos(), p),
{
    let t = s.update(i, p);
    assert forall|a: int, b: int|
        0 <= a < t.len() && 0 <= b < t.len() && a != b implies #[trigger] t[a].spec_pos()
            != #[trigger] t[b].spec_pos() by {
        assert(t[a].spec_pos() == s[a].spec_pos());
        assert(t[b].spec_pos() == s[b].spec_pos());
    }
    assert forall|c: Vec2| #[trigger] occupies(t, c) == occupies(s, c) by {
        if occupies(t, c) {
            let a = choose|a: int| 0 <= a < t.len() && #[trigger] t[a].spec_pos() == c;
            assert(s[a].spec_pos() == c);
        }
        if occupies(s, c) {
            let a = choose|a: int| 0 <= a < s.len() && #[trigger] s[a].spec_pos() == c;
            assert(t[a].spec_pos() == c);
        }
    }
    assert(occupies(s, p.spec_pos())) by {
        assert(s[i].spec_pos() == p.spec_pos());
    }
    assert forall|c: Vec2| #[trigger] cell_map(t).contains_key(c) implies cell_map(t)[c]
        == cell_map(s).insert(p.spec_pos(), p)[c] by {
        let a = choose|a: int| 0 <= a < t.len() && #[trigger] t[a].spec_pos() == c;
        lemma_cell_map_index(t, a);
        if a != i {
            lemma_cell_map_index(s, a);
        }
    }
}

/// `m` after putting each piece of `s` on its cell in turn, a later piece
/// replacing an earlier one.
pub open spec fn insert_all(m: Map<Vec2, Piece>, s: Seq<Piece>) -> Map<Vec2, Piece>
    decreases s.len(),
{
    if s.len() == 0 {
        m
    } else {
        insert_all(m, s.drop_last()).insert(s.last().spec_pos(), s.last())
    }
}

/// Putting pieces on distinct cells one by one builds their map.
pub proof fn lemma_insert_all_distinct(s: Seq<Piece>)
    requires
        distinct_cells(s),
    ensures
        insert_all(Map::empty(), s) == cell_map(s),
    decreases s.len(),
{
    if s.len() == 0 {
        assert(cell_map(s) =~= Map::empty());
    } else {
        let t = s.drop_last();
        let p = s.last();
        assert(s =~= t.push(p));
        assert(distinct_cells(t)) by {
            assert forall|i: int, j: int|
                0 <= i < t.len() && 0 <= j < t.len() && i != j implies #[trigger] t[i].spec_pos()
                    != #[trigger] t[j].spec_pos() by {
                assert(t[i] == s[i] && t[j] == s[j]);
            }
        }
        assert(!occupies(t, p.spec_pos())) by {
            if occupies(t, p.spec_pos()) {
                let i = choose|i: int| 0 <= i < t.len() && #[trigger] t[i].spec_pos() == p.spec_pos();
                assert(s[i] == t[i]);
                assert(s[s.len() - 1] == p);
            }
        }
        lemma_insert_all_distinct(t);
        lemma_cell_map_push(t, p);
    }
}

/// Two listings of the same pieces, each with one piece per cell, give the
/// same map.
pub proof fn lemma_cell_map_same_pieces(s: Seq<Piece>, t: Seq<Piece>)
    requires
        distinct_cells(s),
        distinct_cells(t),
        forall|p: Piece| s.contains(p) <==> t.contains(p),
    ensures
        cell_map(s) =~= cell_map(t),
{
    assert forall|c: Vec2| #[trigger] occupies(s, c) implies occupies(t, c) && cell_map(s)[c]
        == cell_map(t)[c] by {
        let i = choose|i: int| 0 <= i < s.len() && #[trigger] s[i].spec_pos() == c;
        assert(s.contains(s[i]));
        let j = choose|j: int| 0 <= j < t.len() && t[j] == s[i];
        assert(t[j].spec_pos() == c);
        lemma_cell_map_index(s, i);
        lemma_cell_map_index(t, j);
    }
    assert forall|c: Vec2| #[trigger] occupies(t, c) implies occupies(s, c) by {
        let j = choose|j: int| 0 <= j < t.len() && #[trigger] t[j].spec_pos() == c;
        assert(t.contains(t[j]));
        let i = choose|i: int| 0 <= i < s.len() && s[i] == t[j];
        assert(s[i].spec_pos() == c);
    }
}

/// The pieces in play, at most one on each cell.
#[derive(Debug)]
pub struct ChessBoard {
    pub board: Vec<Piece>,
}

impl View for ChessBoard {
    type V = Map<Vec2, Piece>;

    open spec fn view(&self) -> Map<Vec2, Piece> {
        cell_map(self.board@)
    }
}

/// The map after the piece on `from` has been put on `to`, replacing whatever
/// stood there.
pub open spec fn relocated(m: Map<Vec2, Piece>, from: Vec2, to: Vec2) -> Map<Vec2, Piece> {
    m.remove(from).insert(to, m[from].moved_to(to))
}

/// Some cell strictly between `from` and `to` is occupied in `m`.
pub open spec fn blocked(m: Map<Vec2, Piece>, from: Vec2, to: Vec2) -> bool {
    exists|i: int|
        0 <= i < cells_between(from, to).len() && m.contains_key(
            #[trigger] cells_between(from, to)[i],
        )
}

/// A board rebuilt from its pieces, listed in any order, is the same board.
pub proof fn lemma_rebuild_board(b: ChessBoard, s: Seq<Piece>)
    requires
        b.wf(),
        distinct_cells(s),
        forall|p: Piece| s.contains(p) <==> b.board@.contains(p),
    ensures
        insert_all(Map::empty(), s) == b@,
{
    lemma_insert_all_distinct(s);
    lemma_cell_map_same_pieces(s, b.board@);
}

impl ChessBoard {
    pub open spec fn wf(&self) -> bool {
        distinct_cells(self.board@)
    }

    pub fn new() -> (r: Self)
        ensures
            r.wf(),
            r@ == Map::<Vec2, Piece>::empty(),
    {
        let r = ChessBoard { board: Vec::new() };
        assert(r@ =~= Map::<Vec2, Piece>::empty());
        r
    }

    /// A board holding `pieces`, a later piece replacing an earlier one on the
    /// same cell.
    pub fn from_pieces(pieces: &Vec<Piece>) -> (r: Self)
        ensures
            r.wf(),
            r@ == insert_all(Map::empty(), pieces@),
    {
        let mut board = ChessBoard::new();
        let mut i: usize = 0;
        while i < pieces.len()
            invariant
                i <= pieces@.len(),
                board.wf(),
                board@ == insert_all(Map::empty(), pieces@.subrange(0, i as int)),
            decreases pieces@.len() - i,
        {
            board.insert_piece(pieces[i]);
            assert(pieces@.subrange(0, i as int + 1).drop_last() =~= pieces@.subrange(0, i as int));
            i = i + 1;
        }
        assert(pieces@.subrange(0, pieces@.len() as int) =~= pieces@);
        board
    }

    /// A copy of the board, piece for piece.
    pub fn snapshot(&self) -> (r: Self)
        ensures
            r.board@ == self.board@,
    {
        let mut v: Vec<Piece> = Vec::new();
        let mut i: usize = 0;
        while i < self.board.len()
            invariant
                i <= self.board@.len(),
                v@ == self.board@.subrange(0, i as int),
            decreases self.board@.len() - i,
        {
            v.push(self.board[i]);
            i = i + 1;
        }
        assert(v@ =~= self.board@);
        ChessBoard { board: v }
    }

    fn index_of(&self, pos: Vec2) -> (r: Option<usize>)
        requires
            self.wf(),
        ensures
            match r {
                Some(i) => i < self.board@.len() && self.board@[i as int].spec_pos() == pos,
                None => !self@.contains_key(pos),
            },
    {
        let mut i: usize = 0;
        while i < self.board.len()
            invariant
                i <= self.board@.len(),
                forall|j: int| 0 <= j < i ==> #[trigger] self.board@[j].spec_pos() != pos,
            decreases self.board@.len() - i,
        {
            if self.board[i].pos() == pos {
                return Some(i);
            }
            i = i + 1;
        }
        None
    }

    /// Puts `p` on its own cell, replacing any piece that stood there.
    pub fn insert_piece(&mut self, p: Piece)
        requires
            old(self).wf(),
        ensures
            final(self).wf(),
            final(self)@ == old(self)@.insert(p.spec_pos(), p),
    {
        match self.index_of(p.pos()) {
            Some(i) => {
                proof {
                    lemma_cell_map_update(self.board@, i as int, p);
                }
                self.board.set(i, p);
            },
            None => {
                proof {
                    lemma_cell_map_push(self.board@, p);
                }
                self.board.push(p);
            },
        }
    }

    /// Takes the piece off `pos`.
    pub fn remove_piece(&mut self, pos: Vec2) -> (r: Result<Piece, MoveError>)
        requires
            old(self).wf(),
        ensures
            final(self).wf(),
            old(self)@.contains_key(pos) ==> r == Ok::<Piece, MoveError>(old(self)@[pos])
                && final(self)@ == old(self)@.remove(pos),
            !old(self)@.contains_key(pos) ==> r == Err::<Piece, MoveError>(
                MoveError::PieceNotFound,
            ) && final(self)@ == old(self)@,
    {
        match self.index_of(pos) {
            Some(i) => {
                proof {
                    lemma_cell_map_index(self.board@, i as int);
                    lemma_cell_map_remove(self.board@, i as int);
                }
                let p = self.board.remove(i);
                Ok(p)
            },
            None => Err(MoveError::PieceNotFound),
        }
    }

    /// Moves the piece on `from` to `to`, discarding any piece that stood on
    /// `to`.
    pub fn move_piece(&mut self, from: Vec2, to: Vec2) -> (r: Result<(), MoveError>)
        requires
            old(self).wf(),
        ensures
            final(self).wf(),
            old(self)@.contains_key(from) ==> r == Ok::<(), MoveError>(()) && final(self)@ == relocated(
                old(self)@,
                from,
                to,
            ),
            !old(self)@.contains_key(from) ==> r == Err::<(), MoveError>(MoveError::PieceNotFound)
                && final(self)@ == old(self)@,
    {
        match self.remove_piece(from) {
            Ok(p) => {
                let mut p = p;
                p.change_pos(to);
                self.insert_piece(p);
                Ok(())
            },
            Err(e) => Err(e),
        }
    }

    /// The piece on `pos`, if any.
    pub fn get_piece(&self, pos: Vec2) -> (r: Option<Piece>)
        requires
            self.wf(),
        ensures
            r == self@.get(pos),
    {
        match self.index_of(pos) {
            Some(i) => {
                proof {
                    lemma_cell_map_index(self.board@, i as int);
                }
                Some(self.board[i])
            },
            None => None,
        }
    }

    /// Whether every cell strictly between `from` and `to` is empty.
    pub fn path_clear(&self, from: Vec2, to: Vec2) -> (r: bool)
        requires
            self.wf(),
        ensures
            r == !blocked(self@, from, to),
    {
        let mut i: usize = 0;
        while i < self.board.len()
            invariant
                self.wf(),
                i <= self.board@.len(),
                forall|j: int|
                    0 <= j < i ==> !on_open_segment(from, to, #[trigger] self.board@[j].spec_pos()),
            decreases self.board@.len() - i,
        {
            let c = self.board[i].pos();
            if strictly_between(from, to, c) {
                proof {
                    lemma_between_is_segment(from, to, c);
                    lemma_cell_map_index(self.board@, i as int);
                    let k = choose|k: int| 0 <= k < cells_between(from, to).len() && cells_between(from, to)[k] == c;
                    assert(self@.contains_key(cells_between(from, to)[k]));
                }
                return false;
            }
            i = i + 1;
        }
        proof {
            assert forall|k: int| 0 <= k < cells_between(from, to).len() implies !self@.contains_key(
                #[trigger] cells_between(from, to)[k],
            ) by {
                let c = cells_between(from, to)[k];
                if self@.contains_key(c) {
                    let j = choose|j: int| 0 <= j < self.board@.len() && #[trigger] self.board@[j].spec_pos() == c;
                    lemma_between_is_segment(from, to, c);
                    assert(cells_between(from, to).contains(c));
                }
            }
        }
        true
    }

    /// A king of `camp`, if one is on the board.
    pub fn get_king_of_camp(&self, camp: Camp) -> (r: Option<King>)
        requires
            self.wf(),
        ensures
            match r {
                Some(k) => k.camp == camp && self@.contains_key(k.pos) && self@[k.pos]
                    == Piece::King(k),
                None => forall|c: Vec2| #[trigger]
                    self@.contains_key(c) ==> !(self@[c] is King && self@[c].spec_camp() == camp),
            },
    {
        let mut i: usize = 0;
        while i < self.board.len()
            invariant
                self.wf(),
                i <= self.board@.len(),
                forall|j: int|
                    0 <= j < i ==> !(#[trigger] self.board@[j] is King
                        && self.board@[j].spec_camp() == camp),
            decreases self.board@.len() - i,
        {
            if let Piece::King(k) = self.board[i] {
                if k.camp == camp {
                    proof {
                        lemma_cell_map_index(self.board@, i as int);
                    }
                    return Some(k);
                }
            }
            i = i + 1;
        }
        assert forall|c: Vec2| #[trigger] self@.contains_key(c) implies !(self@[c] is King
            && self@[c].spec_camp() == camp) by {
            let j = choose|j: int| 0 <= j < self.board@.len() && #[trigger] self.board@[j].spec_pos() == c;
            lemma_cell_map_index(self.board@, j);
        }
        None
    }

    /// The pieces of `camp`, each once.
    pub fn get_piece_of_camp(&self, camp: Camp) -> (r: Vec<Piece>)
        requires
            self.wf(),
        ensures
            distinct_cells(r@),
            forall|i: int|
                0 <= i < r@.len() ==> #[trigger] r@[i].spec_camp() == camp && self@.contains_key(
                    r@[i].spec_pos(),
                ) && self@[r@[i].spec_pos()] == r@[i],
            forall|c: Vec2|
                #[trigger] self@.contains_key(c) && self@[c].spec_camp() == camp ==> occupies(
                    r@,
                    c,
                ),
    {
        let mut pieces: Vec<Piece> = Vec::new();
        let mut i: usize = 0;
        while i < self.board.len()
            invariant
                self.wf(),
                i <= self.board@.len(),
                distinct_cells(pieces@),
                forall|k: int|
                    0 <= k < pieces@.len() ==> exists|j: int|
                        0 <= j < i && #[trigger] pieces@[k] == #[trigger] self.board@[j],
                forall|k: int| 0 <= k < pieces@.len() ==> #[trigger] pieces@[k].spec_camp() == camp,
                forall|j: int|
                    0 <= j < i && #[trigger] self.board@[j].spec_camp() == camp ==> occupies(
                        pieces@,
                        self.board@[j].spec_pos(),
                    ),
            decreases self.board@.len() - i,
        {
            let p = self.board[i];
            if p.camp() == camp {
                let ghost old_pieces = pieces@;
                proof {
                    assert(!occupies(old_pieces, p.spec_pos())) by {
                        if occupies(old_pieces, p.spec_pos()) {
                            let k = choose|k: int| 0 <= k < old_pieces.len() && #[trigger] old_pieces[k].spec_pos() == p.spec_pos();
                            let j = choose|j: int| 0 <= j < i && #[trigger] old_pieces[k] == #[trigger] self.board@[j];
                            assert(self.board@[j].spec_pos() == self.board@[i as int].spec_pos());
                        }
                    }
                    lemma_cell_map_push(old_pieces, p);
                }
                pieces.push(p);
                proof {
                    assert forall|k: int| 0 <= k < pieces@.len() implies exists|j: int|
                        0 <= j < i + 1 && #[trigger] pieces@[k] == #[trigger] self.board@[j] by {
                        if k < old_pieces.len() {
                            assert(pieces@[k] == old_pieces[k]);
                        } else {
                            assert(pieces@[k] == self.board@[i as int]);
                        }
                    }
                    assert forall|j: int| 0 <= j < i + 1 && #[trigger] self.board@[j].spec_camp() == camp implies occupies(
                        pieces@,
                        self.board@[j].spec_pos(),
                    ) by {
                        if j < i {
                            let k = choose|k: int| 0 <= k < old_pieces.len() && #[trigger] old_pieces[k].spec_pos() == self.board@[j].spec_pos();
                            assert(pieces@[k] == old_pieces[k]);
                        } else {
                            assert(pieces@[old_pieces.len() as int] == p);
                        }
                    }
                }
            }
            i = i + 1;
        }
        proof {
            assert forall|k: int| 0 <= k < pieces@.len() implies #[trigger] pieces@[k].spec_camp() == camp
                && self@.contains_key(pieces@[k].spec_pos()) && self@[pieces@[k].spec_pos()] == pieces@[k] by {
                let j = choose|j: int| 0 <= j < i && #[trigger] pieces@[k] == #[trigger] self.board@[j];
                lemma_cell_map_index(self.board@, j);
            }
            assert forall|c: Vec2| #[trigger] self@.contains_key(c) && self@[c].spec_camp() == camp implies occupies(pieces@, c) by {
                let j = choose|j: int| 0 <= j < self.board@.len() && #[trigger] self.board@[j].spec_pos() == c;
                lemma_cell_map_index(self.board@, j);
            }
        }
        pieces
    }
}

} // verus!
