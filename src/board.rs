use vstd::prelude::*;

use crate::piece::PieceKind;
use crate::utils::{Direction, Position, lemma_line_shape};
use rayon_logs::prelude::{IntoParallelIterator, IntoParallelRefIterator, ParallelIterator};

verus! {

/// The kind of the first entry of `s` that stands on `p`, if any.
pub open spec fn occupant_in(s: Seq<(PieceKind, Position)>, p: Position) -> Option<PieceKind>
    decreases s.len(),
{
    if s.len() == 0 {
        None
    } else if s[0].1 == p {
        Some(s[0].0)
    } else {
        occupant_in(s.drop_first(), p)
    }
}

/// The positions of the rooks of `s`, in the order of `s`.
pub open spec fn rooks_in(s: Seq<(PieceKind, Position)>) -> Seq<Position>
    decreases s.len(),
{
    if s.len() == 0 {
        Seq::empty()
    } else if s.last().0 == PieceKind::Rook {
        rooks_in(s.drop_last()).push(s.last().1)
    } else {
        rooks_in(s.drop_last())
    }
}

/// The entries of `s` that do not stand on `p`, in the order of `s`.
pub open spec fn without_at(s: Seq<(PieceKind, Position)>, p: Position) -> Seq<
    (PieceKind, Position),
>
    decreases s.len(),
{
    if s.len() == 0 {
        Seq::empty()
    } else if s.last().1 == p {
        without_at(s.drop_last(), p)
    } else {
        without_at(s.drop_last(), p).push(s.last())
    }
}

/// No entry of `s` stands on `p` exactly when `p` has no occupant in `s`.
pub proof fn lemma_occupant_none(s: Seq<(PieceKind, Position)>, p: Position)
    ensures
        occupant_in(s, p) is None <==> forall|i: int| 0 <= i < s.len() ==> s[i].1 != p,
    decreases s.len(),
{
    if s.len() > 0 {
        lemma_occupant_none(s.drop_first(), p);
        if occupant_in(s, p) is None {
            assert forall|i: int| 0 <= i < s.len() implies s[i].1 != p by {
                if i > 0 {
                    assert(s[i] == s.drop_first()[i - 1]);
                }
            }
        } else {
            if s[0].1 != p {
                let i = choose|i: int| 0 <= i < s.drop_first().len() && s.drop_first()[i].1 == p;
                assert(s[i + 1].1 == p);
            }
        }
    }
}

/// The occupant found at `p` is the kind of some entry on `p`.
pub proof fn lemma_occupant_some(s: Seq<(PieceKind, Position)>, p: Position)
    ensures
        occupant_in(s, p) matches Some(k) ==> s.contains((k, p)),
    decreases s.len(),
{
    if s.len() > 0 && s[0].1 != p {
        lemma_occupant_some(s.drop_first(), p);
        if let Some(k) = occupant_in(s, p) {
            let i = choose|i: int| 0 <= i < s.drop_first().len() && s.drop_first()[i] == (k, p);
            assert(s[i + 1] == (k, p));
        }
    }
}


/// The set holding the position of `o`, if any.
pub open spec fn option_set(o: Option<Position>) -> Set<Position> {
    match o {
        Some(q) => set![q],
        None => Set::empty(),
    }
}

/// Returns true if `p` is an element of `v`.
fn contains_position(v: &Vec<Position>, p: Position) -> (r: bool)
    ensures
        r == v@.contains(p),
{
    let mut i: usize = 0;
    while i < v.len()
        invariant
            i <= v@.len(),
            forall|j: int| 0 <= j < i ==> v@[j] != p,
        decreases v@.len() - i,
    {
        if v[i] == p {
            return true;
        }
        i = i + 1;
    }
    false
}

/// Adds to `acc` the elements of `more` that it does not hold yet.
fn union_into(acc: &mut Vec<Position>, more: &Vec<Position>)
    requires
        old(acc)@.no_duplicates(),
    ensures
        final(acc)@.no_duplicates(),
        final(acc)@.to_set() == old(acc)@.to_set() + more@.to_set(),
{
    let ghost start = acc@;
    let mut i: usize = 0;
    while i < more.len()
        invariant
            i <= more@.len(),
            acc@.no_duplicates(),
            acc@.to_set() == start.to_set() + more@.take(i as int).to_set(),
        decreases more@.len() - i,
    {
        let q = more[i];
        assert(more@.take(i + 1) =~= more@.take(i as int).push(q));
        proof {
            more@.take(i as int).lemma_push_to_set_commute(q);
        }
        if !contains_position(acc, q) {
            proof {
                acc@.lemma_push_to_set_commute(q);
            }
            acc.push(q);
        } else {
            assert(acc@.to_set().contains(q));
        }
        assert(acc@.to_set() =~= start.to_set() + more@.take(i + 1).to_set());
        i = i + 1;
    }
    assert(more@.take(i as int) =~= more@);
}

/// Returns the positions held by `a` or by `b`, each once.
pub(crate) fn union_of(a: Vec<Position>, b: Vec<Position>) -> (r: Vec<Position>)
    requires
        a@.no_duplicates(),
    ensures
        r@.no_duplicates(),
        r@.to_set() == a@.to_set() + b@.to_set(),
{
    let mut acc = a;
    union_into(&mut acc, &b);
    acc
}


/// Every rook position of `s` is the position of some entry of `s`.
proof fn lemma_rooks_from_entries(s: Seq<(PieceKind, Position)>)
    ensures
        forall|i: int|
            0 <= i < rooks_in(s).len() ==> exists|j: int|
                0 <= j < s.len() && s[j].1 == #[trigger] rooks_in(s)[i],
    decreases s.len(),
{
    if s.len() > 0 {
        lemma_rooks_from_entries(s.drop_last());
        assert forall|i: int| 0 <= i < rooks_in(s).len() implies exists|j: int|
            0 <= j < s.len() && s[j].1 == #[trigger] rooks_in(s)[i] by {
            if i < rooks_in(s.drop_last()).len() {
                let j = choose|j: int|
                    0 <= j < s.drop_last().len() && s.drop_last()[j].1 == rooks_in(s.drop_last())[i];
                assert(s[j].1 == rooks_in(s)[i]);
            } else {
                assert(s[s.len() - 1].1 == rooks_in(s)[i]);
            }
        }
    }
}


/// The kind of piece that a character stands for in the text form of a
/// board: `R` a rook, `p` a pawn, `B` a bishop.
pub open spec fn kind_of_char(c: char) -> Option<PieceKind> {
    if c == 'R' {
        Some(PieceKind::Rook)
    } else if c == 'p' {
        Some(PieceKind::Pawn)
    } else if c == 'B' {
        Some(PieceKind::Bishop)
    } else {
        None
    }
}

/// The character that shows a cell in the text form of a board.
pub open spec fn char_of(o: Option<PieceKind>) -> char {
    match o {
        Some(PieceKind::Rook) => 'R',
        Some(PieceKind::Pawn) => 'p',
        Some(PieceKind::Bishop) => 'B',
        None => '.',
    }
}

/// The pieces written on line `row` of the text form, left to right.
pub open spec fn row_pieces(line: Seq<char>, row: int) -> Seq<(PieceKind, Position)>
    decreases line.len(),
{
    if line.len() == 0 {
        Seq::empty()
    } else {
        let rest = row_pieces(line.drop_last(), row);
        match kind_of_char(line.last()) {
            Some(k) => rest.push((k, Position { row: row as u32, col: (line.len() - 1) as u32 })),
            None => rest,
        }
    }
}

/// The pieces written on the lines of the text form, line by line.
pub open spec fn rows_pieces(rows: Seq<Vec<char>>) -> Seq<(PieceKind, Position)>
    decreases rows.len(),
{
    if rows.len() == 0 {
        Seq::empty()
    } else {
        rows_pieces(rows.drop_last()) + row_pieces(rows.last()@, rows.len() - 1)
    }
}

/// Every piece written on the lines lies on a board of `size` cells per side.
pub open spec fn rows_fit(rows: Seq<Vec<char>>, size: nat) -> bool {
    forall|r: int, c: int|
        0 <= r < rows.len() && 0 <= c < rows[r]@.len() && (kind_of_char(#[trigger] rows[r]@[c]) is Some)
            ==> r < size && c < size
}

/// Returns the kind of piece that a character stands for, if any.
fn char_kind(c: char) -> (r: Option<PieceKind>)
    ensures
        r == kind_of_char(c),
{
    if c == 'R' {
        Some(PieceKind::Rook)
    } else if c == 'p' {
        Some(PieceKind::Pawn)
    } else if c == 'B' {
        Some(PieceKind::Bishop)
    } else {
        None
    }
}

/// A board of `size` × `size` cells and the pieces standing on it.
pub struct Board {
    pub size: u32,
    pub pieces: Vec<(PieceKind, Position)>,
}

impl Board {
    /// The kind of the piece standing on `p`, if any.
    pub open spec fn occupant(&self, p: Position) -> Option<PieceKind> {
        occupant_in(self.pieces@, p)
    }

    /// The positions of the rooks, in the order of the pieces.
    pub open spec fn rooks(&self) -> Seq<Position> {
        rooks_in(self.pieces@)
    }


    /// The first occupied cell of `line`, with the kind of its occupant.
    pub open spec fn first_on(&self, line: Seq<Position>) -> Option<(PieceKind, Position)>
        decreases line.len(),
    {
        if line.len() == 0 {
            None
        } else {
            match self.occupant(line[0]) {
                Some(k) => Some((k, line[0])),
                None => self.first_on(line.drop_first()),
            }
        }
    }

    /// The pawn that a rook on `start` sees first in direction `d`, if the
    /// first piece on that ray is a pawn.
    pub open spec fn ray_target(&self, start: Position, d: Direction) -> Option<Position> {
        match self.first_on(start.line_spec(d, self.size as nat)) {
            Some((PieceKind::Pawn, q)) => Some(q),
            _ => None,
        }
    }

    /// One if a rook on `start` captures a pawn in direction `d`, else zero.
    pub open spec fn ray_count(&self, start: Position, d: Direction) -> nat {
        if self.ray_target(start, d) is Some {
            1
        } else {
            0
        }
    }

    /// The number of captures of a rook on `start` over the directions `dirs`.
    pub open spec fn count_over(&self, start: Position, dirs: Seq<Direction>) -> nat
        decreases dirs.len(),
    {
        if dirs.len() == 0 {
            0
        } else {
            self.count_over(start, dirs.drop_last()) + self.ray_count(start, dirs.last())
        }
    }

    /// The number of pawns that a rook on `start` can capture.
    pub open spec fn captures_from(&self, start: Position) -> nat {
        self.count_over(start, Direction::all_spec())
    }

    /// The number of pawns that the rook of the board can capture.
    pub open spec fn rook_captures(&self) -> nat {
        self.captures_from(self.rooks()[0])
    }

    /// The pawns that a rook on `start` can capture.
    pub open spec fn reach_set(&self, start: Position) -> Set<Position> {
        option_set(self.ray_target(start, Direction::North))
            + option_set(self.ray_target(start, Direction::East))
            + option_set(self.ray_target(start, Direction::South))
            + option_set(self.ray_target(start, Direction::West))
    }

    /// The pawns that at least one rook standing on one of `starts` can capture.
    pub open spec fn reach_union(&self, starts: Seq<Position>) -> Set<Position>
        decreases starts.len(),
    {
        if starts.len() == 0 {
            Set::empty()
        } else {
            self.reach_union(starts.drop_last()) + self.reach_set(starts.last())
        }
    }

    /// The number of distinct pawns that the rooks of the board can capture.
    pub open spec fn rooks_captures(&self) -> nat {
        self.reach_union(self.rooks()).len()
    }

    /// Every piece stands on the board.
    pub open spec fn in_bounds(&self) -> bool {
        forall|i: int| 0 <= i < self.pieces@.len() ==> #[trigger] self.pieces@[i].1.valid(self.size as nat)
    }

    /// No two pieces share a cell.
    pub open spec fn unique_positions(&self) -> bool {
        forall|i: int, j: int|
            0 <= i < self.pieces@.len() && 0 <= j < self.pieces@.len() && i != j
                ==> self.pieces@[i].1 != self.pieces@[j].1
    }

    /// Every rook stands on the board.
    pub open spec fn rooks_on_board(&self) -> bool {
        forall|i: int| 0 <= i < self.rooks().len() ==> #[trigger] self.rooks()[i].valid(self.size as nat)
    }

    /// Every piece stands on its own cell of the board.
    pub open spec fn wf(&self) -> bool {
        self.in_bounds() && self.unique_positions()
    }

    /// Creates an empty board of the given size.
    pub fn new(size: u32) -> (r: Board)
        ensures
            r.size == size,
            r.pieces@ == Seq::<(PieceKind, Position)>::empty(),
    {
        Board { size, pieces: Vec::new() }
    }

    /// Creates an empty board of the given size, with room reserved for
    /// `pieces` pieces.
    pub fn with_capacity(size: u32, pieces: usize) -> (r: Board)
        ensures
            r.size == size,
            r.pieces@ == Seq::<(PieceKind, Position)>::empty(),
    {
        Board { size, pieces: Vec::with_capacity(pieces) }
    }

    /// Replaces all the pieces of the board.
    pub fn set_pieces(&mut self, pieces: Vec<(PieceKind, Position)>)
        ensures
            final(self).size == old(self).size,
            final(self).pieces@ == pieces@,
    {
        self.pieces = pieces;
    }

    /// Removes all the pieces of the board.
    pub fn clear(&mut self)
        ensures
            final(self).size == old(self).size,
            final(self).pieces@ == Seq::<(PieceKind, Position)>::empty(),
    {
        self.pieces.clear();
    }

    /// Returns the kind of the piece standing on `position`, if any.
    pub fn get_piece(&self, position: &Position) -> (r: Option<PieceKind>)
        ensures
            r == self.occupant(*position),
    {
        let mut i: usize = 0;
        assert(self.pieces@.skip(0) =~= self.pieces@);
        while i < self.pieces.len()
            invariant
                i <= self.pieces@.len(),
                self.occupant(*position) == occupant_in(self.pieces@.skip(i as int), *position),
            decreases self.pieces@.len() - i,
        {
            assert(self.pieces@.skip(i as int).drop_first() =~= self.pieces@.skip(i + 1));
            if self.pieces[i].1 == *position {
                return Some(self.pieces[i].0);
            }
            i = i + 1;
        }
        None
    }

    /// Adds a piece on a free cell.
    pub fn add_piece(&mut self, piece: PieceKind, position: Position)
        requires
            old(self).occupant(position) is None,
        ensures
            final(self).size == old(self).size,
            final(self).pieces@ == old(self).pieces@.push((piece, position)),
            old(self).wf() && position.valid(old(self).size as nat) ==> final(self).wf(),
    {
        proof {
            lemma_occupant_none(self.pieces@, position);
        }
        self.pieces.push((piece, position));
    }

    /// Adds a rook on a free cell.
    pub fn add_rook(&mut self, position: Position)
        requires
            old(self).occupant(position) is None,
        ensures
            final(self).size == old(self).size,
            final(self).pieces@ == old(self).pieces@.push((PieceKind::Rook, position)),
            old(self).wf() && position.valid(old(self).size as nat) ==> final(self).wf(),
    {
        self.add_piece(PieceKind::Rook, position);
    }

    /// Adds a bishop on a free cell.
    pub fn add_bishop(&mut self, position: Position)
        requires
            old(self).occupant(position) is None,
        ensures
            final(self).size == old(self).size,
            final(self).pieces@ == old(self).pieces@.push((PieceKind::Bishop, position)),
            old(self).wf() && position.valid(old(self).size as nat) ==> final(self).wf(),
    {
        self.add_piece(PieceKind::Bishop, position);
    }

    /// Adds a pawn on a free cell.
    pub fn add_pawn(&mut self, position: Position)
        requires
            old(self).occupant(position) is None,
        ensures
            final(self).size == old(self).size,
            final(self).pieces@ == old(self).pieces@.push((PieceKind::Pawn, position)),
            old(self).wf() && position.valid(old(self).size as nat) ==> final(self).wf(),
    {
        self.add_piece(PieceKind::Pawn, position);
    }

    /// Returns true if at least one rook stands on the board.
    pub fn is_rook_present(&self) -> (r: bool)
        ensures
            r == exists|i: int| 0 <= i < self.pieces@.len() && self.pieces@[i].0 == PieceKind::Rook,
    {
        let mut i: usize = 0;
        while i < self.pieces.len()
            invariant
                i <= self.pieces@.len(),
                forall|j: int| 0 <= j < i ==> self.pieces@[j].0 != PieceKind::Rook,
            decreases self.pieces@.len() - i,
        {
            if self.pieces[i].0 == PieceKind::Rook {
                return true;
            }
            i = i + 1;
        }
        false
    }

    /// Removes the piece standing on `position`, if any.
    pub fn remove_piece(&mut self, position: &Position)
        ensures
            final(self).size == old(self).size,
            final(self).pieces@ == without_at(old(self).pieces@, *position),
    {
        let mut kept: Vec<(PieceKind, Position)> = Vec::new();
        let mut i: usize = 0;
        while i < self.pieces.len()
            invariant
                i <= self.pieces@.len(),
                kept@ == without_at(self.pieces@.take(i as int), *position),
            decreases self.pieces@.len() - i,
        {
            assert(self.pieces@.take(i + 1).drop_last() =~= self.pieces@.take(i as int));
            if self.pieces[i].1 != *position {
                kept.push(self.pieces[i]);
            }
            i = i + 1;
        }
        assert(self.pieces@.take(i as int) =~= self.pieces@);
        self.pieces = kept;
    }


    /// Every rook of a board whose pieces stand on it stands on it too.
    pub proof fn lemma_rooks_valid(&self)
        requires
            self.in_bounds(),
        ensures
            self.rooks_on_board(),
    {
        lemma_rooks_from_entries(self.pieces@);
        assert forall|i: int| 0 <= i < self.rooks().len() implies #[trigger] self.rooks()[i].valid(self.size as nat) by {
            let j = choose|j: int| 0 <= j < self.pieces@.len() && self.pieces@[j].1 == self.rooks()[i];
            assert(self.pieces@[j].1.valid(self.size as nat));
        }
    }

    /// Returns the first occupied cell of `line`, with the kind of its occupant.
    fn first_piece_on(&self, line: &Vec<Position>) -> (r: Option<(PieceKind, Position)>)
        ensures
            r == self.first_on(line@),
    {
        let mut i: usize = 0;
        assert(line@.skip(0) =~= line@);
        while i < line.len()
            invariant
                i <= line@.len(),
                self.first_on(line@) == self.first_on(line@.skip(i as int)),
            decreases line@.len() - i,
        {
            assert(line@.skip(i as int).drop_first() =~= line@.skip(i + 1));
            let p = line[i];
            match self.get_piece(&p) {
                Some(k) => {
                    return Some((k, p));
                },
                None => {},
            }
            i = i + 1;
        }
        None
    }

    /// Returns the pawn that a rook on `start` sees first in direction `d`,
    /// if the first piece on that ray is a pawn.
    fn ray_target_of(&self, start: Position, d: Direction) -> (r: Option<Position>)
        requires
            start.valid(self.size as nat),
        ensures
            r == self.ray_target(start, d),
    {
        let line = start.line(d, self.size);
        match self.first_piece_on(&line) {
            Some((PieceKind::Pawn, q)) => Some(q),
            _ => None,
        }
    }

    /// Returns one if a rook on `start` captures a pawn in direction `d`,
    /// zero otherwise.
    pub fn ray_capture(&self, start: Position, d: Direction) -> (r: usize)
        requires
            start.valid(self.size as nat),
        ensures
            r == self.ray_count(start, d),
    {
        match self.ray_target_of(start, d) {
            Some(_) => 1,
            None => 0,
        }
    }

    /// Returns the pawns that a rook on `start` can capture, each once.
    pub fn reachable_targets(&self, start: Position) -> (r: Vec<Position>)
        requires
            start.valid(self.size as nat),
        ensures
            r@.no_duplicates(),
            r@.to_set() == self.reach_set(start),
    {
        let dirs = Direction::all();
        let mut r: Vec<Position> = Vec::new();
        let mut i: usize = 0;
        while i < dirs.len()
            invariant
                dirs@ == Direction::all_spec(),
                i <= 4,
                start.valid(self.size as nat),
                r@.no_duplicates(),
                r@.to_set() == self.reach_upto(start, i as int),
            decreases 4 - i,
        {
            let mut found: Vec<Position> = Vec::new();
            match self.ray_target_of(start, dirs[i]) {
                Some(q) => {
                    found.push(q);
                    assert(found@[0] == q);
                    assert(found@.to_set() =~= set![q]);
                },
                None => {
                    assert(found@.to_set() =~= Set::<Position>::empty());
                },
            }
            union_into(&mut r, &found);
            i = i + 1;
        }
        proof {
            reveal_with_fuel(Board::reach_upto, 5);
            assert(self.reach_upto(start, 4) =~= self.reach_set(start));
        }
        r
    }

    /// The pawns that a rook on `start` captures in the first `n` directions.
    pub open spec fn reach_upto(&self, start: Position, n: int) -> Set<Position>
        decreases n,
    {
        if n <= 0 {
            Set::empty()
        } else {
            self.reach_upto(start, n - 1) + option_set(
                self.ray_target(start, Direction::all_spec()[n - 1]),
            )
        }
    }

    /// Computes the number of pawns that the rook of the board can capture.
    pub fn get_rook_captures(&self) -> (r: usize)
        requires
            self.rooks_on_board(),
            self.rooks().len() == 1,
        ensures
            r == self.rook_captures(),
    {
        let start = self.get_rook_position();
        let dirs = Direction::all();
        let mut total: usize = 0;
        let mut i: usize = 0;
        while i < dirs.len()
            invariant
                dirs@ == Direction::all_spec(),
                i <= 4,
                start.valid(self.size as nat),
                total == self.count_over(start, dirs@.take(i as int)),
                total <= i,
            decreases 4 - i,
        {
            assert(dirs@.take(i + 1).drop_last() =~= dirs@.take(i as int));
            let c = self.ray_capture(start, dirs[i]);
            total = total + c;
            i = i + 1;
        }
        assert(dirs@.take(4) =~= dirs@);
        total
    }

    /// Computes the number of distinct pawns that the rooks of the board can
    /// capture. A pawn within reach of two rooks counts once.
    pub fn get_rooks_captures(&self) -> (r: usize)
        requires
            self.rooks_on_board(),
        ensures
            r == self.rooks_captures(),
    {
        let rooks = self.get_rooks_positions();
        let mut acc: Vec<Position> = Vec::new();
        let mut i: usize = 0;
        while i < rooks.len()
            invariant
                rooks@ == self.rooks(),
                i <= rooks@.len(),
                forall|j: int| 0 <= j < rooks@.len() ==> #[trigger] rooks@[j].valid(self.size as nat),
                acc@.no_duplicates(),
                acc@.to_set() == self.reach_union(rooks@.take(i as int)),
            decreases rooks@.len() - i,
        {
            assert(rooks@.take(i + 1).drop_last() =~= rooks@.take(i as int));
            let found = self.reachable_targets(rooks[i]);
            union_into(&mut acc, &found);
            i = i + 1;
        }
        assert(rooks@.take(i as int) =~= rooks@);
        proof {
            acc@.unique_seq_to_set();
        }
        acc.len()
    }


    /// Relies on rayon_logs's `into_par_iter`, `map` and `sum`: every
    /// direction of `dirs` is evaluated once by `ray_capture`, and the
    /// results are added up.
    #[verifier::external_body]
    fn par_ray_captures(&self, start: Position, dirs: Vec<Direction>) -> (r: usize)
        requires
            start.valid(self.size as nat),
            dirs@.len() <= 4,
        ensures
            r == self.count_over(start, dirs@),
    {
        dirs.into_par_iter().map(|d| self.ray_capture(start, d)).sum()
    }

    /// Relies on rayon_logs's `par_iter`, `map` and `reduce`: every start of
    /// `starts` is evaluated once by `reachable_targets`, and the results are
    /// combined by `union_of`, starting from empty vectors.
    #[verifier::external_body]
    fn par_reach_union(&self, starts: &Vec<Position>) -> (r: Vec<Position>)
        requires
            forall|j: int| 0 <= j < starts@.len() ==> #[trigger] starts@[j].valid(self.size as nat),
        ensures
            r@.no_duplicates(),
            r@.to_set() == self.reach_union(starts@),
    {
        starts.par_iter().map(|p| self.reachable_targets(*p)).reduce(Vec::new, |a, b| union_of(a, b))
    }

    /// Computes the number of pawns that the rook of the board can capture,
    /// looking in the four directions in parallel.
    pub fn get_rook_captures_par(&self) -> (r: usize)
        requires
            self.rooks_on_board(),
            self.rooks().len() == 1,
        ensures
            r == self.rook_captures(),
    {
        let start = self.get_rook_position();
        self.par_ray_captures(start, Direction::all())
    }

    /// Computes the number of distinct pawns that the rooks of the board can
    /// capture, handling the rooks in parallel. A pawn within reach of two
    /// rooks counts once.
    pub fn get_rooks_captures_par(&self) -> (r: usize)
        requires
            self.rooks_on_board(),
        ensures
            r == self.rooks_captures(),
    {
        let rooks = self.get_rooks_positions();
        let found = self.par_reach_union(&rooks);
        proof {
            found@.unique_seq_to_set();
        }
        found.len()
    }


    /// Builds a board of the given size from the lines of its text form: on
    /// line `r`, character `c` is a rook for `R`, a pawn for `p`, a bishop
    /// for `B`, and an empty cell otherwise. Returns `None` if a piece is
    /// written outside the board.
    pub fn from_rows(size: u32, rows: &Vec<Vec<char>>) -> (r: Option<Board>)
        ensures
            r is Some <==> rows_fit(rows@, size as nat),
            r matches Some(b) ==> b.size == size && b.pieces@ == rows_pieces(rows@),
    {
        let mut pieces: Vec<(PieceKind, Position)> = Vec::new();
        let mut i: usize = 0;
        while i < rows.len()
            invariant
                i <= rows@.len(),
                pieces@ == rows_pieces(rows@.take(i as int)),
                forall|r: int, c: int|
                    0 <= r < i && 0 <= c < rows@[r]@.len() && (kind_of_char(
                        #[trigger] rows@[r]@[c],
                    ) is Some) ==> r < size && c < size,
            decreases rows@.len() - i,
        {
            assert(rows@.take(i + 1).drop_last() =~= rows@.take(i as int));
            let line = &rows[i];
            let ghost before = pieces@;
            let mut j: usize = 0;
            while j < line.len()
                invariant
                    i < rows@.len(),
                    line == rows@[i as int],
                    j <= line@.len(),
                    pieces@ == before + row_pieces(line@.take(j as int), i as int),
                    forall|c: int|
                        0 <= c < j && (kind_of_char(#[trigger] line@[c]) is Some) ==> i < size && c
                            < size,
                decreases line@.len() - j,
            {
                assert(line@.take(j + 1).drop_last() =~= line@.take(j as int));
                match char_kind(line[j]) {
                    Some(k) => {
                        if i >= size as usize || j >= size as usize {
                            return None;
                        }
                        pieces.push((k, Position::new(i as u32, j as u32, size)));
                        assert(pieces@ =~= before + row_pieces(line@.take(j + 1), i as int));
                    },
                    None => {},
                }
                j = j + 1;
            }
            assert(line@.take(j as int) =~= line@);
            i = i + 1;
        }
        assert(rows@.take(i as int) =~= rows@);
        Some(Board { size, pieces })
    }

    /// Returns the text form of the board, one line per row: `R` for a
    /// rook, `p` for a pawn, `B` for a bishop and `.` for an empty cell.
    pub fn render(&self) -> (r: Vec<Vec<char>>)
        ensures
            r@.len() == self.size,
            forall|row: int| 0 <= row < self.size ==> (#[trigger] r@[row])@.len() == self.size,
            forall|row: int, col: int|
                0 <= row < self.size && 0 <= col < self.size ==> (#[trigger] r@[row]@[col])
                    == char_of(self.occupant(Position { row: row as u32, col: col as u32 })),
    {
        let mut r: Vec<Vec<char>> = Vec::new();
        let mut row: u32 = 0;
        while row < self.size
            invariant
                row <= self.size,
                r@.len() == row,
                forall|i: int| 0 <= i < row ==> (#[trigger] r@[i])@.len() == self.size,
                forall|i: int, col: int|
                    0 <= i < row && 0 <= col < self.size ==> (#[trigger] r@[i]@[col]) == char_of(
                        self.occupant(Position { row: i as u32, col: col as u32 }),
                    ),
            decreases self.size - row,
        {
            let mut line: Vec<char> = Vec::new();
            let mut col: u32 = 0;
            while col < self.size
                invariant
                    row < self.size,
                    col <= self.size,
                    line@.len() == col,
                    forall|c: int|
                        0 <= c < col ==> (#[trigger] line@[c]) == char_of(
                            self.occupant(Position { row, col: c as u32 }),
                        ),
                decreases self.size - col,
            {
                let c = match self.get_piece(&Position::new(row, col, self.size)) {
                    Some(PieceKind::Rook) => 'R',
                    Some(PieceKind::Pawn) => 'p',
                    Some(PieceKind::Bishop) => 'B',
                    None => '.',
                };
                line.push(c);
                col = col + 1;
            }
            r.push(line);
            row = row + 1;
        }
        r
    }

    /// Returns the position of the first rook on the board.
    pub fn get_rook_position(&self) -> (r: Position)
        requires
            self.rooks().len() > 0,
        ensures
            r == self.rooks()[0],
    {
        let rooks = self.get_rooks_positions();
        rooks[0]
    }

    /// Returns the positions of all the rooks, in the order of the pieces.
    pub fn get_rooks_positions(&self) -> (r: Vec<Position>)
        ensures
            r@ == self.rooks(),
    {
        let mut r: Vec<Position> = Vec::new();
        let mut i: usize = 0;
        while i < self.pieces.len()
            invariant
                i <= self.pieces@.len(),
                r@ == rooks_in(self.pieces@.take(i as int)),
            decreases self.pieces@.len() - i,
        {
            assert(self.pieces@.take(i + 1).drop_last() =~= self.pieces@.take(i as int));
            if self.pieces[i].0 == PieceKind::Rook {
                r.push(self.pieces[i].1);
            }
            i = i + 1;
        }
        assert(self.pieces@.take(i as int) =~= self.pieces@);
        r
    }
}


impl Board {
    /// The sum, over the rooks standing on `starts`, of the number of pawns
    /// that each one can capture.
    pub open spec fn reach_sum(&self, starts: Seq<Position>) -> nat
        decreases starts.len(),
    {
        if starts.len() == 0 {
            0
        } else {
            self.reach_sum(starts.drop_last()) + self.reach_set(starts.last()).len()
        }
    }

    /// No pawn is within reach of rooks on two different entries of `starts`.
    pub open spec fn reaches_disjoint(&self, starts: Seq<Position>) -> bool {
        forall|i: int, j: int|
            0 <= i < j < starts.len() ==> self.reach_set(starts[i]).disjoint(
                self.reach_set(starts[j]),
            )
    }

    /// The pawns that one rook can capture form a finite set.
    pub proof fn lemma_reach_set_finite(&self, start: Position)
        ensures
            self.reach_set(start).finite(),
    {
        assert forall|o: Option<Position>| #[trigger] option_set(o).finite() by {
            if let Some(q) = o {
                assert(set![q].finite());
            }
        }
    }

    /// A pawn is within reach of the rooks on `starts` exactly when it is
    /// within reach of the rook on one of them.
    pub proof fn lemma_reach_union_member(&self, starts: Seq<Position>, q: Position)
        ensures
            self.reach_union(starts).contains(q) <==> exists|i: int|
                0 <= i < starts.len() && #[trigger] self.reach_set(starts[i]).contains(q),
        decreases starts.len(),
    {
        if starts.len() > 0 {
            let init = starts.drop_last();
            self.lemma_reach_union_member(init, q);
            if self.reach_union(starts).contains(q) {
                if self.reach_union(init).contains(q) {
                    let i = choose|i: int| 0 <= i < init.len() && self.reach_set(init[i]).contains(q);
                    assert(self.reach_set(starts[i]).contains(q));
                } else {
                    assert(self.reach_set(starts[starts.len() - 1]).contains(q));
                }
            }
            if exists|i: int| 0 <= i < starts.len() && #[trigger] self.reach_set(starts[i]).contains(q) {
                let i = choose|i: int| 0 <= i < starts.len() && #[trigger] self.reach_set(starts[i]).contains(q);
                if i < starts.len() - 1 {
                    assert(self.reach_set(init[i]).contains(q));
                }
            }
        }
    }

    /// The number of distinct pawns within reach of the rooks on `starts` is
    /// at most the sum of what each rook can capture, and equal to it exactly
    /// when no two rooks can capture the same pawn.
    pub proof fn lemma_union_bound(&self, starts: Seq<Position>)
        ensures
            self.reach_union(starts).finite(),
            self.reach_union(starts).len() <= self.reach_sum(starts),
            self.reach_union(starts).len() == self.reach_sum(starts) <==> self.reaches_disjoint(
                starts,
            ),
        decreases starts.len(),
    {
        if starts.len() == 0 {
            return;
        }
        let init = starts.drop_last();
        let last = starts.last();
        self.lemma_union_bound(init);
        self.lemma_reach_set_finite(last);
        let u = self.reach_union(init);
        let a = self.reach_set(last);
        assert(self.reach_union(starts) == u + a);
        vstd::set_lib::lemma_set_disjoint_lens(u, a.difference(u));
        assert(u + a =~= u + a.difference(u));
        assert(u.disjoint(a.difference(u)));
        vstd::set_lib::lemma_len_subset(a.difference(u), a);
        if !u.disjoint(a) {
            let x = choose|x: Position| u.contains(x) && a.contains(x);
            vstd::set_lib::lemma_len_subset(a.difference(u), a.remove(x));
            assert(a.difference(u).len() < a.len());
        } else {
            assert(a.difference(u) =~= a);
        }
        assert(self.reach_sum(starts) == self.reach_sum(init) + a.len());
        assert((u + a).len() == u.len() + a.difference(u).len());
        // disjointness of the whole sequence splits into that of its prefix
        // and that of the last rook against all the others
        if self.reaches_disjoint(starts) {
            assert(self.reaches_disjoint(init)) by {
                assert forall|i: int, j: int| 0 <= i < j < init.len() implies self.reach_set(
                    init[i],
                ).disjoint(self.reach_set(init[j])) by {
                    assert(init[i] == starts[i] && init[j] == starts[j]);
                }
            }
            assert(u.disjoint(a)) by {
                assert forall|x: Position| u.contains(x) implies !a.contains(x) by {
                    self.lemma_reach_union_member(init, x);
                    let i = choose|i: int| 0 <= i < init.len() && #[trigger] self.reach_set(init[i]).contains(x);
                    assert(starts[i] == init[i]);
                    assert(self.reach_set(starts[i]).disjoint(self.reach_set(starts[starts.len() - 1])));
                }
            }
        }
        if self.reaches_disjoint(init) && u.disjoint(a) {
            assert forall|i: int, j: int| 0 <= i < j < starts.len() implies self.reach_set(
                starts[i],
            ).disjoint(self.reach_set(starts[j])) by {
                if j < starts.len() - 1 {
                    assert(init[i] == starts[i] && init[j] == starts[j]);
                } else {
                    assert forall|x: Position| self.reach_set(starts[i]).contains(x) implies !self.reach_set(starts[j]).contains(x) by {
                        assert(init[i] == starts[i]);
                        self.lemma_reach_union_member(init, x);
                    }
                }
            }
        }
    }


    /// The first occupied cell of a line lies on the line and holds the
    /// piece reported.
    proof fn lemma_first_on_in_line(&self, line: Seq<Position>)
        ensures
            self.first_on(line) matches Some((k, q)) ==> exists|i: int|
                0 <= i < line.len() && line[i] == q && self.occupant(q) == Some(k),
        decreases line.len(),
    {
        if line.len() > 0 && self.occupant(line[0]) is None {
            self.lemma_first_on_in_line(line.drop_first());
            if let Some((k, q)) = self.first_on(line) {
                let i = choose|i: int|
                    0 <= i < line.drop_first().len() && line.drop_first()[i] == q && self.occupant(q)
                        == Some(k);
                assert(line[i + 1] == q);
            }
        }
    }

    /// A pawn that a rook on `start` captures in direction `d` lies strictly
    /// on that side of the rook, in its row or its column.
    proof fn lemma_ray_target_side(&self, start: Position, d: Direction)
        requires
            start.valid(self.size as nat),
        ensures
            self.ray_target(start, d) matches Some(q) ==> match d {
                Direction::North => q.row < start.row && q.col == start.col,
                Direction::South => q.row > start.row && q.col == start.col,
                Direction::East => q.row == start.row && q.col > start.col,
                Direction::West => q.row == start.row && q.col < start.col,
            },
    {
        let line = start.line_spec(d, self.size as nat);
        self.lemma_first_on_in_line(line);
        lemma_line_shape(start, d, self.size);
    }

    /// The number of pawns that a rook on `start` captures is the size of
    /// the set of pawns within its reach: no pawn is seen in two directions.
    pub proof fn lemma_captures_from_counts_reach(&self, start: Position)
        requires
            start.valid(self.size as nat),
        ensures
            self.captures_from(start) == self.reach_set(start).len(),
    {
        reveal_with_fuel(Board::count_over, 5);
        self.lemma_ray_target_side(start, Direction::North);
        self.lemma_ray_target_side(start, Direction::East);
        self.lemma_ray_target_side(start, Direction::South);
        self.lemma_ray_target_side(start, Direction::West);
        let n = option_set(self.ray_target(start, Direction::North));
        let e = option_set(self.ray_target(start, Direction::East));
        let so = option_set(self.ray_target(start, Direction::South));
        let w = option_set(self.ray_target(start, Direction::West));
        assert forall|o: Option<Position>| #[trigger] option_set(o).finite() && option_set(o).len() == (
            if o is Some {
                1nat
            } else {
                0nat
            }) by {
            if let Some(q) = o {
                assert(set![q].finite());
                assert(set![q].len() == 1);
            }
        }
        assert(n.disjoint(e));
        vstd::set_lib::lemma_set_disjoint_lens(n, e);
        assert((n + e).disjoint(so));
        vstd::set_lib::lemma_set_disjoint_lens(n + e, so);
        assert((n + e + so).disjoint(w));
        vstd::set_lib::lemma_set_disjoint_lens(n + e + so, w);
        assert(Direction::all_spec().drop_last().drop_last().drop_last().drop_last() =~= Seq::<
            Direction,
        >::empty());
    }

    /// The sum, over the rooks standing on `starts`, of the number of pawns
    /// that each one would capture as the only rook of the board.
    pub open spec fn captures_sum(&self, starts: Seq<Position>) -> nat
        decreases starts.len(),
    {
        if starts.len() == 0 {
            0
        } else {
            self.captures_sum(starts.drop_last()) + self.captures_from(starts.last())
        }
    }

    /// On a board with a single rook, counting the pawns within reach of
    /// all rooks gives the count of that rook.
    pub proof fn lemma_single_rook_agrees(&self)
        requires
            self.rooks_on_board(),
            self.rooks().len() == 1,
        ensures
            self.rooks_captures() == self.rook_captures(),
    {
        let rooks = self.rooks();
        assert(rooks.drop_last() =~= Seq::<Position>::empty());
        assert(self.reach_union(rooks.drop_last()) == Set::<Position>::empty());
        assert(rooks.last() == rooks[0]);
        assert(self.reach_union(rooks) == Set::<Position>::empty() + self.reach_set(rooks[0]));
        assert(self.reach_union(rooks) =~= self.reach_set(rooks[0]));
        self.lemma_captures_from_counts_reach(rooks[0]);
    }

    proof fn lemma_sums_agree(&self, starts: Seq<Position>)
        requires
            forall|i: int| 0 <= i < starts.len() ==> #[trigger] starts[i].valid(self.size as nat),
        ensures
            self.captures_sum(starts) == self.reach_sum(starts),
        decreases starts.len(),
    {
        if starts.len() > 0 {
            let init = starts.drop_last();
            assert forall|i: int| 0 <= i < init.len() implies #[trigger] init[i].valid(self.size as nat) by {
                assert(init[i] == starts[i]);
            }
            self.lemma_sums_agree(init);
            self.lemma_captures_from_counts_reach(starts.last());
        }
    }

    /// The number of distinct pawns that the rooks of the board can capture
    /// is at most the sum of what each rook would capture as the only rook
    /// of the board, with equality exactly when no two rooks can capture the
    /// same pawn.
    pub proof fn lemma_rooks_captures_bound(&self)
        requires
            self.rooks_on_board(),
        ensures
            self.rooks_captures() <= self.captures_sum(self.rooks()),
            self.captures_sum(self.rooks()) == self.reach_sum(self.rooks()),
            self.rooks_captures() == self.captures_sum(self.rooks()) <==> self.reaches_disjoint(
                self.rooks(),
            ),
    {
        self.lemma_sums_agree(self.rooks());
        self.lemma_union_bound(self.rooks());
    }
}

/// On a board whose pieces stand on distinct cells, looking up a cell gives
/// `Some(k)` exactly when the piece `(k, p)` is on the board, and `None`
/// exactly when no piece stands on `p`.
pub proof fn lemma_get_piece_matches_contents(b: Board, p: Position, k: PieceKind)
    requires
        b.unique_positions(),
    ensures
        b.occupant(p) == Some(k) <==> b.pieces@.contains((k, p)),
        b.occupant(p) is None <==> forall|q: PieceKind| !b.pieces@.contains((q, p)),
{
    let s = b.pieces@;
    lemma_occupant_none(s, p);
    lemma_occupant_some(s, p);
    if s.contains((k, p)) {
        let i = choose|i: int| 0 <= i < s.len() && s[i] == (k, p);
        if let Some(q) = b.occupant(p) {
            let j = choose|j: int| 0 <= j < s.len() && s[j] == (q, p);
            assert(i == j);
        }
    }
    if b.occupant(p) is None {
        assert forall|q: PieceKind| !b.pieces@.contains((q, p)) by {
            if s.contains((q, p)) {
                let i = choose|i: int| 0 <= i < s.len() && s[i] == (q, p);
                assert(s[i].1 == p);
            }
        }
    } else {
        let q = b.occupant(p)->Some_0;
        assert(s.contains((q, p)));
    }
}

} // verus!
