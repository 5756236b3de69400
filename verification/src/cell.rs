//! The states a grid cell can be in, their glyphs, and the rule that decides
//! which of two reports about one cell carries more knowledge.

use vstd::prelude::*;

verus! {

/// One cell of a grid.
#[derive(Clone, Copy, PartialEq, Eq, Structural, Debug)]
pub enum Cell {
    /// Nothing is known of the cell; only a view ever holds this.
    Unknown,
    Empty,
    Base,
    Obstacle,
    Mineral,
    Energy,
    SciencePOI,
    /// An agent stands here; the number is its identifier.
    Robot(usize),
}

/// The glyph of a decimal digit; `'X'` for any other number.
pub open spec fn digit_glyph(n: int) -> char {
    if n == 0 {
        '0'
    } else if n == 1 {
        '1'
    } else if n == 2 {
        '2'
    } else if n == 3 {
        '3'
    } else if n == 4 {
        '4'
    } else if n == 5 {
        '5'
    } else if n == 6 {
        '6'
    } else if n == 7 {
        '7'
    } else if n == 8 {
        '8'
    } else if n == 9 {
        '9'
    } else {
        'X'
    }
}

/// The character for a one-digit number; `'X'` for a larger one.
pub fn digit_char(n: usize) -> (c: char)
    ensures
        c == digit_glyph(n as int),
{
    match n {
        0 => '0',
        1 => '1',
        2 => '2',
        3 => '3',
        4 => '4',
        5 => '5',
        6 => '6',
        7 => '7',
        8 => '8',
        9 => '9',
        _ => 'X',
    }
}

impl Cell {
    /// The glyph of each cell: a sign of its own for each plain state, and
    /// for an agent the digit of its identifier, or `'X'` if that has more
    /// than one digit.
    pub open spec fn glyph(self) -> char {
        match self {
            Cell::Unknown => '?',
            Cell::Empty => '.',
            Cell::Base => 'B',
            Cell::Obstacle => '#',
            Cell::Mineral => 'M',
            Cell::Energy => 'E',
            Cell::SciencePOI => 'S',
            Cell::Robot(id) => digit_glyph(id as int),
        }
    }

    /// Whether the cell holds something an agent can carry away.
    pub open spec fn is_resource(self) -> bool {
        self == Cell::Mineral || self == Cell::Energy || self == Cell::SciencePOI
    }

    /// Whether the cell says what is there: it is neither `Unknown` nor
    /// `Empty`.
    pub open spec fn is_specific(self) -> bool {
        self != Cell::Unknown && self != Cell::Empty
    }

    /// How much a report says: nothing, that the cell is free, or what is on it.
    pub open spec fn rank(self) -> nat {
        match self {
            Cell::Unknown => 0,
            Cell::Empty => 1,
            _ => 2,
        }
    }

    /// What a view that holds `self` for a cell holds after it has been
    /// reconciled with a peer that reports `peer` for the same cell: the peer's
    /// report is adopted exactly when it says more.
    pub open spec fn merged(self, peer: Cell) -> Cell {
        if peer.rank() > self.rank() {
            peer
        } else {
            self
        }
    }

    /// The character the cell is drawn with.
    pub fn to_char(self) -> (c: char)
        ensures
            c == self.glyph(),
    {
        match self {
            Cell::Unknown => '?',
            Cell::Empty => '.',
            Cell::Base => 'B',
            Cell::Obstacle => '#',
            Cell::Mineral => 'M',
            Cell::Energy => 'E',
            Cell::SciencePOI => 'S',
            Cell::Robot(id) => digit_char(id),
        }
    }

    /// Whether an agent can carry the cell's content away.
    pub fn is_collectable(self) -> (b: bool)
        ensures
            b == self.is_resource(),
    {
        match self {
            Cell::Mineral | Cell::Energy | Cell::SciencePOI => true,
            _ => false,
        }
    }

    /// Reconciles one cell of a view with a peer's report of it.
    pub fn merge(self, peer: Cell) -> (c: Cell)
        ensures
            c == self.merged(peer),
    {
        match (self, peer) {
            (Cell::Unknown, _) => peer,
            (_, Cell::Unknown) => self,
            (Cell::Empty, _) => peer,
            _ => self,
        }
    }
}

/// Every cell has one fixed glyph: a sign of its own for each of the seven
/// plain states, and for an agent the digit of its identifier if that is a
/// single digit, `'X'` otherwise.
pub proof fn lemma_glyph_table(id: usize)
    ensures
        Cell::Unknown.glyph() == '?',
        Cell::Empty.glyph() == '.',
        Cell::Base.glyph() == 'B',
        Cell::Obstacle.glyph() == '#',
        Cell::Mineral.glyph() == 'M',
        Cell::Energy.glyph() == 'E',
        Cell::SciencePOI.glyph() == 'S',
        id <= 9 ==> Cell::Robot(id).glyph() as u32 == '0' as u32 + id,
        id > 9 ==> Cell::Robot(id).glyph() == 'X',
{
}

/// Reconciling never gives up what a view knew: a cell changes only from
/// `Unknown` to the peer's report, or from `Empty` to something more specific
/// that the peer reports. In every other case it keeps its value, whatever the
/// peer holds; in particular no cell ever becomes `Unknown`.
pub proof fn lemma_merged_keeps_knowledge(local: Cell, peer: Cell)
    ensures
        local != Cell::Unknown && !(local == Cell::Empty && peer.is_specific()) ==> local.merged(
            peer,
        ) == local,
        local == Cell::Unknown ==> local.merged(peer) == peer,
        local == Cell::Empty && peer.is_specific() ==> local.merged(peer) == peer,
        local.merged(peer) == local || local.merged(peer) == peer,
        local.merged(peer).rank() >= local.rank(),
        local.merged(peer).rank() >= peer.rank(),
        local.merged(peer) == Cell::Unknown ==> local == Cell::Unknown && peer == Cell::Unknown,
{
}

/// Reconciling a second time with the same peer changes nothing.
pub proof fn lemma_merged_idempotent(local: Cell, peer: Cell)
    ensures
        local.merged(peer).merged(peer) == local.merged(peer),
{
}

} // verus!
