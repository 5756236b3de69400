//! The home base: the map that agents share and the ledger of what they
//! brought home.

use crate::cell::Cell;
use crate::grid::{lemma_row_count_positive, row_count, rows, shaped};
use crate::text::{decimal, push_decimal};
use vstd::prelude::*;
use vstd::string::StringExecFns;

verus! {

/// The base of the swarm.
pub struct Base {
    /// Where the base stands, as `(column, row)`.
    pub position: (usize, usize),
    /// What the swarm as a whole knows of the world.
    pub map: Vec<Vec<Cell>>,
    /// Every resource brought home, in the order of arrival.
    pub collected_resources: Vec<Cell>,
}

/// How many entries of a ledger are of the given kind.
pub open spec fn tally(ledger: Seq<Cell>, kind: Cell) -> nat {
    row_count(ledger, kind)
}

/// Adding an entry raises the tally of its kind by one and no other.
pub proof fn lemma_tally_push(ledger: Seq<Cell>, resource: Cell, kind: Cell)
    ensures
        tally(ledger.push(resource), kind) == tally(ledger, kind) + (if resource == kind {
            1nat
        } else {
            0nat
        }),
{
    assert(ledger.push(resource).drop_last() =~= ledger);
}

/// The report of a base at `position` that has collected the given numbers
/// of minerals, units of energy and points of scientific interest.
pub open spec fn report_text(
    position: (usize, usize),
    minerals: nat,
    energy: nat,
    science: nat,
) -> Seq<char> {
    "Base at position ("@ + decimal(position.0 as nat) + ", "@ + decimal(position.1 as nat)
        + ") has collected the following resources:\nMinerals: "@ + decimal(minerals)
        + "\nEnergy: "@ + decimal(energy) + "\nScientific Points of Interest: "@ + decimal(
        science,
    ) + "\n"@
}

impl Base {
    /// The shared map has the fixed shape.
    pub open spec fn wf(&self) -> bool {
        shaped(rows(&self.map))
    }

    /// A base at `position` that shares `map` and has collected nothing yet.
    pub fn new(position: (usize, usize), map: Vec<Vec<Cell>>) -> (base: Base)
        ensures
            base.position == position,
            base.map == map,
            base.collected_resources@ == Seq::<Cell>::empty(),
    {
        Base { position, map, collected_resources: Vec::new() }
    }

    /// Enters a resource at the end of the ledger.
    pub fn add_resource(&mut self, resource: Cell)
        ensures
            final(self).collected_resources@ == old(self).collected_resources@.push(resource),
            final(self).position == old(self).position,
            final(self).map == old(self).map,
            forall|kind: Cell| #[trigger]
                tally(final(self).collected_resources@, kind) == tally(
                    old(self).collected_resources@,
                    kind,
                ) + (if resource == kind {
                    1nat
                } else {
                    0nat
                }),
    {
        proof {
            assert forall|kind: Cell| #[trigger]
                tally(old(self).collected_resources@.push(resource), kind) == tally(
                    old(self).collected_resources@,
                    kind,
                ) + (if resource == kind {
                    1nat
                } else {
                    0nat
                }) by {
                lemma_tally_push(old(self).collected_resources@, resource, kind);
            }
        }
        self.collected_resources.push(resource);
    }

    /// The ledger tallied by kind: how many minerals, how many units of
    /// energy and how many points of scientific interest were brought home.
    pub fn resource_counts(&self) -> (counts: (usize, usize, usize))
        ensures
            counts.0 == tally(self.collected_resources@, Cell::Mineral),
            counts.1 == tally(self.collected_resources@, Cell::Energy),
            counts.2 == tally(self.collected_resources@, Cell::SciencePOI),
    {
        let mut minerals: usize = 0;
        let mut energy: usize = 0;
        let mut science: usize = 0;
        let mut i: usize = 0;
        while i < self.collected_resources.len()
            invariant
                i <= self.collected_resources@.len(),
                minerals == tally(self.collected_resources@.take(i as int), Cell::Mineral),
                energy == tally(self.collected_resources@.take(i as int), Cell::Energy),
                science == tally(self.collected_resources@.take(i as int), Cell::SciencePOI),
            decreases self.collected_resources@.len() - i,
        {
            proof {
                let next = self.collected_resources@.take(i + 1);
                assert(next.drop_last() =~= self.collected_resources@.take(i as int));
                lemma_row_count_positive(next, Cell::Mineral);
                lemma_row_count_positive(next, Cell::Energy);
                lemma_row_count_positive(next, Cell::SciencePOI);
            }
            match self.collected_resources[i] {
                Cell::Mineral => {
                    minerals += 1;
                },
                Cell::Energy => {
                    energy += 1;
                },
                Cell::SciencePOI => {
                    science += 1;
                },
                _ => {},
            }
            i += 1;
        }
        assert(self.collected_resources@.take(i as int) =~= self.collected_resources@);
        (minerals, energy, science)
    }

    /// The report of what has been collected, as text: a heading with the
    /// base's position, then one line for each kind of resource with its
    /// tally.
    pub fn display_resources(&self) -> (text: String)
        ensures
            text@ == report_text(
                self.position,
                tally(self.collected_resources@, Cell::Mineral),
                tally(self.collected_resources@, Cell::Energy),
                tally(self.collected_resources@, Cell::SciencePOI),
            ),
    {
        let counts = self.resource_counts();
        let mut text = String::new();
        text.append("Base at position (");
        push_decimal(&mut text, self.position.0);
        text.append(", ");
        push_decimal(&mut text, self.position.1);
        text.append(") has collected the following resources:\nMinerals: ");
        push_decimal(&mut text, counts.0);
        text.append("\nEnergy: ");
        push_decimal(&mut text, counts.1);
        text.append("\nScientific Points of Interest: ");
        push_decimal(&mut text, counts.2);
        text.append("\n");
        assert(text@ =~= report_text(
            self.position,
            counts.0 as nat,
            counts.1 as nat,
            counts.2 as nat,
        ));
        text
    }
}

} // verus!
