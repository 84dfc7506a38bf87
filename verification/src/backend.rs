//! A minimal arithmetization backend: wires, a constraint system that
//! chips register their gates with, and a region of witness rows that
//! chips assign values into.
//!
//! The backend stores raw `u64` cell values; the chips are responsible
//! for keeping every value a field residue. A cell may be written once:
//! writing an occupied cell is the backend's sole failure mode.

use vstd::prelude::*;

verus! {

/// A named advice (witness) wire: a column of the per-row table.
pub struct AdviceColumn {
    pub index: usize,
}

/// A named fixed (circuit-constant) wire.
pub struct FixedColumn {
    pub index: usize,
}

/// A per-row binary flag enabling one gate's constraints on the rows
/// where the gated operation is actually performed.
pub struct Selector {
    pub index: usize,
}

/// The gates a chip of this crate can register.
pub enum GateKind {
    CompleteAdd,
    IncompleteAdd,
    RunningSum,
}

/// Assignment-time failure: the target cell already holds a value.
#[derive(Debug)]
pub enum Error {
    CellOccupied,
}

/// The circuit-wide registry built during the configure phase: how many
/// selectors were handed out, which advice wires may carry equality
/// (copy) constraints, and which gates were registered.
pub struct ConstraintSystem {
    pub num_advice: usize,
    pub num_selectors: usize,
    pub equality: Vec<bool>,
    pub gates: Vec<GateKind>,
}

impl ConstraintSystem {
    pub open spec fn wf(self) -> bool {
        self.equality.len() == self.num_advice
    }

    /// A fresh registry over `num_advice` advice wires, with no
    /// selectors and no gates yet.
    pub fn new(num_advice: usize) -> (r: ConstraintSystem)
        ensures
            r.wf(),
            r.num_advice == num_advice,
            r.num_selectors == 0,
            r.gates@ =~= Seq::<GateKind>::empty(),
            forall|c: int| 0 <= c < num_advice ==> !r.equality@[c],
    {
        let mut equality: Vec<bool> = Vec::new();
        let mut i: usize = 0;
        while i < num_advice
            invariant
                i <= num_advice,
                equality.len() == i,
                forall|c: int| 0 <= c < i ==> !equality@[c],
            decreases num_advice - i,
        {
            equality.push(false);
            i = i + 1;
        }
        ConstraintSystem { num_advice, num_selectors: 0, equality, gates: Vec::new() }
    }

    /// Allocates the next selector.
    pub fn selector(&mut self) -> (r: Selector)
        requires
            old(self).wf(),
            old(self).num_selectors < usize::MAX,
        ensures
            final(self).wf(),
            r.index == old(self).num_selectors,
            final(self).num_selectors == old(self).num_selectors + 1,
            final(self).num_advice == old(self).num_advice,
            final(self).equality@ == old(self).equality@,
            final(self).gates@ == old(self).gates@,
    {
        let index = self.num_selectors;
        self.num_selectors = self.num_selectors + 1;
        Selector { index }
    }

    /// Declares an advice wire equality-constrainable, so its values may
    /// cross region boundaries through copy constraints.
    pub fn enable_equality(&mut self, col: &AdviceColumn)
        requires
            old(self).wf(),
            col.index < old(self).num_advice,
        ensures
            final(self).wf(),
            final(self).num_advice == old(self).num_advice,
            final(self).num_selectors == old(self).num_selectors,
            final(self).gates@ == old(self).gates@,
            final(self).equality@ == old(self).equality@.update(col.index as int, true),
    {
        self.equality.set(col.index, true);
    }

    /// Registers one gate's constraint polynomials under its kind.
    pub fn create_gate(&mut self, kind: GateKind)
        requires
            old(self).wf(),
        ensures
            final(self).wf(),
            final(self).num_advice == old(self).num_advice,
            final(self).num_selectors == old(self).num_selectors,
            final(self).equality@ == old(self).equality@,
            final(self).gates@ == old(self).gates@.push(kind),
    {
        self.gates.push(kind);
    }
}

/// A recorded copy constraint: the cell at `(from_column, from_row)`
/// must equal the cell at `(to_column, to_row)`.
pub struct CopyConstraint {
    pub from_column: usize,
    pub from_row: usize,
    pub to_column: usize,
    pub to_row: usize,
}

/// A witness value together with the cell it was written into.
pub struct AssignedCell {
    pub value: u64,
    pub column: usize,
    pub row: usize,
}

/// A rectangular block of witness rows: advice cells in column-major
/// order, per-row selector activations, and the copy constraints
/// established while filling it.
pub struct Region {
    pub num_cols: usize,
    pub num_rows: usize,
    pub num_selectors: usize,
    pub cells: Vec<Option<u64>>,
    pub selectors: Vec<bool>,
    pub copies: Vec<CopyConstraint>,
}

/// Column-major position of `(col, row)` in a grid of `num_rows`-tall
/// columns stays inside the grid and is unambiguous.
pub proof fn lemma_grid_index(num_cols: int, num_rows: int, col: int, row: int)
    requires
        0 <= col < num_cols,
        0 <= row < num_rows,
    ensures
        0 <= col * num_rows + row < num_cols * num_rows,
        forall|c: int, r: int|
            0 <= c < num_cols && 0 <= r < num_rows && #[trigger] (c * num_rows + r) == col
                * num_rows + row ==> c == col && r == row,
{
    assert(0 <= col * num_rows + row < num_cols * num_rows) by (nonlinear_arith)
        requires
            0 <= col < num_cols,
            0 <= row < num_rows,
    ;
    assert forall|c: int, r: int|
        0 <= c < num_cols && 0 <= r < num_rows && #[trigger] (c * num_rows + r) == col * num_rows
            + row implies c == col && r == row by {
        assert(c == col && r == row) by (nonlinear_arith)
            requires
                0 <= r < num_rows,
                0 <= row < num_rows,
                c * num_rows + r == col * num_rows + row,
        ;
    }
}

impl Region {
    pub open spec fn wf(self) -> bool {
        &&& self.cells.len() == self.num_cols * self.num_rows
        &&& self.selectors.len() == self.num_selectors * self.num_rows
    }

    /// The advice value at `(col, row)`, if one has been assigned.
    pub open spec fn cell(self, col: int, row: int) -> Option<u64> {
        self.cells@[col * self.num_rows + row]
    }

    /// Whether selector `sel` is active on `row`.
    pub open spec fn selector_on(self, sel: int, row: int) -> bool {
        self.selectors@[sel * self.num_rows + row]
    }

    /// An empty region: every cell free, every selector off.
    pub fn new(num_cols: usize, num_rows: usize, num_selectors: usize) -> (r: Region)
        requires
            num_cols * num_rows <= usize::MAX,
            num_selectors * num_rows <= usize::MAX,
        ensures
            r.wf(),
            r.num_cols == num_cols,
            r.num_rows == num_rows,
            r.num_selectors == num_selectors,
            forall|c: int, row: int|
                0 <= c < num_cols && 0 <= row < num_rows ==> r.cell(c, row) is None,
            forall|s: int, row: int|
                0 <= s < num_selectors && 0 <= row < num_rows ==> !r.selector_on(s, row),
            r.copies@ =~= Seq::<CopyConstraint>::empty(),
    {
        let n_cells: usize = num_cols * num_rows;
        let n_sel: usize = num_selectors * num_rows;
        let mut cells: Vec<Option<u64>> = Vec::new();
        let mut i: usize = 0;
        while i < n_cells
            invariant
                i <= n_cells,
                cells.len() == i,
                forall|k: int| 0 <= k < i ==> cells@[k] is None,
            decreases n_cells - i,
        {
            cells.push(None);
            i = i + 1;
        }
        let mut selectors: Vec<bool> = Vec::new();
        let mut j: usize = 0;
        while j < n_sel
            invariant
                j <= n_sel,
                selectors.len() == j,
                forall|k: int| 0 <= k < j ==> !selectors@[k],
            decreases n_sel - j,
        {
            selectors.push(false);
            j = j + 1;
        }
        let r = Region { num_cols, num_rows, num_selectors, cells, selectors, copies: Vec::new() };
        proof {
            assert forall|c: int, row: int|
                0 <= c < num_cols && 0 <= row < num_rows implies r.cell(c, row) is None by {
                lemma_grid_index(num_cols as int, num_rows as int, c, row);
            }
            assert forall|s: int, row: int|
                0 <= s < num_selectors && 0 <= row < num_rows implies !r.selector_on(s, row) by {
                lemma_grid_index(num_selectors as int, num_rows as int, s, row);
            }
        }
        r
    }

    /// Writes `value` into the advice cell at `(col, offset)`. Succeeds
    /// exactly when the cell is still free; an occupied cell is reported
    /// as `Error::CellOccupied` and nothing changes.
    pub fn assign_advice(&mut self, col: &AdviceColumn, offset: usize, value: u64) -> (r: Result<
        AssignedCell,
        Error,
    >)
        requires
            old(self).wf(),
            col.index < old(self).num_cols,
            offset < old(self).num_rows,
        ensures
            final(self).wf(),
            final(self).num_cols == old(self).num_cols,
            final(self).num_rows == old(self).num_rows,
            final(self).num_selectors == old(self).num_selectors,
            final(self).selectors@ == old(self).selectors@,
            final(self).copies@ == old(self).copies@,
            r is Ok <==> old(self).cell(col.index as int, offset as int) is None,
            r matches Ok(cell) ==> {
                &&& cell.value == value
                &&& cell.column == col.index
                &&& cell.row == offset
                &&& final(self).cell(col.index as int, offset as int) == Some(value)
            },
            r is Err ==> final(self).cells@ == old(self).cells@ && r == Err::<AssignedCell, Error>(
                Error::CellOccupied,
            ),
            forall|c: int, row: int|
                0 <= c < old(self).num_cols && 0 <= row < old(self).num_rows && !(c == col.index
                    && row == offset) ==> final(self).cell(c, row) == old(self).cell(c, row),
    {
        proof {
            lemma_grid_index(
                self.num_cols as int,
                self.num_rows as int,
                col.index as int,
                offset as int,
            );
        }
        let idx: usize = col.index * self.num_rows + offset;
        if self.cells[idx].is_some() {
            proof {
                assert forall|c: int, row: int|
                    0 <= c < old(self).num_cols && 0 <= row < old(self).num_rows && !(c
                        == col.index && row == offset) implies final(self).cell(c, row) == old(
                    self,
                ).cell(c, row) by {}
            }
            return Err(Error::CellOccupied);
        }
        self.cells.set(idx, Some(value));
        proof {
            assert forall|c: int, row: int|
                0 <= c < old(self).num_cols && 0 <= row < old(self).num_rows && !(c == col.index
                    && row == offset) implies final(self).cell(c, row) == old(self).cell(c, row) by {
                lemma_grid_index(self.num_cols as int, self.num_rows as int, c, row);
            }
        }
        Ok(AssignedCell { value, column: col.index, row: offset })
    }

    /// Copies an already assigned cell's value into `(col, offset)` and
    /// records the copy constraint linking the two cells.
    pub fn copy_advice(&mut self, cell: &AssignedCell, col: &AdviceColumn, offset: usize) -> (r:
        Result<AssignedCell, Error>)
        requires
            old(self).wf(),
            col.index < old(self).num_cols,
            offset < old(self).num_rows,
        ensures
            final(self).wf(),
            final(self).num_cols == old(self).num_cols,
            final(self).num_rows == old(self).num_rows,
            final(self).num_selectors == old(self).num_selectors,
            final(self).selectors@ == old(self).selectors@,
            r is Ok <==> old(self).cell(col.index as int, offset as int) is None,
            r matches Ok(c) ==> {
                &&& c.value == cell.value
                &&& c.column == col.index
                &&& c.row == offset
                &&& final(self).cell(col.index as int, offset as int) == Some(cell.value)
                &&& final(self).copies@ == old(self).copies@.push(
                    CopyConstraint {
                        from_column: cell.column,
                        from_row: cell.row,
                        to_column: col.index,
                        to_row: offset,
                    },
                )
            },
            r is Err ==> final(self).cells@ == old(self).cells@ && final(self).copies@ == old(
                self,
            ).copies@ && r == Err::<AssignedCell, Error>(Error::CellOccupied),
            forall|c: int, row: int|
                0 <= c < old(self).num_cols && 0 <= row < old(self).num_rows && !(c == col.index
                    && row == offset) ==> final(self).cell(c, row) == old(self).cell(c, row),
    {
        let assigned = self.assign_advice(col, offset, cell.value);
        match assigned {
            Ok(c) => {
                self.copies.push(
                    CopyConstraint {
                        from_column: cell.column,
                        from_row: cell.row,
                        to_column: col.index,
                        to_row: offset,
                    },
                );
                Ok(c)
            },
            Err(e) => Err(e),
        }
    }

    /// Activates selector `sel` on `offset`; activation never fails and
    /// is idempotent.
    pub fn enable_selector(&mut self, sel: &Selector, offset: usize) -> (r: Result<(), Error>)
        requires
            old(self).wf(),
            sel.index < old(self).num_selectors,
            offset < old(self).num_rows,
        ensures
            final(self).wf(),
            final(self).num_cols == old(self).num_cols,
            final(self).num_rows == old(self).num_rows,
            final(self).num_selectors == old(self).num_selectors,
            final(self).cells@ == old(self).cells@,
            final(self).copies@ == old(self).copies@,
            r is Ok,
            final(self).selector_on(sel.index as int, offset as int),
            forall|s: int, row: int|
                0 <= s < old(self).num_selectors && 0 <= row < old(self).num_rows && !(s
                    == sel.index && row == offset) ==> final(self).selector_on(s, row) == old(
                    self,
                ).selector_on(s, row),
    {
        proof {
            lemma_grid_index(
                self.num_selectors as int,
                self.num_rows as int,
                sel.index as int,
                offset as int,
            );
        }
        let idx: usize = sel.index * self.num_rows + offset;
        self.selectors.set(idx, true);
        proof {
            assert forall|s: int, row: int|
                0 <= s < old(self).num_selectors && 0 <= row < old(self).num_rows && !(s
                    == sel.index && row == offset) implies final(self).selector_on(s, row) == old(
                self,
            ).selector_on(s, row) by {
                lemma_grid_index(self.num_selectors as int, self.num_rows as int, s, row);
            }
        }
        Ok(())
    }
}

} // verus!
