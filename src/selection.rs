use vstd::prelude::*;
use crate::axis_measure::{LogIdx, TableAxis, VisIdx, VisOffset};
use crate::remap::Remap;

verus! {

/// A cell's address: a row and a column in one index space.
#[derive(Clone, Copy, Debug, PartialEq, Eq, Structural, Hash)]
pub struct CellAddress<T> {
    pub row: T,
    pub col: T,
}

impl<T: Copy> CellAddress<T> {
    pub fn new(row: T, col: T) -> (r: CellAddress<T>)
        ensures
            r.row == row,
            r.col == col,
    {
        CellAddress { row, col }
    }

    /// The coordinate of the address along `axis`.
    pub open spec fn at(self, axis: TableAxis) -> T {
        match axis {
            TableAxis::Rows => self.row,
            TableAxis::Columns => self.col,
        }
    }

    /// The coordinate along `axis`.
    pub fn get(&self, axis: TableAxis) -> (r: T)
        ensures
            r == self.at(axis),
    {
        match axis {
            TableAxis::Rows => self.row,
            TableAxis::Columns => self.col,
        }
    }

    /// Replaces the coordinate along `axis`, keeping the other.
    pub fn set(&mut self, axis: TableAxis, value: T)
        ensures
            final(self).at(axis) == value,
            match axis {
                TableAxis::Rows => final(self).col == old(self).col,
                TableAxis::Columns => final(self).row == old(self).row,
            },
    {
        match axis {
            TableAxis::Rows => self.row = value,
            TableAxis::Columns => self.col = value,
        }
    }
}

/// The address `vis` moved by `amount` along `axis`, when the new coordinate
/// is a valid visual index.
pub open spec fn moved_address(vis: CellAddress<VisIdx>, axis: TableAxis, amount: VisOffset) -> Option<
    CellAddress<VisIdx>,
> {
    let target = vis.at(axis).0 + amount.0;
    if 0 <= target <= usize::MAX {
        Some(
            match axis {
                TableAxis::Rows => CellAddress { row: VisIdx(target as usize), col: vis.col },
                TableAxis::Columns => CellAddress { row: vis.row, col: VisIdx(target as usize) },
            },
        )
    } else {
        None
    }
}

impl CellAddress<VisIdx> {
    /// This address moved by `amount` along `axis`; `None` when the new
    /// coordinate would be negative or beyond the largest index.
    pub fn move_by(&self, axis: TableAxis, amount: VisOffset) -> (r: Option<CellAddress<VisIdx>>)
        ensures
            r == moved_address(*self, axis, amount),
    {
        let from = self.get(axis).0;
        let target: Option<usize> = if amount.0 >= 0 {
            from.checked_add(amount.0 as usize)
        } else {
            let back = (-(amount.0 as i128)) as u128;
            if back <= from as u128 {
                Some(from - back as usize)
            } else {
                None
            }
        };
        match target {
            Some(t) => {
                let mut moved = *self;
                moved.set(axis, VisIdx(t));
                Some(moved)
            },
            None => None,
        }
    }
}

/// One selected cell, in visual and logical coordinates at once.
#[derive(Clone, Copy, Debug, PartialEq, Eq, Structural, Hash)]
pub struct SingleCell {
    pub vis: CellAddress<VisIdx>,
    pub log: CellAddress<LogIdx>,
}

impl SingleCell {
    pub fn new(vis: CellAddress<VisIdx>, log: CellAddress<LogIdx>) -> (r: Self)
        ensures
            r.vis == vis,
            r.log == log,
    {
        SingleCell { vis, log }
    }
}

/// One selected row or column, in visual and logical coordinates at once.
#[derive(Clone, Copy, Debug, PartialEq, Eq, Structural, Hash)]
pub struct SingleAxisSlice {
    pub axis: TableAxis,
    pub vis: VisIdx,
    pub log: LogIdx,
}

impl SingleAxisSlice {
    pub fn new(axis: TableAxis, vis: VisIdx, log: LogIdx) -> (r: Self)
        ensures
            r.axis == axis,
            r.vis == vis,
            r.log == log,
    {
        SingleAxisSlice { axis, vis, log }
    }
}

/// Selection along one axis.
#[derive(Clone, Copy, Debug, PartialEq, Eq, Structural, Hash)]
pub enum IndicesSelection {
    NoSelection,
    Single(VisIdx, LogIdx),
}

impl IndicesSelection {
    /// True when `vis_idx` is the selected visual index.
    pub fn vis_index_selected(&self, vis_idx: VisIdx) -> (r: bool)
        ensures
            r == (self matches IndicesSelection::Single(v, _) && v == vis_idx),
    {
        match self {
            IndicesSelection::Single(sel_vis, _) => *sel_vis == vis_idx,
            _ => false,
        }
    }
}

/// Selection over the whole grid.
#[derive(Clone, Copy, Debug, PartialEq, Eq, Structural, Hash)]
pub enum TableSelection {
    NoSelection,
    SingleCell(SingleCell),
    SingleSlice(SingleAxisSlice),
}

/// Translation of visual addresses into logical ones.
pub trait CellDemap {
    /// The state in which lookups may be made.
    spec fn demap_ready(&self) -> bool;

    /// The logical index at visual index `vis` along `axis`, if any.
    spec fn log_idx_of(&self, axis: TableAxis, vis: VisIdx) -> Option<LogIdx>;

    fn get_log_idx(&self, axis: TableAxis, vis: &VisIdx) -> (r: Option<LogIdx>)
        requires
            self.demap_ready(),
        ensures
            r == self.log_idx_of(axis, *vis),
    ;

    /// The logical cell at visual address `vis`: both axes must resolve.
    fn get_log_cell(&self, vis: &CellAddress<VisIdx>) -> (r: Option<CellAddress<LogIdx>>)
        requires
            self.demap_ready(),
        ensures
            r == (match (self.log_idx_of(TableAxis::Rows, vis.row), self.log_idx_of(TableAxis::Columns, vis.col)) {
                (Some(row), Some(col)) => Some(CellAddress { row, col }),
                _ => None,
            }),
    {
        match self.get_log_idx(TableAxis::Rows, &vis.row) {
            Some(row) => match self.get_log_idx(TableAxis::Columns, &vis.col) {
                Some(col) => Some(CellAddress::new(row, col)),
                None => None,
            },
            None => None,
        }
    }
}

/// The logical cell at visual address `vis` under `demap`.
pub open spec fn log_cell_of<D: CellDemap + ?Sized>(demap: &D, vis: CellAddress<VisIdx>) -> Option<
    CellAddress<LogIdx>,
> {
    match (demap.log_idx_of(TableAxis::Rows, vis.row), demap.log_idx_of(TableAxis::Columns, vis.col)) {
        (Some(row), Some(col)) => Some(CellAddress { row, col }),
        _ => None,
    }
}

/// The row and the column mappings of a table.
pub struct AxisRemaps {
    pub rows: Remap,
    pub cols: Remap,
}

impl AxisRemaps {
    pub fn new(rows: Remap, cols: Remap) -> (r: Self)
        ensures
            r.rows == rows,
            r.cols == cols,
    {
        AxisRemaps { rows, cols }
    }
}

impl CellDemap for AxisRemaps {
    open spec fn demap_ready(&self) -> bool {
        self.rows.wf() && self.cols.wf()
    }

    open spec fn log_idx_of(&self, axis: TableAxis, vis: VisIdx) -> Option<LogIdx> {
        match axis {
            TableAxis::Rows => self.rows.log_idx_of(vis),
            TableAxis::Columns => self.cols.log_idx_of(vis),
        }
    }

    fn get_log_idx(&self, axis: TableAxis, vis: &VisIdx) -> (r: Option<LogIdx>) {
        match axis {
            TableAxis::Rows => self.rows.get_log_idx(*vis),
            TableAxis::Columns => self.cols.get_log_idx(*vis),
        }
    }
}

/// A rule that computes a new selection from the current one.
pub trait TableSelectionMod {
    /// The selections the rule may be applied to.
    spec fn applies_to(&self, sel: TableSelection) -> bool;

    /// The rule may turn `sel` into `r`.
    spec fn yields(&self, sel: TableSelection, r: Option<TableSelection>) -> bool;

    fn new_selection(&self, sel: &TableSelection) -> (r: Option<TableSelection>)
        requires
            self.applies_to(*sel),
        ensures
            self.yields(*sel, r),
    ;
}

impl<F: Fn(&TableSelection) -> Option<TableSelection>> TableSelectionMod for F {
    open spec fn applies_to(&self, sel: TableSelection) -> bool {
        self.requires((&sel,))
    }

    open spec fn yields(&self, sel: TableSelection, r: Option<TableSelection>) -> bool {
        self.ensures((&sel,), r)
    }

    fn new_selection(&self, sel: &TableSelection) -> (r: Option<TableSelection>) {
        self(sel)
    }
}

/// How a visual cell relates to the current selection.
#[derive(Clone, Copy, Debug, PartialEq, Eq, Structural, Hash)]
pub enum SelectionStatus {
    NotSelected,
    Primary,
    AlsoSelected,
}

impl From<SelectionStatus> for bool {
    fn from(ss: SelectionStatus) -> (r: bool) {
        !(ss matches SelectionStatus::NotSelected)
    }
}

impl vstd::std_specs::convert::FromSpecImpl<SelectionStatus> for bool {
    open spec fn obeys_from_spec() -> bool {
        true
    }

    open spec fn from_spec(ss: SelectionStatus) -> bool {
        !(ss matches SelectionStatus::NotSelected)
    }
}

impl From<SingleCell> for TableSelection {
    fn from(sc: SingleCell) -> (r: TableSelection) {
        TableSelection::SingleCell(sc)
    }
}

impl vstd::std_specs::convert::FromSpecImpl<SingleCell> for TableSelection {
    open spec fn obeys_from_spec() -> bool {
        true
    }

    open spec fn from_spec(sc: SingleCell) -> TableSelection {
        TableSelection::SingleCell(sc)
    }
}

/// The selection of the cell at visual address `vis`, when `demap` resolves it.
pub open spec fn cell_selection_at<D: CellDemap>(demap: &D, vis: CellAddress<VisIdx>) -> Option<
    TableSelection,
> {
    match log_cell_of(demap, vis) {
        Some(log) => Some(TableSelection::SingleCell(SingleCell { vis, log })),
        None => None,
    }
}

impl TableSelection {
    /// The selection after moving focus by `amount` along `axis`:
    /// with nothing selected, the origin cell; from a cell, the cell moved by
    /// `amount`; a selected row or column stays as it is. `None` when the
    /// target cell does not resolve, in which case the selection is unchanged.
    pub open spec fn focus_moved<D: CellDemap>(
        self,
        axis: TableAxis,
        amount: VisOffset,
        demap: &D,
    ) -> Option<TableSelection> {
        match self {
            TableSelection::NoSelection => cell_selection_at(
                demap,
                CellAddress { row: VisIdx(0), col: VisIdx(0) },
            ),
            TableSelection::SingleCell(sc) => match moved_address(sc.vis, axis, amount) {
                Some(vis) => cell_selection_at(demap, vis),
                None => None,
            },
            TableSelection::SingleSlice(_) => Some(self),
        }
    }

    pub fn move_focus<D: CellDemap>(&self, axis: TableAxis, amount: VisOffset, cell_demap: &D) -> (r:
        Option<TableSelection>)
        requires
            cell_demap.demap_ready(),
        ensures
            r == self.focus_moved(axis, amount, cell_demap),
            r matches Some(TableSelection::SingleCell(sc)) ==> log_cell_of(cell_demap, sc.vis) == Some(
                sc.log,
            ),
    {
        match self {
            TableSelection::NoSelection => {
                let vis_origin = CellAddress::new(VisIdx(0), VisIdx(0));
                match cell_demap.get_log_cell(&vis_origin) {
                    Some(log) => Some(TableSelection::SingleCell(SingleCell::new(vis_origin, log))),
                    None => None,
                }
            },
            TableSelection::SingleCell(sc) => match sc.vis.move_by(axis, amount) {
                Some(new_vis) => match cell_demap.get_log_cell(&new_vis) {
                    Some(log) => Some(TableSelection::SingleCell(SingleCell::new(new_vis, log))),
                    None => None,
                },
                None => None,
            },
            TableSelection::SingleSlice(_) => Some(*self),
        }
    }

    /// Projection of the selection onto one axis.
    pub open spec fn axis_selection(self, axis: TableAxis) -> IndicesSelection {
        match self {
            TableSelection::NoSelection => IndicesSelection::NoSelection,
            TableSelection::SingleCell(sc) => IndicesSelection::Single(sc.vis.at(axis), sc.log.at(axis)),
            TableSelection::SingleSlice(single) => if single.axis == axis {
                IndicesSelection::Single(single.vis, single.log)
            } else {
                IndicesSelection::NoSelection
            },
        }
    }

    pub fn to_axis_selection(&self, axis: TableAxis) -> (r: IndicesSelection)
        ensures
            r == self.axis_selection(axis),
    {
        match self {
            TableSelection::NoSelection => IndicesSelection::NoSelection,
            TableSelection::SingleCell(sc) => IndicesSelection::Single(sc.vis.get(axis), sc.log.get(axis)),
            TableSelection::SingleSlice(single) => {
                if single.axis == axis {
                    IndicesSelection::Single(single.vis, single.log)
                } else {
                    IndicesSelection::NoSelection
                }
            },
        }
    }

    /// `Primary` for the selected cell's visual address, `NotSelected` for
    /// every other address.
    pub fn get_cell_status(&self, address: CellAddress<VisIdx>) -> (r: SelectionStatus)
        ensures
            r == (if self matches TableSelection::SingleCell(sc) && sc.vis == address {
                SelectionStatus::Primary
            } else {
                SelectionStatus::NotSelected
            }),
    {
        match self {
            TableSelection::SingleCell(sc) => {
                if address == sc.vis {
                    SelectionStatus::Primary
                } else {
                    SelectionStatus::NotSelected
                }
            },
            _ => SelectionStatus::NotSelected,
        }
    }
}

} // verus!
