//! Index management core of a tabular grid: the mapping between a dataset's
//! logical order and its on-screen order, per-axis pixel geometry, and the
//! selection model that is kept consistent across re-ordering.
mod axis_measure;
mod remap;
mod selection;

pub use axis_measure::{
    lemma_offsets_monotone, lemma_pixel_lookup_inverts_offset, prefix_sum, resized, AxisMeasure,
    LogIdx, MeasureError, TableAxis, VisIdx, VisOffset,
};

pub use remap::{
    count_filtered_out, lemma_build_deterministic, lemma_build_is_bijective,
    lemma_descending_reverses_ascending, lemma_filter_count, Remap, RemapError, RemapSpec,
    SortDirection, SortSpec,
};

pub use selection::{
    cell_selection_at, log_cell_of, moved_address, AxisRemaps, CellAddress, CellDemap,
    IndicesSelection, SelectionStatus, SingleAxisSlice, SingleCell, TableSelection,
    TableSelectionMod,
};
