use druid_table::{
    AxisMeasure, AxisRemaps, CellAddress, CellDemap, IndicesSelection, LogIdx, MeasureError,
    Remap, RemapError, RemapSpec, SelectionStatus, SingleAxisSlice, SingleCell, SortDirection,
    SortSpec, TableAxis, TableSelection, TableSelectionMod, VisIdx, VisOffset,
};

fn sort_spec(column: usize, direction: SortDirection) -> RemapSpec {
    RemapSpec { sort: Some(SortSpec { column, direction }), retain: None }
}

fn order(remap: &Remap) -> Vec<usize> {
    let mut out = Vec::new();
    for v in 0..remap.visible_count() {
        out.push(remap.get_log_idx(VisIdx(v)).unwrap().0);
    }
    out
}

fn grid(rows: usize, cols: usize) -> AxisRemaps {
    AxisRemaps::new(Remap::identity(rows), Remap::identity(cols))
}

#[test]
fn sort_descending_on_first_column() {
    let columns = vec![vec![3i64, 1, 2]];
    let remap = Remap::build(&sort_spec(0, SortDirection::Descending), 3, &columns).unwrap();
    assert_eq!(remap.get_log_idx(VisIdx(0)), Some(LogIdx(0)));
    assert_eq!(remap.get_log_idx(VisIdx(1)), Some(LogIdx(2)));
    assert_eq!(remap.get_log_idx(VisIdx(2)), Some(LogIdx(1)));
    assert_eq!(remap.get_log_idx(VisIdx(3)), None);
}

#[test]
fn sort_ascending_orders_by_key() {
    let columns = vec![vec![3i64, 1, 2]];
    let remap = Remap::build(&sort_spec(0, SortDirection::Ascending), 3, &columns).unwrap();
    assert_eq!(order(&remap), vec![1, 2, 0]);
    assert!(!remap.is_identity());
    let sorted_keys = vec![vec![1i64, 2, 3]];
    let unchanged = Remap::build(&sort_spec(0, SortDirection::Ascending), 3, &sorted_keys).unwrap();
    assert!(unchanged.is_identity());
}

#[test]
fn sort_is_stable_and_repeatable() {
    let columns = vec![vec![5i64, 2, 5, 2, 9]];
    let spec = sort_spec(0, SortDirection::Ascending);
    let first = Remap::build(&spec, 5, &columns).unwrap();
    let second = Remap::build(&spec, 5, &columns).unwrap();
    assert_eq!(order(&first), vec![1, 3, 0, 2, 4]);
    assert_eq!(order(&first), order(&second));
}

#[test]
fn descending_reverses_except_ties() {
    let columns = vec![vec![5i64, 2, 5, 2, 9]];
    let up = Remap::build(&sort_spec(0, SortDirection::Ascending), 5, &columns).unwrap();
    let down = Remap::build(&sort_spec(0, SortDirection::Descending), 5, &columns).unwrap();
    assert_eq!(order(&up), vec![1, 3, 0, 2, 4]);
    assert_eq!(order(&down), vec![4, 0, 2, 1, 3]);
}

#[test]
fn sort_on_second_column() {
    let columns = vec![vec![0i64, 0, 0], vec![-1i64, 7, 3]];
    let remap = Remap::build(&sort_spec(1, SortDirection::Descending), 3, &columns).unwrap();
    assert_eq!(order(&remap), vec![1, 2, 0]);
}

#[test]
fn filter_hides_failing_rows() {
    let spec = RemapSpec { sort: None, retain: Some(vec![4, 1, 3, 1]) };
    let remap = Remap::build(&spec, 6, &Vec::new()).unwrap();
    assert_eq!(remap.visible_count(), 3);
    assert_eq!(order(&remap), vec![1, 3, 4]);
    assert_eq!(remap.get_vis_idx(LogIdx(3)), Some(VisIdx(1)));
    assert_eq!(remap.get_vis_idx(LogIdx(0)), None);
    assert_eq!(remap.get_vis_idx(LogIdx(6)), None);
    assert!(!remap.is_identity());
}

#[test]
fn filter_then_sort() {
    let columns = vec![vec![10i64, 40, 20, 30]];
    let spec = RemapSpec {
        sort: Some(SortSpec { column: 0, direction: SortDirection::Descending }),
        retain: Some(vec![0, 2, 3]),
    };
    let remap = Remap::build(&spec, 4, &columns).unwrap();
    assert_eq!(order(&remap), vec![3, 2, 0]);
    assert_eq!(remap.get_vis_idx(LogIdx(0)), Some(VisIdx(2)));
    assert_eq!(remap.get_vis_idx(LogIdx(1)), None);
}

#[test]
fn identity_spec_keeps_every_row() {
    let remap = Remap::build(&RemapSpec::identity(), 4, &Vec::new()).unwrap();
    assert!(remap.is_identity());
    assert_eq!(remap.visible_count(), 4);
    assert_eq!(order(&remap), vec![0, 1, 2, 3]);
    assert_eq!(remap.get_vis_idx(LogIdx(2)), Some(VisIdx(2)));
    assert_eq!(remap.get_vis_idx(LogIdx(4)), None);
}

#[test]
fn inverse_lookup_round_trips() {
    let columns = vec![vec![4i64, -2, 9, 0, 4]];
    let remap = Remap::build(&sort_spec(0, SortDirection::Ascending), 5, &columns).unwrap();
    for v in 0..remap.visible_count() {
        let log = remap.get_log_idx(VisIdx(v)).unwrap();
        assert_eq!(remap.get_vis_idx(log), Some(VisIdx(v)));
    }
}

#[test]
fn invalid_sort_column_is_rejected() {
    let columns = vec![vec![1i64, 2, 3]];
    let missing = Remap::build(&sort_spec(1, SortDirection::Ascending), 3, &columns);
    assert!(matches!(missing, Err(RemapError::InvalidSpec)));
    let short = Remap::build(&sort_spec(0, SortDirection::Ascending), 4, &columns);
    assert!(matches!(short, Err(RemapError::InvalidSpec)));
}

#[test]
fn invalid_filter_row_is_rejected() {
    let spec = RemapSpec { sort: None, retain: Some(vec![0, 3]) };
    assert!(matches!(Remap::build(&spec, 3, &Vec::new()), Err(RemapError::InvalidSpec)));
}

#[test]
fn fixed_measure_offsets_and_lookup() {
    let mut m = AxisMeasure::fixed(20, 5);
    assert_eq!(m.pixel_offset(VisIdx(3)), 60);
    assert_eq!(m.vis_at_pixel(65), Some(VisIdx(3)));
    assert_eq!(m.pixel_offset(VisIdx(0)), 0);
    assert_eq!(m.pixel_offset(VisIdx(9)), 100);
    assert_eq!(m.total_pixel_length(), 100);
    assert_eq!(m.vis_at_pixel(100), None);
    assert_eq!(m.vis_at_pixel(99), Some(VisIdx(4)));
}

#[test]
fn fixed_measure_refuses_resize() {
    let mut m = AxisMeasure::fixed(20, 5);
    assert_eq!(m.set_size(VisIdx(1), 30), Err(MeasureError::Unsupported));
    assert_eq!(m.pixel_offset(VisIdx(5)), 100);
}

#[test]
fn stored_measure_offsets_follow_sizes() {
    let mut m = AxisMeasure::stored(10, 4);
    assert_eq!(m.set_size(VisIdx(1), 25), Ok(()));
    assert_eq!(m.set_size(VisIdx(2), 0), Ok(()));
    assert_eq!(m.pixel_offset(VisIdx(1)), 10);
    assert_eq!(m.pixel_offset(VisIdx(2)), 35);
    assert_eq!(m.pixel_offset(VisIdx(3)), 35);
    assert_eq!(m.pixel_offset(VisIdx(4)), 45);
    assert_eq!(m.total_pixel_length(), 45);
    assert_eq!(m.vis_at_pixel(35), Some(VisIdx(3)));
    assert_eq!(m.vis_at_pixel(34), Some(VisIdx(1)));
    assert_eq!(m.vis_at_pixel(0), Some(VisIdx(0)));
    assert_eq!(m.vis_at_pixel(45), None);
}

#[test]
fn stored_lookup_inverts_offsets() {
    let mut m = AxisMeasure::stored(7, 6);
    m.set_size(VisIdx(0), 3).unwrap();
    m.set_size(VisIdx(4), 12).unwrap();
    let mut last = 0;
    for v in 0..6 {
        let y = m.pixel_offset(VisIdx(v));
        assert!(y >= last);
        last = y;
        assert_eq!(m.vis_at_pixel(y), Some(VisIdx(v)));
    }
}

#[test]
fn stored_measure_out_of_range() {
    let mut m = AxisMeasure::stored(10, 2);
    assert_eq!(m.set_size(VisIdx(2), 5), Err(MeasureError::IndexOutOfRange));
    assert_eq!(m.total_pixel_length(), 20);
}

#[test]
fn axis_length_changes() {
    let mut m = AxisMeasure::stored(10, 3);
    m.set_size(VisIdx(2), 50).unwrap();
    assert_eq!(m.total_pixel_length(), 70);
    m.set_axis_length(2);
    assert_eq!(m.axis_len(), 2);
    assert_eq!(m.total_pixel_length(), 20);
    m.set_axis_length(4);
    assert_eq!(m.total_pixel_length(), 40);
    let mut f = AxisMeasure::fixed(8, 2);
    f.set_axis_length(5);
    assert_eq!(f.total_pixel_length(), 40);
}

#[test]
fn empty_axis_has_zero_offsets() {
    let mut m = AxisMeasure::stored(10, 0);
    assert_eq!(m.pixel_offset(VisIdx(0)), 0);
    assert_eq!(m.pixel_offset(VisIdx(3)), 0);
    assert_eq!(m.vis_at_pixel(0), None);
}

#[test]
fn empty_table_focus_stays_unselected() {
    let demap = grid(0, 3);
    let moved = TableSelection::NoSelection.move_focus(TableAxis::Rows, VisOffset(1), &demap);
    assert!(moved.is_none());
}

#[test]
fn first_focus_selects_origin() {
    let demap = grid(2, 2);
    let moved = TableSelection::NoSelection.move_focus(TableAxis::Rows, VisOffset(1), &demap);
    let origin = CellAddress::new(VisIdx(0), VisIdx(0));
    let log = CellAddress::new(LogIdx(0), LogIdx(0));
    assert_eq!(moved, Some(TableSelection::SingleCell(SingleCell::new(origin, log))));
}

#[test]
fn focus_out_of_range_keeps_selection() {
    let demap = grid(3, 3);
    let vis = CellAddress::new(VisIdx(1), VisIdx(1));
    let log = CellAddress::new(LogIdx(1), LogIdx(1));
    let current = TableSelection::SingleCell(SingleCell::new(vis, log));
    let moved = current.move_focus(TableAxis::Columns, VisOffset(5), &demap);
    assert!(moved.is_none());
    let kept = moved.unwrap_or(current);
    assert_eq!(kept, current);
    let back = current.move_focus(TableAxis::Rows, VisOffset(-2), &demap);
    assert!(back.is_none());
}

#[test]
fn focus_moves_through_remap() {
    let columns = vec![vec![3i64, 1, 2]];
    let rows = Remap::build(&sort_spec(0, SortDirection::Descending), 3, &columns).unwrap();
    let demap = AxisRemaps::new(rows, Remap::identity(2));
    let vis = CellAddress::new(VisIdx(0), VisIdx(1));
    let log = CellAddress::new(LogIdx(0), LogIdx(1));
    let current = TableSelection::SingleCell(SingleCell::new(vis, log));
    let moved = current.move_focus(TableAxis::Rows, VisOffset(2), &demap).unwrap();
    match moved {
        TableSelection::SingleCell(sc) => {
            assert_eq!(sc.vis, CellAddress::new(VisIdx(2), VisIdx(1)));
            assert_eq!(sc.log, CellAddress::new(LogIdx(1), LogIdx(1)));
            assert_eq!(demap.get_log_cell(&sc.vis), Some(sc.log));
        }
        _ => panic!("expected a cell selection"),
    }
}

#[test]
fn slice_selection_does_not_move() {
    let demap = grid(3, 3);
    let slice = TableSelection::SingleSlice(SingleAxisSlice::new(TableAxis::Rows, VisIdx(1), LogIdx(2)));
    assert_eq!(slice.move_focus(TableAxis::Rows, VisOffset(1), &demap), Some(slice));
}

#[test]
fn cell_demap_needs_both_axes() {
    let demap = grid(2, 1);
    assert_eq!(demap.get_log_idx(TableAxis::Columns, &VisIdx(0)), Some(LogIdx(0)));
    assert_eq!(demap.get_log_cell(&CellAddress::new(VisIdx(1), VisIdx(1))), None);
    assert_eq!(demap.get_log_cell(&CellAddress::new(VisIdx(2), VisIdx(0))), None);
    assert_eq!(
        demap.get_log_cell(&CellAddress::new(VisIdx(1), VisIdx(0))),
        Some(CellAddress::new(LogIdx(1), LogIdx(0)))
    );
}

#[test]
fn axis_projection() {
    let vis = CellAddress::new(VisIdx(2), VisIdx(5));
    let log = CellAddress::new(LogIdx(7), LogIdx(4));
    let cell = TableSelection::SingleCell(SingleCell::new(vis, log));
    assert_eq!(cell.to_axis_selection(TableAxis::Rows), IndicesSelection::Single(VisIdx(2), LogIdx(7)));
    assert_eq!(cell.to_axis_selection(TableAxis::Columns), IndicesSelection::Single(VisIdx(5), LogIdx(4)));
    let slice = TableSelection::SingleSlice(SingleAxisSlice::new(TableAxis::Columns, VisIdx(1), LogIdx(3)));
    assert_eq!(slice.to_axis_selection(TableAxis::Columns), IndicesSelection::Single(VisIdx(1), LogIdx(3)));
    assert_eq!(slice.to_axis_selection(TableAxis::Rows), IndicesSelection::NoSelection);
    assert_eq!(TableSelection::NoSelection.to_axis_selection(TableAxis::Rows), IndicesSelection::NoSelection);
}

#[test]
fn selected_index_query() {
    let sel = IndicesSelection::Single(VisIdx(3), LogIdx(0));
    assert!(sel.vis_index_selected(VisIdx(3)));
    assert!(!sel.vis_index_selected(VisIdx(0)));
    assert!(!IndicesSelection::NoSelection.vis_index_selected(VisIdx(0)));
}

#[test]
fn cell_status() {
    let vis = CellAddress::new(VisIdx(1), VisIdx(2));
    let cell = TableSelection::from(SingleCell::new(vis, CellAddress::new(LogIdx(0), LogIdx(0))));
    assert_eq!(cell.get_cell_status(vis), SelectionStatus::Primary);
    assert_eq!(cell.get_cell_status(CellAddress::new(VisIdx(2), VisIdx(1))), SelectionStatus::NotSelected);
    assert_eq!(TableSelection::NoSelection.get_cell_status(vis), SelectionStatus::NotSelected);
    assert!(bool::from(SelectionStatus::Primary));
    assert!(bool::from(SelectionStatus::AlsoSelected));
    assert!(!bool::from(SelectionStatus::NotSelected));
}

#[test]
fn address_axis_access() {
    let mut a = CellAddress::new(VisIdx(4), VisIdx(9));
    assert_eq!(a.get(TableAxis::Rows), VisIdx(4));
    assert_eq!(a.get(TableAxis::Columns), VisIdx(9));
    a.set(TableAxis::Columns, VisIdx(1));
    assert_eq!(a, CellAddress::new(VisIdx(4), VisIdx(1)));
    assert_eq!(a.move_by(TableAxis::Rows, VisOffset(-4)), Some(CellAddress::new(VisIdx(0), VisIdx(1))));
    assert_eq!(a.move_by(TableAxis::Rows, VisOffset(-5)), None);
}

#[test]
fn selection_rule_from_closure() {
    let clear = |_: &TableSelection| Some(TableSelection::NoSelection);
    let vis = CellAddress::new(VisIdx(0), VisIdx(0));
    let cell = TableSelection::from(SingleCell::new(vis, CellAddress::new(LogIdx(0), LogIdx(0))));
    assert_eq!(clear.new_selection(&cell), Some(TableSelection::NoSelection));
}
