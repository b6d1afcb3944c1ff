use bifur_core::terminal::parser::Cell;
use bifur_core::terminal::scroll_region::ScrollRegion;
use bifur_core::terminal::scroll_region_ops::{delete_lines, insert_lines, scroll_up_one};
use bifur_core::terminal::scroll_state::ScrollState;

fn cells(lines: &[&str]) -> Vec<Cell> {
    lines
        .iter()
        .flat_map(|line| line.chars())
        .map(|ch| Cell {
            ch,
            ..Cell::default()
        })
        .collect()
}

fn text(cells: &[Cell], cols: usize) -> Vec<String> {
    cells
        .chunks(cols)
        .map(|row| row.iter().map(|cell| cell.ch).collect())
        .collect()
}

#[test]
fn full_region_covers_the_screen() {
    let region = ScrollRegion::full(4);

    assert_eq!(region.top(), 0);
    assert_eq!(region.bottom(), 3);
    assert!(region.contains(0));
    assert!(region.contains(3));
    assert!(!region.contains(4));
}

#[test]
fn vt_bounds_use_one_based_defaults() {
    let explicit = ScrollRegion::from_vt_bounds(6, Some(2), Some(5)).unwrap();
    assert_eq!(explicit.top(), 1);
    assert_eq!(explicit.bottom(), 4);

    let defaults = ScrollRegion::from_vt_bounds(6, Some(0), Some(0)).unwrap();
    assert_eq!(defaults, ScrollRegion::full(6));
}

#[test]
fn csi_params_parse_decstbm_bounds_and_defaults() {
    assert_eq!(
        ScrollRegion::from_csi_params(6, "2;5"),
        ScrollRegion::from_vt_bounds(6, Some(2), Some(5))
    );
    assert_eq!(ScrollRegion::from_csi_params(6, ""), Some(ScrollRegion::full(6)));
    assert_eq!(ScrollRegion::from_csi_params(6, ";"), Some(ScrollRegion::full(6)));
    assert_eq!(
        ScrollRegion::from_csi_params(6, "0;0"),
        Some(ScrollRegion::full(6))
    );
}

#[test]
fn csi_params_reject_invalid_or_ambiguous_payloads() {
    assert!(ScrollRegion::from_csi_params(6, "4;4").is_none());
    assert!(ScrollRegion::from_csi_params(6, "1;7").is_none());
    assert!(ScrollRegion::from_csi_params(6, "1;2;3").is_none());
    assert!(ScrollRegion::from_csi_params(6, "2 r").is_none());
    assert!(ScrollRegion::from_csi_params(6, "999999999999999999999999999999").is_none());
}

#[test]
fn invalid_vt_bounds_are_rejected() {
    assert!(ScrollRegion::from_vt_bounds(6, Some(4), Some(4)).is_none());
    assert!(ScrollRegion::from_vt_bounds(6, Some(5), Some(2)).is_none());
    assert!(ScrollRegion::from_vt_bounds(6, Some(1), Some(7)).is_none());
}

#[test]
fn edit_counts_clamp_to_remaining_region_rows() {
    let region = ScrollRegion::from_vt_bounds(6, Some(2), Some(5)).unwrap();

    assert_eq!(region.clamp_count_from(2, 1), 1);
    assert_eq!(region.clamp_count_from(2, 99), 3);
    assert_eq!(region.clamp_count_from(0, 1), 0);
    assert_eq!(region.clamp_count_from(5, 1), 0);
}

#[test]
fn insert_lines_shifts_only_inside_region() {
    let mut cells = cells(&["aaaa", "bbbb", "cccc", "dddd", "eeee"]);
    let region = ScrollRegion::from_vt_bounds(5, Some(2), Some(4)).unwrap();

    insert_lines(&mut cells, 4, region, 2, 1, Cell::default());

    assert_eq!(text(&cells, 4), vec!["aaaa", "bbbb", "    ", "cccc", "eeee"]);
}

#[test]
fn delete_lines_shifts_only_inside_region() {
    let mut cells = cells(&["aaaa", "bbbb", "cccc", "dddd", "eeee"]);
    let region = ScrollRegion::from_vt_bounds(5, Some(2), Some(4)).unwrap();

    delete_lines(&mut cells, 4, region, 2, 1, Cell::default());

    assert_eq!(text(&cells, 4), vec!["aaaa", "bbbb", "dddd", "    ", "eeee"]);
}

#[test]
fn scroll_up_preserves_rows_outside_region() {
    let mut cells = cells(&["aaaa", "bbbb", "cccc", "dddd", "eeee"]);
    let region = ScrollRegion::from_vt_bounds(5, Some(2), Some(4)).unwrap();

    scroll_up_one(&mut cells, 4, region, Cell::default());

    assert_eq!(text(&cells, 4), vec!["aaaa", "cccc", "dddd", "    ", "eeee"]);
}

#[test]
fn new_rows_use_supplied_erase_cell() {
    let mut cells = cells(&["aaaa", "bbbb", "cccc"]);
    let region = ScrollRegion::full(3);
    let erased = Cell {
        bg: 0x123456,
        ..Cell::default()
    };

    delete_lines(&mut cells, 4, region, 1, 99, erased);

    assert!(cells[4..].iter().all(|cell| cell.ch == ' ' && cell.bg == 0x123456));
}

#[test]
fn defaults_and_reset_use_full_screen_region() {
    let mut state = ScrollState::new(5);
    assert_eq!(state.region(), ScrollRegion::full(5));

    assert!(state.set_from_csi(5, "2;4"));
    assert_ne!(state.region(), ScrollRegion::full(5));

    state.reset(3);
    assert_eq!(state.region(), ScrollRegion::full(3));
}

#[test]
fn invalid_margin_payload_preserves_existing_region() {
    let mut state = ScrollState::new(5);
    assert!(state.set_from_csi(5, "2;4"));
    let before = state.region();

    assert!(!state.set_from_csi(5, "4;2"));
    assert_eq!(state.region(), before);
}

#[test]
fn line_operations_stay_inside_active_region() {
    let mut state = ScrollState::new(5);
    assert!(state.set_from_csi(5, "2;4"));
    let mut cells = cells(&["aaaa", "bbbb", "cccc", "dddd", "eeee"]);

    state.insert_lines(&mut cells, 4, 2, 1, Cell::default());
    assert_eq!(
        text(&cells, 4),
        vec!["aaaa", "bbbb", "    ", "cccc", "eeee"]
    );

    state.delete_lines(&mut cells, 4, 2, 1, Cell::default());
    assert_eq!(
        text(&cells, 4),
        vec!["aaaa", "bbbb", "cccc", "    ", "eeee"]
    );
}

#[test]
fn lf_scrolls_only_at_bottom_margin() {
    let mut state = ScrollState::new(5);
    assert!(state.set_from_csi(5, "2;4"));
    let mut cells = cells(&["aaaa", "bbbb", "cccc", "dddd", "eeee"]);

    assert!(!state.scroll_up_on_bottom_margin(
        &mut cells,
        4,
        2,
        Cell::default()
    ));
    assert!(state.scroll_up_on_bottom_margin(
        &mut cells,
        4,
        3,
        Cell::default()
    ));
    assert_eq!(
        text(&cells, 4),
        vec!["aaaa", "cccc", "dddd", "    ", "eeee"]
    );
}

#[test]
fn exposes_region_membership_for_cursor_rules() {
    let mut state = ScrollState::new(5);
    assert!(state.set_from_csi(5, "2;4"));

    assert!(!state.contains(0));
    assert!(state.contains(1));
    assert!(state.contains(3));
    assert!(!state.contains(4));
}

// Further cases.

#[test]
fn delete_after_insert_restores_region_except_pushed_out_rows() {
    let mut cells = cells(&["aaaa", "bbbb", "cccc", "dddd", "eeee"]);
    let region = ScrollRegion::from_vt_bounds(5, Some(2), Some(4)).unwrap();
    insert_lines(&mut cells, 4, region, 1, 2, Cell::default());
    delete_lines(&mut cells, 4, region, 1, 2, Cell::default());
    assert_eq!(text(&cells, 4), vec!["aaaa", "bbbb", "    ", "    ", "eeee"]);
}

#[test]
fn one_row_screen_rejects_default_margins() {
    assert!(ScrollRegion::from_csi_params(1, "").is_none());
    assert_eq!(ScrollRegion::from_csi_params(0, "1;1"), None);
}

#[test]
fn insert_outside_region_changes_nothing() {
    let mut cells = cells(&["aaaa", "bbbb", "cccc"]);
    let region = ScrollRegion::from_vt_bounds(3, Some(2), Some(3)).unwrap();
    insert_lines(&mut cells, 4, region, 0, 1, Cell::default());
    assert_eq!(text(&cells, 4), vec!["aaaa", "bbbb", "cccc"]);
}
