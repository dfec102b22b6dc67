use csv_viewer::viewer::MyApp;

fn table(header: &[&str], rows: &[&[&str]]) -> (Vec<String>, Vec<Vec<String>>) {
    let h: Vec<String> = header.iter().map(|s| s.to_string()).collect();
    let d: Vec<Vec<String>> = rows
        .iter()
        .map(|r| r.iter().map(|s| s.to_string()).collect())
        .collect();
    (h, d)
}

fn loaded(header: &[&str], rows: &[&[&str]], rows_per_page: usize) -> MyApp {
    let mut app = MyApp::new(rows_per_page);
    let (h, d) = table(header, rows);
    app.load_table(h, d);
    app
}

fn row(cells: &[&str]) -> Vec<String> {
    cells.iter().map(|s| s.to_string()).collect()
}

#[test]
fn pages_concatenate_to_table() {
    let mut app = loaded(
        &["id", "name"],
        &[
            &["1", "a"],
            &["2", "b"],
            &["3", "c"],
            &["4", "d"],
            &["5", "e"],
        ],
        2,
    );
    let mut collected: Vec<Vec<String>> = Vec::new();
    for page in 0..app.total_pages() {
        assert_eq!(app.current_page, page);
        let shown = app.compute_rows_to_display();
        assert_eq!(shown[0], app.csv_header);
        collected.extend(shown[1..].iter().cloned());
        app.next_page();
    }
    assert_eq!(collected, app.csv_data);
}

#[test]
fn total_pages_at_least_one_when_empty() {
    let app = MyApp::new(100);
    assert_eq!(app.total_pages(), 1);
    let empty_loaded = loaded(&["a"], &[], 100);
    assert_eq!(empty_loaded.total_pages(), 1);
}

#[test]
fn total_pages_rounds_up() {
    assert_eq!(loaded(&["a"], &[&["1"], &["2"], &["3"]], 2).total_pages(), 2);
    assert_eq!(loaded(&["a"], &[&["1"], &["2"]], 2).total_pages(), 1);
    assert_eq!(loaded(&["a"], &[&["1"], &["2"], &["3"]], 3).total_pages(), 1);
}

#[test]
fn previous_at_first_page_is_a_no_op() {
    let mut app = loaded(&["a"], &[&["1"], &["2"], &["3"]], 1);
    assert_eq!(app.current_page, 0);
    app.previous_page();
    assert_eq!(app.current_page, 0);
}

#[test]
fn next_at_last_page_is_a_no_op() {
    let mut app = loaded(&["a"], &[&["1"], &["2"], &["3"]], 2);
    app.next_page();
    assert_eq!(app.current_page, 1);
    assert_eq!(app.total_pages(), 2);
    app.next_page();
    assert_eq!(app.current_page, 1);
}

#[test]
fn row_lookup_follows_numbering() {
    let app = loaded(&["h1", "h2"], &[&["a", "b"], &["c", "d"]], 100);
    assert_eq!(app.get_row_by_number(1), Some(row(&["h1", "h2"])));
    assert_eq!(app.get_row_by_number(2), Some(row(&["a", "b"])));
    assert_eq!(app.get_row_by_number(3), Some(row(&["c", "d"])));
    assert_eq!(app.get_row_by_number(0), None);
    assert_eq!(app.get_row_by_number(4), None);
}

#[test]
fn whole_row_search_matches_any_cell() {
    let mut app = loaded(
        &["x", "y"],
        &[&["Apple", "tart"], &["zz", "PIE"], &["none", "here"]],
        100,
    );
    app.search_query = "pi".to_string();
    let results = app.perform_search_all_columns();
    assert_eq!(results, vec![row(&["zz", "PIE"])]);

    app.search_query = "APPLE".to_string();
    let results = app.perform_search_all_columns();
    assert_eq!(results, vec![row(&["Apple", "tart"])]);

    app.search_query = "e".to_string();
    let results = app.perform_search_all_columns();
    assert_eq!(
        results,
        vec![row(&["Apple", "tart"]), row(&["zz", "PIE"]), row(&["none", "here"])]
    );
}

#[test]
fn column_scoped_search_reads_one_column() {
    let mut app = loaded(&["a", "b"], &[&["x", "y"], &["y", "x"]], 100);
    app.search_query = "y".to_string();
    app.search_header = 1;
    let results = app.perform_search();
    assert_eq!(results, vec![row(&["x", "y"])]);
}

#[test]
fn column_scoped_search_ignores_short_rows() {
    let mut app = loaded(&["a", "b"], &[&["only"], &["u", "v"]], 100);
    app.search_query = "v".to_string();
    app.search_header = 1;
    assert_eq!(app.perform_search(), vec![row(&["u", "v"])]);
}

#[test]
fn hide_all_then_one_column_back_on() {
    let mut app = loaded(&["a", "b", "c"], &[&["1", "2", "3"]], 100);
    app.toggle_all_columns(false);
    assert_eq!(app.visible_column_count(), 0);
    app.set_column_visible(1, true);
    assert_eq!(app.visible_column_count(), 1);
    assert_eq!(app.filter_visible_columns(&row(&["1", "2", "3"])), row(&["2"]));
    assert_eq!(app.get_visible_headers(), row(&["b"]));
}

#[test]
fn load_resets_view_state() {
    let mut app = loaded(&["a"], &[&["1"], &["2"]], 1);
    app.next_page();
    app.search_query = "1".to_string();
    app.submit_search();
    app.row_number_input = "2".to_string();
    app.submit_row_lookup();
    app.toggle_all_columns(false);
    let (h, d) = table(&["p", "q"], &[&["u", "v"]]);
    app.load_table(h, d);
    assert_eq!(app.current_page, 0);
    assert_eq!(app.search_query, "");
    assert!(app.search_results.is_none());
    assert_eq!(app.row_number_input, "");
    assert!(app.selected_row.is_none());
    assert_eq!(app.visible_columns, vec![true, true]);
    assert_eq!(app.csv_header, row(&["p", "q"]));
}

#[test]
fn search_and_selection_are_mutually_exclusive() {
    let mut app = loaded(&["a"], &[&["x"], &["y"]], 100);
    app.row_number_input = "2".to_string();
    app.submit_row_lookup();
    assert_eq!(app.selected_row, Some(row(&["x"])));
    app.search_query = "y".to_string();
    app.submit_search();
    assert!(app.selected_row.is_none());
    assert_eq!(app.search_results, Some(vec![row(&["y"])]));
    app.row_number_input = "1".to_string();
    app.submit_row_lookup();
    assert!(app.search_results.is_none());
    assert_eq!(app.selected_row, Some(row(&["a"])));
}

#[test]
fn malformed_row_number_falls_back_to_no_selection() {
    let mut app = loaded(&["a"], &[&["x"]], 100);
    app.row_number_input = "2".to_string();
    app.submit_row_lookup();
    assert!(app.selected_row.is_some());
    app.search_query = "x".to_string();
    app.submit_search();
    app.row_number_input = "nonsense".to_string();
    app.submit_row_lookup();
    assert!(app.selected_row.is_none());
    assert!(app.search_results.is_none());
}

#[test]
fn row_number_accepts_a_leading_plus_sign() {
    let mut app = loaded(&["a"], &[&["x"]], 100);
    app.row_number_input = " +2 ".to_string();
    app.submit_row_lookup();
    assert_eq!(app.selected_row, Some(row(&["x"])));
}

#[test]
fn row_number_accepts_surrounding_whitespace() {
    let mut app = loaded(&["a"], &[&["x"]], 100);
    app.row_number_input = "  2\t".to_string();
    app.submit_row_lookup();
    assert_eq!(app.selected_row, Some(row(&["x"])));
}

#[test]
fn out_of_range_row_number_clears_selection() {
    let mut app = loaded(&["a"], &[&["x"]], 100);
    app.row_number_input = "1".to_string();
    app.submit_row_lookup();
    assert!(app.selected_row.is_some());
    app.row_number_input = "9".to_string();
    app.submit_row_lookup();
    assert!(app.selected_row.is_none());
}

#[test]
fn clear_search_returns_to_paged_view() {
    let mut app = loaded(&["a"], &[&["x"]], 100);
    app.search_query = "x".to_string();
    app.submit_search();
    assert!(app.search_results.is_some());
    app.clear_search();
    assert_eq!(app.search_query, "");
    assert!(app.search_results.is_none());
}

#[test]
fn display_precedence_selection_then_search_then_page() {
    let mut app = loaded(&["h"], &[&["r1"], &["r2"], &["r3"]], 2);
    assert_eq!(
        app.compute_rows_to_display(),
        vec![row(&["h"]), row(&["r1"]), row(&["r2"])]
    );
    app.search_query = "r3".to_string();
    app.submit_search();
    assert_eq!(app.compute_rows_to_display(), vec![row(&["h"]), row(&["r3"])]);
    app.row_number_input = "2".to_string();
    app.submit_row_lookup();
    assert_eq!(app.compute_rows_to_display(), vec![row(&["h"]), row(&["r1"])]);
}

#[test]
fn selected_header_is_shown_once() {
    let mut app = loaded(&["h1", "h2"], &[&["a", "b"]], 100);
    app.row_number_input = "1".to_string();
    app.submit_row_lookup();
    assert_eq!(app.compute_rows_to_display(), vec![row(&["h1", "h2"])]);
}

#[test]
fn empty_table_displays_nothing() {
    let app = MyApp::new(100);
    assert_eq!(app.compute_rows_to_display(), Vec::<Vec<String>>::new());
}

#[test]
fn second_page_shows_the_tail() {
    let mut app = loaded(&["h"], &[&["r1"], &["r2"], &["r3"]], 2);
    app.next_page();
    assert_eq!(app.compute_rows_to_display(), vec![row(&["h"]), row(&["r3"])]);
}

#[test]
fn visible_column_count_follows_toggles() {
    let mut app = loaded(&["a", "b", "c"], &[], 100);
    assert_eq!(app.visible_column_count(), 3);
    app.set_column_visible(0, false);
    assert_eq!(app.visible_column_count(), 2);
    app.toggle_all_columns(true);
    assert_eq!(app.visible_column_count(), 3);
    app.toggle_all_columns(false);
    assert_eq!(app.visible_column_count(), 0);
}
