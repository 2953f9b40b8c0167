use oxidized::extract::{row_texts, split_rows, tickers_table};
use oxidized::link::extract_link_text;
use oxidized::table::{assemble, TableError};

fn strings(v: &[&str]) -> Vec<String> {
    v.iter().map(|s| s.to_string()).collect()
}

#[test]
fn plain_cell_is_returned_unchanged() {
    assert_eq!(extract_link_text("Apple Inc.".to_string()), Some("Apple Inc.".to_string()));
    let once = extract_link_text("MMM".to_string()).unwrap();
    assert_eq!(extract_link_text(once.clone()), Some(once));
}

#[test]
fn empty_cell_is_returned_unchanged() {
    assert_eq!(extract_link_text(String::new()), Some(String::new()));
}

#[test]
fn anchor_text_is_extracted() {
    let cell = "<td><a href=\"/x\">Acme</a></td>".to_string();
    assert_eq!(extract_link_text(cell), Some("Acme".to_string()));
}

#[test]
fn anchor_inner_markup_is_extracted() {
    let cell = "<a rel=\"nofollow\" href=\"https://www.nyse.com/quote/XNYS:MMM\">MMM</a>".to_string();
    assert_eq!(extract_link_text(cell), Some("MMM".to_string()));
}

#[test]
fn anchor_without_closing_marker_has_no_text() {
    assert_eq!(extract_link_text("<a href=\"/x\">Acme".to_string()), None);
    assert_eq!(extract_link_text("<a href".to_string()), None);
}

#[test]
fn row_drops_cells_without_text() {
    let row = strings(&["<a href=\"/a\">A</a>", "<a broken", "plain"]);
    assert_eq!(row_texts(&row), strings(&["A", "plain"]));
}

#[test]
fn split_rows_separates_header() {
    let rows = vec![
        strings(&["Symbol", "Name"]),
        strings(&["<a href=\"/w/AAPL\">AAPL</a>", "Apple Inc."]),
        strings(&["MSFT", "<a href=\"/w/Microsoft\">Microsoft</a>"]),
    ];
    let (header, grid) = split_rows(&rows);
    assert_eq!(header, strings(&["Symbol", "Name"]));
    assert_eq!(grid, vec![strings(&["AAPL", "Apple Inc."]), strings(&["MSFT", "Microsoft"])]);
}

#[test]
fn split_rows_of_nothing_is_empty() {
    let (header, grid) = split_rows(&Vec::new());
    assert!(header.is_empty());
    assert!(grid.is_empty());
}

#[test]
fn assemble_transposes_grid() {
    let header = strings(&["a", "b", "c"]);
    let grid = vec![strings(&["1", "2", "3"]), strings(&["4", "5", "6"])];
    let t = assemble(&header, &grid).unwrap();
    assert_eq!(t.columns.len(), 3);
    assert_eq!(t.columns[0].name, "a");
    assert_eq!(t.columns[0].values, strings(&["1", "4"]));
    assert_eq!(t.columns[1].values, strings(&["2", "5"]));
    assert_eq!(t.columns[2].name, "c");
    assert_eq!(t.columns[2].values, strings(&["3", "6"]));
    assert_eq!(t.column("b"), Some(&strings(&["2", "5"])));
    assert_eq!(t.column("d"), None);
}

#[test]
fn assemble_rejects_empty_grid() {
    let header = strings(&["Symbol"]);
    assert_eq!(assemble(&header, &Vec::new()).err(), Some(TableError::EmptyGrid));
    assert_eq!(assemble(&Vec::new(), &Vec::new()).err(), Some(TableError::EmptyGrid));
}

#[test]
fn assemble_rejects_ragged_grid() {
    let header = strings(&["a", "b"]);
    let grid = vec![strings(&["1", "2"]), strings(&["3"])];
    assert_eq!(assemble(&header, &grid).err(), Some(TableError::RaggedGrid));
    let long = vec![strings(&["1", "2", "3"])];
    assert_eq!(assemble(&header, &long).err(), Some(TableError::RaggedGrid));
}

#[test]
fn assemble_rejects_duplicate_column() {
    let header = strings(&["a", "b", "a"]);
    let grid = vec![strings(&["1", "2", "3"])];
    assert_eq!(assemble(&header, &grid).err(), Some(TableError::DuplicateColumn));
}

#[test]
fn constituent_table_from_html() {
    let html = "<table><tr><th>Symbol</th><th>Name</th></tr><tr><td><a href=\"/w/AAPL\">AAPL</a></td><td>Apple Inc.</td></tr></table>";
    let t = tickers_table(html).unwrap();
    assert_eq!(t.columns.len(), 2);
    assert_eq!(t.columns[0].name, "Symbol");
    assert_eq!(t.columns[0].values, strings(&["AAPL"]));
    assert_eq!(t.columns[1].name, "Name");
    assert_eq!(t.columns[1].values, strings(&["Apple Inc."]));
}

#[test]
fn only_first_table_is_read() {
    let html = "<html><body><table><tr><th>X</th></tr><tr><td>1</td></tr><tr><td>2</td></tr></table>\
                <table><tr><th>Y</th></tr><tr><td>9</td></tr></table></body></html>";
    let t = tickers_table(html).unwrap();
    assert_eq!(t.columns.len(), 1);
    assert_eq!(t.columns[0].name, "X");
    assert_eq!(t.columns[0].values, strings(&["1", "2"]));
}

#[test]
fn shape_is_kept_through_extraction() {
    let html = "<table><tr><th>A</th><th>B</th><th>C</th></tr>\
                <tr><td>1</td><td>2</td><td>3</td></tr>\
                <tr><td>4</td><td><a href=\"/5\">5</a></td><td>6</td></tr></table>";
    let (header, grid) = oxidized::extract::extract_table(html);
    assert_eq!(header.len(), 3);
    assert_eq!(grid.len(), 2);
    assert!(grid.iter().all(|row| row.len() == 3));
}

#[test]
fn document_without_table_is_rejected() {
    let html = "<html><body><p>nothing here</p></body></html>";
    let (header, grid) = oxidized::extract::extract_table(html);
    assert!(header.is_empty());
    assert!(grid.is_empty());
    assert_eq!(tickers_table(html).err(), Some(TableError::EmptyGrid));
}
