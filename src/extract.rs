//! The first table of an HTML document, as a header row and a data grid of
//! plain-text cells.

use vstd::prelude::*;
use crate::link::{extract_link_text, link_text};
use crate::table::{assemble, assemble_error, transposed, Table, TableError};

verus! {

/// The texts of a row's cells, in order, leaving out each cell that has none.
pub open spec fn cell_texts(row: Seq<Seq<char>>) -> Seq<Seq<char>>
    decreases row.len(),
{
    if row.len() == 0 {
        Seq::empty()
    } else {
        let front = cell_texts(row.drop_last());
        match link_text(row.last()) {
            Some(t) => front.push(t),
            None => front,
        }
    }
}

/// The header row: the cell texts of the first row, or nothing without rows.
pub open spec fn header_of(rows: Seq<Seq<Seq<char>>>) -> Seq<Seq<char>> {
    if rows.len() == 0 {
        Seq::empty()
    } else {
        cell_texts(rows[0])
    }
}

/// The data grid: the cell texts of every row after the first.
pub open spec fn grid_of(rows: Seq<Seq<Seq<char>>>) -> Seq<Seq<Seq<char>>> {
    if rows.len() == 0 {
        Seq::empty()
    } else {
        rows.drop_first().map_values(|row: Seq<Seq<char>>| cell_texts(row))
    }
}

/// The inner markup of every `td` or `th` cell of every `tr` row of the first
/// `table` element of an HTML document, in document order; no rows when the
/// document has no table.
pub uninterp spec fn first_table_markup(html: Seq<char>) -> Seq<Seq<Seq<char>>>;

/// Relies on scraper's `Html::parse_document`, `Selector::parse`,
/// `select` and `ElementRef::inner_html`: parses the document and hands out
/// the inner markup of the cells of the rows of its first table.
#[verifier::external_body]
fn first_table_cells(html: &str) -> (r: Vec<Vec<String>>)
    ensures
        r.deep_view() == first_table_markup(html@),
{
    let doc = scraper::Html::parse_document(html);
    let table = scraper::Selector::parse("table").unwrap();
    let tr = scraper::Selector::parse("tr").unwrap();
    let cell = scraper::Selector::parse("td, th").unwrap();
    let mut rows = Vec::new();
    if let Some(t) = doc.select(&table).next() {
        for row in t.select(&tr) {
            let mut cells = Vec::new();
            for c in row.select(&cell) {
                cells.push(c.inner_html());
            }
            rows.push(cells);
        }
    }
    rows
}

/// The cell texts of one row of markup.
pub fn row_texts(row: &Vec<String>) -> (r: Vec<String>)
    ensures
        r.deep_view() == cell_texts(row.deep_view()),
{
    let mut out: Vec<String> = Vec::new();
    let mut i: usize = 0;
    while i < row.len()
        invariant
            i <= row@.len(),
            out.deep_view() == cell_texts(row.deep_view().subrange(0, i as int)),
        decreases row@.len() - i,
    {
        let ghost before = row.deep_view().subrange(0, i as int);
        let ghost after = row.deep_view().subrange(0, i + 1);
        assert(after.drop_last() =~= before);
        assert(after.last() == row@[i as int]@);
        match extract_link_text(row[i].clone()) {
            Some(t) => {
                out.push(t);
                assert(out.deep_view() =~= cell_texts(before).push(t@));
            },
            None => {},
        }
        i = i + 1;
    }
    assert(row.deep_view().subrange(0, row@.len() as int) =~= row.deep_view());
    out
}

/// Splits rows of cell markup into the header row (the first row) and the
/// data grid (the rest), each cell reduced to its text.
pub fn split_rows(rows: &Vec<Vec<String>>) -> (r: (Vec<String>, Vec<Vec<String>>))
    ensures
        r.0.deep_view() == header_of(rows.deep_view()),
        r.1.deep_view() == grid_of(rows.deep_view()),
{
    let ghost m = rows.deep_view();
    if rows.len() == 0 {
        return (Vec::new(), Vec::new());
    }
    let header = row_texts(&rows[0]);
    let mut grid: Vec<Vec<String>> = Vec::new();
    let mut i: usize = 1;
    while i < rows.len()
        invariant
            m == rows.deep_view(),
            1 <= i <= rows@.len(),
            grid@.len() == i - 1,
            forall|k: int| 0 <= k < i - 1 ==> (#[trigger] grid@[k]).deep_view() == cell_texts(m[k + 1]),
        decreases rows@.len() - i,
    {
        let cells = row_texts(&rows[i]);
        grid.push(cells);
        i = i + 1;
    }
    assert(grid.deep_view() =~= grid_of(m));
    (header, grid)
}

/// The header row and data grid of the first table of `html`.
pub fn extract_table(html: &str) -> (r: (Vec<String>, Vec<Vec<String>>))
    ensures
        r.0.deep_view() == header_of(first_table_markup(html@)),
        r.1.deep_view() == grid_of(first_table_markup(html@)),
{
    let rows = first_table_cells(html);
    split_rows(&rows)
}

/// The column-major table of rows of cell markup (see `split_rows` and
/// `assemble`).
pub fn table_from_rows(rows: &Vec<Vec<String>>) -> (r: Result<Table, TableError>)
    ensures
        match r {
            Ok(t) => assemble_error(header_of(rows.deep_view()), grid_of(rows.deep_view())) is None
                && t@ == transposed(header_of(rows.deep_view()), grid_of(rows.deep_view())) && t.wf(),
            Err(e) => assemble_error(header_of(rows.deep_view()), grid_of(rows.deep_view())) == Some(e),
        },
{
    let (header, grid) = split_rows(rows);
    assemble(&header, &grid)
}

/// The column-major table of the first table of `html`.
pub fn tickers_table(html: &str) -> (r: Result<Table, TableError>)
    ensures
        match r {
            Ok(t) => assemble_error(header_of(first_table_markup(html@)), grid_of(first_table_markup(html@))) is None
                && t@ == transposed(header_of(first_table_markup(html@)), grid_of(first_table_markup(html@)))
                && t.wf(),
            Err(e) => assemble_error(header_of(first_table_markup(html@)), grid_of(first_table_markup(html@)))
                == Some(e),
        },
{
    let rows = first_table_cells(html);
    table_from_rows(&rows)
}

proof fn lemma_cell_texts_len(row: Seq<Seq<char>>)
    requires
        forall|c: int| 0 <= c < row.len() ==> #[trigger] link_text(row[c]) is Some,
    ensures
        cell_texts(row).len() == row.len(),
    decreases row.len(),
{
    if row.len() > 0 {
        assert(link_text(row[row.len() - 1]) is Some);
        lemma_cell_texts_len(row.drop_last());
    }
}

/// Rows of `h` cells each, first the header row and then `rows.len() - 1`
/// data rows, in which every cell has a text: the header row keeps all `h`
/// cells and the grid has one row of `h` cells per data row.
pub proof fn lemma_split_keeps_shape(rows: Seq<Seq<Seq<char>>>, h: nat)
    requires
        rows.len() > 0,
        forall|r: int| 0 <= r < rows.len() ==> #[trigger] rows[r].len() == h,
        forall|r: int, c: int| 0 <= r < rows.len() && 0 <= c < rows[r].len()
            ==> #[trigger] link_text(rows[r][c]) is Some,
    ensures
        header_of(rows).len() == h,
        grid_of(rows).len() == rows.len() - 1,
        forall|r: int| 0 <= r < grid_of(rows).len() ==> #[trigger] grid_of(rows)[r].len() == h,
{
    assert forall|r: int| 0 <= r < rows.len() implies #[trigger] cell_texts(rows[r]).len() == h by {
        assert forall|c: int| 0 <= c < rows[r].len() implies #[trigger] link_text(rows[r][c]) is Some by {}
        lemma_cell_texts_len(rows[r]);
    }
    assert forall|r: int| 0 <= r < grid_of(rows).len() implies #[trigger] grid_of(rows)[r].len() == h by {
        assert(grid_of(rows)[r] == cell_texts(rows[r + 1]));
    }
}

} // verus!
