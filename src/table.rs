//! Column-major tables built from a header row and a row-major grid.

use vstd::prelude::*;

verus! {

/// Why a header and a grid could not become a table.
#[derive(Clone, Copy, Debug, PartialEq, Eq, Structural)]
pub enum TableError {
    /// The grid has no rows, so the column length is undefined.
    EmptyGrid,
    /// Some row's length differs from the header's length.
    RaggedGrid,
    /// Two header cells carry the same name.
    DuplicateColumn,
    /// A column that the caller asked for is absent.
    MissingColumn,
}

/// One named column of values.
pub struct Column {
    pub name: String,
    pub values: Vec<String>,
}

/// Named columns, in header order.
pub struct Table {
    pub columns: Vec<Column>,
}

impl View for Table {
    type V = Seq<(Seq<char>, Seq<Seq<char>>)>;

    open spec fn view(&self) -> Seq<(Seq<char>, Seq<Seq<char>>)> {
        self.columns@.map_values(|c: Column| (c.name@, c.values.deep_view()))
    }
}

/// Some two positions of `names` hold the same name.
pub open spec fn has_duplicate(names: Seq<Seq<char>>) -> bool {
    exists|i: int, j: int| 0 <= i < j < names.len() && names[i] == names[j]
}

/// Every row of `grid` is as long as `header`.
pub open spec fn rows_match(header: Seq<Seq<char>>, grid: Seq<Seq<Seq<char>>>) -> bool {
    forall|r: int| 0 <= r < grid.len() ==> #[trigger] grid[r].len() == header.len()
}

/// The error that assembling `header` and `grid` meets, checked in this order:
/// no rows, a row of the wrong length, a repeated column name.
pub open spec fn assemble_error(header: Seq<Seq<char>>, grid: Seq<Seq<Seq<char>>>) -> Option<TableError> {
    if grid.len() == 0 {
        Some(TableError::EmptyGrid)
    } else if !rows_match(header, grid) {
        Some(TableError::RaggedGrid)
    } else if has_duplicate(header) {
        Some(TableError::DuplicateColumn)
    } else {
        None
    }
}

/// Column `i` is named `header[i]` and holds `grid[r][i]` for each row `r`.
pub open spec fn transposed(header: Seq<Seq<char>>, grid: Seq<Seq<Seq<char>>>) -> Seq<(Seq<char>, Seq<Seq<char>>)> {
    Seq::new(header.len(), |i: int| (header[i], Seq::new(grid.len(), |r: int| grid[r][i])))
}

impl Table {
    /// Column names are unique and all columns have one length.
    pub open spec fn wf(&self) -> bool {
        &&& !has_duplicate(self@.map_values(|c: (Seq<char>, Seq<Seq<char>>)| c.0))
        &&& forall|i: int, j: int| 0 <= i < self@.len() && 0 <= j < self@.len()
            ==> #[trigger] self@[i].1.len() == #[trigger] self@[j].1.len()
    }

    /// The values of the first column named `name`, if any.
    pub fn column(&self, name: &str) -> (r: Option<&Vec<String>>)
        ensures
            match r {
                None => forall|i: int| 0 <= i < self@.len() ==> #[trigger] self@[i].0 != name@,
                Some(v) => exists|i: int|
                    0 <= i < self@.len() && self@[i].0 == name@ && v.deep_view() == self@[i].1
                        && forall|j: int| 0 <= j < i ==> #[trigger] self@[j].0 != name@,
            },
    {
        let key = String::from_str(name);
        let mut i: usize = 0;
        while i < self.columns.len()
            invariant
                key@ == name@,
                i <= self.columns@.len(),
                forall|j: int| 0 <= j < i ==> #[trigger] self@[j].0 != name@,
            decreases self.columns@.len() - i,
        {
            if self.columns[i].name == key {
                assert(self@[i as int].0 == name@);
                assert(self.columns@[i as int].values.deep_view() == self@[i as int].1);
                return Some(&self.columns[i].values);
            }
            i = i + 1;
        }
        None
    }
}

fn find_duplicate(header: &Vec<String>) -> (r: bool)
    ensures
        r == has_duplicate(header.deep_view()),
{
    let ghost h = header.deep_view();
    let n = header.len();
    let mut i: usize = 0;
    while i < n
        invariant
            n == header@.len(),
            h == header.deep_view(),
            i <= n,
            forall|a: int, b: int| 0 <= a < i && a < b < n ==> h[a] != h[b],
        decreases n - i,
    {
        let mut j: usize = i + 1;
        while j < n
            invariant
                n == header@.len(),
                h == header.deep_view(),
                i < n,
                i + 1 <= j <= n,
                forall|a: int, b: int| 0 <= a < i && a < b < n ==> h[a] != h[b],
                forall|b: int| i < b < j ==> h[i as int] != h[b],
            decreases n - j,
        {
            if header[i] == header[j] {
                assert(h[i as int] == header@[i as int]@ && h[j as int] == header@[j as int]@);
                return true;
            }
            j = j + 1;
        }
        i = i + 1;
    }
    false
}

fn rows_have_len(header: &Vec<String>, grid: &Vec<Vec<String>>) -> (r: bool)
    ensures
        r == rows_match(header.deep_view(), grid.deep_view()),
{
    let mut r: usize = 0;
    while r < grid.len()
        invariant
            r <= grid@.len(),
            forall|k: int| 0 <= k < r ==> #[trigger] grid@[k]@.len() == header@.len(),
        decreases grid@.len() - r,
    {
        if grid[r].len() != header.len() {
            assert(grid.deep_view()[r as int].len() != header.deep_view().len());
            return false;
        }
        r = r + 1;
    }
    assert forall|k: int| 0 <= k < grid.deep_view().len() implies #[trigger] grid.deep_view()[k].len()
        == header.deep_view().len() by {
        assert(grid@[k]@.len() == header@.len());
    }
    true
}

/// Turns a header and a row-major grid into one column per header cell, in
/// header order, each holding that position of every row in row order.
pub fn assemble(header: &Vec<String>, grid: &Vec<Vec<String>>) -> (r: Result<Table, TableError>)
    ensures
        match r {
            Ok(t) => assemble_error(header.deep_view(), grid.deep_view()) is None
                && t@ == transposed(header.deep_view(), grid.deep_view()) && t.wf(),
            Err(e) => assemble_error(header.deep_view(), grid.deep_view()) == Some(e),
        },
{
    let ghost h = header.deep_view();
    let ghost g = grid.deep_view();
    if grid.len() == 0 {
        return Err(TableError::EmptyGrid);
    }
    if !rows_have_len(header, grid) {
        return Err(TableError::RaggedGrid);
    }
    if find_duplicate(header) {
        return Err(TableError::DuplicateColumn);
    }
    let mut columns: Vec<Column> = Vec::new();
    let mut i: usize = 0;
    while i < header.len()
        invariant
            h == header.deep_view(),
            g == grid.deep_view(),
            rows_match(h, g),
            i <= header@.len(),
            columns@.len() == i,
            forall|k: int| 0 <= k < i ==> (#[trigger] columns@[k]).name@ == h[k]
                && columns@[k].values.deep_view() == Seq::new(g.len(), |r: int| g[r][k]),
        decreases header@.len() - i,
    {
        let mut values: Vec<String> = Vec::new();
        let mut r: usize = 0;
        while r < grid.len()
            invariant
                h == header.deep_view(),
                g == grid.deep_view(),
                rows_match(h, g),
                i < header@.len(),
                r <= grid@.len(),
                values@.len() == r,
                forall|k: int| 0 <= k < r ==> (#[trigger] values@[k])@ == g[k][i as int],
            decreases grid@.len() - r,
        {
            assert(g[r as int].len() == h.len());
            values.push(grid[r][i].clone());
            r = r + 1;
        }
        assert(values.deep_view() =~= Seq::new(g.len(), |r: int| g[r][i as int]));
        columns.push(Column { name: header[i].clone(), values });
        i = i + 1;
    }
    let t = Table { columns };
    assert(t@ =~= transposed(h, g));
    assert(t@.map_values(|c: (Seq<char>, Seq<Seq<char>>)| c.0) =~= h);
    Ok(t)
}

/// Assembling transposes: whenever `header` and `grid` assemble, for every
/// column position `i` and row `r`, the one column named `header[i]` sits at
/// position `i` and its value in row `r` is `grid[r][i]`.
pub proof fn lemma_assemble_transposes(header: Seq<Seq<char>>, grid: Seq<Seq<Seq<char>>>, i: int, r: int)
    requires
        assemble_error(header, grid) is None,
        0 <= i < header.len(),
        0 <= r < grid.len(),
    ensures
        transposed(header, grid)[i].0 == header[i],
        forall|j: int| 0 <= j < header.len() && #[trigger] transposed(header, grid)[j].0 == header[i] ==> j == i,
        transposed(header, grid)[i].1.len() == grid.len(),
        transposed(header, grid)[i].1[r] == grid[r][i],
{
    assert forall|j: int| 0 <= j < header.len() && #[trigger] transposed(header, grid)[j].0 == header[i]
        implies j == i by {
        if j < i {
            assert(header[j] == header[i]);
        } else if j > i {
            assert(header[i] == header[j]);
        }
    }
}

} // verus!
