use crate::error::TreeError;
use crate::sort_type::SortType;
use vstd::prelude::*;

verus! {

/// Capacity bound on the number of rows of a table.
///
/// Keeping row counts at or below this bound lets every exact rational
/// score comparison (numerators and denominators are at most the cube of a
/// row count) be carried out in `u128` arithmetic without overflow.
pub const MAX_ROWS: usize = 0x10_0000;

/// The values of one feature column.
///
/// An ordinal column holds integers and is split by a threshold; a
/// categorical column holds strings and is split by equality against one
/// category.
#[derive(Clone, Debug)]
pub enum ColumnValues {
    Ordinal(Vec<i64>),
    Categorical(Vec<String>),
}

/// One named feature column.
#[derive(Clone, Debug)]
pub struct Column {
    pub name: String,
    pub values: ColumnValues,
}

impl Column {
    /// How many rows the column holds.
    pub open spec fn spec_len(&self) -> nat {
        match self.values {
            ColumnValues::Ordinal(v) => v@.len(),
            ColumnValues::Categorical(v) => v@.len(),
        }
    }

    /// Which kind of split test applies to this column.
    pub open spec fn spec_kind(&self) -> SortType {
        match self.values {
            ColumnValues::Ordinal(_) => SortType::Ordinal,
            ColumnValues::Categorical(_) => SortType::Categorical,
        }
    }

    pub fn len(&self) -> (n: usize)
        ensures
            n == self.spec_len(),
    {
        match &self.values {
            ColumnValues::Ordinal(v) => v.len(),
            ColumnValues::Categorical(v) => v.len(),
        }
    }

    pub fn kind(&self) -> (k: SortType)
        ensures
            k == self.spec_kind(),
    {
        match &self.values {
            ColumnValues::Ordinal(_) => SortType::Ordinal,
            ColumnValues::Categorical(_) => SortType::Categorical,
        }
    }
}

/// An immutable columnar table: feature columns of equal length beside one
/// boolean target column holding a label per row.
///
/// The tree never mutates a table in place; partitions are represented as
/// vectors of row indices into an unchanged table.
#[derive(Clone, Debug)]
pub struct Table {
    pub columns: Vec<Column>,
    pub target: Vec<bool>,
}

impl Table {
    pub open spec fn spec_num_rows(&self) -> nat {
        self.target@.len()
    }

    /// Well-formedness: every feature column is as long as the target
    /// column, column names are pairwise distinct, and the row count stays
    /// within the library's capacity.
    pub open spec fn wf(&self) -> bool {
        &&& self.target@.len() <= MAX_ROWS
        &&& forall|i: int|
            0 <= i < self.columns@.len() ==> (#[trigger] self.columns@[i]).spec_len()
                == self.target@.len()
        &&& forall|i: int, j: int|
            0 <= i < j < self.columns@.len() ==> (#[trigger] self.columns@[i]).name@ != (
            #[trigger] self.columns@[j]).name@
    }

    /// A table with the given target labels and no feature columns yet.
    pub fn new(target: Vec<bool>) -> (r: Result<Table, TreeError>)
        ensures
            target@.len() <= MAX_ROWS ==> (r matches Ok(t) && t.wf() && t.target == target
                && t.columns@.len() == 0),
            target@.len() > MAX_ROWS ==> r == Err::<Table, TreeError>(TreeError::MalformedTable),
    {
        if target.len() > MAX_ROWS {
            return Err(TreeError::MalformedTable);
        }
        Ok(Table { columns: Vec::new(), target })
    }

    /// Appends an ordinal feature column; refused when its length differs
    /// from the target column's or a column of that name already exists.
    pub fn add_ordinal_column(&mut self, name: String, values: Vec<i64>) -> (r: Result<
        (),
        TreeError,
    >)
        ensures
            values@.len() == old(self).spec_num_rows() && old(self).spec_col_index(name@) == -1
                ==> (r matches Ok(_) && final(self).target == old(self).target && final(self).columns@ == old(self).columns@.push(
                Column { name, values: ColumnValues::Ordinal(values) },
            )),
            values@.len() != old(self).spec_num_rows() || old(self).spec_col_index(name@) != -1
                ==> r == Err::<(), TreeError>(TreeError::MalformedTable) && *final(self) == *old(self),
            old(self).wf() ==> final(self).wf(),
    {
        if values.len() != self.target.len() {
            return Err(TreeError::MalformedTable);
        }
        if self.find_column(&name).is_some() {
            return Err(TreeError::MalformedTable);
        }
        proof {
            lemma_col_index_none(self.columns@, name@, 0);
        }
        self.columns.push(Column { name, values: ColumnValues::Ordinal(values) });
        Ok(())
    }

    /// Appends a categorical feature column; refused when its length
    /// differs from the target column's or a column of that name already
    /// exists.
    pub fn add_categorical_column(&mut self, name: String, values: Vec<String>) -> (r: Result<
        (),
        TreeError,
    >)
        ensures
            values@.len() == old(self).spec_num_rows() && old(self).spec_col_index(name@) == -1
                ==> (r matches Ok(_) && final(self).target == old(self).target && final(self).columns@ == old(self).columns@.push(
                Column { name, values: ColumnValues::Categorical(values) },
            )),
            values@.len() != old(self).spec_num_rows() || old(self).spec_col_index(name@) != -1
                ==> r == Err::<(), TreeError>(TreeError::MalformedTable) && *final(self) == *old(self),
            old(self).wf() ==> final(self).wf(),
    {
        if values.len() != self.target.len() {
            return Err(TreeError::MalformedTable);
        }
        if self.find_column(&name).is_some() {
            return Err(TreeError::MalformedTable);
        }
        proof {
            lemma_col_index_none(self.columns@, name@, 0);
        }
        self.columns.push(Column { name, values: ColumnValues::Categorical(values) });
        Ok(())
    }

    /// Decides well-formedness at run time: column lengths, name
    /// uniqueness and the row capacity.
    pub fn check_wf(&self) -> (b: bool)
        ensures
            b == self.wf(),
    {
        if self.target.len() > MAX_ROWS {
            return false;
        }
        let mut i: usize = 0;
        while i < self.columns.len()
            invariant
                0 <= i <= self.columns@.len(),
                self.target@.len() <= MAX_ROWS,
                forall|a: int|
                    0 <= a < i ==> (#[trigger] self.columns@[a]).spec_len() == self.target@.len(),
                forall|a: int, b: int|
                    0 <= a < b < i ==> (#[trigger] self.columns@[a]).name@ != (
                    #[trigger] self.columns@[b]).name@,
            decreases self.columns@.len() - i,
        {
            if self.columns[i].len() != self.target.len() {
                return false;
            }
            let mut j: usize = 0;
            while j < i
                invariant
                    0 <= j <= i < self.columns@.len(),
                    forall|a: int|
                        0 <= a < j ==> (#[trigger] self.columns@[a]).name@ != self.columns@[
                        i as int].name@,
                decreases i - j,
            {
                if self.columns[j].name == self.columns[i].name {
                    return false;
                }
                j = j + 1;
            }
            i = i + 1;
        }
        true
    }

    pub fn num_rows(&self) -> (n: usize)
        ensures
            n == self.spec_num_rows(),
    {
        self.target.len()
    }

    pub fn num_columns(&self) -> (n: usize)
        ensures
            n == self.columns@.len(),
    {
        self.columns.len()
    }

    /// The index of the first column named `name`, if any.
    pub open spec fn spec_col_index(&self, name: Seq<char>) -> int {
        col_index_from(self.columns@, name, 0)
    }

    /// Finds the first column with the given name.
    pub fn find_column(&self, name: &String) -> (r: Option<usize>)
        ensures
            match r {
                Some(i) => self.spec_col_index(name@) == i && i < self.columns@.len(),
                None => self.spec_col_index(name@) == -1,
            },
    {
        let ghost cols = self.columns@;
        let mut i: usize = 0;
        while i < self.columns.len()
            invariant
                0 <= i <= cols.len(),
                cols == self.columns@,
                col_index_from(cols, name@, 0) == col_index_from(cols, name@, i as int),
            decreases cols.len() - i,
        {
            if self.columns[i].name == *name {
                proof {
                    assert(col_index_from(cols, name@, i as int) == i);
                }
                return Some(i);
            }
            proof {
                assert(col_index_from(cols, name@, i as int) == col_index_from(
                    cols,
                    name@,
                    i + 1,
                ));
            }
            i = i + 1;
        }
        None
    }
}

/// The first index at or after `i` whose column is named `name`, or `-1`.
pub open spec fn col_index_from(cols: Seq<Column>, name: Seq<char>, i: int) -> int
    decreases cols.len() - i,
{
    if i < 0 || i >= cols.len() {
        -1
    } else if cols[i].name@ == name {
        i
    } else {
        col_index_from(cols, name, i + 1)
    }
}

/// A failed lookup means no column at or after `i` bears the name.
pub proof fn lemma_col_index_none(cols: Seq<Column>, name: Seq<char>, i: int)
    requires
        0 <= i,
        col_index_from(cols, name, i) == -1,
    ensures
        forall|j: int| i <= j < cols.len() ==> (#[trigger] cols[j]).name@ != name,
    decreases cols.len() - i,
{
    if 0 <= i < cols.len() {
        lemma_col_index_none(cols, name, i + 1);
    }
}

/// Under pairwise-distinct column names, a column's own index is exactly
/// what looking its name up yields.
pub proof fn lemma_col_index_of_own(cols: Seq<Column>, ci: int)
    requires
        0 <= ci < cols.len(),
        forall|i: int, j: int|
            0 <= i < j < cols.len() ==> (#[trigger] cols[i]).name@ != (#[trigger] cols[j]).name@,
    ensures
        col_index_from(cols, cols[ci].name@, 0) == ci,
{
    lemma_col_index_bounds(cols, cols[ci].name@, 0);
    let r = col_index_from(cols, cols[ci].name@, 0);
    if r == -1 {
        lemma_col_index_none(cols, cols[ci].name@, 0);
        assert(cols[ci].name@ != cols[ci].name@);
    } else {
        assert(cols[r].name@ == cols[ci].name@);
        if r < ci {
            assert(cols[r].name@ != cols[ci].name@);
        } else if r > ci {
            assert(cols[ci].name@ != cols[r].name@);
        }
    }
}

/// A found column index lies within the column list and names the column
/// that was looked up.
pub proof fn lemma_col_index_bounds(cols: Seq<Column>, name: Seq<char>, i: int)
    ensures
        col_index_from(cols, name, i) == -1 || (i <= col_index_from(cols, name, i) < cols.len()
            && cols[col_index_from(cols, name, i)].name@ == name),
    decreases cols.len() - i,
{
    if 0 <= i < cols.len() && cols[i].name@ != name {
        lemma_col_index_bounds(cols, name, i + 1);
    }
}

} // verus!
