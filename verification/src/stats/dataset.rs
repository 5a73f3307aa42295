use vstd::prelude::*;

use crate::stats::column::{column_len, Column, Value};

verus! {

/// The error of a dataset operation.
#[derive(Debug, Clone, Copy, PartialEq, Eq, PartialOrd, Structural)]
pub enum DatasetError {
    /// A column with this name already exists.
    IndexInUse,
    /// No column has this name.
    IndexInexistent,
    /// The file could not be read.
    FileFailure,
    /// The CSV data is malformed, empty or invalid.
    CSVError,
    /// A column does not have the type that the operation expects.
    InconsistentColumns,
    /// The dataset has no columns.
    NoColumns,
}

/// The result of a dataset operation.
pub type DatasetResult<T> = Result<T, DatasetError>;

/// Named columns, in the order in which they were added.
#[derive(Clone, Debug)]
pub struct Dataset {
    columns: Vec<(String, Column)>,
}

/// The names of a sequence of named columns.
pub open spec fn names_of(entries: Seq<(String, Column)>) -> Seq<Seq<char>> {
    entries.map_values(|e: (String, Column)| e.0@)
}

/// The position of the column named `key` (meaningful when the name occurs).
pub open spec fn position_of(entries: Seq<(String, Column)>, key: Seq<char>) -> int {
    names_of(entries).index_of(key)
}

/// The named columns left after removing, in turn, a column named after each of `keys`;
/// `None` when some name is not present at its turn.
pub open spec fn dropped(entries: Seq<(String, Column)>, keys: Seq<Seq<char>>) -> Option<
    Seq<(String, Column)>,
>
    decreases keys.len(),
{
    if keys.len() == 0 {
        Some(entries)
    } else {
        match dropped(entries, keys.drop_last()) {
            None => None,
            Some(e) => if names_of(e).contains(keys.last()) {
                Some(e.remove(position_of(e, keys.last())))
            } else {
                None
            },
        }
    }
}

pub(crate) proof fn lemma_position_unique(entries: Seq<(String, Column)>, key: Seq<char>, i: int)
    requires
        names_of(entries).no_duplicates(),
        0 <= i < entries.len(),
        entries[i].0@ == key,
    ensures
        position_of(entries, key) == i,
{
    let names = names_of(entries);
    assert(names[i] == key);
    let p = position_of(entries, key);
    assert(0 <= p < names.len() && names[p] == key);
}

proof fn lemma_remove_keeps_unique(entries: Seq<(String, Column)>, i: int)
    requires
        names_of(entries).no_duplicates(),
        0 <= i < entries.len(),
    ensures
        names_of(entries.remove(i)).no_duplicates(),
        names_of(entries.remove(i)) == names_of(entries).remove(i),
{
    assert(names_of(entries.remove(i)) =~= names_of(entries).remove(i));
}

impl Dataset {
    /// The named columns, in order.
    pub closed spec fn entries(&self) -> Seq<(String, Column)> {
        self.columns@
    }

    /// The column names, in order.
    pub open spec fn names(&self) -> Seq<Seq<char>> {
        names_of(self.entries())
    }

    /// No two columns share a name.
    pub open spec fn well_formed(&self) -> bool {
        self.names().no_duplicates()
    }

    fn inner_contains(&self, key: &str) -> (r: bool)
        ensures
            r == self.names().contains(key@),
    {
        let wanted = key.to_owned();
        let mut i: usize = 0;
        while i < self.columns.len()
            invariant
                wanted@ == key@,
                i <= self.columns@.len(),
                forall|k: int| 0 <= k < i ==> (#[trigger] self.columns@[k]).0@ != key@,
            decreases self.columns@.len() - i,
        {
            if self.columns[i].0 == wanted {
                assert(self.names()[i as int] == key@);
                return true;
            }
            i = i + 1;
        }
        assert forall|k: int| 0 <= k < self.names().len() implies #[trigger] self.names()[k] != key@ by {
            assert(self.columns@[k].0@ != key@);
        }
        false
    }

    fn inner_position(&self, key: &str) -> (r: Option<usize>)
        requires
            self.well_formed(),
        ensures
            self.names().contains(key@) ==> r == Some(position_of(self.entries(), key@) as usize),
            !self.names().contains(key@) ==> r is None,
            r matches Some(i) ==> i < self.entries().len() && self.names()[i as int] == key@,
    {
        let wanted = key.to_owned();
        let mut i: usize = 0;
        while i < self.columns.len()
            invariant
                self.well_formed(),
                wanted@ == key@,
                i <= self.columns@.len(),
                forall|k: int| 0 <= k < i ==> (#[trigger] self.columns@[k]).0@ != key@,
            decreases self.columns@.len() - i,
        {
            if self.columns[i].0 == wanted {
                proof {
                    lemma_position_unique(self.entries(), key@, i as int);
                    assert(self.names()[i as int] == key@);
                }
                return Some(i);
            }
            i = i + 1;
        }
        assert forall|k: int| 0 <= k < self.names().len() implies #[trigger] self.names()[k] != key@ by {
            assert(self.columns@[k].0@ != key@);
        }
        None
    }

    fn inner_remove(&mut self, key: &str)
        requires
            old(self).well_formed(),
        ensures
            final(self).well_formed(),
            old(self).names().contains(key@) ==> final(self).entries() == old(self).entries().remove(
                position_of(old(self).entries(), key@),
            ),
            !old(self).names().contains(key@) ==> final(self).entries() == old(self).entries(),
    {
        match self.inner_position(key) {
            Some(i) => {
                proof {
                    lemma_remove_keeps_unique(self.entries(), i as int);
                }
                self.columns.remove(i);
            },
            None => {},
        }
    }

    fn inner_get(&self, key: &str) -> (r: DatasetResult<&(String, Column)>)
        requires
            self.well_formed(),
        ensures
            self.names().contains(key@) ==> r == Ok::<&(String, Column), DatasetError>(
                &self.entries()[position_of(self.entries(), key@)],
            ),
            !self.names().contains(key@) ==> r == Err::<&(String, Column), DatasetError>(
                DatasetError::IndexInexistent,
            ),
    {
        match self.inner_position(key) {
            Some(i) => Ok(&self.columns[i]),
            None => Err(DatasetError::IndexInexistent),
        }
    }

    fn inner_get_mut(&mut self, key: &str) -> (r: DatasetResult<&mut (String, Column)>)
        requires
            old(self).well_formed(),
        ensures
            old(self).names().contains(key@) ==> (r matches Ok(e) && *e == old(self).entries()[position_of(
                old(self).entries(),
                key@,
            )] && final(self).entries() == old(self).entries().update(
                position_of(old(self).entries(), key@),
                *final(e),
            )),
            !old(self).names().contains(key@) ==> (r matches Err(err) && err
                == DatasetError::IndexInexistent && final(self).entries() == old(self).entries()),
    {
        match self.inner_position(key) {
            Some(i) => Ok(&mut self.columns[i]),
            None => Err(DatasetError::IndexInexistent),
        }
    }
}


impl Dataset {
    /// A dataset without columns.
    pub fn new() -> (r: Self)
        ensures
            r.entries() == Seq::<(String, Column)>::empty(),
            r.well_formed(),
    {
        let r = Dataset { columns: Vec::new() };
        assert(r.names() =~= Seq::<Seq<char>>::empty());
        r
    }

    /// The number of columns.
    pub fn len(&self) -> (r: usize)
        ensures
            r == self.entries().len(),
    {
        self.columns.len()
    }

    /// The dataset without the columns named in `column_names`, removed in turn;
    /// `IndexInexistent` when a name is not present at its turn.
    pub fn drop(self, column_names: &[&str]) -> (r: DatasetResult<Self>)
        requires
            self.well_formed(),
        ensures
            match dropped(self.entries(), column_names@.map_values(|s: &str| s@)) {
                Some(e) => r matches Ok(d) && d.entries() == e && d.well_formed(),
                None => r == Err::<Dataset, DatasetError>(DatasetError::IndexInexistent),
            },
    {
        let ghost keys = column_names@.map_values(|s: &str| s@);
        if column_names.len() == 0 {
            assert(keys =~= Seq::<Seq<char>>::empty());
            return Ok(self);
        }
        let mut new_ds = self;
        let mut i: usize = 0;
        while i < column_names.len()
            invariant
                keys == column_names@.map_values(|s: &str| s@),
                i <= column_names@.len(),
                new_ds.well_formed(),
                dropped(self.entries(), keys.take(i as int)) == Some(new_ds.entries()),
            decreases column_names@.len() - i,
        {
            let name = column_names[i];
            assert(keys.take(i + 1).drop_last() =~= keys.take(i as int));
            assert(keys.take(i + 1).last() == name@);
            if !new_ds.inner_contains(name) {
                proof {
                    lemma_dropped_none_extends(self.entries(), keys, i as int + 1);
                }
                return Err(DatasetError::IndexInexistent);
            }
            new_ds.inner_remove(name);
            i = i + 1;
        }
        assert(keys.take(column_names@.len() as int) =~= keys);
        Ok(new_ds)
    }

    /// Adds a column named `key`; `IndexInUse`, and no change, when the name is taken.
    pub fn add_column(&mut self, key: String, col: Column) -> (r: DatasetResult<()>)
        requires
            old(self).well_formed(),
        ensures
            final(self).well_formed(),
            old(self).names().contains(key@) ==> r == Err::<(), DatasetError>(DatasetError::IndexInUse)
                && final(self).entries() == old(self).entries(),
            !old(self).names().contains(key@) ==> r == Ok::<(), DatasetError>(())
                && final(self).entries() == old(self).entries().push((key, col)),
    {
        if self.inner_contains(key.as_str()) {
            Err(DatasetError::IndexInUse)
        } else {
            let ghost before = self.entries();
            let ghost k = key@;
            self.columns.push((key, col));
            proof {
                assert(self.names() =~= names_of(before).push(k));
                assert forall|a: int, b: int|
                    0 <= a < self.names().len() && 0 <= b < self.names().len() && a != b implies
                    self.names()[a] != self.names()[b] by {
                    if a < names_of(before).len() && b < names_of(before).len() {
                        assert(names_of(before).no_duplicates());
                    } else if a == names_of(before).len() {
                        assert(!names_of(before).contains(k));
                        assert(names_of(before)[b] == self.names()[b]);
                    } else {
                        assert(!names_of(before).contains(k));
                        assert(names_of(before)[a] == self.names()[a]);
                    }
                }
            }
            Ok(())
        }
    }

    /// The named columns, in order.
    pub fn get_columns(&self) -> (r: &Vec<(String, Column)>)
        ensures
            r@ == self.entries(),
    {
        &self.columns
    }

    /// The column named `key`; `IndexInexistent` when there is none.
    pub fn get_column(&self, key: &str) -> (r: DatasetResult<&Column>)
        requires
            self.well_formed(),
        ensures
            self.names().contains(key@) ==> r == Ok::<&Column, DatasetError>(
                &self.entries()[position_of(self.entries(), key@)].1,
            ),
            !self.names().contains(key@) ==> r == Err::<&Column, DatasetError>(
                DatasetError::IndexInexistent,
            ),
    {
        match self.inner_get(key) {
            Ok(entry) => Ok(&entry.1),
            Err(e) => Err(e),
        }
    }

    /// Mutable access to the column named `key`; `IndexInexistent` when there is none.
    pub fn get_column_mut(&mut self, key: &str) -> (r: DatasetResult<&mut Column>)
        requires
            old(self).well_formed(),
        ensures
            old(self).names().contains(key@) ==> (r matches Ok(c) && *c == old(self).entries()[position_of(
                old(self).entries(),
                key@,
            )].1 && final(self).entries() == old(self).entries().update(
                position_of(old(self).entries(), key@),
                (old(self).entries()[position_of(old(self).entries(), key@)].0, *final(c)),
            )),
            !old(self).names().contains(key@) ==> (r matches Err(err) && err
                == DatasetError::IndexInexistent && final(self).entries() == old(self).entries()),
    {
        match self.inner_get_mut(key) {
            Ok(entry) => Ok(&mut entry.1),
            Err(e) => Err(e),
        }
    }

    /// Whether every column can be read as numbers: `NoColumns` when there are no columns,
    /// `InconsistentColumns` when some column is text, `Ok` otherwise.
    pub fn check_numeric(&self) -> (r: DatasetResult<()>)
        ensures
            self.entries().len() == 0 ==> r == Err::<(), DatasetError>(DatasetError::NoColumns),
            self.entries().len() > 0 && (exists|k: int|
                0 <= k < self.entries().len() && (#[trigger] self.entries()[k]).1 is String) ==> r
                == Err::<(), DatasetError>(DatasetError::InconsistentColumns),
            self.entries().len() > 0 && !(exists|k: int|
                0 <= k < self.entries().len() && (#[trigger] self.entries()[k]).1 is String) ==> r
                == Ok::<(), DatasetError>(()),
    {
        if self.columns.len() == 0 {
            return Err(DatasetError::NoColumns);
        }
        let mut k: usize = 0;
        while k < self.columns.len()
            invariant
                k <= self.columns@.len(),
                forall|a: int| 0 <= a < k ==> !((#[trigger] self.entries()[a]).1 is String),
            decreases self.columns@.len() - k,
        {
            match &self.columns[k].1 {
                Column::String(_) => {
                    assert(self.entries()[k as int].1 is String);
                    return Err(DatasetError::InconsistentColumns);
                },
                _ => {},
            }
            k = k + 1;
        }
        Ok(())
    }

    /// The cells at position `idx` of every column, in column order.
    pub fn get_row(&self, idx: usize) -> (r: DatasetResult<Vec<Value>>)
        requires
            forall|k: int| 0 <= k < self.entries().len() ==> idx < column_len(&(#[trigger] self.entries()[k]).1),
        ensures
            r matches Ok(row) && row@.len() == self.entries().len() && forall|k: int|
                0 <= k < row@.len() ==> is_cell_of(&self.entries()[k].1, idx as int, #[trigger] row@[k]),
            r matches Ok(row) && forall|k: int|
                0 <= k < row@.len() ==> match self.entries()[k].1 {
                    Column::Int(v) => #[trigger] row@[k] == Value::Int(v@[idx as int]),
                    Column::Float(v) => row@[k] == Value::Float(v@[idx as int]),
                    Column::String(v) => row@[k] matches Value::String(x) && x@ == v@[idx as int]@,
                },
    {
        let mut row: Vec<Value> = Vec::new();
        let mut k: usize = 0;
        while k < self.columns.len()
            invariant
                k <= self.columns@.len(),
                row@.len() == k,
                forall|a: int| 0 <= a < self.entries().len() ==> idx < column_len(&(#[trigger] self.entries()[a]).1),
                forall|a: int| 0 <= a < k ==> is_cell_of(&self.entries()[a].1, idx as int, #[trigger] row@[a]),
            decreases self.columns@.len() - k,
        {
            assert(idx < column_len(&self.entries()[k as int].1));
            let cell = match &self.columns[k].1 {
                Column::Float(v) => Value::Float(v[idx]),
                Column::Int(v) => Value::Int(v[idx]),
                Column::String(v) => Value::String(v[idx].clone()),
            };
            row.push(cell);
            k = k + 1;
        }
        Ok(row)
    }
}

/// `cell` is the entry at `idx` of `col`.
pub open spec fn is_cell_of(col: &Column, idx: int, cell: Value) -> bool {
    match (col, cell) {
        (Column::Int(v), Value::Int(x)) => x == v@[idx],
        (Column::Float(v), Value::Float(x)) => x == v@[idx],
        (Column::String(v), Value::String(x)) => x@ == v@[idx]@,
        _ => false,
    }
}

/// The cell of a column at `idx` is exactly the column's entry at position `idx`, in the value of
/// the column's kind (a string cell holds the same text).
pub proof fn lemma_cell_is_entry_at(col: &Column, idx: int, cell: Value)
    ensures
        is_cell_of(col, idx, cell) == match col {
            Column::Int(v) => cell == Value::Int(v@[idx]),
            Column::Float(v) => cell == Value::Float(v@[idx]),
            Column::String(v) => cell matches Value::String(x) && x@ == v@[idx]@,
        },
{
}

proof fn lemma_dropped_none_extends(entries: Seq<(String, Column)>, keys: Seq<Seq<char>>, n: int)
    requires
        0 < n <= keys.len(),
        dropped(entries, keys.take(n)) is None,
    ensures
        dropped(entries, keys) is None,
    decreases keys.len() - n,
{
    if n < keys.len() {
        assert(keys.take(n + 1).drop_last() =~= keys.take(n));
        lemma_dropped_none_extends(entries, keys, n + 1);
    } else {
        assert(keys.take(n) =~= keys);
    }
}


/// A column that was added can be found again under its name, unchanged.
pub proof fn lemma_added_column_is_found(before: Dataset, after: Dataset, key: String, col: Column)
    requires
        before.well_formed(),
        after.well_formed(),
        !before.names().contains(key@),
        after.entries() == before.entries().push((key, col)),
    ensures
        after.names().contains(key@),
        after.entries()[position_of(after.entries(), key@)].1 == col,
{
    let i = before.entries().len() as int;
    assert(after.entries()[i].0@ == key@);
    assert(after.names()[i] == key@);
    lemma_position_unique(after.entries(), key@, i);
}

proof fn lemma_remove_membership(s: Seq<Seq<char>>, p: int, x: Seq<char>)
    requires
        0 <= p < s.len(),
        s.no_duplicates(),
    ensures
        s.remove(p).contains(x) <==> (s.contains(x) && x != s[p]),
{
    let r = s.remove(p);
    if r.contains(x) {
        let v = choose|v: int| 0 <= v < r.len() && r[v] == x;
        if v < p {
            assert(s[v] == x);
        } else {
            assert(s[v + 1] == x);
        }
    }
    if s.contains(x) && x != s[p] {
        let v = choose|v: int| 0 <= v < s.len() && s[v] == x;
        if v < p {
            assert(r[v] == x);
        } else {
            assert(r[v - 1] == x);
        }
    }
}

/// After a successful drop none of the dropped names is left, and every other column is
/// still there.
pub proof fn lemma_drop_removes_exactly(
    entries: Seq<(String, Column)>,
    keys: Seq<Seq<char>>,
    result: Seq<(String, Column)>,
)
    requires
        names_of(entries).no_duplicates(),
        dropped(entries, keys) == Some(result),
    ensures
        names_of(result).no_duplicates(),
        forall|n: Seq<char>|
            #[trigger] names_of(result).contains(n) <==> (names_of(entries).contains(n) && !keys.contains(n)),
    decreases keys.len(),
{
    if keys.len() == 0 {
    } else {
        let prev = dropped(entries, keys.drop_last()).unwrap();
        lemma_drop_removes_exactly(entries, keys.drop_last(), prev);
        let last = keys.last();
        let p = position_of(prev, last);
        lemma_remove_keeps_unique(prev, p);
        let np = names_of(prev);
        assert(np.contains(last));
        assert(0 <= p < np.len() && np[p] == last);
        assert forall|n: Seq<char>|
            #[trigger] names_of(result).contains(n) <==> (names_of(entries).contains(n) && !keys.contains(n)) by {
            lemma_remove_membership(np, p, n);
            assert(names_of(result) == np.remove(p));
            assert(keys.contains(n) <==> (keys.drop_last().contains(n) || n == last)) by {
                if keys.contains(n) {
                    let w = choose|w: int| 0 <= w < keys.len() && keys[w] == n;
                    if w < keys.len() - 1 {
                        assert(keys.drop_last()[w] == n);
                    }
                }
                if keys.drop_last().contains(n) {
                    let w = choose|w: int| 0 <= w < keys.drop_last().len() && keys.drop_last()[w] == n;
                    assert(keys[w] == n);
                }
                if n == last {
                    assert(keys[keys.len() - 1] == n);
                }
            }
        }
    }
}

/// The rows of a table given by its columns: entry `j` of row `i` is entry `i` of column `j`.
/// There are as many rows as the first column has entries.
pub fn columns_to_rows<T: Copy>(columns: &Vec<Vec<T>>) -> (r: Vec<Vec<T>>)
    requires
        columns@.len() > 0,
        forall|j: int| 0 <= j < columns@.len() ==> (#[trigger] columns@[j])@.len() >= columns@[0]@.len(),
    ensures
        r@.len() == columns@[0]@.len(),
        forall|i: int| 0 <= i < r@.len() ==> (#[trigger] r@[i])@.len() == columns@.len(),
        forall|i: int, j: int|
            0 <= i < r@.len() && 0 <= j < columns@.len() ==> #[trigger] r@[i]@[j] == columns@[j]@[i],
{
    let n_rows = columns[0].len();
    let mut rows: Vec<Vec<T>> = Vec::new();
    let mut i: usize = 0;
    while i < n_rows
        invariant
            n_rows == columns@[0]@.len(),
            columns@.len() > 0,
            forall|j: int| 0 <= j < columns@.len() ==> (#[trigger] columns@[j])@.len() >= columns@[0]@.len(),
            i <= n_rows,
            rows@.len() == i,
            forall|a: int| 0 <= a < i ==> (#[trigger] rows@[a])@.len() == columns@.len(),
            forall|a: int, j: int|
                0 <= a < i && 0 <= j < columns@.len() ==> #[trigger] rows@[a]@[j] == columns@[j]@[a],
        decreases n_rows - i,
    {
        let mut row: Vec<T> = Vec::new();
        let mut j: usize = 0;
        while j < columns.len()
            invariant
                i < n_rows,
                n_rows == columns@[0]@.len(),
                forall|c: int| 0 <= c < columns@.len() ==> (#[trigger] columns@[c])@.len() >= columns@[0]@.len(),
                j <= columns@.len(),
                row@.len() == j,
                forall|c: int| 0 <= c < j ==> #[trigger] row@[c] == columns@[c]@[i as int],
            decreases columns@.len() - j,
        {
            assert(columns@[j as int]@.len() >= n_rows);
            row.push(columns[j][i]);
            j = j + 1;
        }
        rows.push(row);
        i = i + 1;
    }
    rows
}

/// Every entry of `s` is present.
pub open spec fn all_some<A>(s: Seq<Option<A>>) -> bool {
    forall|k: int| 0 <= k < s.len() ==> (#[trigger] s[k]) is Some
}

/// `c` is the column that the text cells `cells` make, given what each cell reads as an integer
/// (`as_int`) and as a binary64 bit pattern (`as_float`): integers when every cell is one, else
/// floating-point values when every cell is one, else the text itself.
pub open spec fn inferred_column(
    cells: Seq<String>,
    as_int: Seq<Option<i64>>,
    as_float: Seq<Option<u64>>,
    c: Column,
) -> bool {
    if all_some(as_int) {
        c matches Column::Int(v) && v@.len() == cells.len() && forall|k: int|
            0 <= k < cells.len() ==> Some(#[trigger] v@[k]) == as_int[k]
    } else if all_some(as_float) {
        c matches Column::Float(v) && v@.len() == cells.len() && forall|k: int|
            0 <= k < cells.len() ==> Some(#[trigger] v@[k]) == as_float[k]
    } else {
        c matches Column::String(v) && v@ == cells
    }
}

/// The column that text cells make, given what each cell parses to as an integer and as a
/// binary64 bit pattern: integers when every cell is one, else floating-point values when every
/// cell is one, else the text itself.
pub fn infer_column(cells: Vec<String>, as_int: &Vec<Option<i64>>, as_float: &Vec<Option<u64>>) -> (r: Column)
    requires
        as_int@.len() == cells@.len(),
        as_float@.len() == cells@.len(),
    ensures
        (forall|k: int| 0 <= k < cells@.len() ==> (#[trigger] as_int@[k]) is Some) ==> (r matches Column::Int(v)
            && v@.len() == cells@.len() && forall|k: int| 0 <= k < cells@.len() ==> Some(#[trigger] v@[k]) == as_int@[k]),
        !(forall|k: int| 0 <= k < cells@.len() ==> (#[trigger] as_int@[k]) is Some) && (forall|k: int|
            0 <= k < cells@.len() ==> (#[trigger] as_float@[k]) is Some) ==> (r matches Column::Float(v)
            && v@.len() == cells@.len() && forall|k: int| 0 <= k < cells@.len() ==> Some(#[trigger] v@[k]) == as_float@[k]),
        !(forall|k: int| 0 <= k < cells@.len() ==> (#[trigger] as_int@[k]) is Some) && !(forall|k: int|
            0 <= k < cells@.len() ==> (#[trigger] as_float@[k]) is Some) ==> r == Column::String(cells),
        inferred_column(cells@, as_int@, as_float@, r),
{
    let n = cells.len();
    let mut ints: Vec<i64> = Vec::new();
    let mut k: usize = 0;
    while k < n && as_int[k].is_some()
        invariant
            n == cells@.len(),
            as_int@.len() == n,
            k <= n,
            ints@.len() == k,
            forall|a: int| 0 <= a < k ==> Some(#[trigger] ints@[a]) == as_int@[a],
        decreases n - k,
    {
        ints.push(as_int[k].unwrap());
        k = k + 1;
    }
    if k == n {
        assert forall|a: int| 0 <= a < n implies (#[trigger] as_int@[a]) is Some by {
            assert(Some(ints@[a]) == as_int@[a]);
        }
        return Column::Int(ints);
    }
    assert(as_int@[k as int] is None);
    let mut floats: Vec<u64> = Vec::new();
    let mut k: usize = 0;
    while k < n && as_float[k].is_some()
        invariant
            n == cells@.len(),
            as_float@.len() == n,
            k <= n,
            floats@.len() == k,
            forall|a: int| 0 <= a < k ==> Some(#[trigger] floats@[a]) == as_float@[a],
        decreases n - k,
    {
        floats.push(as_float[k].unwrap());
        k = k + 1;
    }
    if k == n {
        assert forall|a: int| 0 <= a < n implies (#[trigger] as_float@[a]) is Some by {
            assert(Some(floats@[a]) == as_float@[a]);
        }
        return Column::Float(floats);
    }
    assert(as_float@[k as int] is None);
    Column::String(cells)
}

} // verus!
