use vstd::prelude::*;

use crate::stats::dataset::{infer_column, inferred_column, Dataset, DatasetError, DatasetResult};

verus! {

/// The texts of a sequence of strings.
pub open spec fn texts(v: Seq<String>) -> Seq<Seq<char>> {
    v.map_values(|s: String| s@)
}

/// The header and the records that the `csv` crate's default reader reads from `text`, each field
/// as its text; `None` when the reader reports an error.
pub uninterp spec fn csv_table(text: Seq<char>) -> Option<(Seq<Seq<char>>, Seq<Seq<Seq<char>>>)>;

/// Reads CSV text with the `csv` crate's default reader (`csv::Reader::from_reader`): the first
/// record is the header, and records are collected until the end or the first error. The contract
/// claims that the result is the reader's reading of the text (named `csv_table`), and that every
/// record has as many fields as the header, which the reader's default, non-flexible mode checks
/// (it reports `UnequalLengths` otherwise).
#[verifier::external_body]
fn read_csv_table(text: &str) -> (r: Option<(Vec<String>, Vec<Vec<String>>)>)
    ensures
        r matches Some((h, rows)) ==> csv_table(text@) == Some(
            (texts(h@), rows@.map_values(|row: Vec<String>| texts(row@))),
        ) && forall|i: int| 0 <= i < rows@.len() ==> (#[trigger] rows@[i])@.len() == h@.len(),
        r is None ==> csv_table(text@) is None,
{
    let mut reader = csv::Reader::from_reader(text.as_bytes());
    let headers: Vec<String> = reader.headers().ok()?.iter().map(|s| s.to_string()).collect();
    let records: Result<Vec<Vec<String>>, csv::Error> = reader
        .records()
        .map(|rec| rec.map(|fields| fields.iter().map(|f| f.to_string()).collect()))
        .collect();
    Some((headers, records.ok()?))
}

/// The header and the columns of CSV text: column `i` holds field `i` of every record, in record
/// order; `CSVError` when the text is not valid CSV.
pub fn read_csv_columns(data: &str) -> (r: DatasetResult<(Vec<String>, Vec<Vec<String>>)>)
    ensures
        match csv_table(data@) {
            None => r == Err::<(Vec<String>, Vec<Vec<String>>), DatasetError>(DatasetError::CSVError),
            Some((header, records)) => r matches Ok((h, cols)) && texts(h@) == header
                && cols@.len() == header.len() && forall|i: int|
                0 <= i < cols@.len() ==> (#[trigger] cols@[i])@.len() == records.len() && forall|j: int|
                    0 <= j < records.len() ==> (#[trigger] cols@[i]@[j])@ == records[j][i],
        },
{
    let (headers, rows) = match read_csv_table(data) {
        Some(t) => t,
        None => return Err(DatasetError::CSVError),
    };
    let ghost records = rows@.map_values(|row: Vec<String>| texts(row@));
    let n_cols = headers.len();
    let n_rows = rows.len();
    let mut columns: Vec<Vec<String>> = Vec::new();
    let mut i: usize = 0;
    while i < n_cols
        invariant
            n_cols == headers@.len(),
            n_rows == rows@.len(),
            records == rows@.map_values(|row: Vec<String>| texts(row@)),
            forall|k: int| 0 <= k < rows@.len() ==> (#[trigger] rows@[k])@.len() == headers@.len(),
            i <= n_cols,
            columns@.len() == i,
            forall|c: int|
                0 <= c < i ==> (#[trigger] columns@[c])@.len() == n_rows && forall|j: int|
                    0 <= j < n_rows ==> (#[trigger] columns@[c]@[j])@ == records[j][c],
        decreases n_cols - i,
    {
        let mut column: Vec<String> = Vec::new();
        let mut j: usize = 0;
        while j < n_rows
            invariant
                i < n_cols,
                n_cols == headers@.len(),
                n_rows == rows@.len(),
                records == rows@.map_values(|row: Vec<String>| texts(row@)),
                forall|k: int| 0 <= k < rows@.len() ==> (#[trigger] rows@[k])@.len() == headers@.len(),
                j <= n_rows,
                column@.len() == j,
                forall|a: int| 0 <= a < j ==> (#[trigger] column@[a])@ == records[a][i as int],
            decreases n_rows - j,
        {
            assert(rows@[j as int]@.len() == n_cols);
            column.push(rows[j][i].clone());
            j = j + 1;
        }
        columns.push(column);
        i = i + 1;
    }
    Ok((headers, columns))
}

/// `c` is an ASCII decimal digit.
pub open spec fn is_decimal_digit(c: char) -> bool {
    48 <= (c as u32) <= 57
}

/// The number that a non-empty string of ASCII decimal digits denotes.
pub open spec fn decimal_value(s: Seq<char>) -> int
    decreases s.len(),
{
    if s.len() == 0 {
        0
    } else {
        decimal_value(s.drop_last()) * 10 + ((s.last() as u32) - 48)
    }
}

/// The integer that `s` writes in Rust's text form for integers: an optional `+` or `-`, then
/// one or more ASCII decimal digits and nothing else; `None` for any other text.
pub open spec fn integer_text_value(s: Seq<char>) -> Option<int> {
    let negative = s.len() > 0 && s[0] == '-';
    let body = if s.len() > 0 && (s[0] == '-' || s[0] == '+') {
        s.skip(1)
    } else {
        s
    };
    if body.len() > 0 && forall|i: int| 0 <= i < body.len() ==> is_decimal_digit(#[trigger] body[i]) {
        Some(
            if negative {
                -decimal_value(body)
            } else {
                decimal_value(body)
            },
        )
    } else {
        None
    }
}

/// What `s` reads as an `i64`: the integer it writes when that is within `i64`'s range, else
/// `None`.
pub open spec fn i64_reading(s: Seq<char>) -> Option<i64> {
    match integer_text_value(s) {
        Some(v) => if i64::MIN <= v <= i64::MAX {
            Some(v as i64)
        } else {
            None
        },
        None => None,
    }
}

/// What each cell reads as an `i64`.
pub open spec fn i64_readings(cells: Seq<String>) -> Seq<Option<i64>> {
    cells.map_values(|c: String| i64_reading(c@))
}

/// Calls `<i64 as FromStr>::from_str` (through `str::parse`). Its documentation (that of
/// `i64::from_str_radix` with radix 10) says it accepts an optional `+` or `-` sign followed by
/// only ASCII digits, and reports an error for anything else, including an empty string, a lone
/// sign, other characters and a value out of `i64`'s range; the contract claims exactly that.
#[verifier::external_body]
pub(crate) fn parse_i64(s: &str) -> (r: Option<i64>)
    ensures
        r == i64_reading(s@),
{
    s.parse::<i64>().ok()
}

/// The dataset that named text columns make: column `i` is named `headers[i]`, and its type is
/// chosen from what its cells read as integers and as the binary64 bit patterns `as_float[i]`
/// (integers when every cell is one, else floating-point values when every cell is one, else
/// text); `IndexInUse` when two headers are the same.
pub fn dataset_from_columns(
    headers: Vec<String>,
    columns: Vec<Vec<String>>,
    as_float: &Vec<Vec<Option<u64>>>,
) -> (r: DatasetResult<Dataset>)
    requires
        columns@.len() == headers@.len(),
        as_float@.len() == columns@.len(),
        forall|i: int| 0 <= i < columns@.len() ==> (#[trigger] as_float@[i])@.len() == columns@[i]@.len(),
    ensures
        !texts(headers@).no_duplicates() ==> r == Err::<Dataset, DatasetError>(DatasetError::IndexInUse),
        texts(headers@).no_duplicates() ==> (r matches Ok(ds) && ds.well_formed() && ds.entries().len()
            == headers@.len() && forall|i: int|
            0 <= i < headers@.len() ==> (#[trigger] ds.entries()[i]).0@ == headers@[i]@ && inferred_column(
                columns@[i]@,
                i64_readings(columns@[i]@),
                as_float@[i]@,
                ds.entries()[i].1,
            )),
{
    let ghost cols0 = columns@;
    let ghost names = texts(headers@);
    let mut columns = columns;
    let mut ds = Dataset::new();
    let n = headers.len();
    let mut i: usize = 0;
    while i < n
        invariant
            n == headers@.len(),
            names == texts(headers@),
            cols0.len() == n,
            as_float@.len() == n,
            forall|a: int| 0 <= a < n ==> (#[trigger] as_float@[a])@.len() == cols0[a]@.len(),
            i <= n,
            columns@ == cols0.skip(i as int),
            ds.well_formed(),
            ds.entries().len() == i,
            ds.names() == names.take(i as int),
            forall|a: int|
                0 <= a < i ==> (#[trigger] ds.entries()[a]).0@ == headers@[a]@ && inferred_column(
                    cols0[a]@,
                    i64_readings(cols0[a]@),
                    as_float@[a]@,
                    ds.entries()[a].1,
                ),
        decreases n - i,
    {
        assert(columns@[0] == cols0[i as int]);
        let cells = columns.remove(0);
        assert(columns@ =~= cols0.skip(i + 1));
        let mut as_int: Vec<Option<i64>> = Vec::new();
        let mut k: usize = 0;
        while k < cells.len()
            invariant
                k <= cells@.len(),
                as_int@ == i64_readings(cells@).take(k as int),
            decreases cells@.len() - k,
        {
            let reading = parse_i64(cells[k].as_str());
            as_int.push(reading);
            k = k + 1;
            assert(as_int@ =~= i64_readings(cells@).take(k as int));
        }
        assert(as_int@ =~= i64_readings(cells@));
        let col = infer_column(cells, &as_int, &as_float[i]);
        let name = headers[i].clone();
        let ghost before = ds.entries();
        match ds.add_column(name, col) {
            Ok(_) => {},
            Err(e) => {
                proof {
                    let w = choose|w: int| 0 <= w < i && names.take(i as int)[w] == names[i as int];
                    assert(names[w] == names[i as int]);
                }
                return Err(e);
            },
        }
        proof {
            assert(ds.entries()[i as int].0@ == headers@[i as int]@);
            assert(ds.names() =~= names.take(i + 1)) by {
                assert(ds.names()[i as int] == names[i as int]);
            }
            assert forall|a: int| 0 <= a < i + 1 implies (#[trigger] ds.entries()[a]).0@ == headers@[a]@
                && inferred_column(cols0[a]@, i64_readings(cols0[a]@), as_float@[a]@, ds.entries()[a].1) by {
                if a < i {
                    assert(ds.entries()[a] == before[a]);
                }
            }
        }
        i = i + 1;
    }
    assert(names.take(n as int) =~= names);
    Ok(ds)
}

} // verus!
