use vstd::prelude::*;
use crate::error::LoadError;
use crate::value::{RawValue, StoreValue, convert_value, convertible, native, nested_text};

verus! {

/// One named column of a row.
#[derive(Debug, Clone, PartialEq, Eq)]
pub struct Column {
    pub name: String,
    pub value: RawValue,
}

/// One record of the source file: its columns in file order.
#[derive(Debug, Clone, PartialEq, Eq)]
pub struct Row {
    pub columns: Vec<Column>,
}

/// One entry of the property map a write carries.
#[derive(Debug, Clone, PartialEq, Eq)]
pub struct Property {
    pub key: String,
    pub value: StoreValue,
}

/// What a relationship write needs from one row: the converted values of the
/// two identifier columns and the properties of all other columns.
#[derive(Debug, Clone, PartialEq, Eq)]
pub struct RelationshipWrite {
    pub start: StoreValue,
    pub end: StoreValue,
    pub properties: Vec<Property>,
}

/// The character sequences of a list of names.
pub open spec fn names(v: Seq<String>) -> Seq<Seq<char>> {
    v.map_values(|s: String| s@)
}

/// Every column of `cols` holds a convertible value.
pub open spec fn all_convertible(cols: Seq<Column>) -> bool {
    forall|i: int| 0 <= i < cols.len() ==> convertible(#[trigger] cols[i].value)
}

/// `e` is the conversion error of the first column of `cols` whose value has no
/// native representation.
pub open spec fn first_conversion_error(cols: Seq<Column>, e: LoadError) -> bool {
    exists|k: int|
        0 <= k < cols.len() && !convertible(#[trigger] cols[k].value) && (forall|i: int|
            0 <= i < k ==> convertible(#[trigger] cols[i].value)) && (e matches LoadError::Conversion(
            c,
            d,
        ) && c@ == cols[k].name@ && Some(d@) == nested_text(cols[k].value))
}

/// The properties made from the first `n` columns: each column whose name is
/// not excluded, in column order, keyed by its name.
pub open spec fn kept(cols: Seq<Column>, excluded: Seq<Seq<char>>, n: nat) -> Seq<Property>
    decreases n,
{
    if n == 0 || n > cols.len() {
        Seq::empty()
    } else {
        let prev = kept(cols, excluded, (n - 1) as nat);
        let c = cols[n - 1];
        if excluded.contains(c.name@) {
            prev
        } else {
            prev.push(Property { key: c.name, value: native(c.value) })
        }
    }
}

/// The position of the first column at or after `i` named `name`, or the
/// number of columns where there is none.
pub open spec fn first_named(cols: Seq<Column>, name: Seq<char>, i: int) -> int
    decreases cols.len() - i,
{
    if i < 0 || i >= cols.len() {
        cols.len() as int
    } else if cols[i].name@ == name {
        i
    } else {
        first_named(cols, name, i + 1)
    }
}

/// The position of the column named `name` in `cols`, or `cols.len()`.
pub open spec fn column_pos(cols: Seq<Column>, name: Seq<char>) -> int {
    first_named(cols, name, 0)
}

/// Whether `name` is one of `excluded`.
fn name_in(excluded: &Vec<String>, name: &String) -> (r: bool)
    ensures
        r == names(excluded@).contains(name@),
{
    let mut j: usize = 0;
    while j < excluded.len()
        invariant
            j <= excluded.len(),
            forall|k: int| 0 <= k < j ==> excluded@[k]@ != name@,
        decreases excluded.len() - j,
    {
        if excluded[j].eq(name) {
            assert(names(excluded@)[j as int] == name@);
            return true;
        }
        j += 1;
    }
    proof {
        if names(excluded@).contains(name@) {
            let k = choose|k: int| 0 <= k < names(excluded@).len() && names(excluded@)[k] == name@;
            assert(excluded@[k]@ == name@);
        }
    }
    false
}

/// The position of the first column of `row` named `name`.
pub fn find_column(row: &Row, name: &String) -> (r: Option<usize>)
    ensures
        r is Some <==> column_pos(row.columns@, name@) < row.columns@.len(),
        r matches Some(i) ==> i == column_pos(row.columns@, name@),
{
    let mut i: usize = 0;
    while i < row.columns.len()
        invariant
            i <= row.columns@.len(),
            column_pos(row.columns@, name@) == first_named(row.columns@, name@, i as int),
        decreases row.columns.len() - i,
    {
        if row.columns[i].name.eq(name) {
            return Some(i);
        }
        i += 1;
    }
    None
}

/// Builds the property map of a row: every column whose name is not in
/// `excluded`, converted to the store's encoding, in column order. The first
/// column (in order) that cannot be converted fails the whole row.
pub fn properties(row: &Row, excluded: &Vec<String>) -> (r: Result<Vec<Property>, LoadError>)
    ensures
        all_convertible(row.columns@) ==> (r matches Ok(p) && p@ == kept(
            row.columns@,
            names(excluded@),
            row.columns@.len(),
        )),
        !all_convertible(row.columns@) ==> (r matches Err(e) && first_conversion_error(
            row.columns@,
            e,
        )),
{
    let ghost cols = row.columns@;
    let mut out: Vec<Property> = Vec::new();
    let mut i: usize = 0;
    while i < row.columns.len()
        invariant
            cols == row.columns@,
            i <= cols.len(),
            forall|k: int| 0 <= k < i ==> convertible(#[trigger] cols[k].value),
            out@ == kept(cols, names(excluded@), i as nat),
        decreases row.columns.len() - i,
    {
        let c = &row.columns[i];
        match convert_value(&c.name, &c.value) {
            Ok(v) => {
                if !name_in(excluded, &c.name) {
                    out.push(Property { key: c.name.clone(), value: v });
                }
            },
            Err(e) => {
                assert(first_conversion_error(cols, e)) by {
                    assert(!convertible(cols[i as int].value));
                };
                return Err(e);
            },
        }
        i += 1;
    }
    Ok(out)
}

/// Splits a relationship row: the converted values of the columns named
/// `start_col` and `end_col`, and the properties of every other column.
/// Conversion is checked over all columns first; then a missing start column,
/// then a missing end column, is reported by name.
pub fn relationship_parts(row: &Row, start_col: &str, end_col: &str) -> (r: Result<
    RelationshipWrite,
    LoadError,
>)
    ensures
        ({
            let cols = row.columns@;
            let si = column_pos(cols, start_col@);
            let ei = column_pos(cols, end_col@);
            &&& !all_convertible(cols) ==> (r matches Err(e) && first_conversion_error(cols, e))
            &&& all_convertible(cols) && si == cols.len() ==> (r matches Err(
                LoadError::MissingColumn(c),
            ) && c@ == start_col@)
            &&& all_convertible(cols) && si < cols.len() && ei == cols.len() ==> (r matches Err(
                LoadError::MissingColumn(c),
            ) && c@ == end_col@)
            &&& all_convertible(cols) && si < cols.len() && ei < cols.len() ==> (r matches Ok(w)
                && w.start == native(cols[si].value) && w.end == native(cols[ei].value)
                && w.properties@ == kept(cols, seq![start_col@, end_col@], cols.len()))
        }),
{
    let start = start_col.to_owned();
    let end = end_col.to_owned();
    let mut excluded: Vec<String> = Vec::new();
    excluded.push(start.clone());
    excluded.push(end.clone());
    assert(names(excluded@) =~= seq![start_col@, end_col@]);
    let props = match properties(row, &excluded) {
        Ok(p) => p,
        Err(e) => return Err(e),
    };
    let si = match find_column(row, &start) {
        Some(i) => i,
        None => return Err(LoadError::MissingColumn(start)),
    };
    let ei = match find_column(row, &end) {
        Some(i) => i,
        None => return Err(LoadError::MissingColumn(end)),
    };
    let sc = &row.columns[si];
    let ec = &row.columns[ei];
    let sv = match convert_value(&sc.name, &sc.value) {
        Ok(v) => v,
        Err(e) => return Err(e),
    };
    let ev = match convert_value(&ec.name, &ec.value) {
        Ok(v) => v,
        Err(e) => return Err(e),
    };
    Ok(RelationshipWrite { start: sv, end: ev, properties: props })
}

} // verus!
