//! Column accessors: coercing a column to a sequence of strings or numbers,
//! and discovering a group column's distinct categories in first-occurrence
//! order.

use vstd::prelude::*;

use crate::error::Error;
use crate::num::Num;
use crate::table::{Column, ColumnData, Table};
use crate::text::str_eq;

verus! {

/// True when no cell is missing.
pub open spec fn all_present<T>(cells: Seq<Option<T>>) -> bool {
    forall|i: int| 0 <= i < cells.len() ==> cells[i] is Some
}

/// The present cell values, in row order.
pub open spec fn present_values<T>(cells: Seq<Option<T>>) -> Seq<T>
    decreases cells.len(),
{
    if cells.len() == 0 {
        Seq::empty()
    } else {
        match cells.last() {
            Some(v) => present_values(cells.drop_last()).push(v),
            None => present_values(cells.drop_last()),
        }
    }
}

/// The character sequences of a sequence of strings.
pub open spec fn views(vals: Seq<String>) -> Seq<Seq<char>> {
    vals.map_values(|s: String| s@)
}

/// The character sequences of fully-present string cells.
pub open spec fn cell_views(cells: Seq<Option<String>>) -> Seq<Seq<char>> {
    Seq::new(cells.len(), |i: int| cells[i]->0@)
}

/// The distinct values of `vals` in first-occurrence order: a value is kept
/// at the position of its leftmost occurrence and later occurrences are
/// dropped.
pub open spec fn distinct_stable(vals: Seq<Seq<char>>) -> Seq<Seq<char>>
    decreases vals.len(),
{
    if vals.len() == 0 {
        Seq::empty()
    } else {
        let prefix = distinct_stable(vals.drop_last());
        if prefix.contains(vals.last()) {
            prefix
        } else {
            prefix.push(vals.last())
        }
    }
}

/// The distinct values hold no duplicates and are exactly the values that
/// occur.
pub proof fn lemma_distinct_stable_props(vals: Seq<Seq<char>>)
    ensures
        distinct_stable(vals).no_duplicates(),
        forall|x: Seq<char>| distinct_stable(vals).contains(x) <==> vals.contains(x),
    decreases vals.len(),
{
    if vals.len() == 0 {
    } else {
        let prefix = distinct_stable(vals.drop_last());
        lemma_distinct_stable_props(vals.drop_last());
        assert forall|x: Seq<char>| vals.contains(x) implies distinct_stable(vals).contains(
            x,
        ) by {
            let i = choose|i: int| 0 <= i < vals.len() && vals[i] == x;
            if i < vals.len() - 1 {
                assert(vals.drop_last()[i] == x);
                assert(vals.drop_last().contains(x));
                if !prefix.contains(vals.last()) {
                    let j = choose|j: int| 0 <= j < prefix.len() && prefix[j] == x;
                    assert(prefix.push(vals.last())[j] == x);
                }
            } else {
                if prefix.contains(vals.last()) {
                } else {
                    assert(prefix.push(vals.last()).last() == x);
                }
            }
        }
        assert forall|x: Seq<char>| distinct_stable(vals).contains(x) implies vals.contains(
            x,
        ) by {
            let j = choose|j: int| 0 <= j < distinct_stable(vals).len() && distinct_stable(
                vals,
            )[j] == x;
            if !prefix.contains(vals.last()) && j == prefix.len() {
                assert(vals.last() == x);
            } else {
                assert(prefix[j] == x);
                assert(vals.drop_last().contains(x));
                let i = choose|i: int| 0 <= i < vals.drop_last().len() && vals.drop_last()[i]
                    == x;
                assert(vals[i] == x);
            }
        }
        if !prefix.contains(vals.last()) {
            assert forall|i: int, j: int|
                0 <= i < distinct_stable(vals).len() && 0 <= j < distinct_stable(vals).len() && i
                    != j implies distinct_stable(vals)[i] != distinct_stable(vals)[j] by {
                if i < prefix.len() && j < prefix.len() {
                } else if i == prefix.len() {
                    assert(distinct_stable(vals)[j] == prefix[j]);
                    assert(!prefix.contains(vals.last()));
                    if prefix[j] == vals.last() {
                        assert(prefix.contains(vals.last()));
                    }
                } else if j == prefix.len() {
                    assert(distinct_stable(vals)[i] == prefix[i]);
                    if prefix[i] == vals.last() {
                        assert(prefix.contains(vals.last()));
                    }
                }
            }
        }
    }
}

/// True when `name` names a numeric column of `df`.
pub open spec fn num_col_ok(df: Table, name: Seq<char>) -> bool {
    df.col_idx(name) matches Some(ci) && df.columns@[ci].data is Nums
}

/// The error reported for a column that cannot serve as a numeric series:
/// absent, or a string column.
pub open spec fn num_col_err(df: Table, name: Seq<char>, e: Error) -> bool {
    match df.col_idx(name) {
        None => e matches Error::ColumnNotFound(s) && s@ == name,
        Some(ci) => df.columns@[ci].data is Strs && (e matches Error::NotNumericColumn(s) && s@
            == df.columns@[ci].name@),
    }
}

/// Coerces a column to its string values; fails exactly when the column is
/// not a string column or some cell is missing.
#[verifier::loop_isolation(false)]
pub fn cont_str_values(column: &Column) -> (r: Result<Vec<String>, Error>)
    ensures
        match r {
            Ok(v) => column.data matches ColumnData::Strs(cells) && all_present(cells@)
                && v@.len() == cells@.len() && forall|i: int|
                0 <= i < v@.len() ==> v@[i] == cells@[i]->0,
            Err(e) => match column.data {
                ColumnData::Strs(cells) => !all_present(cells@) && (e
                    matches Error::MissingValue(s) && s@ == column.name@),
                ColumnData::Nums(_) => e matches Error::NotStringColumn(s) && s@
                    == column.name@,
            },
        },
{
    match &column.data {
        ColumnData::Strs(cells) => {
            let n = cells.len();
            let mut out: Vec<String> = Vec::new();
            let mut i: usize = 0;
            while i < n
                invariant
                    n == cells@.len(),
                    0 <= i <= n,
                    out@.len() == i,
                    forall|j: int| 0 <= j < i ==> cells@[j] is Some,
                    forall|j: int| 0 <= j < i ==> out@[j] == cells@[j]->0,
                decreases n - i,
            {
                match &cells[i] {
                    Some(s) => {
                        out.push(s.clone());
                    },
                    None => {
                        proof {
                            assert(cells@[i as int] is None);
                            assert(!all_present(cells@));
                        }
                        return Err(Error::MissingValue(column.name.clone()));
                    },
                }
                i += 1;
            }
            Ok(out)
        },
        ColumnData::Nums(_) => Err(Error::NotStringColumn(column.name.clone())),
    }
}

/// Coerces a column to its present string values, skipping missing cells;
/// fails exactly when the column is not a string column.
pub fn filter_str_values(column: &Column) -> (r: Result<Vec<String>, Error>)
    ensures
        match r {
            Ok(v) => column.data matches ColumnData::Strs(cells) && v@ == present_values(
                cells@,
            ),
            Err(e) => column.data is Nums && (e matches Error::NotStringColumn(s) && s@
                == column.name@),
        },
{
    match &column.data {
        ColumnData::Strs(cells) => {
            let n = cells.len();
            let mut out: Vec<String> = Vec::new();
            let mut i: usize = 0;
            while i < n
                invariant
                    n == cells@.len(),
                    0 <= i <= n,
                    out@ == present_values(cells@.take(i as int)),
                decreases n - i,
            {
                proof {
                    lemma_present_values_step(cells@, i as int);
                }
                match &cells[i] {
                    Some(s) => {
                        out.push(s.clone());
                    },
                    None => {},
                }
                i += 1;
            }
            proof {
                assert(cells@.take(n as int) =~= cells@);
            }
            Ok(out)
        },
        ColumnData::Nums(_) => Err(Error::NotStringColumn(column.name.clone())),
    }
}

/// Coerces a column to its numeric values; fails exactly when the column is
/// not numeric or some cell is missing.
#[verifier::loop_isolation(false)]
pub fn cont_num_values(column: &Column) -> (r: Result<Vec<Num>, Error>)
    ensures
        match r {
            Ok(v) => column.data matches ColumnData::Nums(cells) && all_present(cells@)
                && v@.len() == cells@.len() && forall|i: int|
                0 <= i < v@.len() ==> v@[i] == cells@[i]->0,
            Err(e) => match column.data {
                ColumnData::Nums(cells) => !all_present(cells@) && (e
                    matches Error::MissingValue(s) && s@ == column.name@),
                ColumnData::Strs(_) => e matches Error::NotNumericColumn(s) && s@
                    == column.name@,
            },
        },
{
    match &column.data {
        ColumnData::Nums(cells) => {
            let n = cells.len();
            let mut out: Vec<Num> = Vec::new();
            let mut i: usize = 0;
            while i < n
                invariant
                    n == cells@.len(),
                    0 <= i <= n,
                    out@.len() == i,
                    forall|j: int| 0 <= j < i ==> cells@[j] is Some,
                    forall|j: int| 0 <= j < i ==> out@[j] == cells@[j]->0,
                decreases n - i,
            {
                match cells[i] {
                    Some(v) => {
                        out.push(v);
                    },
                    None => {
                        proof {
                            assert(cells@[i as int] is None);
                            assert(!all_present(cells@));
                        }
                        return Err(Error::MissingValue(column.name.clone()));
                    },
                }
                i += 1;
            }
            Ok(out)
        },
        ColumnData::Strs(_) => Err(Error::NotNumericColumn(column.name.clone())),
    }
}

/// Coerces a column to its numeric cells, keeping missing cells as such;
/// fails exactly when the column is not numeric.
pub fn opt_num_values(column: &Column) -> (r: Result<Vec<Option<Num>>, Error>)
    ensures
        match r {
            Ok(v) => column.data matches ColumnData::Nums(cells) && v@ == cells@,
            Err(e) => column.data is Strs && (e matches Error::NotNumericColumn(s) && s@
                == column.name@),
        },
{
    match &column.data {
        ColumnData::Nums(cells) => {
            let n = cells.len();
            let mut out: Vec<Option<Num>> = Vec::new();
            let mut i: usize = 0;
            while i < n
                invariant
                    n == cells@.len(),
                    0 <= i <= n,
                    out@ == cells@.take(i as int),
                decreases n - i,
            {
                out.push(cells[i]);
                proof {
                    assert(out@ =~= cells@.take(i as int + 1));
                }
                i += 1;
            }
            proof {
                assert(cells@.take(n as int) =~= cells@);
            }
            Ok(out)
        },
        ColumnData::Strs(_) => Err(Error::NotNumericColumn(column.name.clone())),
    }
}

/// True when some string of `vals` has the characters `x`.
pub fn contains_str(vals: &Vec<String>, x: &str) -> (r: bool)
    ensures
        r == views(vals@).contains(x@),
{
    let n = vals.len();
    let mut i: usize = 0;
    while i < n
        invariant
            n == vals@.len(),
            0 <= i <= n,
            forall|j: int| 0 <= j < i ==> vals@[j]@ != x@,
        decreases n - i,
    {
        if str_eq(vals[i].as_str(), x) {
            proof {
                assert(views(vals@)[i as int] == vals@[i as int]@);
            }
            return true;
        }
        i += 1;
    }
    proof {
        assert forall|j: int| 0 <= j < views(vals@).len() implies views(vals@)[j] != x@ by {
            assert(views(vals@)[j] == vals@[j]@);
        }
    }
    false
}

/// The distinct categories of the group column `column_name`, in
/// first-occurrence order. Fails exactly when the column is absent, not a
/// string column, or has a missing cell: a group column must be a
/// fully-populated string column.
pub fn category_names(df: &Table, column_name: &str) -> (r: Result<Vec<String>, Error>)
    ensures
        match r {
            Ok(v) => df.col_idx(column_name@) matches Some(ci) && df.columns@[ci].data
                matches ColumnData::Strs(cells) && all_present(cells@) && views(v@)
                == distinct_stable(cell_views(cells@)),
            Err(e) => match df.col_idx(column_name@) {
                None => e matches Error::ColumnNotFound(s) && s@ == column_name@,
                Some(ci) => match df.columns@[ci].data {
                    ColumnData::Strs(cells) => !all_present(cells@) && (e
                        matches Error::MissingValue(s) && s@ == df.columns@[ci].name@),
                    ColumnData::Nums(_) => e matches Error::NotStringColumn(s) && s@
                        == df.columns@[ci].name@,
                },
            },
        },
{
    let column = match df.column(column_name) {
        Ok(c) => c,
        Err(e) => {
            return Err(e);
        },
    };
    let vals = match cont_str_values(column) {
        Ok(v) => v,
        Err(e) => {
            return Err(e);
        },
    };
    let ghost cells = column.data->Strs_0@;
    proof {
        assert(views(vals@) =~= cell_views(cells));
    }
    let n = vals.len();
    let mut out: Vec<String> = Vec::new();
    let mut i: usize = 0;
    while i < n
        invariant
            n == vals@.len(),
            0 <= i <= n,
            views(out@) == distinct_stable(views(vals@).take(i as int)),
        decreases n - i,
    {
        proof {
            lemma_distinct_stable_step(views(vals@), i as int);
            assert(views(vals@)[i as int] == vals@[i as int]@);
        }
        if !contains_str(&out, vals[i].as_str()) {
            out.push(vals[i].clone());
            proof {
                assert(views(out@) =~= distinct_stable(views(vals@).take(i as int)).push(
                    vals@[i as int]@,
                ));
            }
        }
        i += 1;
    }
    proof {
        assert(views(vals@).take(n as int) =~= views(vals@));
        assert(views(vals@) =~= cell_views(cells));
    }
    Ok(out)
}

/// The present values of a prefix one longer grow by the added cell when it
/// is present.
proof fn lemma_present_values_step<T>(cells: Seq<Option<T>>, i: int)
    requires
        0 <= i < cells.len(),
    ensures
        present_values(cells.take(i + 1)) == (match cells[i] {
            Some(v) => present_values(cells.take(i)).push(v),
            None => present_values(cells.take(i)),
        }),
{
    assert(cells.take(i + 1).drop_last() =~= cells.take(i));
    assert(cells.take(i + 1).last() == cells[i]);
}

/// The distinct values of a prefix one longer grow by the added value when
/// it is new.
proof fn lemma_distinct_stable_step(vals: Seq<Seq<char>>, i: int)
    requires
        0 <= i < vals.len(),
    ensures
        distinct_stable(vals.take(i + 1)) == (if distinct_stable(vals.take(i)).contains(
            vals[i],
        ) {
            distinct_stable(vals.take(i))
        } else {
            distinct_stable(vals.take(i)).push(vals[i])
        }),
{
    assert(vals.take(i + 1).drop_last() =~= vals.take(i));
    assert(vals.take(i + 1).last() == vals[i]);
}

} // verus!
