//! The group enumerator: discovers each requested group column's distinct
//! categories and drives iteration over every combination (cartesian
//! product) of them, in odometer order — the first group is the outermost
//! loop, the last group varies fastest.

use vstd::prelude::*;

use crate::df::{all_present, category_names, cell_views, distinct_stable, lemma_distinct_stable_props, views};
use crate::error::Error;
use crate::num::Num;
use crate::table::{clone_table, col_idx_from, data_equiv, is_selection, match_indices, tables_equiv, Column, ColumnData, Table};

verus! {

/// One group column: its name and its distinct category labels, in
/// first-occurrence order.
#[derive(Debug, PartialEq, Eq)]
pub struct Group {
    /// The group column's name.
    pub column_name: String,
    /// The column's distinct categories, in first-occurrence order.
    pub categories: Vec<String>,
}

impl Group {
    /// The categories' character sequences.
    pub open spec fn cat_views(self) -> Seq<Seq<char>> {
        views(self.categories@)
    }

    /// Well-formed: the categories are distinct.
    pub open spec fn wf(self) -> bool {
        self.cat_views().no_duplicates()
    }
}

/// One axis of a combination: a group column paired with one of its
/// categories.
#[derive(Debug, PartialEq, Eq)]
pub struct SelectedGroupCategoryPair {
    /// The group column's name.
    pub column_name: String,
    /// The selected category.
    pub category: String,
}

/// A pair as a mathematical value: the column's and the category's
/// characters.
pub open spec fn pair_view(p: SelectedGroupCategoryPair) -> (Seq<char>, Seq<char>) {
    (p.column_name@, p.category@)
}

/// The category labels a combination selects, in group order.
pub open spec fn cats_of(combo: Seq<SelectedGroupCategoryPair>) -> Seq<Seq<char>> {
    combo.map_values(|p: SelectedGroupCategoryPair| p.category@)
}

/// A combination as a mathematical value.
pub open spec fn combo_view(c: Seq<SelectedGroupCategoryPair>) -> Seq<(Seq<char>, Seq<char>)> {
    c.map_values(|p: SelectedGroupCategoryPair| pair_view(p))
}

/// The ordered group columns of one chart request.
#[derive(Debug, PartialEq, Eq)]
pub struct Groups {
    /// One group per requested column, in caller-specified order.
    pub groups: Vec<Group>,
}

impl Groups {
    /// Well-formed: every group's categories are distinct.
    pub open spec fn wf(self) -> bool {
        forall|i: int| 0 <= i < self.groups@.len() ==> (#[trigger] self.groups@[i]).wf()
    }
}

/// True when `name` can serve as a group column of `df`: it names a string
/// column with no missing cell.
pub open spec fn group_col_ok(df: Table, name: Seq<char>) -> bool {
    &&& df.col_idx(name) matches Some(ci)
    &&& df.columns@[ci].data matches ColumnData::Strs(cells) && all_present(cells@)
}

/// The distinct categories of the group column `name` of `df`, in
/// first-occurrence order.
pub open spec fn categories_of(df: Table, name: Seq<char>) -> Seq<Seq<char>> {
    distinct_stable(cell_views(df.columns@[df.col_idx(name)->0].data->Strs_0@))
}

/// The error reported for a column that cannot serve as a group column:
/// absent, numeric, or with a missing cell.
pub open spec fn group_col_err(df: Table, name: Seq<char>, e: Error) -> bool {
    match df.col_idx(name) {
        None => e matches Error::ColumnNotFound(s) && s@ == name,
        Some(ci) => match df.columns@[ci].data {
            ColumnData::Strs(cells) => !all_present(cells@) && (e matches Error::MissingValue(s)
                && s@ == df.columns@[ci].name@),
            ColumnData::Nums(_) => e matches Error::NotStringColumn(s) && s@
                == df.columns@[ci].name@,
        },
    }
}

/// True when `gs` is what building groups from the requested columns
/// yields: one group per name, in order, with that column's distinct
/// categories in first-occurrence order.
pub open spec fn groups_built(df: Table, names: Seq<String>, gs: Groups) -> bool {
    &&& gs.wf()
    &&& gs.groups@.len() == names.len()
    &&& forall|i: int|
        0 <= i < gs.groups@.len() ==> ({
            &&& (#[trigger] gs.groups@[i]).column_name == names[i]
            &&& group_col_ok(df, names[i]@)
            &&& gs.groups@[i].cat_views() == categories_of(df, names[i]@)
        })
}

impl Groups {
    /// Builds one group per requested column, in the given order, each
    /// with its distinct categories in first-occurrence order. Fails
    /// exactly when some requested column is absent, not a string column,
    /// or has a missing cell: a group column must be a fully-populated
    /// string column.
    pub fn from_df(df: &Table, group_column_names: Vec<String>) -> (r: Result<Groups, Error>)
        ensures
            match r {
                Ok(gs) => groups_built(*df, group_column_names@, gs),
                Err(e) => exists|i: int|
                    0 <= i < group_column_names@.len() && #[trigger] group_col_err(
                        *df,
                        group_column_names@[i]@,
                        e,
                    ),
            },
    {
        let n = group_column_names.len();
        let mut groups: Vec<Group> = Vec::new();
        let mut i: usize = 0;
        while i < n
            invariant
                n == group_column_names@.len(),
                0 <= i <= n,
                groups@.len() == i,
                forall|m: int|
                    0 <= m < i ==> ({
                        &&& (#[trigger] groups@[m]).column_name == group_column_names@[m]
                        &&& group_col_ok(*df, group_column_names@[m]@)
                        &&& groups@[m].cat_views() == categories_of(
                            *df,
                            group_column_names@[m]@,
                        )
                        &&& groups@[m].wf()
                    }),
            decreases n - i,
        {
            let name = group_column_names[i].clone();
            let categories = match category_names(df, name.as_str()) {
                Ok(v) => v,
                Err(e) => {
                    proof {
                        assert(name@ == group_column_names@[i as int]@);
                        assert(group_col_err(*df, group_column_names@[i as int]@, e));
                    }
                    return Err(e);
                },
            };
            proof {
                crate::table::lemma_col_idx_from(df.columns@, name@);
                lemma_distinct_stable_props(
                    cell_views(df.columns@[df.col_idx(name@)->0].data->Strs_0@),
                );
            }
            groups.push(Group { column_name: name, categories });
            i += 1;
        }
        Ok(Groups { groups })
    }

    /// All combinations, one pair per group in the groups' order, in
    /// odometer order.
    pub fn product(&self) -> (r: Vec<Vec<SelectedGroupCategoryPair>>)
        ensures
            r@.len() == combos(self.groups@).len(),
            forall|i: int|
                0 <= i < r@.len() ==> combo_view((#[trigger] r@[i])@) == combos(self.groups@)[i],
    {
        proof {
            assert(self.groups@.skip(0) =~= self.groups@);
        }
        self.product_from(0)
    }

    /// All combinations of the groups from position `j` on.
    fn product_from(&self, j: usize) -> (r: Vec<Vec<SelectedGroupCategoryPair>>)
        requires
            j <= self.groups@.len(),
        ensures
            r@.len() == combos(self.groups@.skip(j as int)).len(),
            forall|i: int|
                0 <= i < r@.len() ==> combo_view((#[trigger] r@[i])@) == combos(
                    self.groups@.skip(j as int),
                )[i],
        decreases self.groups@.len() - j,
    {
        let n = self.groups.len();
        let ghost gsj = self.groups@.skip(j as int);
        if j == n {
            let mut out: Vec<Vec<SelectedGroupCategoryPair>> = Vec::new();
            out.push(Vec::new());
            proof {
                assert(gsj =~= Seq::<Group>::empty());
                assert(combo_view(out@[0]@) =~= combos(gsj)[0]);
            }
            return out;
        }
        let tail = self.product_from(j + 1);
        let ghost tl = combos(self.groups@.skip(j as int + 1));
        proof {
            assert(gsj.drop_first() =~= self.groups@.skip(j as int + 1));
            assert(gsj.first() == self.groups@[j as int]);
        }
        let g = &self.groups[j];
        let cn = g.categories.len();
        let tn = tail.len();
        let mut out: Vec<Vec<SelectedGroupCategoryPair>> = Vec::new();
        let mut k: usize = 0;
        while k < cn
            invariant
                j < n,
                n == self.groups@.len(),
                g == self.groups@[j as int],
                gsj == self.groups@.skip(j as int),
                gsj.first() == self.groups@[j as int],
                gsj.drop_first() == self.groups@.skip(j as int + 1),
                tl == combos(self.groups@.skip(j as int + 1)),
                cn == g.categories@.len(),
                tn == tail@.len(),
                tn == tl.len(),
                forall|m: int|
                    0 <= m < tn ==> combo_view((#[trigger] tail@[m])@) == tl[m],
                0 <= k <= cn,
                out@.len() == k * tn,
                combos(gsj).len() == cn * tn,
                forall|i: int|
                    0 <= i < out@.len() ==> combo_view((#[trigger] out@[i])@) == combos(gsj)[i],
            decreases cn - k,
        {
            let mut m: usize = 0;
            while m < tn
                invariant
                    j < n,
                    n == self.groups@.len(),
                    g == self.groups@[j as int],
                    gsj == self.groups@.skip(j as int),
                    gsj.first() == self.groups@[j as int],
                    gsj.drop_first() == self.groups@.skip(j as int + 1),
                    tl == combos(self.groups@.skip(j as int + 1)),
                    cn == g.categories@.len(),
                    tn == tail@.len(),
                    tn == tl.len(),
                    forall|m2: int|
                        0 <= m2 < tn ==> combo_view((#[trigger] tail@[m2])@) == tl[m2],
                    0 <= k < cn,
                    0 <= m <= tn,
                    out@.len() == k * tn + m,
                    combos(gsj).len() == cn * tn,
                    forall|i: int|
                        0 <= i < out@.len() ==> combo_view((#[trigger] out@[i])@) == combos(
                            gsj,
                        )[i],
                decreases tn - m,
            {
                let src = &tail[m];
                let sn = src.len();
                let mut cb: Vec<SelectedGroupCategoryPair> = Vec::new();
                cb.push(
                    SelectedGroupCategoryPair {
                        column_name: g.column_name.clone(),
                        category: g.categories[k].clone(),
                    },
                );
                let mut q: usize = 0;
                while q < sn
                    invariant
                        sn == src@.len(),
                        0 <= q <= sn,
                        cb@.len() == 1 + q,
                        cb@[0].column_name@ == g.column_name@,
                        cb@[0].category@ == g.categories@[k as int]@,
                        forall|q2: int| 0 <= q2 < q ==> #[trigger] cb@[q2 + 1] == src@[q2],
                    decreases sn - q,
                {
                    cb.push(clone_pair(&src[q]));
                    q += 1;
                }
                proof {
                    let i = k * tn + m;
                    assert(0 <= i < cn * tn) by (nonlinear_arith)
                        requires
                            0 <= k < cn,
                            0 <= m < tn,
                            i == k * tn + m,
                    ;
                    vstd::arithmetic::div_mod::lemma_fundamental_div_mod_converse(
                        i as int,
                        tn as int,
                        k as int,
                        m as int,
                    );
                    assert(combos(gsj)[i as int] == seq![
                        (gsj.first().column_name@, gsj.first().cat_views()[k as int]),
                    ] + tl[m as int]);
                    assert(gsj.first().cat_views()[k as int] == g.categories@[k as int]@);
                    assert(combo_view(cb@) =~= seq![
                        (gsj.first().column_name@, gsj.first().cat_views()[k as int]),
                    ] + combo_view(src@)) by {
                        assert forall|q2: int| 0 <= q2 < combo_view(cb@).len() implies
                            combo_view(cb@)[q2] == (seq![
                            (gsj.first().column_name@, gsj.first().cat_views()[k as int]),
                        ] + combo_view(src@))[q2] by {
                            if q2 > 0 {
                                assert(cb@[(q2 - 1) + 1] == src@[q2 - 1]);
                            }
                        }
                    }
                }
                out.push(cb);
                m += 1;
            }
            k += 1;
            proof {
                assert(k * tn == (k - 1) * tn + tn) by (nonlinear_arith);
            }
        }
        proof {
            assert(out@.len() == cn * tn);
        }
        out
    }
}

/// True when the two tables have the same column names and element types,
/// whatever their rows.
pub open spec fn same_shape(a: Table, b: Table) -> bool {
    &&& b.columns@.len() == a.columns@.len()
    &&& forall|k: int|
        0 <= k < a.columns@.len() ==> (#[trigger] b.columns@[k]).name@ == a.columns@[k].name@
            && (a.columns@[k].data is Strs <==> b.columns@[k].data is Strs)
}

/// True when `b` is `a` restricted to the rows whose cell in the string
/// column named by the pair equals the pair's category.
pub open spec fn is_filtered(a: Table, pair: (Seq<char>, Seq<char>), b: Table) -> bool {
    &&& a.col_idx(pair.0) matches Some(ci)
    &&& a.columns@[ci].data matches ColumnData::Strs(kc)
    &&& b.wf()
    &&& b.columns@.len() == a.columns@.len()
    &&& b.spec_height() == match_indices(kc@, pair.1).len()
    &&& forall|k: int|
        0 <= k < b.columns@.len() ==> (#[trigger] b.columns@[k]).name == a.columns@[k].name
            && is_selection(a.columns@[k].data, match_indices(kc@, pair.1), b.columns@[k].data)
}

/// True when `t` is what remains of `df` after filtering by every pair of
/// the combination in turn: the rows of `df` matching the whole
/// conjunction, keeping the table's row order.
pub open spec fn is_partition(df: Table, combo: Seq<(Seq<char>, Seq<char>)>, t: Table) -> bool
    decreases combo.len(),
{
    if combo.len() == 0 {
        tables_equiv(df, t)
    } else {
        exists|mid: Table|
            is_partition(df, combo.drop_last(), mid) && #[trigger] is_filtered(
                mid,
                combo.last(),
                t,
            )
    }
}

/// Filtering one more pair extends a partition chain by that pair.
pub proof fn lemma_partition_extend(
    df: Table,
    combo: Seq<(Seq<char>, Seq<char>)>,
    cur: Table,
    pair: (Seq<char>, Seq<char>),
    next: Table,
)
    requires
        is_partition(df, combo, cur),
        is_filtered(cur, pair, next),
    ensures
        is_partition(df, combo.push(pair), next),
{
    assert(combo.push(pair).drop_last() =~= combo);
    assert(combo.push(pair).last() == pair);
    assert(combo.push(pair).len() > 0);
    assert(is_partition(df, combo.push(pair).drop_last(), cur));
    assert(is_filtered(cur, combo.push(pair).last(), next));
}

/// True when `name` can be filtered on in `df`: it names a string column.
pub open spec fn filter_col_ok(df: Table, name: Seq<char>) -> bool {
    df.col_idx(name) matches Some(ci) && df.columns@[ci].data is Strs
}

/// The error reported when some group column cannot be filtered on:
/// absent from the table, or not a string column there.
pub open spec fn partition_col_err(df: Table, gs: Seq<Group>, e: Error) -> bool {
    exists|jj: int|
        0 <= jj < gs.len() && ({
            let nm = (#[trigger] gs[jj]).column_name@;
            match df.col_idx(nm) {
                None => e matches Error::ColumnNotFound(s) && s@ == nm,
                Some(ci) => df.columns@[ci].data is Nums && (e matches Error::NotStringColumn(s)
                    && s@ == df.columns@[ci].name@),
            }
        })
}

/// Column lookup goes by names alone: tables with equally named columns
/// agree on it.
pub proof fn lemma_names_col_idx(ca: Seq<Column>, cb: Seq<Column>, name: Seq<char>)
    requires
        ca.len() == cb.len(),
        forall|k: int| 0 <= k < ca.len() ==> (#[trigger] cb[k]).name@ == ca[k].name@,
    ensures
        col_idx_from(ca, name) == col_idx_from(cb, name),
    decreases ca.len(),
{
    if ca.len() > 0 {
        assert(cb[0].name@ == ca[0].name@);
        let ta = ca.drop_first();
        let tb = cb.drop_first();
        assert forall|k: int| 0 <= k < ta.len() implies (#[trigger] tb[k]).name@ == ta[k].name@ by {
            assert(tb[k] == cb[k + 1]);
            assert(ta[k] == ca[k + 1]);
        }
        lemma_names_col_idx(ta, tb, name);
    }
}

impl Groups {
    /// One partition per combination, in combination order: the table
    /// restricted, by one equality filter per pair, to the rows matching
    /// the whole combination, together with the combination itself. A
    /// combination matching no rows still yields its (empty) partition.
    /// Fails exactly when some group column is absent from the table or is
    /// not a string column there.
    pub fn partitions(&self, df: &Table) -> (r: Result<
        Vec<(Table, Vec<SelectedGroupCategoryPair>)>,
        Error,
    >)
        requires
            df.wf(),
        ensures
            match r {
                Ok(ps) => {
                    &&& ps@.len() == combos(self.groups@).len()
                    &&& forall|i: int|
                        0 <= i < ps@.len() ==> ({
                            &&& combo_view((#[trigger] ps@[i]).1@) == combos(self.groups@)[i]
                            &&& ps@[i].0.wf()
                            &&& is_partition(*df, combos(self.groups@)[i], ps@[i].0)
                        })
                },
                Err(e) => partition_col_err(*df, self.groups@, e),
            },
    {
        let gn = self.groups.len();
        let mut jj: usize = 0;
        while jj < gn
            invariant
                gn == self.groups@.len(),
                0 <= jj <= gn,
                forall|m: int|
                    0 <= m < jj ==> filter_col_ok(*df, (#[trigger] self.groups@[m]).column_name@),
            decreases gn - jj,
        {
            let col = match df.column(self.groups[jj].column_name.as_str()) {
                Ok(c) => c,
                Err(e) => {
                    proof {
                        let nm = self.groups@[jj as int].column_name@;
                        assert(df.col_idx(nm) is None);
                        assert(partition_col_err(*df, self.groups@, e));
                    }
                    return Err(e);
                },
            };
            match &col.data {
                ColumnData::Strs(_) => {},
                ColumnData::Nums(_) => {
                    let e = Error::NotStringColumn(col.name.clone());
                    proof {
                        let nm = self.groups@[jj as int].column_name@;
                        assert(*col == df.columns@[df.col_idx(nm)->0]);
                        assert(partition_col_err(*df, self.groups@, e));
                    }
                    return Err(e);
                },
            }
            jj += 1;
        }
        let cv0 = self.product();
        let ghost gcombos = cv0@;
        let mut cv = cv0;
        let n = cv.len();
        let mut out: Vec<(Table, Vec<SelectedGroupCategoryPair>)> = Vec::new();
        let mut i: usize = 0;
        while i < n
            invariant
                df.wf(),
                n == gcombos.len(),
                n == combos(self.groups@).len(),
                cv@ == gcombos.skip(i as int),
                0 <= i <= n,
                out@.len() == i,
                forall|m: int|
                    0 <= m < n ==> combo_view((#[trigger] gcombos[m])@) == combos(
                        self.groups@,
                    )[m],
                forall|m: int|
                    0 <= m < gn ==> filter_col_ok(*df, (#[trigger] self.groups@[m]).column_name@),
                gn == self.groups@.len(),
                forall|m: int|
                    0 <= m < i ==> ({
                        &&& combo_view((#[trigger] out@[m]).1@) == combos(self.groups@)[m]
                        &&& out@[m].0.wf()
                        &&& is_partition(*df, combos(self.groups@)[m], out@[m].0)
                    }),
            decreases n - i,
        {
            let combo = cv.remove(0);
            proof {
                assert(gcombos.skip(i as int)[0] == gcombos[i as int]);
                assert(cv@ =~= gcombos.skip(i as int + 1));
            }
            let ghost cb = combos(self.groups@)[i as int];
            proof {
                lemma_product_names(self.groups@, i as int);
            }
            let mut cur = clone_table(df);
            proof {
                assert(same_shape(*df, cur)) by {
                    assert forall|k: int|
                        0 <= k < df.columns@.len() implies (#[trigger] cur.columns@[k]).name@
                        == df.columns@[k].name@ && (df.columns@[k].data is Strs
                        <==> cur.columns@[k].data is Strs) by {
                        assert(data_equiv(df.columns@[k].data, cur.columns@[k].data));
                    }
                }
                assert(cb.take(0) =~= Seq::<(Seq<char>, Seq<char>)>::empty());
            }
            let pn = combo.len();
            let mut q: usize = 0;
            while q < pn
                invariant
                    df.wf(),
                    gn == self.groups@.len(),
                    pn == combo@.len(),
                    combo_view(combo@) == cb,
                    cb.len() == gn,
                    forall|j2: int|
                        0 <= j2 < gn ==> (#[trigger] cb[j2]).0 == self.groups@[j2].column_name@,
                    forall|m: int|
                        0 <= m < gn ==> filter_col_ok(
                            *df,
                            (#[trigger] self.groups@[m]).column_name@,
                        ),
                    0 <= q <= pn,
                    cur.wf(),
                    same_shape(*df, cur),
                    is_partition(*df, cb.take(q as int), cur),
                decreases pn - q,
            {
                let pair = &combo[q];
                proof {
                    assert(combo_view(combo@)[q as int] == pair_view(combo@[q as int]));
                    assert(cb[q as int] == (pair.column_name@, pair.category@));
                    assert(filter_col_ok(*df, pair.column_name@));
                    lemma_names_col_idx(df.columns@, cur.columns@, pair.column_name@);
                }
                let next = match cur.filter_eq(pair.column_name.as_str(), pair.category.as_str()) {
                    Ok(t) => t,
                    Err(_) => {
                        proof {
                            let ci = df.col_idx(pair.column_name@)->0;
                            crate::table::lemma_col_idx_from(df.columns@, pair.column_name@);
                            assert(cur.columns@[ci].data is Strs);
                            assert(false);
                        }
                        // Never reached: the proof above closes this arm.
                        return Err(Error::Overflow);
                    },
                };
                proof {
                    assert(is_filtered(cur, cb[q as int], next));
                    assert(cb.take(q as int + 1).drop_last() =~= cb.take(q as int));
                    assert(cb.take(q as int + 1).last() == cb[q as int]);
                    lemma_partition_extend(*df, cb.take(q as int), cur, cb[q as int], next);
                    assert(cb.take(q as int).push(cb[q as int]) =~= cb.take(q as int + 1));
                    assert(is_partition(*df, cb.take(q as int + 1), next));
                    assert(same_shape(*df, next)) by {
                        assert forall|k: int|
                            0 <= k < df.columns@.len() implies (#[trigger] next.columns@[k]).name@
                            == df.columns@[k].name@ && (df.columns@[k].data is Strs
                            <==> next.columns@[k].data is Strs) by {
                            assert(next.columns@[k].name == cur.columns@[k].name);
                            assert(is_selection(
                                cur.columns@[k].data,
                                match_indices(
                                    cur.columns@[cur.col_idx(pair.column_name@)->0].data->Strs_0@,
                                    pair.category@,
                                ),
                                next.columns@[k].data,
                            ));
                        }
                    }
                }
                cur = next;
                q += 1;
            }
            proof {
                assert(cb.take(pn as int) =~= cb);
            }
            out.push((cur, combo));
            i += 1;
        }
        Ok(out)
    }
}

/// A partition keeps the table's column names and element types, whatever
/// rows it kept.
pub proof fn lemma_partition_shape(df: Table, combo: Seq<(Seq<char>, Seq<char>)>, t: Table)
    requires
        is_partition(df, combo, t),
    ensures
        same_shape(df, t),
    decreases combo.len(),
{
    if combo.len() == 0 {
        assert forall|k: int|
            0 <= k < df.columns@.len() implies (#[trigger] t.columns@[k]).name@
            == df.columns@[k].name@ && (df.columns@[k].data is Strs <==> t.columns@[k].data
            is Strs) by {
            assert(data_equiv(df.columns@[k].data, t.columns@[k].data));
        }
    } else {
        let mid = choose|mid: Table|
            is_partition(df, combo.drop_last(), mid) && #[trigger] is_filtered(
                mid,
                combo.last(),
                t,
            );
        lemma_partition_shape(df, combo.drop_last(), mid);
        assert forall|k: int|
            0 <= k < df.columns@.len() implies (#[trigger] t.columns@[k]).name@
            == df.columns@[k].name@ && (df.columns@[k].data is Strs <==> t.columns@[k].data
            is Strs) by {
            assert(t.columns@[k].name == mid.columns@[k].name);
            assert(is_selection(
                mid.columns@[k].data,
                match_indices(
                    mid.columns@[mid.col_idx(combo.last().0)->0].data->Strs_0@,
                    combo.last().1,
                ),
                t.columns@[k].data,
            ));
            assert(mid.columns@[k].name@ == df.columns@[k].name@);
        }
    }
}

/// True when `parts` is the full partition list: one per combination, in
/// combination order, each the table's restriction to that combination —
/// empty partitions included.
pub open spec fn parts_match(
    df: Table,
    gs: Seq<Group>,
    parts: Seq<(Table, Vec<SelectedGroupCategoryPair>)>,
) -> bool {
    &&& parts.len() == combos(gs).len()
    &&& forall|i: int|
        0 <= i < parts.len() ==> ({
            &&& combo_view((#[trigger] parts[i]).1@) == combos(gs)[i]
            &&& parts[i].0.wf()
            &&& is_partition(df, combos(gs)[i], parts[i].0)
        })
}

/// True when the first `n` visits each turned state `states[i]` and
/// partition `parts[i]` into state `states[i + 1]`.
pub open spec fn visit_chain<A, F: Fn(A, Table, Vec<SelectedGroupCategoryPair>) -> Result<
    A,
    Error,
>>(f: F, states: Seq<A>, parts: Seq<(Table, Vec<SelectedGroupCategoryPair>)>, n: int) -> bool {
    forall|i: int|
        0 <= i < n ==> call_ensures(
            f,
            (states[i], (#[trigger] parts[i]).0, parts[i].1),
            Ok::<A, Error>(states[i + 1]),
        )
}

/// True of a completed visit: the visitor was called once per combination,
/// in order, threading the state from `init` to `av`.
pub open spec fn fold_ok_witness<A, F: Fn(A, Table, Vec<SelectedGroupCategoryPair>) -> Result<
    A,
    Error,
>>(
    df: Table,
    gs: Seq<Group>,
    init: A,
    f: F,
    av: A,
    states: Seq<A>,
    parts: Seq<(Table, Vec<SelectedGroupCategoryPair>)>,
) -> bool {
    &&& parts_match(df, gs, parts)
    &&& states.len() == combos(gs).len() + 1
    &&& states[0] == init
    &&& visit_chain(f, states, parts, combos(gs).len() as int)
    &&& av == states[combos(gs).len() as int]
}

/// True of a visit aborted at combination `m`: the first `m` visits
/// succeeded in order and the visit of combination `m` returned the error.
pub open spec fn fold_err_witness<A, F: Fn(A, Table, Vec<SelectedGroupCategoryPair>) -> Result<
    A,
    Error,
>>(
    df: Table,
    gs: Seq<Group>,
    init: A,
    f: F,
    e: Error,
    states: Seq<A>,
    parts: Seq<(Table, Vec<SelectedGroupCategoryPair>)>,
    m: int,
) -> bool {
    &&& parts_match(df, gs, parts)
    &&& 0 <= m < combos(gs).len()
    &&& states.len() == m + 1
    &&& states[0] == init
    &&& visit_chain(f, states, parts, m)
    &&& call_ensures(f, (states[m], parts[m].0, parts[m].1), Err::<A, Error>(e))
}

/// True when a completed visit from `init` can account for the final
/// state `av`: some chain of per-combination visits, one per combination
/// in order, leads from `init` to `av`.
pub open spec fn folded_ok<A, F: Fn(A, Table, Vec<SelectedGroupCategoryPair>) -> Result<
    A,
    Error,
>>(df: Table, gs: Seq<Group>, init: A, f: F, av: A) -> bool {
    exists|states: Seq<A>, parts: Seq<(Table, Vec<SelectedGroupCategoryPair>)>|
        #[trigger] fold_ok_witness(df, gs, init, f, av, states, parts)
}

/// True when an aborted visit from `init` can account for the error `e`:
/// either some group column cannot be filtered on, or some prefix of
/// successful visits ends with a visit that returned `e`.
pub open spec fn folded_err<A, F: Fn(A, Table, Vec<SelectedGroupCategoryPair>) -> Result<
    A,
    Error,
>>(df: Table, gs: Seq<Group>, init: A, f: F, e: Error) -> bool {
    partition_col_err(df, gs, e) || exists|
        states: Seq<A>,
        parts: Seq<(Table, Vec<SelectedGroupCategoryPair>)>,
        m: int,
    | #[trigger] fold_err_witness(df, gs, init, f, e, states, parts, m)
}

impl Groups {
    /// Visits every combination in odometer order, handing the visitor the
    /// filtered partition, the combination, and the state so far, and
    /// threading the state through: a left fold over the partitions. A
    /// combination matching no rows is still visited, with its empty
    /// partition. The first visitor error aborts the remaining
    /// combinations and is returned as is.
    #[verifier::rlimit(60)]
    pub fn for_each_product<A, F: Fn(A, Table, Vec<SelectedGroupCategoryPair>) -> Result<
        A,
        Error,
    >>(&self, df: &Table, init: A, f: F) -> (r: Result<A, Error>)
        requires
            df.wf(),
            forall|a: A, t: Table, c: Vec<SelectedGroupCategoryPair>| call_requires(f, (a, t, c)),
        ensures
            match r {
                Ok(av) => folded_ok(*df, self.groups@, init, f, av),
                Err(e) => folded_err(*df, self.groups@, init, f, e),
            },
    {
        let parts_v = match self.partitions(df) {
            Ok(p) => p,
            Err(e) => {
                proof {
                    assert(folded_err::<A, F>(*df, self.groups@, init, f, e));
                }
                return Err(e);
            },
        };
        let ghost gparts = parts_v@;
        proof {
            assert(parts_match(*df, self.groups@, gparts));
        }
        let mut pv = parts_v;
        let n = pv.len();
        let ghost ginit = init;
        let mut acc = init;
        let ghost mut states: Seq<A> = seq![ginit];
        let mut i: usize = 0;
        while i < n
            invariant
                n == gparts.len(),
                pv@ == gparts.skip(i as int),
                0 <= i <= n,
                parts_match(*df, self.groups@, gparts),
                states.len() == i + 1,
                states[0] == ginit,
                ginit == init,
                acc == states[i as int],
                visit_chain(f, states, gparts, i as int),
                forall|a: A, t: Table, c: Vec<SelectedGroupCategoryPair>| call_requires(
                    f,
                    (a, t, c),
                ),
            decreases n - i,
        {
            let (t, c) = pv.remove(0);
            proof {
                assert(gparts.skip(i as int)[0] == gparts[i as int]);
                assert(pv@ =~= gparts.skip(i as int + 1));
            }
            match f(acc, t, c) {
                Ok(a2) => {
                    proof {
                        let prev = states;
                        states = states.push(a2);
                        assert(states[i as int] == prev[i as int]);
                        assert(states[i as int + 1] == a2);
                        assert forall|m: int|
                            0 <= m < i as int + 1 implies call_ensures(
                            f,
                            (states[m], (#[trigger] gparts[m]).0, gparts[m].1),
                            Ok::<A, Error>(states[m + 1]),
                        ) by {
                            if m < i as int {
                                assert(states[m] == prev[m]);
                                assert(states[m + 1] == prev[m + 1]);
                            }
                        }
                    }
                    acc = a2;
                },
                Err(e) => {
                    proof {
                        assert(fold_err_witness(
                            *df,
                            self.groups@,
                            ginit,
                            f,
                            e,
                            states,
                            gparts,
                            i as int,
                        ));
                        assert(folded_err(*df, self.groups@, ginit, f, e));
                        assert(ginit == init);
                        assert(folded_err(*df, self.groups@, init, f, e));
                    }
                    return Err(e);
                },
            }
            i += 1;
        }
        proof {
            assert(fold_ok_witness(*df, self.groups@, ginit, f, acc, states, gparts));
            assert(folded_ok(*df, self.groups@, ginit, f, acc));
            assert(folded_ok(*df, self.groups@, init, f, acc));
        }
        Ok(acc)
    }
}

/// Clones one combination pair.
pub fn clone_pair(p: &SelectedGroupCategoryPair) -> (r: SelectedGroupCategoryPair)
    ensures
        r == *p,
{
    SelectedGroupCategoryPair {
        column_name: p.column_name.clone(),
        category: p.category.clone(),
    }
}

/// Every combination of one category per group, in odometer order: the
/// sequence is laid out in blocks, one block per category of the first
/// group, each block carrying the full product of the remaining groups, so
/// the first group varies slowest and the last group varies fastest. With
/// no groups there is exactly one empty combination.
pub open spec fn combos(gs: Seq<Group>) -> Seq<Seq<(Seq<char>, Seq<char>)>>
    decreases gs.len(),
{
    if gs.len() == 0 {
        seq![Seq::empty()]
    } else {
        let tail = combos(gs.drop_first());
        Seq::new(
            gs.first().categories@.len() * tail.len(),
            |i: int|
                seq![
                    (
                        gs.first().column_name@,
                        gs.first().cat_views()[i / (tail.len() as int)],
                    ),
                ] + tail[i % (tail.len() as int)],
        )
    }
}

/// The product of the groups' category counts.
pub open spec fn prod_counts(gs: Seq<Group>) -> nat
    decreases gs.len(),
{
    if gs.len() == 0 {
        1
    } else {
        gs.first().categories@.len() * prod_counts(gs.drop_first())
    }
}

/// Law: the enumeration has exactly as many combinations as the product of
/// the per-group category counts.
pub proof fn lemma_product_count(gs: Seq<Group>)
    ensures
        combos(gs).len() == prod_counts(gs),
    decreases gs.len(),
{
    if gs.len() > 0 {
        lemma_product_count(gs.drop_first());
    }
}

/// Law: the enumeration is in odometer order. With a non-empty group
/// list, the combination at position `i` selects the first group's
/// category number `i / t` — where `t` is the number of combinations of
/// the remaining groups — followed by the remaining groups' combination
/// number `i % t`: the first group is the outermost loop and the last
/// group varies fastest.
pub proof fn lemma_product_order(gs: Seq<Group>, i: int)
    requires
        gs.len() > 0,
        0 <= i < combos(gs).len(),
    ensures
        ({
            let t = combos(gs.drop_first()).len() as int;
            &&& t > 0
            &&& 0 <= i % t < t
            &&& 0 <= i / t < gs.first().categories@.len()
            &&& combos(gs)[i] == seq![
                (gs.first().column_name@, gs.first().cat_views()[i / t]),
            ] + combos(gs.drop_first())[i % t]
        }),
{
    let c = gs.first().categories@.len() as int;
    let t = combos(gs.drop_first()).len() as int;
    assert(combos(gs).len() == c * t);
    assert(t > 0) by {
        if t == 0 {
            assert(c * t == 0);
        }
    }
    vstd::arithmetic::div_mod::lemma_mod_bound(i, t);
    vstd::arithmetic::div_mod::lemma_div_pos_is_pos(i, t);
    assert(i / t < c) by {
        if i / t >= c {
            vstd::arithmetic::div_mod::lemma_fundamental_div_mod(i, t);
            assert(t * (i / t) >= t * c) by (nonlinear_arith)
                requires
                    t > 0,
                    i / t >= c,
            ;
            assert(t * c == c * t) by (nonlinear_arith);
        }
    }
}

/// Every combination selects, for each group in order, that group's column
/// name and one of that group's categories.
pub proof fn lemma_product_names(gs: Seq<Group>, i: int)
    requires
        0 <= i < combos(gs).len(),
    ensures
        combos(gs)[i].len() == gs.len(),
        forall|j: int|
            0 <= j < gs.len() ==> (#[trigger] combos(gs)[i][j]).0 == gs[j].column_name@
                && gs[j].cat_views().contains(combos(gs)[i][j].1),
    decreases gs.len(),
{
    if gs.len() == 0 {
        assert(combos(gs)[0] =~= Seq::<(Seq<char>, Seq<char>)>::empty());
    } else {
        lemma_product_order(gs, i);
        let t = combos(gs.drop_first()).len() as int;
        lemma_product_names(gs.drop_first(), i % t);
        let head = seq![(gs.first().column_name@, gs.first().cat_views()[i / t])];
        let rest = combos(gs.drop_first())[i % t];
        assert(combos(gs)[i] == head + rest);
        assert(combos(gs)[i].len() == 1 + rest.len());
        assert forall|j: int| 0 <= j < gs.len() implies (#[trigger] combos(gs)[i][j]).0
            == gs[j].column_name@ && gs[j].cat_views().contains(combos(gs)[i][j].1) by {
            if j == 0 {
                assert(combos(gs)[i][0] == head[0]);
                assert(gs.first().cat_views()[i / t] == gs[0].cat_views()[i / t]);
            } else {
                assert(combos(gs)[i][j] == rest[j - 1]);
                assert(gs.drop_first()[j - 1] == gs[j]);
            }
        }
    }
}

/// Law: no combination repeats — with distinct categories per group, the
/// enumeration yields every label tuple at most once.
pub proof fn lemma_product_distinct(gs: Seq<Group>)
    requires
        forall|k: int| 0 <= k < gs.len() ==> (#[trigger] gs[k]).wf(),
    ensures
        combos(gs).no_duplicates(),
    decreases gs.len(),
{
    if gs.len() == 0 {
    } else {
        let c = gs.first().categories@.len() as int;
        let tail = combos(gs.drop_first());
        let t = tail.len() as int;
        assert forall|k: int| 0 <= k < gs.drop_first().len() implies (#[trigger] gs.drop_first()[k]).wf() by {
            assert(gs.drop_first()[k] == gs[k + 1]);
        }
        lemma_product_distinct(gs.drop_first());
        assert forall|i: int, i2: int|
            0 <= i < combos(gs).len() && 0 <= i2 < combos(gs).len() && i != i2 implies combos(
            gs,
        )[i] != combos(gs)[i2] by {
            lemma_product_order(gs, i);
            lemma_product_order(gs, i2);
            let a = i / t;
            let b = i % t;
            let a2 = i2 / t;
            let b2 = i2 % t;
            if a != a2 {
                assert(gs.first().wf());
                assert(gs.first().cat_views()[a] != gs.first().cat_views()[a2]);
                assert(combos(gs)[i][0] != combos(gs)[i2][0]);
            } else {
                assert(b != b2) by {
                    vstd::arithmetic::div_mod::lemma_fundamental_div_mod(i, t);
                    vstd::arithmetic::div_mod::lemma_fundamental_div_mod(i2, t);
                }
                assert(tail[b] != tail[b2]);
                if combos(gs)[i] == combos(gs)[i2] {
                    assert(combos(gs)[i].skip(1) =~= tail[b]);
                    assert(combos(gs)[i2].skip(1) =~= tail[b2]);
                }
            }
        }
    }
}

/// True when the combination selects, for each group in order, the
/// category at the chosen index.
pub open spec fn selects(gs: Seq<Group>, combo: Seq<(Seq<char>, Seq<char>)>, choice: Seq<int>) -> bool {
    forall|j: int|
        0 <= j < gs.len() ==> #[trigger] combo[j] == (
            gs[j].column_name@,
            gs[j].cat_views()[choice[j]],
        )
}

/// Law: no combination is omitted — every choice of one category index per
/// group appears at some position of the enumeration.
pub proof fn lemma_product_complete(gs: Seq<Group>, choice: Seq<int>)
    requires
        choice.len() == gs.len(),
        forall|j: int| 0 <= j < gs.len() ==> 0 <= #[trigger] choice[j] < gs[j].categories@.len(),
    ensures
        exists|i: int| 0 <= i < combos(gs).len() && #[trigger] selects(gs, combos(gs)[i], choice),
    decreases gs.len(),
{
    if gs.len() == 0 {
        assert(selects(gs, combos(gs)[0], choice));
    } else {
        let c = gs.first().categories@.len() as int;
        let tail = combos(gs.drop_first());
        let t = tail.len() as int;
        assert forall|j: int|
            0 <= j < gs.drop_first().len() implies 0 <= #[trigger] choice.drop_first()[j]
            < gs.drop_first()[j].categories@.len() by {
            assert(choice.drop_first()[j] == choice[j + 1]);
            assert(gs.drop_first()[j] == gs[j + 1]);
        }
        lemma_product_complete(gs.drop_first(), choice.drop_first());
        let i2 = choose|i2: int|
            0 <= i2 < combos(gs.drop_first()).len() && #[trigger] selects(
                gs.drop_first(),
                combos(gs.drop_first())[i2],
                choice.drop_first(),
            );
        let i = choice[0] * t + i2;
        assert(0 <= i < c * t) by (nonlinear_arith)
            requires
                0 <= choice[0] < c,
                0 <= i2 < t,
                i == choice[0] * t + i2,
        ;
        vstd::arithmetic::div_mod::lemma_fundamental_div_mod_converse(i, t, choice[0], i2);
        lemma_product_order(gs, i);
        assert forall|j: int| 0 <= j < gs.len() implies #[trigger] combos(gs)[i][j] == (
            gs[j].column_name@,
            gs[j].cat_views()[choice[j]],
        ) by {
            let head = seq![(gs.first().column_name@, gs.first().cat_views()[i / t])];
            assert(combos(gs)[i] == head + tail[i % t]);
            lemma_product_names(gs.drop_first(), i % t);
            if j == 0 {
                assert(combos(gs)[i][0] == head[0]);
            } else {
                assert(combos(gs)[i][j] == tail[i % t][j - 1]);
                assert(tail[i2][j - 1] == (
                    gs.drop_first()[j - 1].column_name@,
                    gs.drop_first()[j - 1].cat_views()[choice.drop_first()[j - 1]],
                ));
                assert(gs.drop_first()[j - 1] == gs[j]);
                assert(choice.drop_first()[j - 1] == choice[j]);
            }
        }
        assert(selects(gs, combos(gs)[i], choice));
    }
}

} // verus!
