use crate::settings::Settings;
use crate::splitting_columns::{contains_string, filler_view, str_views, views_contain, REDUNDANT_STRING_VALUE};
use crate::table::{Column, ColumnValues, Table};
use vstd::prelude::*;

verus! {

/// Mathematical image of a feature column's values.
pub enum ColumnValuesView {
    Ordinal(Seq<i64>),
    Categorical(Seq<Seq<char>>),
}

/// Mathematical image of a feature column.
pub struct ColumnView {
    pub name: Seq<char>,
    pub values: ColumnValuesView,
}

/// The view of one column.
pub open spec fn col_view(c: Column) -> ColumnView {
    match c.values {
        ColumnValues::Ordinal(v) => ColumnView { name: c.name@, values: ColumnValuesView::Ordinal(v@) },
        ColumnValues::Categorical(v) => ColumnView {
            name: c.name@,
            values: ColumnValuesView::Categorical(str_views(v@)),
        },
    }
}

/// The views of a column list.
pub open spec fn cols_view(cols: Seq<Column>) -> Seq<ColumnView> {
    cols.map_values(|c: Column| col_view(c))
}

/// How many of the first `i` values equal `v`.
pub open spec fn count_view_prefix(vals: Seq<Seq<char>>, v: Seq<char>, i: int) -> nat
    decreases i,
{
    if i <= 0 {
        0
    } else {
        count_view_prefix(vals, v, i - 1) + if vals[i - 1] == v {
            1nat
        } else {
            0nat
        }
    }
}

/// How many values of the column equal `v`.
pub open spec fn count_view(vals: Seq<Seq<char>>, v: Seq<char>) -> nat {
    count_view_prefix(vals, v, vals.len() as int)
}

/// The distinct values among the first `i` values of the column, in
/// order of first occurrence.
pub open spec fn distinct_view_prefix(vals: Seq<Seq<char>>, i: int) -> Seq<Seq<char>>
    decreases i,
{
    if i <= 0 {
        Seq::empty()
    } else {
        let prev = distinct_view_prefix(vals, i - 1);
        if views_contain(prev, vals[i - 1]) {
            prev
        } else {
            prev.push(vals[i - 1])
        }
    }
}

/// The first `j` candidate values that occur at least `min` times in the
/// column, in candidate order.
pub open spec fn frequent_upto(
    vals: Seq<Seq<char>>,
    cands: Seq<Seq<char>>,
    min: nat,
    j: int,
) -> Seq<Seq<char>>
    decreases j,
{
    if j <= 0 {
        Seq::empty()
    } else {
        frequent_upto(vals, cands, min, j - 1) + if count_view(vals, cands[j - 1]) >= min {
            seq![cands[j - 1]]
        } else {
            Seq::empty()
        }
    }
}

/// The distinct values of the column that occur at least `min` times, in
/// order of first occurrence.
pub open spec fn frequent_values(vals: Seq<Seq<char>>, min: nat) -> Seq<Seq<char>> {
    let cands = distinct_view_prefix(vals, vals.len() as int);
    frequent_upto(vals, cands, min, cands.len() as int)
}

/// The index of the candidate occurring most often among the first `i`,
/// the earlier candidate winning ties.
pub open spec fn best_freq_idx(vals: Seq<Seq<char>>, cands: Seq<Seq<char>>, i: int) -> int
    decreases i,
{
    if i <= 1 {
        0
    } else {
        let b = best_freq_idx(vals, cands, i - 1);
        if count_view(vals, cands[i - 1]) > count_view(vals, cands[b]) {
            i - 1
        } else {
            b
        }
    }
}

/// The `k` most frequent candidates, most frequent first, the earlier
/// candidate winning ties.
pub open spec fn select_top(vals: Seq<Seq<char>>, cands: Seq<Seq<char>>, k: int) -> Seq<Seq<char>>
    decreases k,
{
    if k <= 0 || cands.len() == 0 {
        Seq::empty()
    } else {
        let b = best_freq_idx(vals, cands, cands.len() as int);
        seq![cands[b]] + select_top(vals, cands.remove(b), k - 1)
    }
}

/// The values a categorical column keeps under pruning: its top `k` most
/// frequent values among those occurring at least `min` times.
pub open spec fn top_values(vals: Seq<Seq<char>>, min: nat, k: int) -> Seq<Seq<char>> {
    select_top(vals, frequent_values(vals, min), k)
}

/// A pruned categorical column: values outside the keep list are
/// replaced by the sentinel.
pub open spec fn pruned_vals(vals: Seq<Seq<char>>, keep: Seq<Seq<char>>) -> Seq<Seq<char>> {
    Seq::new(
        vals.len(),
        |i: int|
            if views_contain(keep, vals[i]) {
                vals[i]
            } else {
                filler_view()
            },
    )
}

/// The pruned column list: ordinal columns pass through, a categorical
/// column keeps only its top values (the rest become the sentinel), and
/// a categorical column with nothing worth keeping is dropped.
pub open spec fn pruned_cols(cols: Seq<ColumnView>, min: nat, k: int) -> Seq<ColumnView>
    decreases cols.len(),
{
    if cols.len() == 0 {
        Seq::empty()
    } else {
        let head = cols[0];
        let rest = pruned_cols(cols.drop_first(), min, k);
        match head.values {
            ColumnValuesView::Ordinal(_) => seq![head] + rest,
            ColumnValuesView::Categorical(v) => {
                let keep = top_values(v, min, k);
                if keep.len() == 0 {
                    rest
                } else {
                    seq![
                        ColumnView {
                            name: head.name,
                            values: ColumnValuesView::Categorical(pruned_vals(v, keep)),
                        },
                    ] + rest
                }
            },
        }
    }
}

/// Copies an ordinal column's values.
fn copy_i64_vec(v: &Vec<i64>) -> (out: Vec<i64>)
    ensures
        out@ == v@,
{
    let mut out: Vec<i64> = Vec::new();
    let mut i: usize = 0;
    while i < v.len()
        invariant
            0 <= i <= v@.len(),
            out@ == v@.take(i as int),
        decreases v@.len() - i,
    {
        out.push(v[i]);
        proof {
            assert(out@ =~= v@.take(i + 1));
        }
        i = i + 1;
    }
    proof {
        assert(v@.take(v@.len() as int) =~= v@);
    }
    out
}

/// Counts how often the column holds exactly the given value.
fn count_string(values: &Vec<String>, v: &String) -> (c: usize)
    ensures
        c == count_view(str_views(values@), v@),
{
    let mut c: usize = 0;
    let mut i: usize = 0;
    while i < values.len()
        invariant
            0 <= i <= values@.len(),
            c == count_view_prefix(str_views(values@), v@, i as int),
            c <= i,
        decreases values@.len() - i,
    {
        proof {
            assert(str_views(values@)[i as int] == values@[i as int]@);
        }
        if values[i] == *v {
            c = c + 1;
        }
        i = i + 1;
    }
    c
}

/// The distinct values of the column, in order of first occurrence.
fn distinct_strings(values: &Vec<String>) -> (out: Vec<String>)
    ensures
        str_views(out@) == distinct_view_prefix(str_views(values@), values@.len() as int),
{
    let mut out: Vec<String> = Vec::new();
    let mut i: usize = 0;
    while i < values.len()
        invariant
            0 <= i <= values@.len(),
            str_views(out@) == distinct_view_prefix(str_views(values@), i as int),
        decreases values@.len() - i,
    {
        proof {
            assert(str_views(values@)[i as int] == values@[i as int]@);
        }
        if !contains_string(&out, &values[i]) {
            out.push(values[i].clone());
            proof {
                assert(str_views(out@) =~= distinct_view_prefix(str_views(values@), i + 1));
            }
        }
        i = i + 1;
    }
    out
}

/// The `k` most frequent of the given candidate values, most frequent
/// first, the earlier candidate winning ties.
fn select_top_strings(values: &Vec<String>, cands: Vec<String>, k: usize) -> (out: Vec<String>)
    ensures
        str_views(out@) == select_top(str_views(values@), str_views(cands@), k as int),
    decreases k,
{
    if k == 0 || cands.len() == 0 {
        proof {
            assert(str_views(Seq::<String>::empty()) =~= Seq::<Seq<char>>::empty());
        }
        return Vec::new();
    }
    let ghost gvals = str_views(values@);
    let ghost gcands = str_views(cands@);
    let mut b: usize = 0;
    let mut bcount = count_string(values, &cands[0]);
    let mut j: usize = 1;
    while j < cands.len()
        invariant
            0 < cands@.len(),
            gvals == str_views(values@),
            gcands == str_views(cands@),
            0 <= b < j <= cands@.len(),
            b == best_freq_idx(gvals, gcands, j as int),
            bcount == count_view(gvals, gcands[b as int]),
        decreases cands@.len() - j,
    {
        proof {
            assert(gcands[j as int] == cands@[j as int]@);
        }
        let c = count_string(values, &cands[j]);
        if c > bcount {
            b = j;
            bcount = c;
        }
        j = j + 1;
    }
    let mut cands = cands;
    let ghost prev_cands = cands@;
    let best = cands.remove(b);
    proof {
        prev_cands.remove_ensures(b as int);
        assert forall|a: int| 0 <= a < str_views(cands@).len() implies #[trigger] str_views(
            cands@,
        )[a] == gcands.remove(b as int)[a] by {
            assert(str_views(cands@)[a] == cands@[a]@);
        }
        assert(str_views(cands@) =~= gcands.remove(b as int));
    }
    let rest = select_top_strings(values, cands, k - 1);
    let mut out: Vec<String> = Vec::new();
    out.push(best);
    let mut rest = rest;
    out.append(&mut rest);
    proof {
        assert(str_views(out@) =~= select_top(gvals, gcands, k as int));
    }
    out
}

/// The values a categorical column keeps under pruning: its
/// `max_cardinality` most frequent values among those occurring at least
/// `min_leave_size` times, most frequent first.
pub fn get_most_common_string_values_as_vector(values: &Vec<String>, settings: Settings) -> (out:
    Vec<String>)
    ensures
        str_views(out@) == top_values(
            str_views(values@),
            settings.min_leave_size as nat,
            settings.max_cardinality as int,
        ),
{
    let ghost gvals = str_views(values@);
    let cands = distinct_strings(values);
    let ghost gcands = str_views(cands@);
    let mut frequent: Vec<String> = Vec::new();
    let mut j: usize = 0;
    while j < cands.len()
        invariant
            gvals == str_views(values@),
            gcands == str_views(cands@),
            0 <= j <= cands@.len(),
            str_views(frequent@) == frequent_upto(
                gvals,
                gcands,
                settings.min_leave_size as nat,
                j as int,
            ),
        decreases cands@.len() - j,
    {
        proof {
            assert(gcands[j as int] == cands@[j as int]@);
        }
        let c = count_string(values, &cands[j]);
        if (c as u128) >= settings.get_min_leave_size() {
            frequent.push(cands[j].clone());
            proof {
                assert(str_views(frequent@) =~= frequent_upto(
                    gvals,
                    gcands,
                    settings.min_leave_size as nat,
                    j + 1,
                ));
            }
        }
        j = j + 1;
    }
    select_top_strings(values, frequent, settings.get_max_cardinality() as usize)
}

/// The names of the categorical columns of the first `i` columns, in
/// table order.
pub open spec fn cat_names_upto(cols: Seq<Column>, i: int) -> Seq<Seq<char>>
    decreases i,
{
    if i <= 0 {
        Seq::empty()
    } else {
        cat_names_upto(cols, i - 1) + match cols[i - 1].values {
            ColumnValues::Categorical(_) => seq![cols[i - 1].name@],
            ColumnValues::Ordinal(_) => Seq::empty(),
        }
    }
}

/// The names of the table's categorical (string typed) columns, in table
/// order.
pub fn get_string_type_columns(tbl: &Table) -> (out: Vec<String>)
    ensures
        str_views(out@) == cat_names_upto(tbl.columns@, tbl.columns@.len() as int),
{
    let mut out: Vec<String> = Vec::new();
    let mut i: usize = 0;
    while i < tbl.columns.len()
        invariant
            0 <= i <= tbl.columns@.len(),
            str_views(out@) == cat_names_upto(tbl.columns@, i as int),
        decreases tbl.columns@.len() - i,
    {
        match &tbl.columns[i].values {
            ColumnValues::Categorical(_) => {
                out.push(tbl.columns[i].name.clone());
                proof {
                    assert(str_views(out@) =~= cat_names_upto(tbl.columns@, i + 1));
                }
            },
            ColumnValues::Ordinal(_) => {
                proof {
                    assert(str_views(out@) =~= cat_names_upto(tbl.columns@, i + 1));
                }
            },
        }
        i = i + 1;
    }
    out
}

/// Prunes one categorical column: values in the keep list pass through,
/// every other value becomes the sentinel.
pub fn prune_single_string_column(values: &Vec<String>, keep_values: &Vec<String>) -> (out: Vec<
    String,
>)
    ensures
        str_views(out@) == pruned_vals(str_views(values@), str_views(keep_values@)),
{
    let mut out: Vec<String> = Vec::new();
    let mut i: usize = 0;
    while i < values.len()
        invariant
            0 <= i <= values@.len(),
            out@.len() == i,
            forall|a: int|
                0 <= a < i ==> str_views(out@)[a] == pruned_vals(
                    str_views(values@),
                    str_views(keep_values@),
                )[a],
        decreases values@.len() - i,
    {
        let ghost prev = out@;
        proof {
            assert(str_views(values@)[i as int] == values@[i as int]@);
        }
        if contains_string(keep_values, &values[i]) {
            out.push(values[i].clone());
        } else {
            out.push(REDUNDANT_STRING_VALUE.to_owned());
        }
        proof {
            assert forall|a: int| 0 <= a < i + 1 implies str_views(out@)[a] == pruned_vals(
                str_views(values@),
                str_views(keep_values@),
            )[a] by {
                assert(str_views(out@)[a] == out@[a]@);
                if a < i {
                    assert(out@[a] == prev[a]);
                    assert(str_views(prev)[a] == prev[a]@);
                }
            }
        }
        i = i + 1;
    }
    proof {
        assert(str_views(out@) =~= pruned_vals(str_views(values@), str_views(keep_values@)));
    }
    out
}

/// Prunes every categorical column of the table: each keeps only its
/// most frequent values (the rest become the sentinel), and a column
/// with no value frequent enough to keep is dropped.  Ordinal columns
/// and the target pass through unchanged.
pub fn pre_process_dataframe(tbl: Table, settings: Settings) -> (out: Table)
    requires
        tbl.wf(),
    ensures
        out.target == tbl.target,
        cols_view(out.columns@) == pruned_cols(
            cols_view(tbl.columns@),
            settings.min_leave_size as nat,
            settings.max_cardinality as int,
        ),
        out.wf(),
{
    let ghost min = settings.min_leave_size as nat;
    let ghost k = settings.max_cardinality as int;
    let ghost full = cols_view(tbl.columns@);
    let mut out_cols: Vec<Column> = Vec::new();
    let ghost mut src: Seq<int> = Seq::empty();
    let mut i: usize = 0;
    proof {
        assert(full.skip(0) =~= full);
    }
    while i < tbl.columns.len()
        invariant
            tbl.wf(),
            full == cols_view(tbl.columns@),
            min == settings.min_leave_size as nat,
            k == settings.max_cardinality as int,
            0 <= i <= tbl.columns@.len(),
            pruned_cols(full, min, k) == cols_view(out_cols@) + pruned_cols(
                full.skip(i as int),
                min,
                k,
            ),
            src.len() == out_cols@.len(),
            forall|a: int|
                0 <= a < src.len() ==> 0 <= #[trigger] src[a] < i && out_cols@[a].name@
                    == tbl.columns@[src[a]].name@,
            forall|a: int, b: int| 0 <= a < b < src.len() ==> src[a] < src[b],
            forall|a: int|
                0 <= a < out_cols@.len() ==> (#[trigger] out_cols@[a]).spec_len()
                    == tbl.target@.len(),
        decreases tbl.columns@.len() - i,
    {
        let ghost prev_out = out_cols@;
        let ghost rest = full.skip(i as int);
        proof {
            assert(rest[0] == full[i as int]);
            assert(rest.drop_first() =~= full.skip(i + 1));
            assert(full[i as int] == col_view(tbl.columns@[i as int]));
        }
        match &tbl.columns[i].values {
            ColumnValues::Ordinal(v) => {
                let col = Column {
                    name: tbl.columns[i].name.clone(),
                    values: ColumnValues::Ordinal(copy_i64_vec(v)),
                };
                out_cols.push(col);
                proof {
                    src = src.push(i as int);
                    assert(out_cols@[prev_out.len() as int].spec_len() == tbl.columns@[i as int].spec_len());
                    assert(pruned_cols(rest, min, k) == seq![full[i as int]] + pruned_cols(
                        full.skip(i + 1),
                        min,
                        k,
                    ));
                    assert(col_view(out_cols@[prev_out.len() as int]) == full[i as int]);
                    assert forall|a: int| 0 <= a < out_cols@.len() implies #[trigger] cols_view(
                        out_cols@,
                    )[a] == (cols_view(prev_out) + seq![full[i as int]])[a] by {
                        assert(cols_view(out_cols@)[a] == col_view(out_cols@[a]));
                        if a < prev_out.len() {
                            assert(out_cols@[a] == prev_out[a]);
                            assert(cols_view(prev_out)[a] == col_view(prev_out[a]));
                        }
                    }
                    assert(cols_view(out_cols@) =~= cols_view(prev_out) + seq![full[i as int]]);
                    assert((cols_view(prev_out) + seq![full[i as int]]) + pruned_cols(
                        full.skip(i + 1),
                        min,
                        k,
                    ) =~= cols_view(prev_out) + (seq![full[i as int]] + pruned_cols(
                        full.skip(i + 1),
                        min,
                        k,
                    )));
                }
            },
            ColumnValues::Categorical(v) => {
                let keep = get_most_common_string_values_as_vector(v, settings);
                proof {
                    assert(rest.len() > 0);
                    assert(rest[0].values == ColumnValuesView::Categorical(str_views(v@)));
                    assert(str_views(keep@).len() == keep@.len());
                    assert(str_views(keep@) == top_values(str_views(v@), min, k));
                }
                if keep.len() == 0 {
                    proof {
                        assert(top_values(str_views(v@), min, k).len() == 0);
                        assert(pruned_cols(rest, min, k) == pruned_cols(full.skip(i + 1), min, k));
                    }
                } else {
                    let pruned = prune_single_string_column(v, &keep);
                    let ghost gpruned = str_views(pruned@);
                    let col = Column {
                        name: tbl.columns[i].name.clone(),
                        values: ColumnValues::Categorical(pruned),
                    };
                    let ghost newview = (ColumnView {
                        name: tbl.columns@[i as int].name@,
                        values: ColumnValuesView::Categorical(gpruned),
                    });
                    out_cols.push(col);
                    proof {
                        src = src.push(i as int);
                        assert(str_views(out_cols@[prev_out.len() as int].values->Categorical_0@).len()
                            == str_views(v@).len());
                        assert(out_cols@[prev_out.len() as int].spec_len() == tbl.columns@[i as int].spec_len());
                        assert(pruned_cols(rest, min, k) == seq![newview] + pruned_cols(
                            full.skip(i + 1),
                            min,
                            k,
                        ));
                        assert(col_view(out_cols@[prev_out.len() as int]) == newview);
                        assert forall|a: int| 0 <= a < out_cols@.len() implies #[trigger] cols_view(
                            out_cols@,
                        )[a] == (cols_view(prev_out) + seq![newview])[a] by {
                            assert(cols_view(out_cols@)[a] == col_view(out_cols@[a]));
                            if a < prev_out.len() {
                                assert(out_cols@[a] == prev_out[a]);
                                assert(cols_view(prev_out)[a] == col_view(prev_out[a]));
                            }
                        }
                        assert(cols_view(out_cols@) =~= cols_view(prev_out) + seq![newview]);
                        assert((cols_view(prev_out) + seq![newview]) + pruned_cols(
                            full.skip(i + 1),
                            min,
                            k,
                        ) =~= cols_view(prev_out) + (seq![newview] + pruned_cols(
                            full.skip(i + 1),
                            min,
                            k,
                        )));
                    }
                }
            },
        }
        i = i + 1;
    }
    proof {
        assert(full.skip(tbl.columns@.len() as int) =~= Seq::<ColumnView>::empty());
        assert(cols_view(out_cols@) + pruned_cols(
            full.skip(tbl.columns@.len() as int),
            min,
            k,
        ) =~= cols_view(out_cols@));
    }
    let out = Table { columns: out_cols, target: tbl.target };
    proof {
        assert forall|a: int, b: int| 0 <= a < b < out.columns@.len() implies (
        #[trigger] out.columns@[a]).name@ != (#[trigger] out.columns@[b]).name@ by {
            assert(src[a] < src[b]);
        }
    }
    out
}

} // verus!
