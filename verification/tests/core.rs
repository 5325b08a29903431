//! Tests of the core engines: the proportion scaler, the table
//! operations, and the group-combination enumerator.

use dfplot::df::{category_names, cont_str_values, filter_str_values};
use dfplot::error::Error;
use dfplot::group::{Groups, SelectedGroupCategoryPair};
use dfplot::num::Num;
use dfplot::scale::{ProportionScaler, ProportionScalingEstimator};
use dfplot::table::{Column, ColumnData, Table};

fn str_col(name: &str, vals: &[Option<&str>]) -> Column {
    Column {
        name: name.to_string(),
        data: ColumnData::Strs(vals.iter().map(|v| v.map(|s| s.to_string())).collect()),
    }
}

fn num_col(name: &str, vals: &[Option<Num>]) -> Column {
    Column { name: name.to_string(), data: ColumnData::Nums(vals.to_vec()) }
}

fn fin(v: i64) -> Option<Num> {
    Some(Num::Finite(v))
}

fn fit(obs: &[Num]) -> Result<ProportionScaler, Error> {
    ProportionScalingEstimator.fit(&obs.to_vec())
}

#[test]
fn fit_and_transform_simple_proportions() {
    // Observations [3, 1]: the scaler makes them 0.75 and 0.25.
    let sc = fit(&[Num::Finite(3), Num::Finite(1)]).unwrap();
    let f3 = sc.transform(Num::Finite(3)).unwrap();
    let f1 = sc.transform(Num::Finite(1)).unwrap();
    assert_eq!((f3.num, f3.den), (3, 4));
    assert_eq!((f1.num, f1.den), (1, 4));
    let v3 = f3.num as f64 / f3.den as f64;
    let v1 = f1.num as f64 / f1.den as f64;
    assert!((v3 - 0.75).abs() < 1e-12);
    assert!((v1 - 0.25).abs() < 1e-12);
    assert!((v3 + v1 - 1.0).abs() < 1e-12);
}

#[test]
fn fit_rejects_empty_zero_negative_and_nonfinite() {
    assert_eq!(fit(&[]), Err(Error::ZeroTotal));
    assert_eq!(fit(&[Num::Finite(0), Num::Finite(0)]), Err(Error::ZeroTotal));
    assert_eq!(fit(&[Num::Finite(-1), Num::Finite(2)]), Err(Error::NegativeObservation));
    assert_eq!(fit(&[Num::NotFinite, Num::Finite(1)]), Err(Error::NonFiniteObservation));
}

#[test]
fn fit_reports_the_leftmost_invalid_observation() {
    assert_eq!(
        fit(&[Num::Finite(1), Num::NotFinite, Num::Finite(-2)]),
        Err(Error::NonFiniteObservation)
    );
    assert_eq!(
        fit(&[Num::Finite(1), Num::Finite(-2), Num::NotFinite]),
        Err(Error::NegativeObservation)
    );
}

#[test]
fn fit_rejects_a_total_beyond_machine_range() {
    assert_eq!(fit(&[Num::Finite(i64::MAX), Num::Finite(1)]), Err(Error::Overflow));
}

#[test]
fn transform_rejects_negative_and_nonfinite_whatever_the_scaler() {
    let sc = fit(&[Num::Finite(2), Num::Finite(2)]).unwrap();
    assert_eq!(sc.transform(Num::Finite(-1)), Err(Error::NegativeObservation));
    assert_eq!(sc.transform(Num::NotFinite), Err(Error::NonFiniteObservation));
}

#[test]
fn transformed_observations_sum_to_one() {
    // Round trip: the fractions of the fitted observations sum to 1.
    let obs = [Num::Finite(5), Num::Finite(7), Num::Finite(12)];
    let sc = fit(&obs).unwrap();
    let mut total = 0.0f64;
    for v in obs {
        let f = sc.transform(v).unwrap();
        total += f.num as f64 / f.den as f64;
    }
    assert!((total - 1.0).abs() < 1e-12);
}

#[test]
fn transform_beyond_the_total_is_not_range_checked() {
    // A value above the category total yields a fraction above one.
    let sc = fit(&[Num::Finite(2), Num::Finite(2)]).unwrap();
    let f = sc.transform(Num::Finite(8)).unwrap();
    assert_eq!((f.num, f.den), (8, 4));
}

#[test]
fn category_names_keeps_first_occurrence_order() {
    let t = Table {
        columns: vec![str_col(
            "g",
            &[Some("b"), Some("a"), Some("b"), Some("c"), Some("a")],
        )],
    };
    let cats = category_names(&t, "g").unwrap();
    assert_eq!(cats, vec!["b".to_string(), "a".to_string(), "c".to_string()]);
}

#[test]
fn category_names_rejects_missing_cells_and_wrong_types() {
    let t = Table { columns: vec![str_col("g", &[Some("a"), None])] };
    assert_eq!(category_names(&t, "g"), Err(Error::MissingValue("g".to_string())));
    let t2 = Table { columns: vec![num_col("g", &[fin(1)])] };
    assert_eq!(category_names(&t2, "g"), Err(Error::NotStringColumn("g".to_string())));
    let t3 = Table { columns: vec![] };
    assert_eq!(category_names(&t3, "g"), Err(Error::ColumnNotFound("g".to_string())));
}

#[test]
fn str_value_accessors() {
    let full = str_col("s", &[Some("x"), Some("y")]);
    assert_eq!(cont_str_values(&full).unwrap(), vec!["x".to_string(), "y".to_string()]);
    let holed = str_col("s", &[Some("x"), None, Some("z")]);
    assert_eq!(cont_str_values(&holed), Err(Error::MissingValue("s".to_string())));
    assert_eq!(filter_str_values(&holed).unwrap(), vec!["x".to_string(), "z".to_string()]);
}

#[test]
fn filter_eq_keeps_matching_rows_in_order() {
    let t = Table {
        columns: vec![
            str_col("g", &[Some("a"), Some("b"), Some("a")]),
            num_col("v", &[fin(1), fin(2), fin(3)]),
        ],
    };
    let f = t.filter_eq("g", "a").unwrap();
    assert_eq!(f.height(), 2);
    match &f.columns[1].data {
        ColumnData::Nums(cells) => assert_eq!(cells, &vec![fin(1), fin(3)]),
        _ => panic!("numeric column expected"),
    }
    let empty = t.filter_eq("g", "zz").unwrap();
    assert_eq!(empty.height(), 0);
    assert_eq!(t.filter_eq("missing", "a"), Err(Error::ColumnNotFound("missing".to_string())));
    assert_eq!(t.filter_eq("v", "a"), Err(Error::NotStringColumn("v".to_string())));
}

#[test]
fn group_by_sum_sums_per_category() {
    // The end-to-end aggregation of the proportion pipeline:
    // x=[A,A,B], y1=[1,3,2], y2=[1,1,2] groups to A:(4,2), B:(2,2).
    let t = Table {
        columns: vec![
            str_col("x", &[Some("A"), Some("A"), Some("B")]),
            num_col("y1", &[fin(1), fin(3), fin(2)]),
            num_col("y2", &[fin(1), fin(1), fin(2)]),
        ],
    };
    let g = t.group_by_sum("x", &vec!["y1".to_string(), "y2".to_string()]).unwrap();
    assert_eq!(g.height(), 2);
    match &g.columns[0].data {
        ColumnData::Strs(cells) => {
            assert_eq!(cells, &vec![Some("A".to_string()), Some("B".to_string())])
        }
        _ => panic!("string column expected"),
    }
    match &g.columns[1].data {
        ColumnData::Nums(cells) => assert_eq!(cells, &vec![fin(4), fin(2)]),
        _ => panic!("numeric column expected"),
    }
    match &g.columns[2].data {
        ColumnData::Nums(cells) => assert_eq!(cells, &vec![fin(2), fin(2)]),
        _ => panic!("numeric column expected"),
    }
}

#[test]
fn group_by_sum_skips_missing_and_poisons_on_nonfinite() {
    let t = Table {
        columns: vec![
            str_col("x", &[Some("A"), Some("A"), Some("B"), Some("B")]),
            num_col("y", &[fin(1), None, Some(Num::NotFinite), fin(5)]),
        ],
    };
    let g = t.group_by_sum("x", &vec!["y".to_string()]).unwrap();
    match &g.columns[1].data {
        ColumnData::Nums(cells) => assert_eq!(cells, &vec![fin(1), Some(Num::NotFinite)]),
        _ => panic!("numeric column expected"),
    }
}

#[test]
fn groups_discover_categories_per_column() {
    let t = Table {
        columns: vec![
            str_col("region", &[Some("EU"), Some("EU"), Some("US"), Some("US")]),
            str_col("tier", &[Some("gold"), Some("silver"), Some("gold"), Some("silver")]),
        ],
    };
    let gs = Groups::from_df(
        &t,
        vec!["region".to_string(), "tier".to_string()],
    )
    .unwrap();
    assert_eq!(gs.groups.len(), 2);
    assert_eq!(gs.groups[0].categories, vec!["EU".to_string(), "US".to_string()]);
    assert_eq!(gs.groups[1].categories, vec!["gold".to_string(), "silver".to_string()]);
}

#[test]
fn from_df_rejects_bad_group_columns() {
    let t = Table {
        columns: vec![str_col("g", &[Some("a"), None]), num_col("n", &[fin(1), fin(2)])],
    };
    assert_eq!(
        Groups::from_df(&t, vec!["g".to_string()]),
        Err(Error::MissingValue("g".to_string()))
    );
    assert_eq!(
        Groups::from_df(&t, vec!["n".to_string()]),
        Err(Error::NotStringColumn("n".to_string()))
    );
    assert_eq!(
        Groups::from_df(&t, vec!["zz".to_string()]),
        Err(Error::ColumnNotFound("zz".to_string()))
    );
}

fn combo_labels(combo: &Vec<SelectedGroupCategoryPair>) -> Vec<(String, String)> {
    combo.iter().map(|p| (p.column_name.clone(), p.category.clone())).collect()
}

#[test]
fn product_is_in_odometer_order() {
    // Spec example: region=[EU,US], tier=[gold,silver] enumerate as
    // (EU,gold),(EU,silver),(US,gold),(US,silver).
    let t = Table {
        columns: vec![
            str_col("region", &[Some("EU"), Some("US")]),
            str_col("tier", &[Some("gold"), Some("silver")]),
        ],
    };
    let gs = Groups::from_df(&t, vec!["region".to_string(), "tier".to_string()]).unwrap();
    let combos = gs.product();
    let want: Vec<Vec<(&str, &str)>> = vec![
        vec![("region", "EU"), ("tier", "gold")],
        vec![("region", "EU"), ("tier", "silver")],
        vec![("region", "US"), ("tier", "gold")],
        vec![("region", "US"), ("tier", "silver")],
    ];
    assert_eq!(combos.len(), want.len());
    for (c, w) in combos.iter().zip(want.iter()) {
        let got = combo_labels(c);
        let expect: Vec<(String, String)> =
            w.iter().map(|(a, b)| (a.to_string(), b.to_string())).collect();
        assert_eq!(got, expect);
    }
}

#[test]
fn product_count_is_the_product_of_category_counts() {
    let t = Table {
        columns: vec![
            str_col("a", &[Some("1"), Some("2"), Some("3")]),
            str_col("b", &[Some("x"), Some("y"), Some("x")]),
        ],
    };
    let gs = Groups::from_df(&t, vec!["a".to_string(), "b".to_string()]).unwrap();
    assert_eq!(gs.product().len(), 3 * 2);
}

#[test]
fn for_each_product_visits_every_combination_once() {
    // The cross combination (A, v) matches no row, yet it is visited,
    // with an empty partition.
    let t = Table {
        columns: vec![
            str_col("g1", &[Some("A"), Some("B")]),
            str_col("g2", &[Some("u"), Some("v")]),
        ],
    };
    let gs = Groups::from_df(&t, vec!["g1".to_string(), "g2".to_string()]).unwrap();
    let visited = gs
        .for_each_product(&t, Vec::new(), |mut acc: Vec<(usize, Vec<(String, String)>)>,
            part: Table,
            combo: Vec<SelectedGroupCategoryPair>|
         -> Result<Vec<(usize, Vec<(String, String)>)>, Error> {
            acc.push((part.height(), combo_labels(&combo)));
            Ok(acc)
        })
        .unwrap();
    assert_eq!(visited.len(), 4);
    let labels: Vec<Vec<(String, String)>> = visited.iter().map(|v| v.1.clone()).collect();
    assert_eq!(labels[0][0].1, "A");
    assert_eq!(labels[0][1].1, "u");
    assert_eq!(labels[1][1].1, "v");
    // (A, v) matched nothing but was still visited.
    assert_eq!(visited[1].0, 0);
    assert_eq!(visited[0].0, 1);
    assert_eq!(visited[3].0, 1);
}

#[test]
fn for_each_product_aborts_on_the_first_visitor_error() {
    let t = Table { columns: vec![str_col("g", &[Some("a"), Some("b"), Some("c")])] };
    let gs = Groups::from_df(&t, vec!["g".to_string()]).unwrap();
    let r = gs.for_each_product(&t, 0usize, |n: usize, _part: Table, combo: Vec<
        SelectedGroupCategoryPair,
    >|
     -> Result<usize, Error> {
        if combo[0].category == "b" {
            Err(Error::ZeroTotal)
        } else {
            Ok(n + 1)
        }
    });
    assert_eq!(r, Err(Error::ZeroTotal));
}

#[test]
fn partitions_pair_each_combination_with_its_rows() {
    let t = Table {
        columns: vec![
            str_col("g", &[Some("a"), Some("b"), Some("a")]),
            num_col("v", &[fin(10), fin(20), fin(30)]),
        ],
    };
    let gs = Groups::from_df(&t, vec!["g".to_string()]).unwrap();
    let parts = gs.partitions(&t).unwrap();
    assert_eq!(parts.len(), 2);
    assert_eq!(parts[0].0.height(), 2);
    assert_eq!(parts[1].0.height(), 1);
    assert_eq!(parts[0].1[0].category, "a");
    assert_eq!(parts[1].1[0].category, "b");
}

#[test]
fn an_empty_column_has_no_categories() {
    let t = Table { columns: vec![str_col("g", &[])] };
    assert_eq!(category_names(&t, "g").unwrap(), Vec::<String>::new());
    let gs = Groups::from_df(&t, vec!["g".to_string()]).unwrap();
    // One group with zero categories: the product is empty.
    assert_eq!(gs.product().len(), 0);
    let visits = gs
        .for_each_product(&t, 0usize, |n: usize, _p: Table, _c: Vec<
            SelectedGroupCategoryPair,
        >|
         -> Result<usize, Error> { Ok(n + 1) })
        .unwrap();
    assert_eq!(visits, 0);
}

#[test]
fn no_groups_means_one_empty_combination() {
    let t = Table { columns: vec![str_col("g", &[Some("a")])] };
    let gs = Groups::from_df(&t, vec![]).unwrap();
    let combos = gs.product();
    assert_eq!(combos.len(), 1);
    assert!(combos[0].is_empty());
}
