//! Tests of the chart assembly: keyword parsing, trace construction per
//! chart type, grouping, and the proportion pipeline end to end.

use dfplot::categorical::bar::{parse_barmode, BarArgs};
use dfplot::error::Error;
use dfplot::num::{Frac, Num};
use dfplot::numeral::boxplot::BoxArgs;
use dfplot::numeral::histogram::HistogramArgs;
use dfplot::numeral::scatter::{parse_mode, ScatterArgs};
use dfplot::table::{Column, ColumnData, Table};
use dfplot::trace::{BarMode, Mode, ScatterX, Trace};
use dfplot::Command;

fn str_col(name: &str, vals: &[Option<&str>]) -> Column {
    Column {
        name: name.to_string(),
        data: ColumnData::Strs(vals.iter().map(|v| v.map(|s| s.to_string())).collect()),
    }
}

fn num_col(name: &str, vals: &[Option<Num>]) -> Column {
    Column { name: name.to_string(), data: ColumnData::Nums(vals.to_vec()) }
}

fn fin(v: i64) -> Option<Num> {
    Some(Num::Finite(v))
}

fn frac_value(f: &Frac) -> f64 {
    f.num as f64 / f.den as f64
}

#[test]
fn parse_mode_single_keywords() {
    assert_eq!(parse_mode("lines"), Ok(Mode::Lines));
    assert_eq!(parse_mode("markers"), Ok(Mode::Markers));
    assert_eq!(parse_mode("text"), Ok(Mode::Text));
    assert_eq!(parse_mode("none"), Ok(Mode::Hidden));
}

#[test]
fn parse_mode_combinations_and_whitespace() {
    assert_eq!(parse_mode("lines+markers"), Ok(Mode::LinesMarkers));
    assert_eq!(parse_mode("lines,markers"), Ok(Mode::LinesMarkers));
    assert_eq!(parse_mode("lines+markers+text"), Ok(Mode::LinesMarkersText));
    assert_eq!(parse_mode("lines , text"), Ok(Mode::LinesText));
    assert_eq!(parse_mode("markers+text"), Ok(Mode::MarkersText));
    assert_eq!(parse_mode(" lines "), Ok(Mode::Lines));
}

#[test]
fn parse_mode_none_wins_immediately() {
    assert_eq!(parse_mode("lines+none+bogus"), Ok(Mode::Hidden));
}

#[test]
fn parse_mode_rejects_unknown_keywords() {
    assert_eq!(parse_mode("dots"), Err(Error::UnknownPlotMode("dots".to_string())));
    assert_eq!(parse_mode(""), Err(Error::UnknownPlotMode("".to_string())));
    assert_eq!(parse_mode("lines+"), Err(Error::UnknownPlotMode("".to_string())));
}

#[test]
fn parse_barmode_keywords() {
    assert_eq!(parse_barmode("group"), Ok((BarMode::Group, false)));
    assert_eq!(parse_barmode("overlay"), Ok((BarMode::Overlay, false)));
    assert_eq!(parse_barmode("relative"), Ok((BarMode::Relative, false)));
    assert_eq!(parse_barmode("stack"), Ok((BarMode::Stack, false)));
    assert_eq!(parse_barmode("proportion"), Ok((BarMode::Stack, true)));
    assert_eq!(
        parse_barmode("sideways"),
        Err(Error::UnknownBarMode("sideways".to_string()))
    );
}

fn scatter_args(x: &str, y: &[&str], group: Option<&[&str]>, mode: Option<&str>) -> ScatterArgs {
    ScatterArgs {
        input: "data.csv".to_string(),
        x: x.to_string(),
        y: y.iter().map(|s| s.to_string()).collect(),
        group: group.map(|g| g.iter().map(|s| s.to_string()).collect()),
        output: None,
        mode: mode.map(|s| s.to_string()),
    }
}

#[test]
fn scatter_ungrouped_builds_one_trace_per_y_column() {
    let t = Table {
        columns: vec![
            num_col("t", &[fin(1), fin(2), fin(3)]),
            num_col("v", &[fin(10), fin(20), fin(30)]),
            num_col("w", &[fin(5), None, fin(7)]),
        ],
    };
    let pm = scatter_args("t", &["v", "w"], None, Some("lines")).run(&t).unwrap();
    assert_eq!(pm.traces.len(), 2);
    assert_eq!(pm.x_title, Some("t".to_string()));
    assert_eq!(pm.y_title, None);
    assert_eq!(pm.bar_mode, None);
    match &pm.traces[0] {
        Trace::Scatter { name, x, y, mode } => {
            assert_eq!(name, "v");
            assert_eq!(*mode, Some(Mode::Lines));
            match x {
                ScatterX::Cells(cells) => assert_eq!(cells, &vec![fin(1), fin(2), fin(3)]),
                _ => panic!("x cells expected"),
            }
            assert_eq!(y, &vec![fin(10), fin(20), fin(30)]);
        }
        _ => panic!("scatter trace expected"),
    }
    match &pm.traces[1] {
        Trace::Scatter { name, y, .. } => {
            assert_eq!(name, "w");
            assert_eq!(y, &vec![fin(5), None, fin(7)]);
        }
        _ => panic!("scatter trace expected"),
    }
}

#[test]
fn scatter_without_x_column_numbers_the_rows() {
    let t = Table { columns: vec![num_col("v", &[fin(10), fin(20)])] };
    let pm = scatter_args("nope", &["v"], None, None).run(&t).unwrap();
    assert_eq!(pm.y_title, Some("v".to_string()));
    match &pm.traces[0] {
        Trace::Scatter { x, mode, .. } => {
            assert_eq!(*mode, None);
            match x {
                ScatterX::RowNumbers(n) => assert_eq!(*n, 2),
                _ => panic!("row numbers expected"),
            }
        }
        _ => panic!("scatter trace expected"),
    }
}

#[test]
fn scatter_grouped_names_traces_with_their_labels() {
    let t = Table {
        columns: vec![
            str_col("g", &[Some("a"), Some("b"), Some("a")]),
            num_col("t", &[fin(1), fin(2), fin(3)]),
            num_col("v", &[fin(10), fin(20), fin(30)]),
        ],
    };
    let pm = scatter_args("t", &["v"], Some(&["g"]), None).run(&t).unwrap();
    assert_eq!(pm.traces.len(), 2);
    match &pm.traces[0] {
        Trace::Scatter { name, y, .. } => {
            assert_eq!(name, "[a]:v");
            assert_eq!(y, &vec![fin(10), fin(30)]);
        }
        _ => panic!("scatter trace expected"),
    }
    match &pm.traces[1] {
        Trace::Scatter { name, y, .. } => {
            assert_eq!(name, "[b]:v");
            assert_eq!(y, &vec![fin(20)]);
        }
        _ => panic!("scatter trace expected"),
    }
}

#[test]
fn scatter_rejects_bad_requests() {
    let t = Table {
        columns: vec![str_col("s", &[Some("a")]), num_col("v", &[fin(1)])],
    };
    assert_eq!(
        scatter_args("v", &["zz"], None, None).run(&t),
        Err(Error::ColumnNotFound("zz".to_string()))
    );
    assert_eq!(
        scatter_args("s", &["v"], None, None).run(&t),
        Err(Error::NotNumericColumn("s".to_string()))
    );
    assert_eq!(
        scatter_args("v", &["s"], None, None).run(&t),
        Err(Error::NotNumericColumn("s".to_string()))
    );
    assert_eq!(
        scatter_args("v", &["v"], None, Some("wavy")).run(&t),
        Err(Error::UnknownPlotMode("wavy".to_string()))
    );
}

#[test]
fn histogram_handles_both_element_types_and_titles_count() {
    let t = Table {
        columns: vec![
            str_col("kind", &[Some("a"), None, Some("b")]),
            num_col("size", &[fin(1), fin(2), None]),
        ],
    };
    let args = HistogramArgs {
        input: "data.csv".to_string(),
        x: vec!["kind".to_string(), "size".to_string()],
        output: None,
    };
    let pm = args.run(&t).unwrap();
    assert_eq!(pm.y_title, Some("count".to_string()));
    assert_eq!(pm.x_title, None);
    match &pm.traces[0] {
        Trace::HistogramStrs { name, x } => {
            assert_eq!(name, "kind");
            assert_eq!(x, &vec![Some("a".to_string()), None, Some("b".to_string())]);
        }
        _ => panic!("string histogram expected"),
    }
    match &pm.traces[1] {
        Trace::HistogramNums { name, x } => {
            assert_eq!(name, "size");
            assert_eq!(x, &vec![fin(1), fin(2), None]);
        }
        _ => panic!("numeric histogram expected"),
    }
}

#[test]
fn box_chart_titles_a_single_column_and_keeps_cells() {
    let t = Table { columns: vec![num_col("v", &[fin(1), None, fin(3)])] };
    let args =
        BoxArgs { input: "data.csv".to_string(), y: vec!["v".to_string()], output: None };
    let pm = args.run(&t).unwrap();
    assert_eq!(pm.x_title, Some("v".to_string()));
    match &pm.traces[0] {
        Trace::BoxPlot { name, y } => {
            assert_eq!(name, "v");
            assert_eq!(y, &vec![fin(1), None, fin(3)]);
        }
        _ => panic!("box trace expected"),
    }
    let bad = BoxArgs {
        input: "data.csv".to_string(),
        y: vec!["zz".to_string()],
        output: None,
    };
    assert_eq!(bad.run(&t), Err(Error::ColumnNotFound("zz".to_string())));
}

fn bar_args(x: &str, y: &[&str], barmode: &str, group: Option<&[&str]>) -> BarArgs {
    BarArgs {
        input: "data.csv".to_string(),
        x: x.to_string(),
        y: y.iter().map(|s| s.to_string()).collect(),
        output: None,
        barmode: barmode.to_string(),
        group: group.map(|g| g.iter().map(|s| s.to_string()).collect()),
    }
}

fn p7_table() -> Table {
    Table {
        columns: vec![
            str_col("x", &[Some("A"), Some("A"), Some("B")]),
            num_col("y1", &[fin(1), fin(3), fin(2)]),
            num_col("y2", &[fin(1), fin(1), fin(2)]),
        ],
    }
}

#[test]
fn bar_plain_traces_carry_labels_and_values() {
    let pm = bar_args("x", &["y1"], "group", None).run(&p7_table()).unwrap();
    assert_eq!(pm.bar_mode, Some(BarMode::Group));
    assert_eq!(pm.x_title, Some("x".to_string()));
    assert_eq!(pm.y_title, Some("y1".to_string()));
    match &pm.traces[0] {
        Trace::Bar { name, x, y } => {
            assert_eq!(name, "y1");
            assert_eq!(x, &vec!["A".to_string(), "A".to_string(), "B".to_string()]);
            assert_eq!(y, &vec![Num::Finite(1), Num::Finite(3), Num::Finite(2)]);
        }
        _ => panic!("bar trace expected"),
    }
}

#[test]
fn bar_without_x_column_numbers_the_rows() {
    let t = Table { columns: vec![num_col("y", &[fin(4), fin(5), fin(6)])] };
    let pm = bar_args("nope", &["y"], "stack", None).run(&t).unwrap();
    match &pm.traces[0] {
        Trace::Bar { x, .. } => {
            assert_eq!(x, &vec!["1".to_string(), "2".to_string(), "3".to_string()]);
        }
        _ => panic!("bar trace expected"),
    }
}

#[test]
fn bar_proportion_end_to_end() {
    // x=[A,A,B], y1=[1,3,2], y2=[1,1,2]: category totals are A=6, B=4;
    // the first y1 value is 1/6 of its category.
    let pm = bar_args("x", &["y1", "y2"], "proportion", None).run(&p7_table()).unwrap();
    assert_eq!(pm.bar_mode, Some(BarMode::Stack));
    match &pm.traces[0] {
        Trace::ProportionBar { name, x, y } => {
            assert_eq!(name, "y1");
            assert_eq!(x[0], "A");
            assert_eq!((y[0].num, y[0].den), (1, 6));
            assert!((frac_value(&y[0]) - 1.0 / 6.0).abs() < 1e-12);
            assert_eq!((y[1].num, y[1].den), (3, 6));
            assert_eq!((y[2].num, y[2].den), (2, 4));
        }
        _ => panic!("proportion trace expected"),
    }
    match &pm.traces[1] {
        Trace::ProportionBar { name, y, .. } => {
            assert_eq!(name, "y2");
            assert_eq!((y[0].num, y[0].den), (1, 6));
            assert_eq!((y[1].num, y[1].den), (1, 6));
            assert_eq!((y[2].num, y[2].den), (2, 4));
        }
        _ => panic!("proportion trace expected"),
    }
    // Every category's proportions, summed across the series, reach one.
    let mut a_total = 0.0f64;
    let mut b_total = 0.0f64;
    for tr in &pm.traces {
        if let Trace::ProportionBar { x, y, .. } = tr {
            for (label, f) in x.iter().zip(y.iter()) {
                if label == "A" {
                    a_total += frac_value(f);
                } else {
                    b_total += frac_value(f);
                }
            }
        }
    }
    assert!((a_total - 1.0).abs() < 1e-12);
    assert!((b_total - 1.0).abs() < 1e-12);
}

#[test]
fn bar_proportion_rejects_bad_observations() {
    let neg = Table {
        columns: vec![
            str_col("x", &[Some("A"), Some("B")]),
            num_col("y", &[fin(-1), fin(2)]),
        ],
    };
    assert_eq!(
        bar_args("x", &["y"], "proportion", None).run(&neg),
        Err(Error::NegativeObservation)
    );
    let zero = Table {
        columns: vec![str_col("x", &[Some("A")]), num_col("y", &[fin(0)])],
    };
    assert_eq!(
        bar_args("x", &["y"], "proportion", None).run(&zero),
        Err(Error::ZeroTotal)
    );
    let nan = Table {
        columns: vec![str_col("x", &[Some("A")]), num_col("y", &[Some(Num::NotFinite)])],
    };
    assert_eq!(
        bar_args("x", &["y"], "proportion", None).run(&nan),
        Err(Error::NonFiniteObservation)
    );
}

#[test]
fn bar_rejects_an_unknown_barmode() {
    assert_eq!(
        bar_args("x", &["y1"], "piled", None).run(&p7_table()),
        Err(Error::UnknownBarMode("piled".to_string()))
    );
}

#[test]
fn bar_grouped_emits_one_trace_per_combination_and_series() {
    let t = Table {
        columns: vec![
            str_col("g", &[Some("n"), Some("s"), Some("n")]),
            str_col("x", &[Some("A"), Some("A"), Some("B")]),
            num_col("y1", &[fin(1), fin(3), fin(2)]),
        ],
    };
    let pm = bar_args("x", &["y1"], "group", Some(&["g"])).run(&t).unwrap();
    assert_eq!(pm.traces.len(), 2);
    match &pm.traces[0] {
        Trace::Bar { name, x, y } => {
            assert_eq!(name, "[n]:y1");
            assert_eq!(x, &vec!["A".to_string(), "B".to_string()]);
            assert_eq!(y, &vec![Num::Finite(1), Num::Finite(2)]);
        }
        _ => panic!("bar trace expected"),
    }
    match &pm.traces[1] {
        Trace::Bar { name, y, .. } => {
            assert_eq!(name, "[s]:y1");
            assert_eq!(y, &vec![Num::Finite(3)]);
        }
        _ => panic!("bar trace expected"),
    }
}

#[test]
fn command_dispatches_to_the_requested_chart() {
    let t = p7_table();
    let pm = Command::Bar(bar_args("x", &["y1"], "stack", None)).run(&t).unwrap();
    assert_eq!(pm.bar_mode, Some(BarMode::Stack));
    let t2 = Table { columns: vec![num_col("v", &[fin(1), fin(2)])] };
    let pm2 = Command::Scatter(scatter_args("v", &["v"], None, None)).run(&t2).unwrap();
    assert_eq!(pm2.traces.len(), 1);
    let pm3 = Command::BoxChart(BoxArgs {
        input: "d.csv".to_string(),
        y: vec!["v".to_string()],
        output: None,
    })
    .run(&t2)
    .unwrap();
    assert_eq!(pm3.x_title, Some("v".to_string()));
    let pm4 = Command::Histogram(HistogramArgs {
        input: "d.csv".to_string(),
        x: vec!["v".to_string()],
        output: None,
    })
    .run(&t2)
    .unwrap();
    assert_eq!(pm4.y_title, Some("count".to_string()));
}
