//! The scatter chart: one trace per requested y-column, optionally once
//! per group combination, with an optional drawing mode.

use vstd::prelude::*;
use vstd::string::StrSliceExecFns;

use crate::df::{opt_num_values, views};
use crate::error::Error;
use crate::group::{
    cats_of, group_col_err, group_col_ok, groups_built, lemma_partition_shape,
    lemma_names_col_idx, parts_match, same_shape, Groups, SelectedGroupCategoryPair,
};
use crate::table::{Column, ColumnData, Table};
use crate::text::{grouped_name, grouped_name_exec};
use crate::trace::{Mode, PlotModel, ScatterX, Trace};

verus! {

/// True of the characters that separate mode keywords.
pub open spec fn is_sep(c: char) -> bool {
    c == ',' || c == '+'
}

/// True of the whitespace trimmed around a mode keyword.
pub open spec fn is_space(c: char) -> bool {
    c == ' ' || c == '\t' || c == '\n' || c == '\r'
}

/// The text split at every separator: one piece per stretch between
/// separators, empty pieces kept.
pub open spec fn tokens(s: Seq<char>) -> Seq<Seq<char>>
    decreases s.len(),
{
    if s.len() == 0 {
        seq![Seq::empty()]
    } else {
        let p = tokens(s.drop_last());
        if is_sep(s.last()) {
            p.push(Seq::empty())
        } else {
            p.update(p.len() - 1, p.last().push(s.last()))
        }
    }
}

/// There is always at least one piece.
pub proof fn lemma_tokens_nonempty(s: Seq<char>)
    ensures
        tokens(s).len() >= 1,
    decreases s.len(),
{
    if s.len() > 0 {
        lemma_tokens_nonempty(s.drop_last());
    }
}

/// Splitting one more character appends to the last piece, or opens a new
/// one at a separator.
pub proof fn lemma_tokens_step(s: Seq<char>, i: int)
    requires
        0 <= i < s.len(),
    ensures
        tokens(s.take(i + 1)) == (if is_sep(s[i]) {
            tokens(s.take(i)).push(Seq::empty())
        } else {
            tokens(s.take(i)).update(
                tokens(s.take(i)).len() - 1,
                tokens(s.take(i)).last().push(s[i]),
            )
        }),
{
    assert(s.take(i + 1).drop_last() =~= s.take(i));
    assert(s.take(i + 1).last() == s[i]);
}

/// The text without its leading whitespace.
pub open spec fn trim_start(t: Seq<char>) -> Seq<char>
    decreases t.len(),
{
    if t.len() > 0 && is_space(t.first()) {
        trim_start(t.drop_first())
    } else {
        t
    }
}

/// The text without its trailing whitespace.
pub open spec fn trim_end(t: Seq<char>) -> Seq<char>
    decreases t.len(),
{
    if t.len() > 0 && is_space(t.last()) {
        trim_end(t.drop_last())
    } else {
        t
    }
}

/// The text without leading and trailing whitespace.
pub open spec fn trimmed(t: Seq<char>) -> Seq<char> {
    trim_end(trim_start(t))
}

/// The keyword for lines.
pub open spec fn lines_chars() -> Seq<char> {
    seq!['l', 'i', 'n', 'e', 's']
}

/// The keyword for markers.
pub open spec fn markers_chars() -> Seq<char> {
    seq!['m', 'a', 'r', 'k', 'e', 'r', 's']
}

/// The keyword for text labels.
pub open spec fn text_chars() -> Seq<char> {
    seq!['t', 'e', 'x', 't']
}

/// The keyword for drawing nothing.
pub open spec fn none_chars() -> Seq<char> {
    seq!['n', 'o', 'n', 'e']
}

/// The mode the accumulated keywords select.
pub open spec fn mode_of_flags(lines: bool, markers: bool, text: bool) -> Mode {
    if lines && markers && text {
        Mode::LinesMarkersText
    } else if lines && markers {
        Mode::LinesMarkers
    } else if lines && text {
        Mode::LinesText
    } else if lines {
        Mode::Lines
    } else if markers && text {
        Mode::MarkersText
    } else if markers {
        Mode::Markers
    } else if text {
        Mode::Text
    } else {
        Mode::Hidden
    }
}

/// What the remaining keyword pieces yield: each trimmed piece sets its
/// flag; the keyword for drawing nothing wins immediately; an unrecognized
/// piece is the error, carried as its trimmed text.
pub open spec fn parse_tokens(
    ts: Seq<Seq<char>>,
    lines: bool,
    markers: bool,
    text: bool,
) -> Result<Mode, Seq<char>>
    decreases ts.len(),
{
    if ts.len() == 0 {
        Ok(mode_of_flags(lines, markers, text))
    } else {
        let t = trimmed(ts.first());
        if t == lines_chars() {
            parse_tokens(ts.drop_first(), true, markers, text)
        } else if t == markers_chars() {
            parse_tokens(ts.drop_first(), lines, true, text)
        } else if t == text_chars() {
            parse_tokens(ts.drop_first(), lines, markers, true)
        } else if t == none_chars() {
            Ok(Mode::Hidden)
        } else {
            Err(t)
        }
    }
}

/// What parsing a whole mode string yields.
pub open spec fn mode_spec(s: Seq<char>) -> Result<Mode, Seq<char>> {
    parse_tokens(tokens(s), false, false, false)
}

/// True when the characters `a..b` of `s` are exactly the keyword.
fn range_is(s: &str, a: usize, b: usize, word: &str) -> (r: bool)
    requires
        a <= b <= s@.len(),
    ensures
        r == (s@.subrange(a as int, b as int) == word@),
{
    let wn = word.unicode_len();
    if b - a != wn {
        proof {
            assert(s@.subrange(a as int, b as int).len() != word@.len());
        }
        return false;
    }
    let mut q: usize = 0;
    while q < wn
        invariant
            a <= b <= s@.len(),
            wn == word@.len(),
            b - a == wn,
            0 <= q <= wn,
            forall|j: int| 0 <= j < q ==> s@[a + j] == word@[j],
        decreases wn - q,
    {
        if s.get_char(a + q) != word.get_char(q) {
            proof {
                assert(s@.subrange(a as int, b as int)[q as int] == s@[a + q]);
            }
            return false;
        }
        q += 1;
    }
    proof {
        assert(s@.subrange(a as int, b as int) =~= word@);
    }
    true
}

/// The position after the leading whitespace of the characters `a0..b`.
fn trim_start_idx(src: &str, a0: usize, b: usize) -> (a: usize)
    requires
        a0 <= b <= src@.len(),
    ensures
        a0 <= a <= b,
        src@.subrange(a as int, b as int) == trim_start(src@.subrange(a0 as int, b as int)),
{
    let mut a = a0;
    while a < b
        invariant
            a0 <= a <= b <= src@.len(),
            trim_start(src@.subrange(a as int, b as int)) == trim_start(
                src@.subrange(a0 as int, b as int),
            ),
        decreases b - a,
    {
        let c = src.get_char(a);
        if !(c == ' ' || c == '\t' || c == '\n' || c == '\r') {
            proof {
                assert(trim_start(src@.subrange(a as int, b as int)) == src@.subrange(
                    a as int,
                    b as int,
                ));
            }
            return a;
        }
        proof {
            assert(src@.subrange(a as int, b as int).drop_first() =~= src@.subrange(
                a as int + 1,
                b as int,
            ));
        }
        a += 1;
    }
    proof {
        assert(trim_start(src@.subrange(a as int, b as int)) == src@.subrange(
            a as int,
            b as int,
        ));
    }
    a
}

/// The position before the trailing whitespace of the characters `a..b0`.
fn trim_end_idx(src: &str, a: usize, b0: usize) -> (b: usize)
    requires
        a <= b0 <= src@.len(),
    ensures
        a <= b <= b0,
        src@.subrange(a as int, b as int) == trim_end(src@.subrange(a as int, b0 as int)),
{
    let mut b = b0;
    while b > a
        invariant
            a <= b <= b0 <= src@.len(),
            trim_end(src@.subrange(a as int, b as int)) == trim_end(
                src@.subrange(a as int, b0 as int),
            ),
        decreases b,
    {
        let c = src.get_char(b - 1);
        if !(c == ' ' || c == '\t' || c == '\n' || c == '\r') {
            proof {
                assert(trim_end(src@.subrange(a as int, b as int)) == src@.subrange(
                    a as int,
                    b as int,
                ));
            }
            return b;
        }
        proof {
            assert(src@.subrange(a as int, b as int).drop_last() =~= src@.subrange(
                a as int,
                b as int - 1,
            ));
        }
        b -= 1;
    }
    proof {
        assert(trim_end(src@.subrange(a as int, b as int)) == src@.subrange(a as int, b as int));
    }
    b
}

/// Parses a scatter-mode request: keywords among `lines`, `markers`,
/// `text` and `none`, separated by commas or plus signs, whitespace
/// around each ignored. Fails exactly on an unrecognized keyword, naming
/// it.
pub fn parse_mode(src: &str) -> (r: Result<Mode, Error>)
    ensures
        match r {
            Ok(m) => mode_spec(src@) == Ok::<Mode, Seq<char>>(m),
            Err(e) => mode_spec(src@) matches Err(t) && (e matches Error::UnknownPlotMode(w)
                && w@ == t),
        },
{
    let ghost s = src@;
    let n = src.unicode_len();
    let mut rngs: Vec<(usize, usize)> = Vec::new();
    let mut start: usize = 0;
    let mut i: usize = 0;
    proof {
        assert(s.take(0) =~= Seq::<char>::empty());
    }
    while i < n
        invariant
            n == s.len(),
            s == src@,
            0 <= start <= i <= n,
            tokens(s.take(i as int)).len() == rngs@.len() + 1,
            forall|k: int|
                0 <= k < rngs@.len() ==> ({
                    &&& (#[trigger] rngs@[k]).0 <= rngs@[k].1 <= n
                    &&& tokens(s.take(i as int))[k] == s.subrange(
                        rngs@[k].0 as int,
                        rngs@[k].1 as int,
                    )
                }),
            tokens(s.take(i as int)).last() == s.subrange(start as int, i as int),
        decreases n - i,
    {
        proof {
            lemma_tokens_step(s, i as int);
            lemma_tokens_nonempty(s.take(i as int));
        }
        let c = src.get_char(i);
        if c == ',' || c == '+' {
            rngs.push((start, i));
            start = i + 1;
            proof {
                assert(s.subrange(start as int, start as int) =~= Seq::<char>::empty());
                assert forall|k: int| 0 <= k < rngs@.len() implies ({
                    &&& (#[trigger] rngs@[k]).0 <= rngs@[k].1 <= n
                    &&& tokens(s.take(i as int + 1))[k] == s.subrange(
                        rngs@[k].0 as int,
                        rngs@[k].1 as int,
                    )
                }) by {
                    if k < rngs@.len() - 1 {
                        assert(tokens(s.take(i as int))[k] == s.subrange(
                            rngs@[k].0 as int,
                            rngs@[k].1 as int,
                        ));
                    }
                }
            }
        } else {
            proof {
                let p = tokens(s.take(i as int));
                assert(p.last().push(s[i as int]) =~= s.subrange(start as int, i as int + 1));
                assert forall|k: int| 0 <= k < rngs@.len() implies tokens(s.take(i as int + 1))[k]
                    == s.subrange(rngs@[k].0 as int, rngs@[k].1 as int) by {
                    assert(tokens(s.take(i as int + 1))[k] == p[k]);
                }
            }
        }
        i += 1;
    }
    rngs.push((start, n));
    proof {
        assert(s.take(n as int) =~= s);
    }
    let tn = rngs.len();
    let ghost ts = tokens(s);
    proof {
        assert(ts.len() == tn);
        assert(forall|k: int|
            0 <= k < tn ==> (#[trigger] rngs@[k]).0 <= rngs@[k].1 <= n && ts[k] == s.subrange(
                rngs@[k].0 as int,
                rngs@[k].1 as int,
            ));
    }
    let mut lines = false;
    let mut markers = false;
    let mut text = false;
    proof {
        assert(ts.skip(0) =~= ts);
    }
    let mut k: usize = 0;
    while k < tn
        invariant
            s == src@,
            n == s.len(),
            tn == rngs@.len(),
            ts == tokens(s),
            ts.len() == tn,
            forall|k2: int|
                0 <= k2 < tn ==> (#[trigger] rngs@[k2]).0 <= rngs@[k2].1 <= n && ts[k2]
                    == s.subrange(rngs@[k2].0 as int, rngs@[k2].1 as int),
            0 <= k <= tn,
            mode_spec(s) == parse_tokens(ts.skip(k as int), lines, markers, text),
        decreases tn - k,
    {
        let (a0, b0) = rngs[k];
        let ghost tok = ts[k as int];
        let a = trim_start_idx(src, a0, b0);
        let b = trim_end_idx(src, a, b0);
        proof {
            assert(s.subrange(a as int, b as int) == trimmed(tok));
            assert(ts.skip(k as int)[0] == ts[k as int]);
            assert(ts.skip(k as int).drop_first() =~= ts.skip(k as int + 1));
        }
        if range_is(src, a, b, "lines") {
            proof {
                reveal_strlit("lines");
                assert("lines"@ =~= lines_chars());
            }
            lines = true;
        } else if range_is(src, a, b, "markers") {
            proof {
                reveal_strlit("markers");
                assert("markers"@ =~= markers_chars());
            }
            markers = true;
        } else if range_is(src, a, b, "text") {
            proof {
                reveal_strlit("text");
                assert("text"@ =~= text_chars());
            }
            text = true;
        } else if range_is(src, a, b, "none") {
            proof {
                reveal_strlit("none");
                assert("none"@ =~= none_chars());
            }
            return Ok(Mode::Hidden);
        } else {
            proof {
                reveal_strlit("lines");
                reveal_strlit("markers");
                reveal_strlit("text");
                reveal_strlit("none");
                assert("lines"@ =~= lines_chars());
                assert("markers"@ =~= markers_chars());
                assert("text"@ =~= text_chars());
                assert("none"@ =~= none_chars());
            }
            let word = src.substring_char(a, b).to_owned();
            return Err(Error::UnknownPlotMode(word));
        }
        k += 1;
    }
    proof {
        assert(ts.skip(tn as int) =~= Seq::<Seq<char>>::empty());
    }
    if lines {
        if markers {
            if text {
                Ok(Mode::LinesMarkersText)
            } else {
                Ok(Mode::LinesMarkers)
            }
        } else {
            if text {
                Ok(Mode::LinesText)
            } else {
                Ok(Mode::Lines)
            }
        }
    } else {
        if markers {
            if text {
                Ok(Mode::MarkersText)
            } else {
                Ok(Mode::Markers)
            }
        } else {
            if text {
                Ok(Mode::Text)
            } else {
                Ok(Mode::Hidden)
            }
        }
    }
}

/// True when `tr` is the scatter trace named `tname` for the y-column
/// `yname` of `t`: the y-cells, the x-cells when the x-column exists and
/// one-based row numbers otherwise, and the requested drawing mode.
pub open spec fn is_scatter_trace(
    t: Table,
    xname: Seq<char>,
    yname: Seq<char>,
    tname: Seq<char>,
    md: Option<Mode>,
    tr: Trace,
) -> bool {
    &&& t.col_idx(yname) matches Some(cj)
    &&& t.columns@[cj].data matches ColumnData::Nums(ycells)
    &&& tr matches Trace::Scatter { name, x, y, mode }
    &&& name@ == tname
    &&& mode == md
    &&& y@ == ycells@
    &&& (match t.col_idx(xname) {
        Some(ci) => t.columns@[ci].data matches ColumnData::Nums(xcells) && x
            matches ScatterX::Cells(xv) && xv@ == xcells@,
        None => x matches ScatterX::RowNumbers(rn) && rn == ycells@.len(),
    })
}

/// True when the y-column, and the x-column if present, can feed a
/// scatter trace.
pub open spec fn scatter_col_ok(df: Table, xname: Seq<char>, yname: Seq<char>) -> bool {
    &&& df.col_idx(yname) matches Some(cj)
    &&& (match df.col_idx(xname) {
        Some(ci) => df.columns@[ci].data is Nums,
        None => true,
    })
    &&& df.columns@[cj].data is Nums
}

/// The error for a y-column that cannot feed a scatter trace: the column
/// is absent; or the x-column exists but holds strings; or the y-column
/// holds strings.
pub open spec fn scatter_col_err(df: Table, xname: Seq<char>, yname: Seq<char>, e: Error) -> bool {
    match df.col_idx(yname) {
        None => e matches Error::ColumnNotFound(s) && s@ == yname,
        Some(cj) => match df.col_idx(xname) {
            Some(ci) => if df.columns@[ci].data is Strs {
                e matches Error::NotNumericColumn(s) && s@ == df.columns@[ci].name@
            } else {
                df.columns@[cj].data is Strs && (e matches Error::NotNumericColumn(s) && s@
                    == df.columns@[cj].name@)
            },
            None => df.columns@[cj].data is Strs && (e matches Error::NotNumericColumn(s) && s@
                == df.columns@[cj].name@),
        },
    }
}

/// The parsed mode, as an option view.
pub open spec fn opt_chars(m: Option<&str>) -> Option<Seq<char>> {
    match m {
        Some(s) => Some(s@),
        None => None,
    }
}

/// The requested group columns, as an option view.
pub open spec fn opt_names(g: Option<Vec<String>>) -> Option<Seq<String>> {
    match g {
        Some(v) => Some(v@),
        None => None,
    }
}

/// True when `pm` holds, for every partition in order and every y-column
/// in order within it, the grouped scatter trace of that partition.
pub open spec fn grouped_scatter_witness(
    df: Table,
    xname: Seq<char>,
    y: Seq<String>,
    gn: Seq<String>,
    md: Option<Mode>,
    pm: PlotModel,
    gs: Groups,
    parts: Seq<(Table, Vec<SelectedGroupCategoryPair>)>,
) -> bool {
    &&& groups_built(df, gn, gs)
    &&& parts_match(df, gs.groups@, parts)
    &&& pm.traces@.len() == parts.len() * y.len()
    &&& forall|p: int, j: int|
        0 <= p < parts.len() && 0 <= j < y.len() ==> is_scatter_trace(
            parts[p].0,
            xname,
            y[j]@,
            grouped_name(cats_of(parts[p].1@), y[j]@),
            md,
            #[trigger] pm.traces@[p * y.len() + j],
        )
}

/// The drawing mode a parsed mode request selects, when it parses.
pub open spec fn scatter_mode_of(mode: Option<Seq<char>>) -> Option<Mode> {
    match mode {
        Some(ms) => Some(mode_spec(ms)->Ok_0),
        None => None,
    }
}

/// True when the chart's layout is as requested: the x-column titles the
/// x-axis, a single y-column titles the y-axis, no bar arrangement, and
/// the mode request, if any, parses.
pub open spec fn scatter_layout_ok(
    xname: Seq<char>,
    y: Seq<String>,
    mode: Option<Seq<char>>,
    pm: PlotModel,
) -> bool {
    &&& pm.x_title matches Some(t) && t@ == xname
    &&& (if y.len() == 1 {
        pm.y_title matches Some(t2) && t2@ == y[0]@
    } else {
        pm.y_title is None
    })
    &&& pm.bar_mode is None
    &&& (mode matches Some(ms) ==> mode_spec(ms) is Ok)
}

/// True when the chart's traces are as requested: without grouping one
/// trace per y-column, in order; with grouping, one trace per combination
/// and y-column, partitions outermost, in combination order.
pub open spec fn scatter_traces_ok(
    df: Table,
    xname: Seq<char>,
    y: Seq<String>,
    groups: Option<Seq<String>>,
    mode: Option<Seq<char>>,
    pm: PlotModel,
) -> bool {
    match groups {
        None => pm.traces@.len() == y.len() && forall|j: int|
            0 <= j < y.len() ==> is_scatter_trace(
                df,
                xname,
                y[j]@,
                y[j]@,
                scatter_mode_of(mode),
                #[trigger] pm.traces@[j],
            ),
        Some(gn) => exists|gs: Groups, parts: Seq<(Table, Vec<SelectedGroupCategoryPair>)>|
            #[trigger] grouped_scatter_witness(
                df,
                xname,
                y,
                gn,
                scatter_mode_of(mode),
                pm,
                gs,
                parts,
            ),
    }
}

/// True when `pm` is the assembled scatter chart for the request.
pub open spec fn scatter_plot_ok(
    df: Table,
    xname: Seq<char>,
    y: Seq<String>,
    groups: Option<Seq<String>>,
    mode: Option<Seq<char>>,
    pm: PlotModel,
) -> bool {
    &&& scatter_layout_ok(xname, y, mode, pm)
    &&& scatter_traces_ok(df, xname, y, groups, mode, pm)
}

/// The error of a failed scatter request: a bad group column, a bad mode
/// keyword, or a bad x- or y-column, in that order of discovery.
pub open spec fn scatter_plot_err(
    df: Table,
    xname: Seq<char>,
    y: Seq<String>,
    groups: Option<Seq<String>>,
    mode: Option<Seq<char>>,
    e: Error,
) -> bool {
    ||| (groups matches Some(gn) && exists|i: int|
        0 <= i < gn.len() && #[trigger] group_col_err(df, gn[i]@, e))
    ||| (mode matches Some(ms) && (mode_spec(ms) matches Err(t) && (e
        matches Error::UnknownPlotMode(w) && w@ == t)))
    ||| (exists|j: int|
        0 <= j < y.len() && #[trigger] scatter_col_err(df, xname, y[j]@, e) && forall|m: int|
            0 <= m < j ==> scatter_col_ok(df, xname, y[m]@))
}

/// Builds one scatter trace from the columns of one partition.
fn trace(x: Option<&Column>, ycol: &Column, name: String, md: Option<Mode>) -> (r: Result<
    Trace,
    Error,
>)
    ensures
        match r {
            Ok(tr) => {
                &&& ycol.data matches ColumnData::Nums(ycells)
                &&& tr matches Trace::Scatter { name: nm, x: xv, y: yv, mode }
                &&& nm@ == name@
                &&& mode == md
                &&& yv@ == ycells@
                &&& (match x {
                    Some(xc) => xc.data matches ColumnData::Nums(xcells) && xv
                        matches ScatterX::Cells(v) && v@ == xcells@,
                    None => xv matches ScatterX::RowNumbers(rn) && rn == ycells@.len(),
                })
            },
            Err(e) => match x {
                Some(xc) => if xc.data is Strs {
                    e matches Error::NotNumericColumn(s) && s@ == xc.name@
                } else {
                    ycol.data is Strs && (e matches Error::NotNumericColumn(s) && s@
                        == ycol.name@)
                },
                None => ycol.data is Strs && (e matches Error::NotNumericColumn(s) && s@
                    == ycol.name@),
            },
        },
{
    let xv = match x {
        Some(xc) => {
            match opt_num_values(xc) {
                Ok(v) => ScatterX::Cells(v),
                Err(e) => {
                    return Err(e);
                },
            }
        },
        None => ScatterX::RowNumbers(ycol.data.len()),
    };
    let ycells = match opt_num_values(ycol) {
        Ok(v) => v,
        Err(e) => {
            return Err(e);
        },
    };
    Ok(Trace::Scatter { name, x: xv, y: ycells, mode: md })
}

/// A scatter chart request: where the table comes from, which columns to
/// draw, the optional grouping, and the optional drawing mode.
pub struct ScatterArgs {
    /// The path of the tabular input file.
    pub input: String,
    /// The x-column.
    pub x: String,
    /// The y-columns, one trace each.
    pub y: Vec<String>,
    /// The group columns, outermost first, if grouping was requested.
    pub group: Option<Vec<String>>,
    /// The path of the output file; absent for an interactive display.
    pub output: Option<String>,
    /// The drawing-mode request, such as `lines` or `lines+markers`.
    pub mode: Option<String>,
}

impl ScatterArgs {
    /// Assembles the scatter chart over the loaded table.
    pub fn run(self, df: &Table) -> (r: Result<PlotModel, Error>)
        requires
            df.wf(),
        ensures
            match r {
                Ok(pm) => scatter_plot_ok(
                    *df,
                    self.x@,
                    self.y@,
                    opt_names(self.group),
                    (match self.mode {
                        Some(ms) => Some(ms@),
                        None => None,
                    }),
                    pm,
                ),
                Err(e) => scatter_plot_err(
                    *df,
                    self.x@,
                    self.y@,
                    opt_names(self.group),
                    (match self.mode {
                        Some(ms) => Some(ms@),
                        None => None,
                    }),
                    e,
                ),
            },
    {
        let mode = match &self.mode {
            Some(ms) => Some(ms.as_str()),
            None => None,
        };
        plot(df, self.x.as_str(), &self.y, self.group, mode)
    }
}

/// Assembles the scatter chart: one trace per y-column, repeated per
/// group combination when grouping was requested, with the x-axis titled
/// by the x-column and the y-axis by the single y-column if exactly one
/// was requested.
#[verifier::loop_isolation(false)]
#[verifier::spinoff_prover]
#[verifier::rlimit(100)]
pub fn plot(
    df: &Table,
    x: &str,
    y: &Vec<String>,
    groups: Option<Vec<String>>,
    mode: Option<&str>,
) -> (r: Result<PlotModel, Error>)
    requires
        df.wf(),
    ensures
        match r {
            Ok(pm) => scatter_plot_ok(*df, x@, y@, opt_names(groups), opt_chars(mode), pm),
            Err(e) => scatter_plot_err(*df, x@, y@, opt_names(groups), opt_chars(mode), e),
        },
{
    let ghost ggroups = opt_names(groups);
    let built: Option<Groups> = match groups {
        Some(gnames) => {
            let ghost ggn = gnames@;
            match Groups::from_df(df, gnames) {
                Ok(gs) => Some(gs),
                Err(e) => {
                    proof {
                        let i = choose|i: int|
                            0 <= i < ggn.len() && #[trigger] group_col_err(*df, ggn[i]@, e);
                        assert(ggroups matches Some(gn2) && gn2 == ggn);
                        assert(group_col_err(*df, (ggroups->0)[i]@, e));
                        assert(scatter_plot_err(*df, x@, y@, ggroups, opt_chars(mode), e));
                    }
                    return Err(e);
                },
            }
        },
        None => None,
    };
    let md: Option<Mode> = match mode {
        Some(ms) => {
            match parse_mode(ms) {
                Ok(m) => Some(m),
                Err(e) => {
                    proof {
                        assert(scatter_plot_err(*df, x@, y@, ggroups, opt_chars(mode), e));
                    }
                    return Err(e);
                },
            }
        },
        None => None,
    };
    let ghost gmd = md;
    let ylen = y.len();
    let mut traces: Vec<Trace> = Vec::new();
    let ghost mut gparts: Seq<(Table, Vec<SelectedGroupCategoryPair>)> = Seq::empty();
    match &built {
        Some(gs) => {
            let parts = match gs.partitions(df) {
                Ok(p) => p,
                Err(_) => {
                    proof {
                        let gn = ggroups->0;
                        assert(false) by {
                            if exists|jj: int|
                                0 <= jj < gs.groups@.len() && !crate::group::filter_col_ok(
                                    *df,
                                    (#[trigger] gs.groups@[jj]).column_name@,
                                ) {
                                let jj = choose|jj: int|
                                    0 <= jj < gs.groups@.len() && !crate::group::filter_col_ok(
                                        *df,
                                        (#[trigger] gs.groups@[jj]).column_name@,
                                    );
                                assert(gs.groups@[jj].column_name == gn[jj]);
                                assert(group_col_ok(*df, gn[jj]@));
                            }
                        }
                    }
                    return Err(Error::Overflow);
                },
            };
            proof {
                gparts = parts@;
            }
            let pn = parts.len();
            let mut p: usize = 0;
            while p < pn
                invariant
                    pn == gparts.len(),
                    0 <= p <= pn,
                    traces@.len() == p * ylen,
                    forall|p2: int, j2: int|
                        0 <= p2 < p && 0 <= j2 < ylen ==> is_scatter_trace(
                            gparts[p2].0,
                            x@,
                            y@[j2]@,
                            grouped_name(cats_of(gparts[p2].1@), y@[j2]@),
                            gmd,
                            #[trigger] traces@[p2 * ylen as int + j2],
                        ),
                    forall|m: int| 0 <= m < ylen && p > 0 ==> scatter_col_ok(*df, x@, y@[m]@),
                decreases pn - p,
            {
                let pref = &parts[p];
                let ptab = &pref.0;
                let combo = &pref.1;
                proof {
                    lemma_partition_shape(
                        *df,
                        crate::group::combos(gs.groups@)[p as int],
                        parts@[p as int].0,
                    );
                }
                let cn = combo.len();
                let mut cats: Vec<String> = Vec::new();
                let mut q: usize = 0;
                while q < cn
                    invariant
                        cn == combo@.len(),
                        0 <= q <= cn,
                        cats@.len() == q,
                        forall|m: int| 0 <= m < q ==> #[trigger] cats@[m]@ == combo@[m].category@,
                    decreases cn - q,
                {
                    cats.push(combo[q].category.clone());
                    q += 1;
                }
                proof {
                    assert(views(cats@) =~= cats_of(combo@));
                }
                let mut j: usize = 0;
                while j < ylen
                    invariant
                        pn == gparts.len(),
                        0 <= p < pn,
                        0 <= j <= ylen,
                        parts@ == gparts,
                        pref == &gparts[p as int],
                        ptab == &gparts[p as int].0,
                        combo == &gparts[p as int].1,
                        same_shape(*df, *ptab),
                        views(cats@) == cats_of(combo@),
                        traces@.len() == p * ylen + j,
                        forall|p2: int, j2: int|
                            0 <= p2 < p && 0 <= j2 < ylen ==> is_scatter_trace(
                                gparts[p2].0,
                                x@,
                                y@[j2]@,
                                grouped_name(cats_of(gparts[p2].1@), y@[j2]@),
                                gmd,
                                #[trigger] traces@[p2 * ylen as int + j2],
                            ),
                        forall|j2: int|
                            0 <= j2 < j ==> is_scatter_trace(
                                gparts[p as int].0,
                                x@,
                                y@[j2]@,
                                grouped_name(cats_of(gparts[p as int].1@), y@[j2]@),
                                gmd,
                                #[trigger] traces@[p as int * ylen as int + j2],
                            ),
                        forall|m: int|
                            0 <= m < ylen && p > 0 ==> scatter_col_ok(*df, x@, y@[m]@),
                        forall|m: int| 0 <= m < j ==> scatter_col_ok(*df, x@, y@[m]@),
                    decreases ylen - j,
                {
                    proof {
                        lemma_names_col_idx(df.columns@, ptab.columns@, x@);
                        lemma_names_col_idx(df.columns@, ptab.columns@, y@[j as int]@);
                        crate::table::lemma_col_idx_from(df.columns@, x@);
                        crate::table::lemma_col_idx_from(df.columns@, y@[j as int]@);
                        crate::table::lemma_col_idx_from(ptab.columns@, x@);
                        crate::table::lemma_col_idx_from(ptab.columns@, y@[j as int]@);
                    }
                    let name = grouped_name_exec(&cats, y[j].as_str());
                    let xcol = match ptab.column(x) {
                        Ok(c) => Some(c),
                        Err(_) => None,
                    };
                    let ycol = match ptab.column(y[j].as_str()) {
                        Ok(c) => c,
                        Err(e) => {
                            proof {
                                assert(scatter_col_err(*df, x@, y@[j as int]@, e));
                                assert(scatter_plot_err(*df, x@, y@, ggroups, opt_chars(mode), e));
                            }
                            return Err(e);
                        },
                    };
                    let tr = match trace(xcol, ycol, name, md) {
                        Ok(t) => t,
                        Err(e) => {
                            proof {
                                assert(scatter_col_err(*df, x@, y@[j as int]@, e));
                                assert(scatter_plot_err(*df, x@, y@, ggroups, opt_chars(mode), e));
                            }
                            return Err(e);
                        },
                    };
                    traces.push(tr);
                    proof {
                        assert forall|p2: int, j2: int|
                            0 <= p2 < p && 0 <= j2 < ylen implies #[trigger] (p2 * ylen as int
                            + j2) < p as int * ylen as int by {
                            assert(p2 * ylen as int + j2 < p as int * ylen as int)
                                by (nonlinear_arith)
                                requires
                                    0 <= p2 < p as int,
                                    0 <= j2 < ylen as int,
                            ;
                        }
                        assert(scatter_col_ok(*df, x@, y@[j as int]@));
                        assert(is_scatter_trace(
                            gparts[p as int].0,
                            x@,
                            y@[j as int]@,
                            grouped_name(cats_of(gparts[p as int].1@), y@[j as int]@),
                            gmd,
                            traces@[p as int * ylen as int + j as int],
                        ));
                    }
                    j += 1;
                }
                proof {
                    assert(p as int * ylen as int + ylen as int == (p as int + 1) * (
                    ylen as int)) by (nonlinear_arith);
                }
                p += 1;
            }
        },
        None => {
            let mut j: usize = 0;
            while j < ylen
                invariant
                    0 <= j <= ylen,
                    traces@.len() == j,
                    forall|j2: int|
                        0 <= j2 < j ==> is_scatter_trace(
                            *df,
                            x@,
                            y@[j2]@,
                            y@[j2]@,
                            gmd,
                            #[trigger] traces@[j2],
                        ),
                    forall|m: int| 0 <= m < j ==> scatter_col_ok(*df, x@, y@[m]@),
                decreases ylen - j,
            {
                proof {
                    crate::table::lemma_col_idx_from(df.columns@, x@);
                    crate::table::lemma_col_idx_from(df.columns@, y@[j as int]@);
                }
                let xcol = match df.column(x) {
                    Ok(c) => Some(c),
                    Err(_) => None,
                };
                let ycol = match df.column(y[j].as_str()) {
                    Ok(c) => c,
                    Err(e) => {
                        proof {
                            assert(scatter_col_err(*df, x@, y@[j as int]@, e));
                            assert(scatter_plot_err(*df, x@, y@, ggroups, opt_chars(mode), e));
                        }
                        return Err(e);
                    },
                };
                let name = ycol.name.clone();
                let tr = match trace(xcol, ycol, name, md) {
                    Ok(t) => t,
                    Err(e) => {
                        proof {
                            assert(scatter_col_err(*df, x@, y@[j as int]@, e));
                            assert(scatter_plot_err(*df, x@, y@, ggroups, opt_chars(mode), e));
                        }
                        return Err(e);
                    },
                };
                traces.push(tr);
                proof {
                    assert(scatter_col_ok(*df, x@, y@[j as int]@));
                }
                j += 1;
            }
        },
    }
    let x_title = Some(x.to_owned());
    let y_title = if y.len() == 1 {
        Some(y[0].clone())
    } else {
        None
    };
    let pm = PlotModel { traces, x_title, y_title, bar_mode: None };
    proof {
        if let Some(gs) = built {
            let gn = ggroups->0;
            assert(grouped_scatter_witness(*df, x@, y@, gn, gmd, pm, gs, gparts));
        }
        assert(gmd == scatter_mode_of(opt_chars(mode)));
        assert(scatter_layout_ok(x@, y@, opt_chars(mode), pm));
        assert(scatter_traces_ok(*df, x@, y@, ggroups, opt_chars(mode), pm));
        assert(scatter_plot_ok(*df, x@, y@, ggroups, opt_chars(mode), pm));
    }
    Ok(pm)
}

} // verus!
