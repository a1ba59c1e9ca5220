//! The row renderer: given a parsed row, the schema and the render
//! configuration, produces the row's color (keyed by the upper-cased
//! `Level` field) and its body — the fields in schema order, padded to
//! their column widths and separated by " | ". The `Data` field is the
//! opaque payload: omitted by default, inline under `verbose`, and a
//! pretty-printed block under `detailed` when its value parses as JSON.

use vstd::prelude::*;
use crate::bytes::{bytes_eq, upper_seq, upper_bytes, views_of};
use crate::schema::Schema;
use crate::names::{data_name, data_bytes, level_name, level_bytes};
use crate::filter::field_value;
use crate::matcher::Row;

verus! {

/// The colors a row can be tagged with; `Default` is the terminal's own.
#[derive(Clone, Copy, PartialEq, Eq, Structural, Debug)]
pub enum LogColor {
    White,
    Blue,
    Cyan,
    Yellow,
    Red,
    Magenta,
    DarkRed,
    DarkMagenta,
    Default,
}

/// The bytes of `DEBUG`.
pub open spec fn level_debug() -> Seq<u8> {
    seq![68u8, 69u8, 66u8, 85u8, 71u8]
}

/// The bytes of `INFO`.
pub open spec fn level_info() -> Seq<u8> {
    seq![73u8, 78u8, 70u8, 79u8]
}

/// The bytes of `NOTICE`.
pub open spec fn level_notice() -> Seq<u8> {
    seq![78u8, 79u8, 84u8, 73u8, 67u8, 69u8]
}

/// The bytes of `WARNING`.
pub open spec fn level_warning() -> Seq<u8> {
    seq![87u8, 65u8, 82u8, 78u8, 73u8, 78u8, 71u8]
}

/// The bytes of `ERROR`.
pub open spec fn level_error() -> Seq<u8> {
    seq![69u8, 82u8, 82u8, 79u8, 82u8]
}

/// The bytes of `CRITICAL`.
pub open spec fn level_critical() -> Seq<u8> {
    seq![67u8, 82u8, 73u8, 84u8, 73u8, 67u8, 65u8, 76u8]
}

/// The bytes of `ALERT`.
pub open spec fn level_alert() -> Seq<u8> {
    seq![65u8, 76u8, 69u8, 82u8, 84u8]
}

/// The bytes of `EMERGENCY`.
pub open spec fn level_emergency() -> Seq<u8> {
    seq![69u8, 77u8, 69u8, 82u8, 71u8, 69u8, 78u8, 67u8, 89u8]
}

/// The fixed level-to-color table; an unrecognized level gets the
/// terminal's default color.
pub open spec fn color_of(level: Seq<u8>) -> LogColor {
    if level == level_debug() {
        LogColor::White
    } else if level == level_info() {
        LogColor::Blue
    } else if level == level_notice() {
        LogColor::Cyan
    } else if level == level_warning() {
        LogColor::Yellow
    } else if level == level_error() {
        LogColor::Red
    } else if level == level_critical() {
        LogColor::Magenta
    } else if level == level_alert() {
        LogColor::DarkRed
    } else if level == level_emergency() {
        LogColor::DarkMagenta
    } else {
        LogColor::Default
    }
}

/// Looks an upper-cased level up in the color table.
pub fn get_color(level: &[u8]) -> (c: LogColor)
    ensures
        c == color_of(level@),
{
    let a_debug: [u8; 5] = [68, 69, 66, 85, 71];
    let a_info: [u8; 4] = [73, 78, 70, 79];
    let a_notice: [u8; 6] = [78, 79, 84, 73, 67, 69];
    let a_warning: [u8; 7] = [87, 65, 82, 78, 73, 78, 71];
    let a_error: [u8; 5] = [69, 82, 82, 79, 82];
    let a_critical: [u8; 8] = [67, 82, 73, 84, 73, 67, 65, 76];
    let a_alert: [u8; 5] = [65, 76, 69, 82, 84];
    let a_emergency: [u8; 9] = [69, 77, 69, 82, 71, 69, 78, 67, 89];
    proof {
        assert(a_debug@ =~= level_debug());
        assert(a_info@ =~= level_info());
        assert(a_notice@ =~= level_notice());
        assert(a_warning@ =~= level_warning());
        assert(a_error@ =~= level_error());
        assert(a_critical@ =~= level_critical());
        assert(a_alert@ =~= level_alert());
        assert(a_emergency@ =~= level_emergency());
    }
    if bytes_eq(level, a_debug.as_slice()) {
        LogColor::White
    } else if bytes_eq(level, a_info.as_slice()) {
        LogColor::Blue
    } else if bytes_eq(level, a_notice.as_slice()) {
        LogColor::Cyan
    } else if bytes_eq(level, a_warning.as_slice()) {
        LogColor::Yellow
    } else if bytes_eq(level, a_error.as_slice()) {
        LogColor::Red
    } else if bytes_eq(level, a_critical.as_slice()) {
        LogColor::Magenta
    } else if bytes_eq(level, a_alert.as_slice()) {
        LogColor::DarkRed
    } else if bytes_eq(level, a_emergency.as_slice()) {
        LogColor::DarkMagenta
    } else {
        LogColor::Default
    }
}

/// The color of a row: the table entry for its upper-cased `Level` field,
/// or the default when the schema has no such field.
pub open spec fn row_color(schema: Seq<Seq<u8>>, values: Seq<Seq<u8>>) -> LogColor {
    match field_value(schema, values, level_name()) {
        Some(v) => color_of(upper_seq(v)),
        None => LogColor::Default,
    }
}

/// How rows are laid out: per-column display widths (a fixed default is
/// used past the end of the list) and the two payload flags.
pub struct RenderConfig {
    pub widths: Vec<usize>,
    pub verbose: bool,
    pub detailed: bool,
}

/// The mathematical image of a render configuration.
pub struct RenderSpec {
    pub widths: Seq<usize>,
    pub verbose: bool,
    pub detailed: bool,
}

impl View for RenderConfig {
    type V = RenderSpec;

    open spec fn view(&self) -> RenderSpec {
        RenderSpec { widths: self.widths@, verbose: self.verbose, detailed: self.detailed }
    }
}

impl RenderConfig {
    /// The standard layout: the default column widths, payload omitted.
    pub fn standard() -> (r: RenderConfig)
        ensures
            r@.widths == seq![20usize, 10usize, 50usize, 30usize],
            !r@.verbose,
            !r@.detailed,
    {
        let a: [usize; 4] = [20, 10, 50, 30];
        let widths = vstd::slice::slice_to_vec(a.as_slice());
        proof {
            assert(widths@ =~= seq![20usize, 10usize, 50usize, 30usize]);
        }
        RenderConfig { widths, verbose: false, detailed: false }
    }
}

/// The display width of column `idx`: the configured width, or 15 past
/// the end of the width list.
pub open spec fn col_width(widths: Seq<usize>, idx: int) -> int {
    if 0 <= idx < widths.len() {
        widths[idx] as int
    } else {
        15
    }
}

/// `v` padded with spaces to `w` bytes; a longer value is kept whole.
pub open spec fn pad_spec(v: Seq<u8>, w: int) -> Seq<u8> {
    if v.len() >= w {
        v
    } else {
        v + Seq::new((w - v.len()) as nat, |i: int| 32u8)
    }
}

/// Pads `v` with spaces to width `w`.
pub fn pad_to(v: &[u8], w: usize) -> (r: Vec<u8>)
    ensures
        r@ == pad_spec(v@, w as int),
{
    let mut r = vstd::slice::slice_to_vec(v);
    while r.len() < w
        invariant
            v@.len() <= r@.len(),
            r@.len() <= w || r@.len() == v@.len(),
            forall|j: int| 0 <= j < v@.len() ==> r@[j] == v@[j],
            forall|j: int| v@.len() <= j < r@.len() ==> r@[j] == 32u8,
        decreases w - r@.len(),
    {
        r.push(32);
    }
    proof {
        assert(r@ =~= pad_spec(v@, w as int));
    }
    r
}

/// The column separator " | ".
pub open spec fn sep() -> Seq<u8> {
    seq![32u8, 124u8, 32u8]
}

/// What the `detailed` payload rendering relies on serde_json for: whether
/// the bytes parse as a JSON value, and that value's pretty-printed form.
/// Both depend on the bytes alone.
pub uninterp spec fn pretty_json_of(s: Seq<u8>) -> Option<Seq<u8>>;

/// Relies on serde_json::from_slice and serde_json::to_string_pretty:
/// yields the pretty-printed form of the bytes when they parse as JSON,
/// and nothing otherwise.
#[verifier::external_body]
fn pretty_json(b: &[u8]) -> (r: Option<Vec<u8>>)
    ensures
        match r {
            Some(p) => pretty_json_of(b@) == Some(p@),
            None => pretty_json_of(b@) is None,
        },
{
    match serde_json::from_slice::<serde_json::Value>(b) {
        Ok(v) => serde_json::to_string_pretty(&v).ok().map(|s| s.into_bytes()),
        Err(_) => None,
    }
}

/// One rendered column. The payload field under `detailed` becomes its
/// own terminated block, pretty-printed when it parses as JSON and raw
/// otherwise; under `verbose` alone it is an inline column; with neither
/// flag it is omitted. Every other field is an inline padded column.
pub open spec fn cell_spec(name: Seq<u8>, value: Seq<u8>, width: int, cfg: RenderSpec) -> Seq<
    u8,
> {
    if name == data_name() && cfg.detailed {
        (match pretty_json_of(value) {
            Some(p) => p,
            None => value,
        }) + seq![10u8]
    } else if name != data_name() || cfg.verbose {
        pad_spec(value, width) + sep()
    } else {
        Seq::<u8>::empty()
    }
}

/// The columns of a row from `idx` on, concatenated.
pub open spec fn cells_from(
    schema: Seq<Seq<u8>>,
    values: Seq<Seq<u8>>,
    cfg: RenderSpec,
    idx: int,
) -> Seq<u8>
    decreases schema.len() - idx,
{
    if idx < 0 || idx >= schema.len() {
        Seq::<u8>::empty()
    } else {
        cell_spec(schema[idx], values[idx], col_width(cfg.widths, idx), cfg) + cells_from(
            schema,
            values,
            cfg,
            idx + 1,
        )
    }
}

/// The body of a rendered row: all its columns in schema order.
pub open spec fn row_body(schema: Seq<Seq<u8>>, values: Seq<Seq<u8>>, cfg: RenderSpec) -> Seq<
    u8,
> {
    cells_from(schema, values, cfg, 0)
}

/// Renders one column.
fn render_cell(name: &[u8], value: &[u8], width: usize, cfg: &RenderConfig) -> (r: Vec<u8>)
    ensures
        r@ == cell_spec(name@, value@, width as int, cfg@),
{
    let dn = data_bytes();
    let is_data = bytes_eq(name, dn.as_slice());
    if is_data && cfg.detailed {
        let mut out = match pretty_json(value) {
            Some(p) => p,
            None => vstd::slice::slice_to_vec(value),
        };
        let ghost pre = out@;
        out.push(10);
        proof {
            assert(out@ =~= pre + seq![10u8]);
        }
        out
    } else if !is_data || cfg.verbose {
        let mut out = pad_to(value, width);
        let ghost pre = out@;
        out.push(32);
        out.push(124);
        out.push(32);
        proof {
            assert(out@ =~= pre + sep());
        }
        out
    } else {
        Vec::new()
    }
}

/// Renders a parsed row: its color and its body, newline not included.
pub fn render_row(schema: &Schema, row: &Row, cfg: &RenderConfig) -> (r: (LogColor, Vec<u8>))
    requires
        row@.len() == schema@.len(),
    ensures
        r.0 == row_color(schema@, row@),
        r.1@ == row_body(schema@, row@, cfg@),
{
    let color: LogColor;
    let ln = level_bytes();
    match crate::schema::field_index(schema, ln.as_slice()) {
        Some(i) => {
            proof {
                crate::schema::lemma_index_of_name(schema@, level_name());
            }
            let vu = upper_bytes(row.values[i].as_slice());
            color = get_color(vu.as_slice());
        },
        None => {
            color = LogColor::Default;
        },
    }
    assert(color == row_color(schema@, row@));
    let mut body: Vec<u8> = Vec::new();
    let mut idx: usize = 0;
    while idx < schema.names.len()
        invariant
            row@.len() == schema@.len(),
            0 <= idx <= schema@.len(),
            row_body(schema@, row@, cfg@) == body@ + cells_from(schema@, row@, cfg@, idx as int),
        decreases schema@.len() - idx,
    {
        let w: usize = if idx < cfg.widths.len() {
            cfg.widths[idx]
        } else {
            15
        };
        let mut cell = render_cell(
            schema.names[idx].as_slice(),
            row.values[idx].as_slice(),
            w,
            cfg,
        );
        proof {
            assert(schema.names[idx as int]@ == schema@[idx as int]);
            assert(row.values[idx as int]@ == row@[idx as int]);
            assert(w as int == col_width(cfg@.widths, idx as int));
            assert((body@ + cell@) + cells_from(schema@, row@, cfg@, idx as int + 1) =~= body@ + (
            cell@ + cells_from(schema@, row@, cfg@, idx as int + 1)));
        }
        body.append(&mut cell);
        idx += 1;
    }
    proof {
        assert(cells_from(schema@, row@, cfg@, schema@.len() as int) =~= Seq::<u8>::empty());
        assert(body@ + Seq::<u8>::empty() =~= body@);
    }
    (color, body)
}

} // verus!
