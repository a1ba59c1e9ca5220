//! The per-line pipeline: trim, match against the schema, filter, render.
//! One call decides everything the viewer does with one raw line.

use vstd::prelude::*;
use crate::bytes::{trim_bytes, trim_spec};
use crate::schema::Schema;
use crate::matcher::{parse_line, segments_of};
use crate::filter::{FilterConfig, FilterSpec, passes_spec};
use crate::render::{RenderConfig, RenderSpec, LogColor, render_row, row_color, row_body};

verus! {

/// What one raw line comes to: nothing when the trimmed line does not
/// match the schema or a filter rejects it; otherwise the row's color and
/// rendered body.
pub open spec fn process_line_spec(
    schema: Seq<Seq<u8>>,
    f: FilterSpec,
    cfg: RenderSpec,
    raw: Seq<u8>,
) -> Option<(LogColor, Seq<u8>)> {
    let segs = segments_of(trim_spec(raw));
    if segs.len() == schema.len() && passes_spec(f, schema, segs, raw) {
        Some((row_color(schema, segs), row_body(schema, segs, cfg)))
    } else {
        None
    }
}

/// Runs one raw line (terminator already stripped) through the pipeline:
/// the line is trimmed and matched against the schema; a matching row that
/// passes every filter is rendered, everything else is silently skipped.
pub fn process_line(
    schema: &Schema,
    filters: &FilterConfig,
    cfg: &RenderConfig,
    raw: &[u8],
) -> (r: Option<(LogColor, Vec<u8>)>)
    ensures
        match r {
            Some(out) => process_line_spec(schema@, filters@, cfg@, raw@) == Some(
                (out.0, out.1@),
            ),
            None => process_line_spec(schema@, filters@, cfg@, raw@) is None,
        },
{
    let trimmed = trim_bytes(raw);
    match parse_line(trimmed.as_slice(), schema) {
        Some(row) => {
            if filters.passes(schema, &row, raw) {
                let (color, body) = render_row(schema, &row, cfg);
                Some((color, body))
            } else {
                None
            }
        },
        None => None,
    }
}

} // verus!
