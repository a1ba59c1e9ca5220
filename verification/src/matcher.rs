//! Line matching: a data line conforms to the schema when it has exactly
//! one `|`-separated segment per field; the segments become the row's
//! values, in schema order.

use vstd::prelude::*;
use crate::bytes::{split_bytes, split_on, join_with, views_of, lemma_split_join};
use crate::schema::Schema;

verus! {

/// One parsed data line: its field values in schema order.
pub struct Row {
    pub values: Vec<Vec<u8>>,
}

impl View for Row {
    type V = Seq<Seq<u8>>;

    open spec fn view(&self) -> Seq<Seq<u8>> {
        views_of(self.values@)
    }
}

/// The `|`-separated segments of a line.
pub open spec fn segments_of(line: Seq<u8>) -> Seq<Seq<u8>> {
    split_on(line, 124)
}

/// Matches a line against the schema. A line matches exactly when its
/// segment count equals the schema's field count; the row then pairs each
/// field, in order, with the corresponding segment. A line with fewer or
/// more segments yields no match.
pub fn parse_line(line: &[u8], schema: &Schema) -> (r: Option<Row>)
    ensures
        r is Some <==> segments_of(line@).len() == schema@.len(),
        r matches Some(row) ==> row@ == segments_of(line@),
{
    let values = split_bytes(line, 124);
    if values.len() == schema.names.len() {
        Some(Row { values })
    } else {
        None
    }
}

/// Law: a line assembled from exactly K delimiter-free segments has
/// exactly those K segments, so against a K-field schema it matches and
/// every field is populated from its segment.
pub proof fn lemma_match_completeness(segs: Seq<Seq<u8>>)
    requires
        segs.len() >= 1,
        forall|i: int| 0 <= i < segs.len() ==> !(#[trigger] segs[i]).contains(124),
    ensures
        segments_of(join_with(segs, 124)) == segs,
{
    lemma_split_join(segs, 124);
}

} // verus!
