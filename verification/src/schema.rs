//! Schema extraction: the header line of the log file declares the ordered
//! field names that drive both parsing and rendering.

use vstd::prelude::*;
use crate::bytes::{split_bytes, split_on, join_with, trim_bytes, trim_spec, views_of, bytes_eq};

verus! {

/// The ordered field names of the log file, read once from its header line.
#[derive(Debug)]
pub struct Schema {
    pub names: Vec<Vec<u8>>,
}

impl View for Schema {
    type V = Seq<Seq<u8>>;

    open spec fn view(&self) -> Seq<Seq<u8>> {
        views_of(self.names@)
    }
}

/// The field names a header line declares: the line is trimmed, split on
/// `|`, and each name is trimmed. Empty names are preserved, not dropped.
pub open spec fn schema_of(header: Seq<u8>) -> Seq<Seq<u8>> {
    split_on(trim_spec(header), 124).map_values(|p: Seq<u8>| trim_spec(p))
}

/// Why a header line yields no schema.
#[derive(Debug, PartialEq, Eq)]
pub enum SchemaError {
    EmptyHeader,
}

/// Reads the schema from the header line. Fails exactly when the header is
/// empty once trimmed; otherwise the schema is `schema_of` the header.
pub fn extract_schema(header: &[u8]) -> (r: Result<Schema, SchemaError>)
    ensures
        r is Ok <==> trim_spec(header@).len() > 0,
        r matches Ok(s) ==> s@ == schema_of(header@),
{
    let trimmed = trim_bytes(header);
    if trimmed.len() == 0 {
        return Err(SchemaError::EmptyHeader);
    }
    let parts = split_bytes(trimmed.as_slice(), 124);
    let mut names: Vec<Vec<u8>> = Vec::new();
    let mut i: usize = 0;
    while i < parts.len()
        invariant
            0 <= i <= parts@.len(),
            names@.len() == i,
            forall|j: int| 0 <= j < i ==> (#[trigger] names@[j])@ == trim_spec(parts@[j]@),
            views_of(parts@) == split_on(trim_spec(header@), 124),
        decreases parts@.len() - i,
    {
        let name = trim_bytes(parts[i].as_slice());
        names.push(name);
        i += 1;
    }
    proof {
        assert(views_of(names@) =~= schema_of(header@));
    }
    Ok(Schema { names })
}

/// Law: a header assembled from one or more non-empty, delimiter-free,
/// already-trimmed field names yields exactly those names, in their
/// original order.
pub proof fn lemma_schema_roundtrip(names: Seq<Seq<u8>>)
    requires
        names.len() >= 1,
        forall|i: int| 0 <= i < names.len() ==> (#[trigger] names[i]).len() > 0,
        forall|i: int| 0 <= i < names.len() ==> !(#[trigger] names[i]).contains(124),
        forall|i: int| 0 <= i < names.len() ==> trim_spec(#[trigger] names[i]) == names[i],
    ensures
        schema_of(join_with(names, 124)) == names,
{
    let h = join_with(names, 124);
    crate::bytes::lemma_join_ends(names, 124);
    crate::bytes::lemma_trimmed_ends(names[0]);
    crate::bytes::lemma_trimmed_ends(names.last());
    crate::bytes::lemma_trim_fixed(h);
    crate::bytes::lemma_split_join(names, 124);
    assert(schema_of(h) =~= names);
}

/// The first position of `name` in `schema`, if any.
pub open spec fn index_of_name(schema: Seq<Seq<u8>>, name: Seq<u8>) -> Option<int>
    decreases schema.len(),
{
    if schema.len() == 0 {
        None
    } else if schema[0] == name {
        Some(0int)
    } else {
        match index_of_name(schema.drop_first(), name) {
            Some(i) => Some(i + 1),
            None => None,
        }
    }
}

/// `index_of_name` points at the first occurrence of the name, and is
/// `None` exactly when the name is absent.
pub proof fn lemma_index_of_name(schema: Seq<Seq<u8>>, name: Seq<u8>)
    ensures
        match index_of_name(schema, name) {
            Some(i) => 0 <= i < schema.len() && schema[i] == name && (forall|j: int|
                0 <= j < i ==> schema[j] != name),
            None => forall|j: int| 0 <= j < schema.len() ==> schema[j] != name,
        },
    decreases schema.len(),
{
    if schema.len() > 0 && schema[0] != name {
        let rest = schema.drop_first();
        lemma_index_of_name(rest, name);
        match index_of_name(rest, name) {
            Some(i) => {
                assert(schema[i + 1] == rest[i]);
                assert forall|j: int| 0 <= j < i + 1 implies schema[j] != name by {
                    if j > 0 {
                        assert(rest[j - 1] != name);
                        assert(schema[j] == rest[j - 1]);
                    }
                }
            },
            None => {
                assert forall|j: int| 0 <= j < schema.len() implies schema[j] != name by {
                    if j > 0 {
                        assert(rest[j - 1] != name);
                        assert(schema[j] == rest[j - 1]);
                    }
                }
            },
        }
    }
}

/// If `name` first occurs at `i`, `index_of_name` returns `i`.
pub proof fn lemma_index_of_name_at(schema: Seq<Seq<u8>>, name: Seq<u8>, i: int)
    requires
        0 <= i < schema.len(),
        schema[i] == name,
        forall|j: int| 0 <= j < i ==> schema[j] != name,
    ensures
        index_of_name(schema, name) == Some(i),
    decreases schema.len(),
{
    if i != 0 {
        assert(schema[0] != name);
        let rest = schema.drop_first();
        assert(forall|j: int| 0 <= j < rest.len() ==> #[trigger] rest[j] == schema[j + 1]);
        lemma_index_of_name_at(rest, name, i - 1);
    }
}

/// Finds the first field of `schema` called `name`.
pub fn field_index(schema: &Schema, name: &[u8]) -> (r: Option<usize>)
    ensures
        match r {
            Some(i) => index_of_name(schema@, name@) == Some(i as int),
            None => index_of_name(schema@, name@) is None,
        },
{
    let mut i: usize = 0;
    while i < schema.names.len()
        invariant
            0 <= i <= schema@.len(),
            forall|j: int| 0 <= j < i ==> #[trigger] schema@[j] != name@,
        decreases schema@.len() - i,
    {
        if bytes_eq(schema.names[i].as_slice(), name) {
            proof {
                lemma_index_of_name_at(schema@, name@, i as int);
            }
            return Some(i);
        }
        i += 1;
    }
    proof {
        lemma_index_of_name(schema@, name@);
        match index_of_name(schema@, name@) {
            Some(j) => {
                assert(schema@[j] != name@);
                assert(false);
            },
            None => {},
        }
    }
    None
}

} // verus!
