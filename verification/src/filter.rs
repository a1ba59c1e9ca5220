//! The filter predicate set: a row is emitted only if the date bounds, the
//! level filter and the raw-line substring filter all pass. Every filter is
//! optional; an unset filter, or one whose field the schema lacks, always
//! passes.

use vstd::prelude::*;
use crate::bytes::{lex_le, lex_le_bytes, contains_seq, contains_bytes, upper_seq, upper_bytes,
    bytes_eq};
use crate::schema::{Schema, index_of_name, field_index, lemma_index_of_name};
use crate::names::{datetime_name, datetime_bytes, level_name, level_bytes};
use crate::matcher::Row;

verus! {

/// The configured filters, as resolved from the command line: an optional
/// raw-line substring, an optional level (compared case-insensitively),
/// and optional inclusive lexicographic bounds on the `DateTime` field.
pub struct FilterConfig {
    pub word: Option<Vec<u8>>,
    pub level: Option<Vec<u8>>,
    pub start: Option<Vec<u8>>,
    pub end: Option<Vec<u8>>,
}

/// The mathematical image of a filter configuration.
pub struct FilterSpec {
    pub word: Option<Seq<u8>>,
    pub level: Option<Seq<u8>>,
    pub start: Option<Seq<u8>>,
    pub end: Option<Seq<u8>>,
}

impl View for FilterConfig {
    type V = FilterSpec;

    open spec fn view(&self) -> FilterSpec {
        FilterSpec {
            word: match self.word {
                Some(w) => Some(w@),
                None => None,
            },
            level: match self.level {
                Some(l) => Some(l@),
                None => None,
            },
            start: match self.start {
                Some(s) => Some(s@),
                None => None,
            },
            end: match self.end {
                Some(e) => Some(e@),
                None => None,
            },
        }
    }
}

/// The value of the field called `name`, if the schema has it and the row
/// is long enough to hold it.
pub open spec fn field_value(schema: Seq<Seq<u8>>, values: Seq<Seq<u8>>, name: Seq<u8>) -> Option<
    Seq<u8>,
> {
    match index_of_name(schema, name) {
        Some(i) => if 0 <= i < values.len() {
            Some(values[i])
        } else {
            None
        },
        None => None,
    }
}

/// The date bounds pass: no bound is set, the schema has no `DateTime`
/// field, or the field's value lies within the set bounds, compared
/// byte-wise lexicographically.
pub open spec fn date_ok(f: FilterSpec, schema: Seq<Seq<u8>>, values: Seq<Seq<u8>>) -> bool {
    match field_value(schema, values, datetime_name()) {
        Some(v) => (match f.start {
            Some(s) => lex_le(s, v),
            None => true,
        }) && (match f.end {
            Some(e) => lex_le(v, e),
            None => true,
        }),
        None => true,
    }
}

/// The level filter passes: it is unset, the schema has no `Level` field,
/// or the field's value equals the configured level up to ASCII case.
pub open spec fn level_ok(f: FilterSpec, schema: Seq<Seq<u8>>, values: Seq<Seq<u8>>) -> bool {
    match field_value(schema, values, level_name()) {
        Some(v) => match f.level {
            Some(l) => upper_seq(v) == upper_seq(l),
            None => true,
        },
        None => true,
    }
}

/// The substring filter passes: it is unset, or the raw line contains the
/// configured word.
pub open spec fn word_ok(f: FilterSpec, raw: Seq<u8>) -> bool {
    match f.word {
        Some(w) => contains_seq(raw, w),
        None => true,
    }
}

/// A row passes when all three predicates pass.
pub open spec fn passes_spec(
    f: FilterSpec,
    schema: Seq<Seq<u8>>,
    values: Seq<Seq<u8>>,
    raw: Seq<u8>,
) -> bool {
    date_ok(f, schema, values) && level_ok(f, schema, values) && word_ok(f, raw)
}

impl FilterConfig {
    /// A filter configuration that passes every row.
    pub fn none() -> (r: FilterConfig)
        ensures
            r@.word is None,
            r@.level is None,
            r@.start is None,
            r@.end is None,
    {
        FilterConfig { word: None, level: None, start: None, end: None }
    }

    /// Decides whether a parsed row, with its raw line, passes every
    /// configured filter.
    pub fn passes(&self, schema: &Schema, row: &Row, raw: &[u8]) -> (r: bool)
        requires
            row@.len() == schema@.len(),
        ensures
            r == passes_spec(self@, schema@, row@, raw@),
    {
        let dt_ok: bool;
        if self.start.is_some() || self.end.is_some() {
            let name = datetime_bytes();
            match field_index(schema, name.as_slice()) {
                Some(i) => {
                    proof {
                        lemma_index_of_name(schema@, datetime_name());
                    }
                    let v = &row_value(row, i);
                    let s_ok = match &self.start {
                        Some(s) => lex_le_bytes(s.as_slice(), v.as_slice()),
                        None => true,
                    };
                    let e_ok = match &self.end {
                        Some(e) => lex_le_bytes(v.as_slice(), e.as_slice()),
                        None => true,
                    };
                    dt_ok = s_ok && e_ok;
                },
                None => {
                    dt_ok = true;
                },
            }
        } else {
            dt_ok = true;
        }
        assert(dt_ok == date_ok(self@, schema@, row@));
        let lv_ok: bool;
        match &self.level {
            Some(l) => {
                let name = level_bytes();
                match field_index(schema, name.as_slice()) {
                    Some(i) => {
                        proof {
                            lemma_index_of_name(schema@, level_name());
                        }
                        let vu = upper_bytes(row_value(row, i).as_slice());
                        let lu = upper_bytes(l.as_slice());
                        lv_ok = bytes_eq(vu.as_slice(), lu.as_slice());
                    },
                    None => {
                        lv_ok = true;
                    },
                }
            },
            None => {
                lv_ok = true;
            },
        }
        assert(lv_ok == level_ok(self@, schema@, row@));
        let w_ok: bool = match &self.word {
            Some(w) => contains_bytes(raw, w.as_slice()),
            None => true,
        };
        assert(w_ok == word_ok(self@, raw@));
        dt_ok && lv_ok && w_ok
    }
}

/// The `i`th value of a row.
fn row_value(row: &Row, i: usize) -> (v: &Vec<u8>)
    requires
        0 <= i < row@.len(),
    ensures
        v@ == row@[i as int],
{
    &row.values[i]
}

/// Law: `passes` composes its filters by AND — a configuration `g` got
/// from `f` by unsetting any of the filters accepts every row that `f`
/// accepts.
pub proof fn lemma_filter_monotonic(
    f: FilterSpec,
    g: FilterSpec,
    schema: Seq<Seq<u8>>,
    values: Seq<Seq<u8>>,
    raw: Seq<u8>,
)
    requires
        g.word is Some ==> g.word == f.word,
        g.level is Some ==> g.level == f.level,
        g.start is Some ==> g.start == f.start,
        g.end is Some ==> g.end == f.end,
        passes_spec(f, schema, values, raw),
    ensures
        passes_spec(g, schema, values, raw),
{
}

} // verus!
