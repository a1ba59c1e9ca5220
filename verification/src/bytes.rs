//! Byte-sequence primitives: splitting on a delimiter, joining, trimming,
//! lexicographic comparison, substring search, ASCII upper-casing.
//!
//! Log lines are handled as raw bytes; every string operation the viewer
//! needs is defined here as a spec function with a verified executable
//! counterpart.

use vstd::prelude::*;

verus! {

/// The views of a sequence of byte vectors.
pub open spec fn views_of(vs: Seq<Vec<u8>>) -> Seq<Seq<u8>> {
    vs.map_values(|v: Vec<u8>| v@)
}

/// Splits `s` on the delimiter `d`. Always yields at least one part; the
/// parts never contain `d`, and empty parts are preserved.
pub open spec fn split_on(s: Seq<u8>, d: u8) -> Seq<Seq<u8>>
    decreases s.len(),
{
    if s.len() == 0 {
        seq![Seq::<u8>::empty()]
    } else if s[0] == d {
        seq![Seq::<u8>::empty()] + split_on(s.drop_first(), d)
    } else {
        let rest = split_on(s.drop_first(), d);
        seq![seq![s[0]] + rest[0]] + rest.drop_first()
    }
}

/// Joins `parts` with the delimiter `d` between consecutive parts.
pub open spec fn join_with(parts: Seq<Seq<u8>>, d: u8) -> Seq<u8>
    decreases parts.len(),
{
    if parts.len() == 0 {
        Seq::<u8>::empty()
    } else if parts.len() == 1 {
        parts[0]
    } else {
        parts[0] + seq![d] + join_with(parts.drop_first(), d)
    }
}

pub proof fn lemma_split_nonempty(s: Seq<u8>, d: u8)
    ensures
        split_on(s, d).len() >= 1,
    decreases s.len(),
{
    if s.len() != 0 {
        lemma_split_nonempty(s.drop_first(), d);
    }
}

/// The first element of a sequence that contains `d` is not `d` once the
/// first element is known not to be `d`; used to push `!contains` under
/// `drop_first`.
proof fn lemma_drop_first_free(s: Seq<u8>, d: u8)
    requires
        !s.contains(d),
        s.len() > 0,
    ensures
        !s.drop_first().contains(d),
        s[0] != d,
{
    if s[0] == d {
        assert(s.contains(d));
    }
    if s.drop_first().contains(d) {
        let i = choose|i: int| 0 <= i < s.drop_first().len() && s.drop_first()[i] == d;
        assert(s[i + 1] == d);
        assert(s.contains(d));
    }
}

/// A delimiter-free sequence splits into exactly itself.
pub proof fn lemma_split_free(s: Seq<u8>, d: u8)
    requires
        !s.contains(d),
    ensures
        split_on(s, d) == seq![s],
    decreases s.len(),
{
    if s.len() == 0 {
        assert(s =~= Seq::<u8>::empty());
        assert(split_on(s, d) =~= seq![s]);
    } else {
        lemma_drop_first_free(s, d);
        lemma_split_free(s.drop_first(), d);
        let rest = split_on(s.drop_first(), d);
        assert(rest[0] == s.drop_first());
        assert(seq![s[0]] + rest[0] =~= s);
        assert(rest.drop_first() =~= Seq::<Seq<u8>>::empty());
        assert(split_on(s, d) =~= seq![s]);
    }
}

/// Splitting `a + [d] + t` with `a` delimiter-free peels off `a` as the
/// first part.
pub proof fn lemma_split_prepend(a: Seq<u8>, t: Seq<u8>, d: u8)
    requires
        !a.contains(d),
    ensures
        split_on(a + seq![d] + t, d) == seq![a] + split_on(t, d),
    decreases a.len(),
{
    let s = a + seq![d] + t;
    if a.len() == 0 {
        assert(s[0] == d);
        assert(s.drop_first() =~= t);
        assert(a =~= Seq::<u8>::empty());
        assert(split_on(s, d) =~= seq![a] + split_on(t, d));
    } else {
        lemma_drop_first_free(a, d);
        assert(s[0] == a[0]);
        lemma_split_prepend(a.drop_first(), t, d);
        assert(s.drop_first() =~= a.drop_first() + seq![d] + t);
        lemma_split_nonempty(t, d);
        let rest = split_on(s.drop_first(), d);
        assert(rest == seq![a.drop_first()] + split_on(t, d));
        assert(rest[0] == a.drop_first());
        assert(seq![s[0]] + rest[0] =~= a);
        assert(rest.drop_first() =~= split_on(t, d));
        assert(split_on(s, d) =~= seq![a] + split_on(t, d));
    }
}

/// Splits a byte slice on the delimiter `d`.
pub fn split_bytes(s: &[u8], d: u8) -> (r: Vec<Vec<u8>>)
    ensures
        views_of(r@) == split_on(s@, d),
{
    let mut acc: Vec<Vec<u8>> = Vec::new();
    let mut start: usize = 0;
    let mut i: usize = 0;
    proof {
        assert(s@.skip(0) =~= s@);
        assert(views_of(acc@) =~= Seq::<Seq<u8>>::empty());
        assert(s@.subrange(0, 0) =~= Seq::<u8>::empty());
        assert(split_on(s@, d) =~= views_of(acc@) + split_on(s@.skip(0), d));
    }
    while i < s.len()
        invariant
            0 <= start <= i <= s@.len(),
            !s@.subrange(start as int, i as int).contains(d),
            split_on(s@, d) =~= views_of(acc@) + split_on(s@.skip(start as int), d),
        decreases s@.len() - i,
    {
        if s[i] == d {
            let part = vstd::slice::slice_to_vec(vstd::slice::slice_subrange(s, start, i));
            proof {
                let a = s@.subrange(start as int, i as int);
                let t = s@.skip(i as int + 1);
                assert(s@.skip(start as int) =~= a + seq![d] + t);
                lemma_split_prepend(a, t, d);
                assert(views_of(acc@.push(part)) =~= views_of(acc@) + seq![a]);
                assert(views_of(acc@) + (seq![a] + split_on(t, d)) =~= (views_of(acc@) + seq![a])
                    + split_on(t, d));
            }
            acc.push(part);
            start = i + 1;
            proof {
                assert(s@.subrange(start as int, start as int) =~= Seq::<u8>::empty());
                assert(split_on(s@, d) =~= views_of(acc@) + split_on(s@.skip(start as int), d));
            }
        } else {
            proof {
                let a = s@.subrange(start as int, i as int);
                let a2 = s@.subrange(start as int, i as int + 1);
                assert(a2 =~= a.push(s@[i as int]));
                assert(!a2.contains(d)) by {
                    if a2.contains(d) {
                        let j = choose|j: int| 0 <= j < a2.len() && a2[j] == d;
                        if j < a.len() {
                            assert(a[j] == d);
                        }
                    }
                }
            }
        }
        i += 1;
    }
    let last = vstd::slice::slice_to_vec(vstd::slice::slice_subrange(s, start, s.len()));
    proof {
        assert(s@.skip(start as int) =~= s@.subrange(start as int, s@.len() as int));
        lemma_split_free(s@.skip(start as int), d);
        assert(views_of(acc@.push(last)) =~= views_of(acc@) + seq![last@]);
        assert(views_of(acc@.push(last)) =~= split_on(s@, d));
    }
    acc.push(last);
    acc
}

/// ASCII whitespace, as stripped from header names and data lines.
pub open spec fn is_space(b: u8) -> bool {
    b == 32 || b == 9 || b == 13 || b == 10
}

pub open spec fn trim_start_spec(s: Seq<u8>) -> Seq<u8>
    decreases s.len(),
{
    if s.len() > 0 && is_space(s[0]) {
        trim_start_spec(s.drop_first())
    } else {
        s
    }
}

pub open spec fn trim_end_spec(s: Seq<u8>) -> Seq<u8>
    decreases s.len(),
{
    if s.len() > 0 && is_space(s[s.len() - 1]) {
        trim_end_spec(s.drop_last())
    } else {
        s
    }
}

/// `s` with ASCII whitespace removed from both ends.
pub open spec fn trim_spec(s: Seq<u8>) -> Seq<u8> {
    trim_end_spec(trim_start_spec(s))
}

/// Removes ASCII whitespace from both ends of `s`.
pub fn trim_bytes(s: &[u8]) -> (r: Vec<u8>)
    ensures
        r@ == trim_spec(s@),
{
    let mut lo: usize = 0;
    proof {
        assert(s@.skip(0) =~= s@);
    }
    while lo < s.len() && (s[lo] == 32 || s[lo] == 9 || s[lo] == 13 || s[lo] == 10)
        invariant
            0 <= lo <= s@.len(),
            trim_start_spec(s@) == trim_start_spec(s@.skip(lo as int)),
        decreases s@.len() - lo,
    {
        proof {
            assert(s@.skip(lo as int).drop_first() =~= s@.skip(lo as int + 1));
        }
        lo += 1;
    }
    let ghost head = s@.skip(lo as int);
    proof {
        assert(trim_start_spec(head) == head);
    }
    let mut hi: usize = s.len();
    proof {
        assert(s@.subrange(lo as int, hi as int) =~= head);
    }
    while hi > lo && (s[hi - 1] == 32 || s[hi - 1] == 9 || s[hi - 1] == 13 || s[hi - 1] == 10)
        invariant
            0 <= lo <= hi <= s@.len(),
            head == s@.skip(lo as int),
            trim_end_spec(head) == trim_end_spec(s@.subrange(lo as int, hi as int)),
        decreases hi,
    {
        proof {
            assert(s@.subrange(lo as int, hi as int).drop_last() =~= s@.subrange(
                lo as int,
                hi as int - 1,
            ));
        }
        hi -= 1;
    }
    proof {
        assert(trim_end_spec(s@.subrange(lo as int, hi as int)) == s@.subrange(
            lo as int,
            hi as int,
        ));
    }
    vstd::slice::slice_to_vec(vstd::slice::slice_subrange(s, lo, hi))
}

pub proof fn lemma_trim_start_len(s: Seq<u8>)
    ensures
        trim_start_spec(s).len() <= s.len(),
    decreases s.len(),
{
    if s.len() > 0 && is_space(s[0]) {
        lemma_trim_start_len(s.drop_first());
    }
}

pub proof fn lemma_trim_end_len(s: Seq<u8>)
    ensures
        trim_end_spec(s).len() <= s.len(),
    decreases s.len(),
{
    if s.len() > 0 && is_space(s[s.len() - 1]) {
        lemma_trim_end_len(s.drop_last());
    }
}

/// A sequence whose ends are not whitespace is its own trim.
pub proof fn lemma_trim_fixed(s: Seq<u8>)
    requires
        s.len() > 0 ==> !is_space(s[0]) && !is_space(s[s.len() - 1]),
    ensures
        trim_spec(s) == s,
{
}

/// A non-empty sequence equal to its own trim has no whitespace at either
/// end.
pub proof fn lemma_trimmed_ends(s: Seq<u8>)
    requires
        trim_spec(s) == s,
        s.len() > 0,
    ensures
        !is_space(s[0]),
        !is_space(s[s.len() - 1]),
{
    if is_space(s[0]) {
        lemma_trim_start_len(s.drop_first());
        lemma_trim_end_len(trim_start_spec(s.drop_first()));
        assert(trim_spec(s).len() < s.len());
    }
    if is_space(s[s.len() - 1]) {
        assert(trim_start_spec(s) == s);
        lemma_trim_end_len(s.drop_last());
        assert(trim_spec(s).len() < s.len());
    }
}

/// The ends of a join of non-empty parts are the ends of its outer parts.
pub proof fn lemma_join_ends(parts: Seq<Seq<u8>>, d: u8)
    requires
        parts.len() >= 1,
        forall|i: int| 0 <= i < parts.len() ==> (#[trigger] parts[i]).len() > 0,
    ensures
        join_with(parts, d).len() > 0,
        join_with(parts, d)[0] == parts[0][0],
        join_with(parts, d).last() == parts.last().last(),
    decreases parts.len(),
{
    if parts.len() > 1 {
        let rest = parts.drop_first();
        assert(forall|i: int| 0 <= i < rest.len() ==> #[trigger] rest[i] == parts[i + 1]);
        lemma_join_ends(rest, d);
        let j = join_with(parts, d);
        let tail = join_with(rest, d);
        assert(j == parts[0] + seq![d] + tail);
        assert(j[0] == parts[0][0]);
        assert(j[j.len() - 1] == tail[tail.len() - 1]);
        assert(rest.last() == parts.last());
    }
}

/// Byte-wise lexicographic order, as Rust's `<=` on strings and byte
/// slices has it.
pub open spec fn lex_le(a: Seq<u8>, b: Seq<u8>) -> bool
    decreases a.len(),
{
    if a.len() == 0 {
        true
    } else if b.len() == 0 {
        false
    } else if a[0] < b[0] {
        true
    } else if a[0] > b[0] {
        false
    } else {
        lex_le(a.drop_first(), b.drop_first())
    }
}

/// Byte-wise lexicographic `a <= b`.
pub fn lex_le_bytes(a: &[u8], b: &[u8]) -> (r: bool)
    ensures
        r == lex_le(a@, b@),
{
    let mut i: usize = 0;
    proof {
        assert(a@.skip(0) =~= a@);
        assert(b@.skip(0) =~= b@);
    }
    while i < a.len() && i < b.len()
        invariant
            0 <= i <= a@.len(),
            0 <= i <= b@.len(),
            lex_le(a@, b@) == lex_le(a@.skip(i as int), b@.skip(i as int)),
        decreases a@.len() - i,
    {
        proof {
            assert(a@.skip(i as int).drop_first() =~= a@.skip(i as int + 1));
            assert(b@.skip(i as int).drop_first() =~= b@.skip(i as int + 1));
        }
        if a[i] < b[i] {
            return true;
        }
        if a[i] > b[i] {
            return false;
        }
        i += 1;
    }
    i == a.len()
}

/// `needle` occurs contiguously in `hay`.
pub open spec fn contains_seq(hay: Seq<u8>, needle: Seq<u8>) -> bool {
    exists|i: int|
        0 <= i && i + needle.len() <= hay.len() && #[trigger] hay.subrange(i, i + needle.len())
            == needle
}

/// `needle` matches `hay` at position `at`.
fn match_at(hay: &[u8], needle: &[u8], at: usize) -> (r: bool)
    requires
        at + needle@.len() <= hay@.len(),
    ensures
        r == (hay@.subrange(at as int, at as int + needle@.len()) == needle@),
{
    let hn = hay.len();
    let mut j: usize = 0;
    while j < needle.len()
        invariant
            0 <= j <= needle@.len(),
            at + needle@.len() <= hay@.len(),
            hay@.len() == hn,
            forall|k: int| 0 <= k < j ==> hay@[at + k] == needle@[k],
        decreases needle@.len() - j,
    {
        if hay[at + j] != needle[j] {
            proof {
                let sub = hay@.subrange(at as int, at as int + needle@.len());
                assert(sub[j as int] == hay@[at + j]);
            }
            return false;
        }
        j += 1;
    }
    proof {
        assert(hay@.subrange(at as int, at as int + needle@.len()) =~= needle@);
    }
    true
}

/// Substring search: does `needle` occur anywhere in `hay`?
pub fn contains_bytes(hay: &[u8], needle: &[u8]) -> (r: bool)
    ensures
        r == contains_seq(hay@, needle@),
{
    if needle.len() > hay.len() {
        return false;
    }
    if needle.len() == 0 {
        proof {
            assert(hay@.subrange(0, 0 + needle@.len() as int) =~= needle@);
            assert(contains_seq(hay@, needle@));
        }
        return true;
    }
    let hn = hay.len();
    let mut i: usize = 0;
    while i <= hay.len() - needle.len()
        invariant
            1 <= needle@.len() <= hay@.len(),
            hay@.len() == hn,
            0 <= i <= hay@.len() - needle@.len() + 1,
            forall|j: int|
                0 <= j < i ==> #[trigger] hay@.subrange(j, j + needle@.len()) != needle@,
        decreases hay@.len() - needle@.len() + 1 - i,
    {
        if match_at(hay, needle, i) {
            return true;
        }
        i += 1;
    }
    false
}

/// ASCII upper-casing of one byte.
pub open spec fn to_upper(b: u8) -> u8 {
    if 97 <= b && b <= 122 {
        (b - 32) as u8
    } else {
        b
    }
}

/// ASCII upper-casing of a byte sequence.
pub open spec fn upper_seq(s: Seq<u8>) -> Seq<u8> {
    s.map_values(|b: u8| to_upper(b))
}

/// Upper-cases the ASCII letters of `s`.
pub fn upper_bytes(s: &[u8]) -> (r: Vec<u8>)
    ensures
        r@ == upper_seq(s@),
{
    let mut r: Vec<u8> = Vec::new();
    let mut i: usize = 0;
    while i < s.len()
        invariant
            0 <= i <= s@.len(),
            r@.len() == i,
            forall|j: int| 0 <= j < i ==> r@[j] == to_upper(s@[j]),
        decreases s@.len() - i,
    {
        let b = s[i];
        if 97 <= b && b <= 122 {
            r.push(b - 32);
        } else {
            r.push(b);
        }
        i += 1;
    }
    proof {
        assert(r@ =~= upper_seq(s@));
    }
    r
}

/// Byte-slice equality.
pub fn bytes_eq(a: &[u8], b: &[u8]) -> (r: bool)
    ensures
        r == (a@ == b@),
{
    if a.len() != b.len() {
        return false;
    }
    let mut i: usize = 0;
    while i < a.len()
        invariant
            a@.len() == b@.len(),
            0 <= i <= a@.len(),
            forall|j: int| 0 <= j < i ==> a@[j] == b@[j],
        decreases a@.len() - i,
    {
        if a[i] != b[i] {
            return false;
        }
        i += 1;
    }
    proof {
        assert(a@ =~= b@);
    }
    true
}

/// Law: splitting the join of delimiter-free parts gives back exactly
/// those parts, in order.
pub proof fn lemma_split_join(parts: Seq<Seq<u8>>, d: u8)
    requires
        parts.len() >= 1,
        forall|i: int| 0 <= i < parts.len() ==> !(#[trigger] parts[i]).contains(d),
    ensures
        split_on(join_with(parts, d), d) == parts,
    decreases parts.len(),
{
    if parts.len() == 1 {
        lemma_split_free(parts[0], d);
        assert(split_on(join_with(parts, d), d) =~= parts);
    } else {
        let rest = parts.drop_first();
        assert(forall|i: int| 0 <= i < rest.len() ==> !(#[trigger] rest[i]).contains(d)) by {
            assert(forall|i: int|
                0 <= i < rest.len() ==> #[trigger] rest[i] == parts[i + 1]);
        }
        lemma_split_join(rest, d);
        lemma_split_prepend(parts[0], join_with(rest, d), d);
        assert(seq![parts[0]] + rest =~= parts);
    }
}

} // verus!
