//! Keys of a column: their order, ranges of them, and which of them an iteration goes over.
use vstd::prelude::*;
use vstd::slice::slice_to_vec;

verus! {

/// Whether `a` comes before `b`: keys are ordered as their bytes, from the first on.
pub open spec fn key_before(a: Seq<u8>, b: Seq<u8>) -> bool
    decreases a.len(),
{
    if b.len() == 0 {
        false
    } else if a.len() == 0 {
        true
    } else if a[0] != b[0] {
        a[0] < b[0]
    } else {
        key_before(a.skip(1), b.skip(1))
    }
}

/// No key comes before itself.
pub proof fn lemma_key_before_irreflexive(a: Seq<u8>)
    ensures
        !key_before(a, a),
    decreases a.len(),
{
    if a.len() > 0 {
        lemma_key_before_irreflexive(a.skip(1));
    }
}

/// Of two keys that differ, one comes before the other.
pub proof fn lemma_key_before_total(a: Seq<u8>, b: Seq<u8>)
    ensures
        a == b || key_before(a, b) || key_before(b, a),
    decreases a.len(),
{
    if a.len() > 0 && b.len() > 0 && a[0] == b[0] {
        lemma_key_before_total(a.skip(1), b.skip(1));
        if a.skip(1) == b.skip(1) {
            assert(a =~= seq![a[0]] + a.skip(1));
            assert(b =~= seq![b[0]] + b.skip(1));
        }
    } else if a.len() == 0 && b.len() == 0 {
        assert(a =~= b);
    }
}

/// A key comes before whatever comes after one that it comes before.
proof fn lemma_key_before_transitive(a: Seq<u8>, b: Seq<u8>, c: Seq<u8>)
    requires
        key_before(a, b),
        key_before(b, c),
    ensures
        key_before(a, c),
    decreases a.len(),
{
    if a.len() > 0 && a[0] == b[0] && b[0] == c[0] {
        lemma_key_before_transitive(a.skip(1), b.skip(1), c.skip(1));
    }
}

/// Options of a read, and the keys that an iteration goes over.
#[derive(Debug, PartialEq, Eq)]
pub struct ReadOptions {
    pub verify_checksums: bool,
    /// All keys with this prefix.
    pub prefix: Option<Vec<u8>>,
    /// No key before this one.
    pub lower_bound: Option<Vec<u8>>,
    /// Neither this key nor any after it.
    pub upper_bound: Option<Vec<u8>>,
}

impl ReadOptions {
    /// An iteration with these options goes over `key`, where the column has it.
    pub open spec fn selects(self, key: Seq<u8>) -> bool {
        &&& self.prefix matches Some(prefix) ==> prefix@.is_prefix_of(key)
        &&& self.lower_bound matches Some(lower) ==> !key_before(key, lower@)
        &&& self.upper_bound matches Some(upper) ==> key_before(key, upper@)
    }
}

/// What an optional slice holds.
pub open spec fn bytes_of(s: Option<&[u8]>) -> Option<Seq<u8>> {
    match s {
        Some(s) => Some(s@),
        None => None,
    }
}

/// What an optional vector holds.
pub open spec fn vec_bytes(v: Option<Vec<u8>>) -> Option<Seq<u8>> {
    match v {
        Some(v) => Some(v@),
        None => None,
    }
}

/// Options of every read: checksums are not verified, and no key is left out.
pub fn rocksdb_read_options() -> (r: ReadOptions)
    ensures
        !r.verify_checksums,
        r.prefix is None,
        r.lower_bound is None,
        r.upper_bound is None,
{
    ReadOptions { verify_checksums: false, prefix: None, lower_bound: None, upper_bound: None }
}

fn owned(s: Option<&[u8]>) -> (r: Option<Vec<u8>>)
    ensures
        vec_bytes(r) == bytes_of(s),
{
    match s {
        Some(s) => Some(slice_to_vec(s)),
        None => None,
    }
}

/// Options of an iteration over a column.
///
/// You can optionally specify the bounds to limit the range over which it will iterate.
/// You can specify EITHER the prefix, OR lower/upper bounds.
/// Upper bound value is not included in the iteration.
pub fn iter_read_options(
    prefix: Option<&[u8]>,
    lower_bound: Option<&[u8]>,
    upper_bound: Option<&[u8]>,
) -> (r: ReadOptions)
    requires
        prefix is None || (lower_bound is None && upper_bound is None),
    ensures
        !r.verify_checksums,
        vec_bytes(r.prefix) == bytes_of(prefix),
        vec_bytes(r.lower_bound) == bytes_of(lower_bound),
        vec_bytes(r.upper_bound) == bytes_of(upper_bound),
        r.prefix is Some <==> prefix is Some,
        r.lower_bound is Some <==> lower_bound is Some,
        r.upper_bound is Some <==> upper_bound is Some,
        prefix is Some ==> r.prefix->0@ == prefix->0@,
        lower_bound is Some ==> r.lower_bound->0@ == lower_bound->0@,
        upper_bound is Some ==> r.upper_bound->0@ == upper_bound->0@,
{
    let mut read_options = rocksdb_read_options();
    read_options.prefix = owned(prefix);
    read_options.lower_bound = owned(lower_bound);
    read_options.upper_bound = owned(upper_bound);
    read_options
}

/// The smallest and the largest key of a column.
#[derive(Debug, PartialEq, Eq)]
pub struct KeyRange {
    pub start: Vec<u8>,
    pub end: Vec<u8>,
}

/// The keys of a [`KeyRange`].
pub open spec fn range_view(range: Option<KeyRange>) -> Option<(Seq<u8>, Seq<u8>)> {
    match range {
        Some(range) => Some((range.start@, range.end@)),
        None => None,
    }
}

/// `range` is the smallest and the largest of `keys`, or nothing where there are no keys.
pub open spec fn is_range_of(range: Option<(Seq<u8>, Seq<u8>)>, keys: Set<Seq<u8>>) -> bool {
    match range {
        Some((start, end)) => {
            &&& keys.contains(start)
            &&& keys.contains(end)
            &&& forall|k: Seq<u8>| #[trigger]
                keys.contains(k) ==> !key_before(k, start) && !key_before(end, k)
        },
        None => forall|k: Seq<u8>| !keys.contains(k),
    }
}

/// Returns range of keys, given the first key from the start and the first from the end.
///
/// In other words, of the smallest and the largest key in a column. If the column is empty,
/// there is neither, and no range.
pub fn key_range(start: Option<Vec<u8>>, end: Option<Vec<u8>>) -> (r: Option<KeyRange>)
    requires
        start is Some <==> end is Some,
    ensures
        match (start, end) {
            (Some(start), Some(end)) => range_view(r) == Some((start@, end@)),
            _ => r is None,
        },
{
    match (start, end) {
        (Some(start), Some(end)) => Some(KeyRange { start, end }),
        _ => None,
    }
}

/// Keys are in a strict order: of two that differ, exactly one comes before the other, and a key
/// that comes before another comes before all that come after that one.
pub proof fn law_keys_are_ordered(a: Seq<u8>, b: Seq<u8>, c: Seq<u8>)
    ensures
        a == b <==> !key_before(a, b) && !key_before(b, a),
        !(key_before(a, b) && key_before(b, a)),
        key_before(a, b) && key_before(b, c) ==> key_before(a, c),
{
    lemma_key_before_irreflexive(a);
    lemma_key_before_total(a, b);
    if key_before(a, b) && key_before(b, a) {
        lemma_key_before_transitive(a, b, a);
    }
    if key_before(a, b) && key_before(b, c) {
        lemma_key_before_transitive(a, b, c);
    }
}

/// An iteration never goes over its upper bound.
pub proof fn law_upper_bound_not_iterated(options: ReadOptions, upper: Vec<u8>)
    requires
        options.upper_bound == Some(upper),
    ensures
        !options.selects(upper@),
{
    lemma_key_before_irreflexive(upper@);
}

/// An iteration with a lower bound and no upper bound goes over the bound itself.
pub proof fn law_lower_bound_iterated(options: ReadOptions, lower: Vec<u8>)
    requires
        options.prefix is None,
        options.lower_bound == Some(lower),
        options.upper_bound is None,
    ensures
        options.selects(lower@),
{
    lemma_key_before_irreflexive(lower@);
}

/// The first byte in which two keys differ decides which of them comes before the other.
pub proof fn law_first_difference_decides(a: Seq<u8>, b: Seq<u8>, i: int)
    requires
        0 <= i < a.len(),
        i < b.len(),
        a.take(i) == b.take(i),
        a[i] != b[i],
    ensures
        key_before(a, b) <==> a[i] < b[i],
    decreases i,
{
    if i > 0 {
        assert(a[0] == a.take(i)[0] && b[0] == b.take(i)[0]);
        assert(a.skip(1).take(i - 1) =~= a.take(i).skip(1));
        assert(b.skip(1).take(i - 1) =~= b.take(i).skip(1));
        law_first_difference_decides(a.skip(1), b.skip(1), i - 1);
    }
}

/// A key comes before every longer key that it is the start of.
pub proof fn law_start_of_key_comes_first(a: Seq<u8>, b: Seq<u8>)
    requires
        a.len() < b.len(),
        a == b.take(a.len() as int),
    ensures
        key_before(a, b),
        !key_before(b, a),
    decreases a.len(),
{
    if a.len() > 0 {
        assert(a.skip(1) =~= b.skip(1).take(a.len() - 1));
        assert(a[0] == b.take(a.len() as int)[0]);
        law_start_of_key_comes_first(a.skip(1), b.skip(1));
    }
}

/// An iteration with a prefix goes over exactly the keys that start with it.
pub proof fn law_prefix_iterated(options: ReadOptions, prefix: Vec<u8>, key: Seq<u8>)
    requires
        options.prefix == Some(prefix),
        options.lower_bound is None,
        options.upper_bound is None,
    ensures
        options.selects(key) <==> prefix@.len() <= key.len() && key.take(prefix@.len() as int)
            == prefix@,
{
    if prefix@.len() <= key.len() {
        assert(prefix@.is_prefix_of(key) <==> key.take(prefix@.len() as int) =~= prefix@);
    }
}

/// An iteration with both bounds goes over exactly the keys from the lower bound on that come
/// before the upper bound.
pub proof fn law_bounds_iterated(
    options: ReadOptions,
    lower: Vec<u8>,
    upper: Vec<u8>,
    key: Seq<u8>,
)
    requires
        options.prefix is None,
        options.lower_bound == Some(lower),
        options.upper_bound == Some(upper),
    ensures
        options.selects(key) <==> (key == lower@ || key_before(lower@, key)) && key_before(
            key,
            upper@,
        ),
{
    law_keys_are_ordered(key, lower@, key);
}

} // verus!
