//! The query component of a request target: keys mapped to one or more values.
use vstd::prelude::*;
use crate::bytes::{
    AMPERSAND, EQUALS, bytes_eq, copy_range, find_byte, find_byte_exec, split_bytes, split_on,
    views,
};

verus! {

/// The value of a query key: one value, or every value in the order seen.
#[derive(Clone, Debug, PartialEq, Eq)]
pub enum Value {
    Single(Vec<u8>),
    Multiple(Vec<Vec<u8>>),
}

impl View for Value {
    type V = Seq<Seq<u8>>;

    open spec fn view(&self) -> Seq<Seq<u8>> {
        match self {
            Value::Single(s) => seq![s@],
            Value::Multiple(v) => views(v@),
        }
    }
}

impl Value {
    /// `Multiple` is only used for two values or more.
    pub open spec fn wf(&self) -> bool {
        match self {
            Value::Single(_) => true,
            Value::Multiple(v) => v@.len() >= 2,
        }
    }
}

/// A `key=value` pair split at its first `=`; without `=` the value is empty.
pub open spec fn pair_of(piece: Seq<u8>) -> (Seq<u8>, Seq<u8>) {
    match find_byte(piece, EQUALS) {
        Some(i) => (piece.subrange(0, i as int), piece.subrange(i as int + 1, piece.len() as int)),
        None => (piece, Seq::empty()),
    }
}

/// The pairs of a raw query, in order: split on `&`, then each on its first `=`.
pub open spec fn query_pairs(raw: Seq<u8>) -> Seq<(Seq<u8>, Seq<u8>)> {
    split_on(raw, AMPERSAND).map_values(|p: Seq<u8>| pair_of(p))
}

/// The values given to key `k` by `pairs`, in order.
pub open spec fn values_for(pairs: Seq<(Seq<u8>, Seq<u8>)>, k: Seq<u8>) -> Seq<Seq<u8>>
    decreases pairs.len(),
{
    if pairs.len() == 0 {
        Seq::empty()
    } else {
        let rest = values_for(pairs.drop_last(), k);
        if pairs.last().0 == k {
            rest.push(pairs.last().1)
        } else {
            rest
        }
    }
}

/// The mapping from each key of `pairs` to its values.
pub open spec fn mapping_of(pairs: Seq<(Seq<u8>, Seq<u8>)>) -> Map<Seq<u8>, Seq<Seq<u8>>> {
    Map::new(|k: Seq<u8>| values_for(pairs, k).len() > 0, |k: Seq<u8>| values_for(pairs, k))
}

/// The mapping that a raw query describes.
pub open spec fn query_of(raw: Seq<u8>) -> Map<Seq<u8>, Seq<Seq<u8>>> {
    mapping_of(query_pairs(raw))
}

/// A parsed query string, immutable once built.
#[derive(Debug, PartialEq, Eq)]
pub struct QueryString {
    entries: Vec<(Vec<u8>, Value)>,
}

/// Keys are distinct and each value is well formed.
pub open spec fn entries_wf(e: Seq<(Vec<u8>, Value)>) -> bool {
    &&& forall|i: int, j: int| 0 <= i < j < e.len() ==> e[i].0@ != e[j].0@
    &&& forall|i: int| 0 <= i < e.len() ==> (#[trigger] e[i]).1.wf()
}

/// The mapping that a list of entries with distinct keys describes.
pub open spec fn entries_view(e: Seq<(Vec<u8>, Value)>) -> Map<Seq<u8>, Seq<Seq<u8>>> {
    Map::new(
        |k: Seq<u8>| exists|i: int| 0 <= i < e.len() && e[i].0@ == k,
        |k: Seq<u8>| e[choose|i: int| 0 <= i < e.len() && e[i].0@ == k].1@,
    )
}

impl View for QueryString {
    type V = Map<Seq<u8>, Seq<Seq<u8>>>;

    closed spec fn view(&self) -> Map<Seq<u8>, Seq<Seq<u8>>> {
        entries_view(self.entries@)
    }
}

/// Splits a pair at its first `=`.
fn split_pair(piece: &[u8]) -> (r: (Vec<u8>, Vec<u8>))
    ensures
        (r.0@, r.1@) == pair_of(piece@),
{
    proof {
        crate::bytes::lemma_find_byte_from(piece@, EQUALS, 0);
    }
    match find_byte_exec(piece, EQUALS, 0) {
        Some(i) => {
            let n = piece.len();
            assert(i < n);
            (copy_range(piece, 0, i), copy_range(piece, i + 1, n))
        },
        None => (copy_range(piece, 0, piece.len()), Vec::new()),
    }
}

/// The index of the entry with key `k`, if any.
fn find_key(e: &Vec<(Vec<u8>, Value)>, k: &[u8]) -> (r: Option<usize>)
    ensures
        match r {
            Some(j) => j < e@.len() && e@[j as int].0@ == k@,
            None => forall|i: int| 0 <= i < e@.len() ==> e@[i].0@ != k@,
        },
{
    let mut i: usize = 0;
    while i < e.len()
        invariant
            i <= e@.len(),
            forall|j: int| 0 <= j < i ==> e@[j].0@ != k@,
        decreases e@.len() - i,
    {
        if bytes_eq(e[i].0.as_slice(), k) {
            return Some(i);
        }
        i = i + 1;
    }
    None
}

/// The value after one more occurrence of its key, with value `v`.
fn add_value(old: Value, v: Vec<u8>) -> (r: Value)
    requires
        old.wf(),
    ensures
        r.wf(),
        r@ == old@.push(v@),
{
    match old {
        Value::Single(a) => {
            let mut vs: Vec<Vec<u8>> = Vec::new();
            vs.push(a);
            vs.push(v);
            proof {
                assert(views(vs@) =~= old@.push(v@));
            }
            Value::Multiple(vs)
        },
        Value::Multiple(vs) => {
            let mut vs = vs;
            let ghost before = vs@;
            vs.push(v);
            proof {
                assert(views(vs@) =~= views(before).push(v@));
            }
            Value::Multiple(vs)
        },
    }
}

impl QueryString {
    #[verifier::type_invariant]
    spec fn inv(self) -> bool {
        entries_wf(self.entries@)
    }

    /// Parses the query component of a request target (what follows the `?`).
    pub fn parse(raw: &[u8]) -> (r: QueryString)
        ensures
            r@ == query_of(raw@),
    {
        let pieces = split_bytes(raw, AMPERSAND);
        let ghost pairs = query_pairs(raw@);
        let mut entries: Vec<(Vec<u8>, Value)> = Vec::new();
        let mut idx: usize = 0;
        while idx < pieces.len()
            invariant
                views(pieces@) == split_on(raw@, AMPERSAND),
                pairs == query_pairs(raw@),
                pairs.len() == pieces@.len(),
                idx <= pieces@.len(),
                entries_wf(entries@),
                forall|k: Seq<u8>|
                    (exists|i: int| 0 <= i < entries@.len() && entries@[i].0@ == k) <==> (
                    #[trigger] values_for(pairs.take(idx as int), k)).len() > 0,
                forall|i: int|
                    0 <= i < entries@.len() ==> (#[trigger] entries@[i]).1@ == values_for(
                        pairs.take(idx as int),
                        entries@[i].0@,
                    ),
            decreases pieces@.len() - idx,
        {
            let (k, v) = split_pair(pieces[idx].as_slice());
            let ghost prev = entries@;
            let ghost before = pairs.take(idx as int);
            let ghost after = pairs.take(idx + 1);
            proof {
                assert(after.drop_last() =~= before);
                assert(after.last() == pairs[idx as int]);
                assert(views(pieces@)[idx as int] == pieces@[idx as int]@);
                assert(pairs[idx as int] == (k@, v@));
            }
            match find_key(&entries, k.as_slice()) {
                Some(j) => {
                    let (key, old) = entries.remove(j);
                    let new_value = add_value(old, v);
                    entries.insert(j, (key, new_value));
                    proof {
                        assert(entries@ =~= prev.update(j as int, (key, new_value)));
                        assert forall|kk: Seq<u8>|
                            (exists|i: int| 0 <= i < entries@.len() && entries@[i].0@ == kk)
                                <==> (#[trigger] values_for(after, kk)).len() > 0 by {
                            assert(values_for(after, kk) == if after.last().0 == kk {
                                values_for(before, kk).push(after.last().1)
                            } else {
                                values_for(before, kk)
                            });
                            assert((exists|i: int| 0 <= i < prev.len() && prev[i].0@ == kk)
                                <==> values_for(before, kk).len() > 0);
                            if exists|i: int| 0 <= i < prev.len() && prev[i].0@ == kk {
                                let i = choose|i: int| 0 <= i < prev.len() && prev[i].0@ == kk;
                                assert(entries@[i].0@ == kk);
                            }
                            if exists|i: int| 0 <= i < entries@.len() && entries@[i].0@ == kk {
                                let i = choose|i: int|
                                    0 <= i < entries@.len() && entries@[i].0@ == kk;
                                assert(prev[i].0@ == kk);
                            }
                        }
                    }
                },
                None => {
                    let ghost kv = k@;
                    let ghost vv = v@;
                    entries.push((k, Value::Single(v)));
                    proof {
                        assert(values_for(before, kv).len() == 0);
                        assert(values_for(before, kv) =~= Seq::<Seq<u8>>::empty());
                        assert(entries@[prev.len() as int].1@ =~= values_for(after, kv));
                        assert forall|kk: Seq<u8>|
                            (exists|i: int| 0 <= i < entries@.len() && entries@[i].0@ == kk)
                                <==> (#[trigger] values_for(after, kk)).len() > 0 by {
                            assert(values_for(after, kk) == if after.last().0 == kk {
                                values_for(before, kk).push(after.last().1)
                            } else {
                                values_for(before, kk)
                            });
                            assert((exists|i: int| 0 <= i < prev.len() && prev[i].0@ == kk)
                                <==> values_for(before, kk).len() > 0);
                            if exists|i: int| 0 <= i < prev.len() && prev[i].0@ == kk {
                                let i = choose|i: int| 0 <= i < prev.len() && prev[i].0@ == kk;
                                assert(entries@[i].0@ == kk);
                            }
                            if kk == kv {
                                assert(entries@[prev.len() as int].0@ == kk);
                            }
                            if exists|i: int| 0 <= i < entries@.len() && entries@[i].0@ == kk {
                                let i = choose|i: int|
                                    0 <= i < entries@.len() && entries@[i].0@ == kk;
                                if i < prev.len() {
                                    assert(prev[i].0@ == kk);
                                }
                            }
                        }
                    }
                },
            }
            idx = idx + 1;
        }
        proof {
            assert(pairs.take(pieces@.len() as int) =~= pairs);
            assert(entries_view(entries@) =~= query_of(raw@));
        }
        QueryString { entries }
    }

    /// The value of key `key`, if the query has it. A key seen once holds a
    /// `Single` value; a key seen more often holds every value in order.
    pub fn get(&self, key: &[u8]) -> (r: Option<&Value>)
        ensures
            r is Some <==> self@.contains_key(key@),
            r matches Some(v) ==> v@ == self@[key@] && v.wf(),
    {
        proof {
            use_type_invariant(self);
        }
        match find_key(&self.entries, key) {
            Some(j) => {
                proof {
                    let e = self.entries@;
                    assert(exists|i: int| 0 <= i < e.len() && e[i].0@ == key@);
                    let c = choose|i: int| 0 <= i < e.len() && e[i].0@ == key@;
                    assert(c == j);
                }
                Some(&self.entries[j].1)
            },
            None => None,
        }
    }
}

} // verus!
