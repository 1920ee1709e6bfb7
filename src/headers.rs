//! An ordered list of header fields whose names match without regard to case.
use vstd::prelude::*;
use crate::bytes::{
    COLON, COMMA, CR, LF, SP, eq_ignore_case, push_all, same_ignoring_case,
};

verus! {

/// The index of the first field named `name` (ignoring case) at or after `i`.
pub open spec fn header_index_from(h: Seq<(Seq<u8>, Seq<u8>)>, name: Seq<u8>, i: nat) -> Option<
    nat,
>
    decreases h.len() - i,
{
    if i >= h.len() {
        None
    } else if same_ignoring_case(h[i as int].0, name) {
        Some(i)
    } else {
        header_index_from(h, name, i + 1)
    }
}

/// The index of the field named `name`, ignoring case.
pub open spec fn header_index(h: Seq<(Seq<u8>, Seq<u8>)>, name: Seq<u8>) -> Option<nat> {
    header_index_from(h, name, 0)
}

/// The value of the field named `name`, ignoring case.
pub open spec fn header_lookup(h: Seq<(Seq<u8>, Seq<u8>)>, name: Seq<u8>) -> Option<Seq<u8>> {
    match header_index(h, name) {
        Some(i) => Some(h[i as int].1),
        None => None,
    }
}

/// The separator between the values of a repeated field.
pub open spec fn value_separator() -> Seq<u8> {
    seq![COMMA, SP]
}

/// The list after adding field `name: value`. A name already present
/// (ignoring case) keeps its place and spelling, and gets the new value
/// appended after a comma and a space; a new name goes last.
pub open spec fn header_insert(h: Seq<(Seq<u8>, Seq<u8>)>, name: Seq<u8>, value: Seq<u8>) -> Seq<
    (Seq<u8>, Seq<u8>),
> {
    match header_index(h, name) {
        Some(i) => h.update(i as int, (h[i as int].0, h[i as int].1 + value_separator() + value)),
        None => h.push((name, value)),
    }
}

/// One field as it stands on the wire: `name: value` and a line terminator.
pub open spec fn field_line(f: (Seq<u8>, Seq<u8>)) -> Seq<u8> {
    f.0 + seq![COLON, SP] + f.1 + seq![CR, LF]
}

/// The lines of all fields, in order.
pub open spec fn fields_bytes(h: Seq<(Seq<u8>, Seq<u8>)>) -> Seq<u8>
    decreases h.len(),
{
    if h.len() == 0 {
        Seq::empty()
    } else {
        fields_bytes(h.drop_last()) + field_line(h.last())
    }
}

/// Header fields in insertion order.
#[derive(Debug, PartialEq, Eq)]
pub struct Headers {
    entries: Vec<(Vec<u8>, Vec<u8>)>,
}

/// The views of a list of fields.
pub open spec fn field_views(e: Seq<(Vec<u8>, Vec<u8>)>) -> Seq<(Seq<u8>, Seq<u8>)> {
    e.map_values(|f: (Vec<u8>, Vec<u8>)| (f.0@, f.1@))
}

impl View for Headers {
    type V = Seq<(Seq<u8>, Seq<u8>)>;

    closed spec fn view(&self) -> Seq<(Seq<u8>, Seq<u8>)> {
        field_views(self.entries@)
    }
}

impl Headers {
    /// No fields.
    pub fn new() -> (r: Headers)
        ensures
            r@ == Seq::<(Seq<u8>, Seq<u8>)>::empty(),
    {
        let r = Headers { entries: Vec::new() };
        assert(r@ =~= Seq::<(Seq<u8>, Seq<u8>)>::empty());
        r
    }

    /// The number of distinct fields.
    pub fn len(&self) -> (r: usize)
        ensures
            r == self@.len(),
    {
        self.entries.len()
    }

    fn index_of(&self, name: &[u8]) -> (r: Option<usize>)
        ensures
            match r {
                Some(i) => header_index(self@, name@) == Some(i as nat) && i < self@.len(),
                None => header_index(self@, name@) is None,
            },
            self@.len() == self.entries@.len(),
    {
        let mut i: usize = 0;
        while i < self.entries.len()
            invariant
                i <= self@.len(),
                self@.len() == self.entries@.len(),
                header_index(self@, name@) == header_index_from(self@, name@, i as nat),
            decreases self@.len() - i,
        {
            if eq_ignore_case(self.entries[i].0.as_slice(), name) {
                return Some(i);
            }
            i = i + 1;
        }
        None
    }

    /// The value of the field named `name`, ignoring case.
    pub fn get(&self, name: &[u8]) -> (r: Option<&Vec<u8>>)
        ensures
            match r {
                Some(v) => header_lookup(self@, name@) == Some(v@),
                None => header_lookup(self@, name@) is None,
            },
    {
        match self.index_of(name) {
            Some(i) => Some(&self.entries[i].1),
            None => None,
        }
    }

    /// Adds field `name: value`, merging it into a field of the same name.
    pub fn insert(&mut self, name: Vec<u8>, value: Vec<u8>)
        ensures
            final(self)@ == header_insert(old(self)@, name@, value@),
    {
        match self.index_of(name.as_slice()) {
            Some(i) => {
                let (n, mut v) = self.entries.remove(i);
                let ghost old_value = v@;
                v.push(COMMA);
                v.push(SP);
                push_all(&mut v, value.as_slice());
                self.entries.insert(i, (n, v));
                proof {
                    assert(v@ =~= old_value + value_separator() + value@);
                    assert(self@ =~= header_insert(old(self)@, name@, value@));
                }
            },
            None => {
                self.entries.push((name, value));
                proof {
                    assert(self@ =~= header_insert(old(self)@, name@, value@));
                }
            },
        }
    }

    /// Appends every field, as `name: value` lines, to `out`.
    pub fn write_to(&self, out: &mut Vec<u8>)
        ensures
            final(out)@ == old(out)@ + fields_bytes(self@),
    {
        let mut i: usize = 0;
        while i < self.entries.len()
            invariant
                i <= self.entries@.len(),
                self@.len() == self.entries@.len(),
                out@ == old(out)@ + fields_bytes(self@.take(i as int)),
            decreases self.entries@.len() - i,
        {
            let ghost before = out@;
            push_all(out, self.entries[i].0.as_slice());
            out.push(COLON);
            out.push(SP);
            push_all(out, self.entries[i].1.as_slice());
            out.push(CR);
            out.push(LF);
            proof {
                assert(self@.take(i + 1).drop_last() =~= self@.take(i as int));
                assert(self@.take(i + 1).last() == self@[i as int]);
                assert(out@ =~= before + field_line(self@[i as int]));
            }
            i = i + 1;
        }
        assert(self@.take(self@.len() as int) =~= self@);
    }
}

} // verus!
