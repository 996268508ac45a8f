//! An ordered multimap of header fields. Names are held in ASCII
//! lowercase; values are opaque bytes from the allowed field range.

use vstd::prelude::*;

use crate::ascii::{all_field_bytes, all_tchars, lower, lower_vec, bytes_eq};

verus! {

/// A header field name as stored: nonempty, token characters, lowercase.
pub open spec fn is_header_name(s: Seq<u8>) -> bool {
    s.len() > 0 && all_tchars(s) && s == lower(s)
}

/// A well-formed stored header entry.
pub open spec fn wf_entry(e: (Seq<u8>, Seq<u8>)) -> bool {
    is_header_name(e.0) && all_field_bytes(e.1)
}

/// The value of the first entry carrying `name`.
pub open spec fn spec_get(s: Seq<(Seq<u8>, Seq<u8>)>, name: Seq<u8>) -> Option<Seq<u8>>
    decreases s.len(),
{
    if s.len() == 0 {
        None
    } else if s[0].0 == name {
        Some(s[0].1)
    } else {
        spec_get(s.drop_first(), name)
    }
}

/// How many entries carry `name`.
pub open spec fn count_name(s: Seq<(Seq<u8>, Seq<u8>)>, name: Seq<u8>) -> nat
    decreases s.len(),
{
    if s.len() == 0 {
        0
    } else {
        count_name(s.drop_last(), name) + if s.last().0 == name {
            1nat
        } else {
            0nat
        }
    }
}

/// The entries that do not carry `name`, in order.
pub open spec fn remove_name(s: Seq<(Seq<u8>, Seq<u8>)>, name: Seq<u8>) -> Seq<
    (Seq<u8>, Seq<u8>),
>
    decreases s.len(),
{
    if s.len() == 0 {
        Seq::empty()
    } else {
        remove_name(s.drop_last(), name) + if s.last().0 == name {
            Seq::empty()
        } else {
            seq![s.last()]
        }
    }
}

/// An ordered multimap of header fields, insertion order kept.
#[derive(Debug)]
pub struct Headers {
    pub(crate) entries: Vec<(Vec<u8>, Vec<u8>)>,
}

impl View for Headers {
    type V = Seq<(Seq<u8>, Seq<u8>)>;

    closed spec fn view(&self) -> Seq<(Seq<u8>, Seq<u8>)> {
        Seq::new(self.entries@.len(), |i: int| (self.entries@[i].0@, self.entries@[i].1@))
    }
}

impl Headers {
    /// Every entry is well-formed.
    pub open spec fn wf(&self) -> bool {
        forall|i: int| 0 <= i < self@.len() ==> wf_entry(#[trigger] self@[i])
    }

    pub fn new() -> (r: Headers)
        ensures
            r@ == Seq::<(Seq<u8>, Seq<u8>)>::empty(),
            r.wf(),
    {
        let r = Headers { entries: Vec::new() };
        proof {
            assert(r@ =~= Seq::<(Seq<u8>, Seq<u8>)>::empty());
        }
        r
    }

    pub fn len(&self) -> (n: usize)
        ensures
            n == self@.len(),
    {
        self.entries.len()
    }

    pub fn is_empty(&self) -> (r: bool)
        ensures
            r == (self@.len() == 0),
    {
        self.entries.len() == 0
    }

    /// The stored (lowercased) name of the entry at `i`.
    pub fn name_at(&self, i: usize) -> (r: &Vec<u8>)
        requires
            i < self@.len(),
        ensures
            r@ == self@[i as int].0,
    {
        &self.entries[i].0
    }

    /// The value of the entry at `i`.
    pub fn value_at(&self, i: usize) -> (r: &Vec<u8>)
        requires
            i < self@.len(),
        ensures
            r@ == self@[i as int].1,
    {
        &self.entries[i].1
    }

    /// Add an entry at the end; the name is folded to lowercase.
    pub fn append(&mut self, name: &[u8], value: Vec<u8>)
        requires
            name@.len() > 0,
            all_tchars(name@),
            all_field_bytes(value@),
        ensures
            final(self)@ == old(self)@.push((lower(name@), value@)),
            old(self).wf() ==> final(self).wf(),
    {
        let lowered = lower_vec(name);
        proof {
            lemma_lower_tchars(name@);
        }
        self.entries.push((lowered, value));
        proof {
            assert(self@ =~= old(self)@.push((lower(name@), value@)));
        }
    }

    /// Add an already-lowercased entry at the front.
    pub fn prepend(&mut self, name: Vec<u8>, value: Vec<u8>)
        requires
            is_header_name(name@),
            all_field_bytes(value@),
        ensures
            final(self)@ == seq![(name@, value@)] + old(self)@,
            old(self).wf() ==> final(self).wf(),
    {
        self.entries.insert(0, (name, value));
        proof {
            assert(self@ =~= seq![(name@, value@)] + old(self)@);
        }
    }

    /// Replace every entry of this name by a single one at the end;
    /// the name is folded to lowercase.
    pub fn insert(&mut self, name: &[u8], value: Vec<u8>)
        requires
            name@.len() > 0,
            all_tchars(name@),
            all_field_bytes(value@),
        ensures
            final(self)@ == remove_name(old(self)@, lower(name@)).push((lower(name@), value@)),
            old(self).wf() ==> final(self).wf(),
    {
        let lowered = lower_vec(name);
        proof {
            lemma_lower_tchars(name@);
        }
        let mut kept: Vec<(Vec<u8>, Vec<u8>)> = Vec::new();
        let n = self.entries.len();
        let mut i: usize = 0;
        while i < n
            invariant
                0 <= i <= n,
                n == self.entries@.len(),
                lowered@ == lower(name@),
                Seq::new(kept@.len(), |k: int| (kept@[k].0@, kept@[k].1@)) =~= remove_name(
                    self@.take(i as int),
                    lowered@,
                ),
                forall|k: int|
                    0 <= k < kept@.len() ==> wf_entry((kept@[k].0@, kept@[k].1@)) || !old(
                        self,
                    ).wf(),
            decreases n - i,
        {
            proof {
                assert(self@.take(i + 1).drop_last() =~= self@.take(i as int));
                assert(self@.take(i + 1).last() == self@[i as int]);
            }
            if !bytes_eq(self.entries[i].0.as_slice(), lowered.as_slice()) {
                let name_i = self.entries[i].0.clone();
                let value_i = self.entries[i].1.clone();
                kept.push((name_i, value_i));
            }
            i = i + 1;
        }
        proof {
            assert(self@.take(n as int) =~= self@);
        }
        kept.push((lowered, value));
        self.entries = kept;
        proof {
            assert(self@ =~= remove_name(old(self)@, lower(name@)).push((lower(name@), value@)));
        }
    }

    /// First value stored under this name; the lookup folds the name.
    pub fn get(&self, name: &[u8]) -> (r: Option<&Vec<u8>>)
        ensures
            match r {
                Some(v) => spec_get(self@, lower(name@)) == Some(v@),
                None => spec_get(self@, lower(name@)) is None,
            },
    {
        let lowered = lower_vec(name);
        let n = self.entries.len();
        proof {
            assert(self@.skip(0) =~= self@);
        }
        let mut i: usize = 0;
        while i < n
            invariant
                0 <= i <= n,
                n == self@.len(),
                lowered@ == lower(name@),
                spec_get(self@, lowered@) == spec_get(self@.skip(i as int), lowered@),
            decreases n - i,
        {
            proof {
                assert(self@.skip(i as int)[0] == self@[i as int]);
                assert(self@.skip(i as int).drop_first() =~= self@.skip(i + 1));
            }
            if bytes_eq(self.entries[i].0.as_slice(), lowered.as_slice()) {
                return Some(&self.entries[i].1);
            }
            i = i + 1;
        }
        proof {
            assert(self@.skip(n as int) =~= Seq::<(Seq<u8>, Seq<u8>)>::empty());
        }
        None
    }

    /// Whether any entry carries this name.
    pub fn contains(&self, name: &[u8]) -> (r: bool)
        ensures
            r == (spec_get(self@, lower(name@)) is Some),
    {
        match self.get(name) {
            Some(_) => true,
            None => false,
        }
    }
}

/// Dropping the entries of one name keeps every remaining entry
/// well-formed.
pub proof fn lemma_remove_name_wf(s: Seq<(Seq<u8>, Seq<u8>)>, name: Seq<u8>)
    requires
        forall|i: int| 0 <= i < s.len() ==> wf_entry(#[trigger] s[i]),
    ensures
        forall|i: int|
            0 <= i < remove_name(s, name).len() ==> wf_entry(#[trigger] remove_name(s, name)[i]),
    decreases s.len(),
{
    if s.len() > 0 {
        assert(forall|i: int|
            0 <= i < s.drop_last().len() ==> wf_entry(#[trigger] s.drop_last()[i]));
        lemma_remove_name_wf(s.drop_last(), name);
        let r = remove_name(s, name);
        let r0 = remove_name(s.drop_last(), name);
        assert forall|i: int| 0 <= i < r.len() implies wf_entry(#[trigger] r[i]) by {
            if i < r0.len() {
                assert(wf_entry(r0[i]));
            } else {
                assert(r[i] == s.last());
                assert(wf_entry(s[s.len() - 1]));
            }
        }
    }
}

/// Lowercasing a token keeps it a token, and makes it a stored name.
pub proof fn lemma_lower_tchars(s: Seq<u8>)
    requires
        all_tchars(s),
        s.len() > 0,
    ensures
        is_header_name(lower(s)),
{
    assert forall|i: int| 0 <= i < lower(s).len() implies all_tchars(lower(s)) && lower(s)[i]
        == lower(lower(s))[i] by {
        assert(lower(s)[i] == crate::ascii::lower_byte(s[i]));
        assert(lower(lower(s))[i] == crate::ascii::lower_byte(crate::ascii::lower_byte(s[i])));
    }
    assert(lower(s) =~= lower(lower(s)));
}

} // verus!
