//! A mapping from names to dense identifiers with constant expected lookup
//! time. Identifiers are handed out in insertion order, starting at zero.

use std::collections::HashMap;
use vstd::prelude::*;
use vstd::utf8::encode_utf8;

verus! {

broadcast use vstd::std_specs::hash::group_hash_axioms;

/// One step of the name hash: folds a byte into the hash so far.
pub open spec fn mix(h: u64, b: u8) -> u64 {
    ((h % 0x0100_0000_0000_0000) * 31 + b) as u64
}

/// The hash of a byte string.
pub open spec fn hash_bytes(bytes: Seq<u8>) -> u64
    decreases bytes.len(),
{
    if bytes.len() == 0 {
        7
    } else {
        mix(hash_bytes(bytes.drop_last()), bytes.last())
    }
}

/// The hash of a name: that of its UTF-8 encoding.
pub open spec fn hash_of(name: Seq<char>) -> u64 {
    hash_bytes(encode_utf8(name))
}

/// No name stands at two places.
pub open spec fn distinct(names: Seq<Seq<char>>) -> bool {
    forall|i: int, j: int| 0 <= i < j < names.len() ==> names[i] != names[j]
}

/// Some place holds the name.
pub open spec fn holds(names: Seq<Seq<char>>, name: Seq<char>) -> bool {
    exists|i: int| 0 <= i < names.len() && names[i] == name
}

/// `link` is the last place before `i` with the hash of place `i`.
spec fn link_ok(hashes: Seq<u64>, i: int, link: Option<usize>) -> bool {
    match link {
        Some(j) => j < i && hashes[j as int] == hashes[i] && forall|k: int|
            j < k < i ==> hashes[k] != hashes[i],
        None => forall|k: int| 0 <= k < i ==> hashes[k] != hashes[i],
    }
}

/// `head` is the last place with the hash `h`.
spec fn head_ok(hashes: Seq<u64>, h: u64, head: Option<usize>) -> bool {
    match head {
        Some(j) => j < hashes.len() && hashes[j as int] == h && forall|k: int|
            j < k < hashes.len() ==> hashes[k] != h,
        None => forall|k: int| 0 <= k < hashes.len() ==> hashes[k] != h,
    }
}

spec fn head_of(heads: Map<u64, usize>, h: u64) -> Option<usize> {
    if heads.contains_key(h) {
        Some(heads[h])
    } else {
        None
    }
}

/// Computes the hash of a name.
fn hash_name(name: &String) -> (h: u64)
    ensures
        h == hash_of(name@),
{
    let bytes = name.as_str().as_bytes();
    let mut h: u64 = 7;
    let mut i: usize = 0;
    assert(bytes@.take(0) =~= Seq::<u8>::empty());
    while i < bytes.len()
        invariant
            i <= bytes.len(),
            h == hash_bytes(bytes@.take(i as int)),
        decreases bytes.len() - i,
    {
        let b: u8 = bytes[i];
        assert(bytes@.take(i + 1).drop_last() =~= bytes@.take(i as int));
        assert(bytes@.take(i + 1).last() == b);
        h = (h % 0x0100_0000_0000_0000) * 31 + b as u64;
        i += 1;
    }
    assert(bytes@.take(i as int) =~= bytes@);
    h
}

/// Distinct names, each with the identifier that its place in the
/// insertion order gives it.
#[derive(Clone, Debug)]
pub struct NameIndex {
    names: Vec<String>,
    hashes: Vec<u64>,
    links: Vec<Option<usize>>,
    heads: HashMap<u64, usize>,
}

impl View for NameIndex {
    type V = Seq<Seq<char>>;

    closed spec fn view(&self) -> Seq<Seq<char>> {
        Seq::new(self.names@.len(), |i: int| self.names@[i]@)
    }
}

impl NameIndex {
    /// The index is consistent.
    pub closed spec fn wf(&self) -> bool {
        &&& self.hashes@.len() == self.names@.len()
        &&& self.links@.len() == self.names@.len()
        &&& distinct(self@)
        &&& forall|i: int|
            0 <= i < self.names@.len() ==> #[trigger] self.hashes@[i] == hash_of(self.names@[i]@)
        &&& forall|i: int|
            0 <= i < self.names@.len() ==> link_ok(self.hashes@, i, #[trigger] self.links@[i])
        &&& forall|h: u64| head_ok(self.hashes@, h, #[trigger] head_of(self.heads@, h))
    }

    /// A consistent index holds no name twice.
    pub proof fn lemma_distinct(&self)
        requires
            self.wf(),
        ensures
            distinct(self@),
    {
    }

    /// The empty index.
    pub fn new() -> (index: NameIndex)
        ensures
            index.wf(),
            index@.len() == 0,
    {
        NameIndex {
            names: Vec::new(),
            hashes: Vec::new(),
            links: Vec::new(),
            heads: HashMap::new(),
        }
    }

    /// The number of names.
    pub fn len(&self) -> (n: usize)
        ensures
            n == self@.len(),
    {
        self.names.len()
    }

    /// The name with the identifier `id`.
    pub fn name(&self, id: usize) -> (name: &String)
        requires
            id < self@.len(),
        ensures
            name@ == self@[id as int],
    {
        &self.names[id]
    }

    /// The identifier of a name, if the index holds it.
    pub fn lookup(&self, name: &String) -> (r: Option<usize>)
        requires
            self.wf(),
        ensures
            match r {
                Some(id) => id < self@.len() && self@[id as int] == name@,
                None => !holds(self@, name@),
            },
    {
        let h: u64 = hash_name(name);
        let mut cur: Option<usize> = match self.heads.get(&h) {
            Some(id) => Some(*id),
            None => None,
        };
        assert(cur == head_of(self.heads@, h));
        let ghost n = self.names@.len() as int;
        loop
            invariant
                self.wf(),
                n == self.names@.len(),
                h == hash_of(name@),
                match cur {
                    Some(c) => c < n && self.hashes@[c as int] == h && forall|k: int|
                        c < k < n && self.hashes@[k] == h ==> self.names@[k]@ != name@,
                    None => forall|k: int| 0 <= k < n && self.hashes@[k] == h ==> self.names@[k]@ != name@,
                },
            decreases
                    match cur {
                        Some(c) => c + 1,
                        None => 0,
                    },
        {
            match cur {
                None => {
                    assert forall|k: int| 0 <= k < n implies self@[k] != name@ by {
                        assert(self.hashes@[k] == hash_of(self.names@[k]@));
                    }
                    return None;
                },
                Some(c) => {
                    if self.names[c] == *name {
                        return Some(c);
                    }
                    assert(link_ok(self.hashes@, c as int, self.links@[c as int]));
                    cur = self.links[c];
                },
            }
        }
    }

    /// Adds a name and gives it the next identifier. A name that the index
    /// already holds is refused with the identifier it has, and the index
    /// stays as it was.
    pub fn insert(&mut self, name: String) -> (r: Result<usize, usize>)
        requires
            old(self).wf(),
        ensures
            final(self).wf(),
            match r {
                Ok(id) => !holds(old(self)@, name@) && id == old(self)@.len() && final(self)@
                    == old(self)@.push(name@),
                Err(id) => id < old(self)@.len() && old(self)@[id as int] == name@ && final(self)@
                    == old(self)@,
            },
    {
        match self.lookup(&name) {
            Some(id) => Err(id),
            None => {
                let id: usize = self.names.len();
                let h: u64 = hash_name(&name);
                let ghost old_hashes = self.hashes@;
                let ghost old_heads = self.heads@;
                let ghost old_view = self@;
                assert(head_ok(old_hashes, h, head_of(old_heads, h)));
                let previous: Option<usize> = self.heads.insert(h, id);
                assert(previous == head_of(old_heads, h));
                self.names.push(name);
                self.hashes.push(h);
                self.links.push(previous);
                assert(self@ =~= old_view.push(name@));
                assert(distinct(self@)) by {
                    assert forall|i: int, j: int| 0 <= i < j < self@.len() implies self@[i]
                        != self@[j] by {
                        if j == id {
                            assert(old_view[i] == self@[i]);
                        } else {
                            assert(old_view[i] == self@[i]);
                            assert(old_view[j] == self@[j]);
                        }
                    }
                }
                assert forall|i: int| 0 <= i < self.names@.len() implies link_ok(
                    self.hashes@,
                    i,
                    #[trigger] self.links@[i],
                ) by {
                    if i < id {
                        assert(link_ok(old_hashes, i, old(self).links@[i]));
                    }
                }
                assert forall|g: u64| head_ok(self.hashes@, g, #[trigger] head_of(self.heads@, g)) by {
                    if g != h {
                        assert(head_ok(old_hashes, g, head_of(old_heads, g)));
                    }
                }
                Ok(id)
            },
        }
    }
}

} // verus!
