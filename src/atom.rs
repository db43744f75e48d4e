//! Interned strings: equal texts share one identity, compared in constant time.
use vstd::prelude::*;

use crate::digest::{hash_text, text_digest};

verus! {

#[verifier::external_type_specification]
#[verifier::external_body]
#[verifier::reject_recursive_types(K)]
#[verifier::reject_recursive_types(V)]
#[verifier::reject_recursive_types(H)]
pub struct ExConcurrentMap<K, V, H: std::hash::BuildHasher>(scc::HashMap<K, V, H>);

/// Identities of the texts that share one digest.
pub type Bucket = Vec<usize>;

/// Text digest to the identities of the texts with that digest.
pub type DigestTable = scc::HashMap<u64, Bucket>;

/// What the lookup table holds: text digest to the identities of the texts with that digest.
pub uninterp spec fn table_contents(m: DigestTable) -> Map<u64, Seq<usize>>;

/// Relies on `scc::HashMap::default`: a new map is empty.
#[verifier::external_body]
fn table_new() -> (r: DigestTable)
    ensures
        table_contents(r).dom().is_empty(),
{
    scc::HashMap::default()
}

/// Relies on `scc::HashMap::read`: the value under `h`, copied out, if present.
#[verifier::external_body]
fn table_bucket(m: &DigestTable, h: u64) -> (r: Option<Bucket>)
    ensures
        r matches Some(v) ==> table_contents(*m).contains_key(h) && v@ == table_contents(*m)[h],
        r is None ==> !table_contents(*m).contains_key(h),
{
    m.read(&h, |_, v| v.clone())
}

/// Relies on `scc::HashMap::upsert`: `h` maps to `v` afterwards, other keys keep theirs.
#[verifier::external_body]
fn table_upsert(m: &mut DigestTable, h: u64, v: Bucket)
    ensures
        table_contents(*final(m)) == table_contents(*old(m)).insert(h, v@),
{
    m.upsert(h, v);
}

/// Name of the block that stands for empty space.
pub open spec fn air_name() -> Seq<char> {
    "core::air"@
}

/// A handle to an interned text. Two atoms of one interner are equal exactly
/// when their texts are.
#[derive(Debug)]
pub struct Atom2 {
    id: usize,
    text: String,
}

pub type Atom = Atom2;

/// A namespaced block-type name, such as `core::grass`.
pub type BlockId = Atom2;

impl View for Atom2 {
    type V = Seq<char>;

    closed spec fn view(&self) -> Seq<char> {
        self.text@
    }
}

impl Atom2 {
    /// The identity of the atom: its slot in the interner.
    pub closed spec fn key(&self) -> nat {
        self.id as nat
    }

    /// Interns `s` in `interner`.
    pub fn new(interner: &mut Interner, s: &str) -> (r: Self)
        requires
            old(interner).wf(),
        ensures
            final(interner).wf(),
            final(interner).interned(*old(interner), s@, r),
    {
        interner.intern(s)
    }

    /// The atom of the empty-space block, whose identity every interner reserves.
    pub fn air() -> (r: Self)
        ensures
            r.key() == 0,
            r@ == air_name(),
    {
        Atom2 { id: 0, text: "core::air".to_owned() }
    }

    /// The identity, as an integer.
    pub fn id(&self) -> (r: usize)
        ensures
            r == self.key(),
    {
        self.id
    }

    pub fn as_str(&self) -> (r: &str)
        ensures
            r@ == self@,
    {
        self.text.as_str()
    }

    pub fn is_air(&self) -> (r: bool)
        ensures
            r == (self.key() == 0),
    {
        self.id == 0
    }

    /// A second handle to the same atom.
    pub fn copy(&self) -> (r: Self)
        ensures
            r == *self,
    {
        Atom2 { id: self.id, text: self.text.clone() }
    }
}

impl Clone for Atom2 {
    fn clone(&self) -> (r: Self)
        ensures
            r == *self,
    {
        self.copy()
    }
}

impl PartialEq for Atom2 {
    fn eq(&self, other: &Atom2) -> (r: bool) {
        self.id == other.id
    }
}

impl vstd::std_specs::cmp::PartialEqSpecImpl for Atom2 {
    open spec fn obeys_eq_spec() -> bool {
        true
    }

    open spec fn eq_spec(&self, other: &Atom2) -> bool {
        self.key() == other.key()
    }
}

impl Eq for Atom2 {

}

/// The table of interned texts. Slot 0 holds the empty-space block.
pub struct Interner {
    texts: Vec<String>,
    buckets: DigestTable,
}

impl Interner {
    /// The interned texts, by identity.
    pub closed spec fn names(&self) -> Seq<Seq<char>> {
        Seq::new(self.texts@.len(), |i: int| self.texts@[i]@)
    }

    closed spec fn table(&self) -> Map<u64, Seq<usize>> {
        table_contents(self.buckets)
    }

    closed spec fn buckets_sound(&self) -> bool {
        forall|h: u64, j: int|
            #![trigger self.table()[h][j]]
            self.table().contains_key(h) && 0 <= j < self.table()[h].len() ==> {
                let id = self.table()[h][j];
                &&& id < self.texts@.len()
                &&& text_digest(self.texts@[id as int]@) == h
            }
    }

    closed spec fn buckets_complete(&self) -> bool {
        forall|i: int|
            #![trigger self.texts@[i]]
            0 <= i < self.texts@.len() ==> {
                let h = text_digest(self.texts@[i]@);
                &&& self.table().contains_key(h)
                &&& self.table()[h].contains(i as usize)
            }
    }

    /// Well-formed: texts are pairwise distinct, slot 0 is the empty-space block,
    /// and the lookup index agrees with the texts.
    pub open spec fn wf(&self) -> bool {
        &&& self.names().len() >= 1
        &&& self.names()[0] == air_name()
        &&& self.names_distinct()
        &&& self.index_wf()
    }

    pub open spec fn names_distinct(&self) -> bool {
        forall|i: int, j: int|
            0 <= i < j < self.names().len() ==> self.names()[i] != self.names()[j]
    }

    pub closed spec fn index_wf(&self) -> bool {
        self.buckets_sound() && self.buckets_complete()
    }

    /// `a` is an atom of this interner.
    pub open spec fn holds(&self, a: Atom2) -> bool {
        a.key() < self.names().len() && self.names()[a.key() as int] == a@
    }

    /// This interner keeps every text of `prev` under the same identity.
    pub open spec fn extends(&self, prev: Interner) -> bool {
        &&& prev.names().len() <= self.names().len()
        &&& self.names().subrange(0, prev.names().len() as int) == prev.names()
    }

    /// `self` is `prev` after interning `s`, which gave `r`.
    pub open spec fn interned(&self, prev: Interner, s: Seq<char>, r: Atom2) -> bool {
        &&& self.extends(prev)
        &&& self.holds(r)
        &&& r@ == s
        &&& prev.names().contains(s) ==> self.names() == prev.names()
        &&& !prev.names().contains(s) ==> self.names() == prev.names().push(s)
    }

    /// An interner that holds only the empty-space block.
    pub fn new() -> (r: Self)
        ensures
            r.wf(),
            r.names() == seq![air_name()],
    {
        let mut r = Interner { texts: Vec::new(), buckets: table_new() };
        r.intern("core::air");
        r
    }

    /// Number of interned texts.
    pub fn len(&self) -> (r: usize)
        ensures
            r == self.names().len(),
    {
        self.texts.len()
    }

    /// The identity under which `s` is interned, if it is.
    fn find(&self, s: &String) -> (r: Option<usize>)
        requires
            self.index_wf(),
        ensures
            r matches Some(id) ==> id < self.names().len() && self.names()[id as int] == s@,
            r is None ==> !self.names().contains(s@),
    {
        let h = hash_text(s.as_str());
        let bucket = match table_bucket(&self.buckets, h) {
            Some(b) => b,
            None => {
                assert forall|i: int| 0 <= i < self.names().len() implies self.names()[i]
                    != s@ by {
                    assert(self.texts@[i]@ == self.names()[i]);
                }
                return None;
            },
        };
        let mut j: usize = 0;
        while j < bucket.len()
            invariant
                self.index_wf(),
                self.table().contains_key(h),
                h == text_digest(s@),
                bucket@ == self.table()[h],
                j <= bucket@.len(),
                forall|k: int| 0 <= k < j ==> self.names()[bucket@[k] as int] != s@,
            decreases bucket@.len() - j,
        {
            let id = bucket[j];
            assert(self.table()[h][j as int] == id);
            if self.texts[id] == *s {
                return Some(id);
            }
            j = j + 1;
        }
        let n = self.texts.len();
        assert forall|i: int| 0 <= i < self.names().len() implies self.names()[i] != s@ by {
            assert(self.texts@[i]@ == self.names()[i]);
            if self.names()[i] == s@ {
                assert(self.table()[h].contains(i as usize));
                assert(bucket@ == self.table()[h]);
                let k = choose|k: int| 0 <= k < bucket@.len() && bucket@[k] == i as usize;
                assert(self.names()[bucket@[k] as int] != s@);
            }
        }
        None
    }

    /// The atom of `s`: the existing one if `s` was interned before, else a new one.
    pub fn intern(&mut self, s: &str) -> (r: Atom2)
        requires
            old(self).index_wf(),
            old(self).names_distinct(),
        ensures
            final(self).index_wf(),
            final(self).names_distinct(),
            final(self).interned(*old(self), s@, r),
    {
        let owned = s.to_owned();
        match self.find(&owned) {
            Some(id) => {
                assert(old(self).names()[id as int] == s@);
                assert(old(self).names().contains(s@));
                assert(self.names().subrange(0, self.names().len() as int) =~= self.names());
                Atom2 { id, text: owned }
            },
            None => {
                let ghost prev = *self;
                let id = self.texts.len();
                let h = hash_text(s);
                let mut bucket = match table_bucket(&self.buckets, h) {
                    Some(b) => b,
                    None => Vec::new(),
                };
                bucket.push(id);
                table_upsert(&mut self.buckets, h, bucket);
                self.texts.push(owned.clone());
                assert(self.names() =~= prev.names().push(s@));
                assert(self.buckets_sound()) by {
                    assert forall|g: u64, j: int|
                        #![trigger self.table()[g][j]]
                        self.table().contains_key(g) && 0 <= j < self.table()[g].len()
                            implies {
                            let e = self.table()[g][j];
                            &&& e < self.texts@.len()
                            &&& text_digest(self.texts@[e as int]@) == g
                        } by {
                        if g != h {
                            assert(prev.table()[g][j] == self.table()[g][j]);
                        } else if j < self.table()[g].len() - 1 {
                            assert(prev.table()[g][j] == self.table()[g][j]);
                        }
                    }
                }
                assert(self.buckets_complete()) by {
                    assert forall|i: int|
                        #![trigger self.texts@[i]]
                        0 <= i < self.texts@.len() implies {
                        let g = text_digest(self.texts@[i]@);
                        &&& self.table().contains_key(g)
                        &&& self.table()[g].contains(i as usize)
                    } by {
                        let g = text_digest(self.texts@[i]@);
                        if i < prev.texts@.len() {
                            assert(prev.texts@[i] == self.texts@[i]);
                            if g == h {
                                let k = choose|k: int|
                                    0 <= k < prev.table()[g].len() && prev.table()[g][k]
                                        == i as usize;
                                assert(self.table()[g][k] == i as usize);
                            } else {
                                assert(self.table()[g] == prev.table()[g]);
                            }
                        } else {
                            assert(self.table()[g][self.table()[g].len() - 1] == i as usize);
                        }
                    }
                }
                assert(self.names().subrange(0, prev.names().len() as int) =~= prev.names());
                Atom2 { id, text: owned }
            },
        }
    }
}

/// Every interner extends itself, and extending is transitive.
pub proof fn lemma_extends(a: Interner, b: Interner, c: Interner)
    ensures
        a.extends(a),
        b.extends(a) && c.extends(b) ==> c.extends(a),
{
    assert(a.names().subrange(0, a.names().len() as int) =~= a.names());
    if b.extends(a) && c.extends(b) {
        assert(c.names().subrange(0, a.names().len() as int) =~= b.names().subrange(
            0,
            a.names().len() as int,
        ));
    }
}

/// Interning is faithful: two atoms that an interner holds, or that an earlier
/// state of it held, are the same atom exactly when their texts are equal.
pub proof fn atoms_equal_iff_same_text(earlier: Interner, later: Interner, a: Atom2, b: Atom2)
    requires
        later.wf(),
        later.extends(earlier),
        earlier.holds(a),
        later.holds(b),
    ensures
        (a.key() == b.key()) <==> (a@ == b@),
{
    assert(later.names()[a.key() as int] == earlier.names()[a.key() as int]);
}

} // verus!
