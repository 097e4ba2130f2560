//! Hyperdimensional computing: ternary vectors of ten thousand
//! components, with binding (componentwise product), bundling
//! (componentwise majority), permutation (rotation) and dot-product
//! similarity; on top of them an episodic memory and a small analogical
//! reasoner, both keyed by name.
//!
//! Fresh random vectors are drawn through the `rand` crate; every
//! contract over them states only what holds of every outcome.

use vstd::prelude::*;
use crate::rng::coin;

verus! {

/// Components per hypervector.
pub const HYPER_DIMENSION: usize = 10000;

/// Sum of componentwise products over the first `k` positions.
pub open spec fn dot_prefix(a: Seq<i8>, b: Seq<i8>, k: int) -> int
    decreases k,
{
    if k <= 0 {
        0
    } else {
        dot_prefix(a, b, k - 1) + (a[k - 1] as int) * (b[k - 1] as int)
    }
}

/// A ternary hypervector: each component is -1, 0 or 1.
pub struct HyperVector {
    components: Vec<i8>,
}

/// Every component of the view is -1, 0 or 1 and the length is fixed.
pub open spec fn hyper_wf(s: Seq<i8>) -> bool {
    &&& s.len() == HYPER_DIMENSION as nat
    &&& forall|i: int| 0 <= i < s.len() ==> -1 <= #[trigger] s[i] <= 1
}

impl View for HyperVector {
    type V = Seq<i8>;

    closed spec fn view(&self) -> Seq<i8> {
        self.components@
    }
}

impl HyperVector {
    /// The all-zero hypervector.
    pub fn zero() -> (r: HyperVector)
        ensures
            hyper_wf(r@),
            forall|i: int| 0 <= i < r@.len() ==> #[trigger] r@[i] == 0,
    {
        let mut components: Vec<i8> = Vec::new();
        let mut i: usize = 0;
        while i < HYPER_DIMENSION
            invariant
                i <= HYPER_DIMENSION,
                components@.len() == i,
                forall|j: int| 0 <= j < i ==> #[trigger] components@[j] == 0,
            decreases HYPER_DIMENSION - i,
        {
            components.push(0);
            i = i + 1;
        }
        HyperVector { components }
    }

    /// A fresh random sign vector: every component is -1 or 1, drawn
    /// through `rand`.
    pub fn random() -> (r: HyperVector)
        ensures
            hyper_wf(r@),
            forall|i: int| 0 <= i < r@.len() ==> #[trigger] r@[i] == 1 || r@[i] == -1,
    {
        let mut components: Vec<i8> = Vec::new();
        let mut i: usize = 0;
        while i < HYPER_DIMENSION
            invariant
                i <= HYPER_DIMENSION,
                components@.len() == i,
                forall|j: int| 0 <= j < i ==> #[trigger] components@[j] == 1 || components@[j]
                    == -1,
            decreases HYPER_DIMENSION - i,
        {
            if coin() {
                components.push(1);
            } else {
                components.push(-1);
            }
            i = i + 1;
        }
        HyperVector { components }
    }

    /// Binding: the componentwise product.
    pub fn bind(&self, other: &HyperVector) -> (r: HyperVector)
        requires
            hyper_wf(self@),
            hyper_wf(other@),
        ensures
            hyper_wf(r@),
            forall|i: int| 0 <= i < r@.len() ==> #[trigger] r@[i] as int == (self@[i] as int) * (
            other@[i] as int),
    {
        let mut components: Vec<i8> = Vec::new();
        let mut i: usize = 0;
        while i < HYPER_DIMENSION
            invariant
                i <= HYPER_DIMENSION,
                hyper_wf(self@),
                hyper_wf(other@),
                components@.len() == i,
                forall|j: int| 0 <= j < i ==> -1 <= #[trigger] components@[j] <= 1,
                forall|j: int| 0 <= j < i ==> #[trigger] components@[j] as int == (
                self@[j] as int) * (other@[j] as int),
            decreases HYPER_DIMENSION - i,
        {
            let a = self.components[i] as i32;
            let b = other.components[i] as i32;
            proof {
                assert(-1 <= (a as int) * (b as int) <= 1) by (nonlinear_arith)
                    requires
                        -1 <= a as int <= 1 && -1 <= b as int <= 1,
                ;
            }
            let p32: i32 = a * b;
            components.push(p32 as i8);
            i = i + 1;
        }
        HyperVector { components }
    }

    /// Bundling: the componentwise sign of the sum.
    pub fn bundle(&self, other: &HyperVector) -> (r: HyperVector)
        requires
            hyper_wf(self@),
            hyper_wf(other@),
        ensures
            hyper_wf(r@),
            forall|i: int|
                0 <= i < r@.len() ==> #[trigger] r@[i] as int == (
                if (self@[i] as int) + (other@[i] as int) > 0 {
                    1int
                } else if (self@[i] as int) + (other@[i] as int) < 0 {
                    -1int
                } else {
                    0int
                }),
    {
        let mut components: Vec<i8> = Vec::new();
        let mut i: usize = 0;
        while i < HYPER_DIMENSION
            invariant
                i <= HYPER_DIMENSION,
                hyper_wf(self@),
                hyper_wf(other@),
                components@.len() == i,
                forall|j: int| 0 <= j < i ==> -1 <= #[trigger] components@[j] <= 1,
                forall|j: int|
                    0 <= j < i ==> #[trigger] components@[j] as int == (
                    if (self@[j] as int) + (other@[j] as int) > 0 {
                        1int
                    } else if (self@[j] as int) + (other@[j] as int) < 0 {
                        -1int
                    } else {
                        0int
                    }),
            decreases HYPER_DIMENSION - i,
        {
            let a = self.components[i] as i32;
            let b = other.components[i] as i32;
            let sum = a + b;
            let v: i8 = if sum > 0 {
                1
            } else if sum < 0 {
                -1
            } else {
                0
            };
            components.push(v);
            i = i + 1;
        }
        HyperVector { components }
    }

    /// Permutation: rotate left by `shift` positions (modulo the
    /// dimension), for sequence encoding.
    pub fn permute(&self, shift: usize) -> (r: HyperVector)
        requires
            hyper_wf(self@),
        ensures
            hyper_wf(r@),
            forall|i: int|
                0 <= i < r@.len() ==> #[trigger] r@[i] == self@[(i + (shift as int) % (
                HYPER_DIMENSION as int)) % (HYPER_DIMENSION as int)],
    {
        let s = shift % HYPER_DIMENSION;
        let mut components: Vec<i8> = Vec::new();
        let mut i: usize = 0;
        while i < HYPER_DIMENSION
            invariant
                i <= HYPER_DIMENSION,
                hyper_wf(self@),
                s == (shift as int) % (HYPER_DIMENSION as int),
                s < HYPER_DIMENSION,
                components@.len() == i,
                forall|j: int| 0 <= j < i ==> #[trigger] components@[j] == self@[(j + (
                s as int)) % (HYPER_DIMENSION as int)],
            decreases HYPER_DIMENSION - i,
        {
            let idx = (i + s) % HYPER_DIMENSION;
            components.push(self.components[idx]);
            i = i + 1;
        }
        let r = HyperVector { components };
        proof {
            assert forall|i: int| 0 <= i < r@.len() implies #[trigger] r@[i] == self@[(i + (
            shift as int) % (HYPER_DIMENSION as int)) % (HYPER_DIMENSION as int)] by {
                assert(r@[i] == self@[(i + (s as int)) % (HYPER_DIMENSION as int)]);
            }
        }
        r
    }

    /// The dot product of two hypervectors.
    pub fn dot(&self, other: &HyperVector) -> (r: i32)
        requires
            hyper_wf(self@),
            hyper_wf(other@),
        ensures
            r == dot_prefix(self@, other@, HYPER_DIMENSION as int),
    {
        let mut acc: i32 = 0;
        let mut i: usize = 0;
        while i < HYPER_DIMENSION
            invariant
                i <= HYPER_DIMENSION,
                hyper_wf(self@),
                hyper_wf(other@),
                acc == dot_prefix(self@, other@, i as int),
                -(i as int) <= acc <= i as int,
            decreases HYPER_DIMENSION - i,
        {
            let a = self.components[i] as i32;
            let b = other.components[i] as i32;
            proof {
                assert((self@[i as int] as int) * (other@[i as int] as int) == (a as int) * (
                b as int));
                assert(-1 <= (a as int) * (b as int) <= 1) by (nonlinear_arith)
                    requires
                        -1 <= a as int <= 1 && -1 <= b as int <= 1,
                ;
            }
            acc = acc + a * b;
            i = i + 1;
        }
        acc
    }

    /// A copy of the component vector.
    pub fn duplicate(&self) -> (r: HyperVector)
        ensures
            r@ == self@,
    {
        let mut components: Vec<i8> = Vec::new();
        let n = self.components.len();
        let mut i: usize = 0;
        while i < n
            invariant
                i <= n,
                n == self@.len(),
                components@ == self@.subrange(0, i as int),
            decreases n - i,
        {
            components.push(self.components[i]);
            proof {
                assert(components@ =~= self@.subrange(0, i + 1));
            }
            i = i + 1;
        }
        proof {
            assert(self@.subrange(0, n as int) =~= self@);
        }
        HyperVector { components }
    }
}

/// First value stored under a key, if any.
pub open spec fn assoc_lookup(entries: Seq<(Seq<char>, Seq<i8>)>, key: Seq<char>) -> Option<
    Seq<i8>,
>
    decreases entries.len(),
{
    if entries.len() == 0 {
        None
    } else if entries[0].0 == key {
        Some(entries[0].1)
    } else {
        assoc_lookup(entries.drop_first(), key)
    }
}

/// The stored views of a name-to-vector store.
pub open spec fn store_view(entries: Seq<(String, HyperVector)>) -> Seq<(Seq<char>, Seq<i8>)> {
    entries.map(|i: int, e: (String, HyperVector)| (e.0@, e.1@))
}

/// Every vector in the store is well formed.
pub open spec fn store_wf(entries: Seq<(String, HyperVector)>) -> bool {
    forall|i: int| 0 <= i < entries.len() ==> hyper_wf((#[trigger] entries[i]).1@)
}

/// Episodic memory over hypervectors: named item vectors, named context
/// vectors, and a list of stored episodes.
pub struct HyperdimensionalMemory {
    item_vectors: Vec<(String, HyperVector)>,
    context_vectors: Vec<(String, HyperVector)>,
    episodic_memory: Vec<HyperVector>,
}

impl HyperdimensionalMemory {
    /// The item store.
    pub closed spec fn items(&self) -> Seq<(String, HyperVector)> {
        self.item_vectors@
    }

    /// The episodes, as component sequences.
    pub closed spec fn episodes(&self) -> Seq<Seq<i8>> {
        self.episodic_memory@.map(|i: int, v: HyperVector| v@)
    }

    /// Stores hold well-formed vectors only.
    pub open spec fn wf(&self) -> bool {
        &&& store_wf(self.items())
        &&& forall|i: int| 0 <= i < self.episodes().len() ==> hyper_wf(
            #[trigger] self.episodes()[i],
        )
    }

    pub fn new() -> (m: HyperdimensionalMemory)
        ensures
            m.wf(),
            m.items().len() == 0,
            m.episodes().len() == 0,
    {
        HyperdimensionalMemory {
            item_vectors: Vec::new(),
            context_vectors: Vec::new(),
            episodic_memory: Vec::new(),
        }
    }

    /// The vector standing for `name`: the stored one if present, else a
    /// fresh random vector that is stored under `name` first.
    pub fn encode_item(&mut self, name: String) -> (r: HyperVector)
        requires
            old(self).wf(),
        ensures
            final(self).wf(),
            hyper_wf(r@),
            assoc_lookup(store_view(final(self).items()), name@) == Some(r@),
            final(self).episodes() == old(self).episodes(),
    {
        let n = self.item_vectors.len();
        let mut i: usize = 0;
        while i < n
            invariant
                i <= n,
                n == self.items().len(),
                self.wf(),
                *self == *old(self),
                forall|j: int| 0 <= j < i ==> (#[trigger] store_view(self.items())[j]).0 != name@,
            decreases n - i,
        {
            if string_equal(&self.item_vectors[i].0, &name) {
                let r = self.item_vectors[i].1.duplicate();
                proof {
                    assert(store_view(self.items())[i as int].0 == self.item_vectors@[
                        i as int].0@);
                    assert(store_view(self.items())[i as int].1 == self.item_vectors@[
                        i as int].1@);
                    lemma_assoc_found(store_view(self.items()), name@, i as int);
                    assert(hyper_wf(self.items()[i as int].1@));
                }
                return r;
            }
            proof {
                assert(store_view(self.items())[i as int].0 == self.item_vectors@[i as int].0@);
            }
            i = i + 1;
        }
        let fresh = HyperVector::random();
        let copy = fresh.duplicate();
        let ghost prev = self.item_vectors@;
        self.item_vectors.push((name, fresh));
        proof {
            assert(store_view(self.items()) =~= store_view(prev).push(
                (self.item_vectors@[n as int].0@, self.item_vectors@[n as int].1@),
            ));
            lemma_assoc_found(store_view(self.items()), self.item_vectors@[n as int].0@, n as int);
            assert forall|j: int| 0 <= j < self.items().len() implies hyper_wf(
                (#[trigger] self.items()[j]).1@,
            ) by {
                if j < n {
                    assert(self.items()[j] == prev[j]);
                    assert(hyper_wf(prev[j].1@));
                } else {
                    assert(hyper_wf(self.item_vectors@[n as int].1@));
                }
            }
            assert(self.episodic_memory@ == old(self).episodic_memory@);
            assert(self.episodes() == old(self).episodes());
            assert forall|j: int| 0 <= j < self.episodes().len() implies hyper_wf(
                #[trigger] self.episodes()[j],
            ) by {
                assert(self.episodes()[j] == old(self).episodes()[j]);
            }
        }
        copy
    }

    /// Encodes an ordered sequence: each item vector is bound to a fresh
    /// permuted position vector and bundled into the running code.
    pub fn encode_sequence(&mut self, sequence: &Vec<String>) -> (r: HyperVector)
        requires
            old(self).wf(),
        ensures
            final(self).wf(),
            hyper_wf(r@),
            final(self).episodes() == old(self).episodes(),
    {
        let mut encoded = HyperVector::zero();
        let n = sequence.len();
        let mut i: usize = 0;
        while i < n
            invariant
                i <= n,
                n == sequence@.len(),
                self.wf(),
                hyper_wf(encoded@),
                self.episodes() == old(self).episodes(),
            decreases n - i,
        {
            let item_vec = self.encode_item(clone_string(&sequence[i]));
            let position_vec = HyperVector::random();
            let bound = item_vec.bind(&position_vec.permute(i));
            encoded = encoded.bundle(&bound);
            i = i + 1;
        }
        encoded
    }

    /// Stores one episode: the sequence code bound to a fresh context
    /// vector.
    pub fn store_episode(&mut self, items: &Vec<String>, context: String)
        requires
            old(self).wf(),
        ensures
            final(self).wf(),
            final(self).episodes().len() == old(self).episodes().len() + 1,
    {
        let item_encoding = self.encode_sequence(items);
        let context_vec = HyperVector::random();
        let context_copy = context_vec.duplicate();
        self.context_vectors.push((context, context_copy));
        let episode = item_encoding.bind(&context_vec);
        let ghost prev = self.episodes();
        self.episodic_memory.push(episode);
        proof {
            assert(self.episodes() =~= prev.push(
                self.episodic_memory@[self.episodic_memory@.len() - 1]@,
            ));
        }
    }

    /// The first episode with the greatest dot product against the query,
    /// if that dot product clears the recall threshold of `3000`
    /// (three tenths of the dimension).
    pub fn recall(&self, query: &HyperVector) -> (r: Option<usize>)
        requires
            self.wf(),
            hyper_wf(query@),
        ensures
            match r {
                Some(i) => {
                    &&& (i as int) < self.episodes().len()
                    &&& dot_prefix(query@, self.episodes()[i as int], HYPER_DIMENSION as int)
                        > 3000
                    &&& forall|j: int|
                        0 <= j < self.episodes().len() ==> dot_prefix(
                            query@,
                            #[trigger] self.episodes()[j],
                            HYPER_DIMENSION as int,
                        ) <= dot_prefix(query@, self.episodes()[i as int], HYPER_DIMENSION as int)
                    &&& forall|j: int|
                        0 <= j < i as int ==> dot_prefix(
                            query@,
                            #[trigger] self.episodes()[j],
                            HYPER_DIMENSION as int,
                        ) < dot_prefix(query@, self.episodes()[i as int], HYPER_DIMENSION as int)
                },
                None => forall|j: int|
                    0 <= j < self.episodes().len() ==> dot_prefix(
                        query@,
                        #[trigger] self.episodes()[j],
                        HYPER_DIMENSION as int,
                    ) <= 3000,
            },
    {
        let n = self.episodic_memory.len();
        let mut best: Option<usize> = None;
        let mut best_dot: i32 = -10001;
        let mut i: usize = 0;
        while i < n
            invariant
                i <= n,
                n == self.episodes().len(),
                self.wf(),
                hyper_wf(query@),
                match best {
                    Some(k) => {
                        &&& (k as int) < i as int
                        &&& best_dot == dot_prefix(
                            query@,
                            self.episodes()[k as int],
                            HYPER_DIMENSION as int,
                        )
                        &&& forall|j: int|
                            0 <= j < i ==> dot_prefix(
                                query@,
                                #[trigger] self.episodes()[j],
                                HYPER_DIMENSION as int,
                            ) <= best_dot
                        &&& forall|j: int|
                            0 <= j < k as int ==> dot_prefix(
                                query@,
                                #[trigger] self.episodes()[j],
                                HYPER_DIMENSION as int,
                            ) < best_dot
                    },
                    None => i == 0 && best_dot == -10001,
                },
            decreases n - i,
        {
            proof {
                assert(self.episodic_memory@[i as int]@ == self.episodes()[i as int]);
                assert(hyper_wf(self.episodes()[i as int]));
            }
            let d = query.dot(&self.episodic_memory[i]);
            proof {
                lemma_dot_bounded(query@, self.episodes()[i as int], HYPER_DIMENSION as int);
            }
            match best {
                None => {
                    best = Some(i);
                    best_dot = d;
                },
                Some(_) => {
                    if d > best_dot {
                        best = Some(i);
                        best_dot = d;
                    }
                },
            }
            i = i + 1;
        }
        match best {
            Some(k) => {
                if best_dot > 3000 {
                    Some(k)
                } else {
                    None
                }
            },
            None => None,
        }
    }
}

/// The dot product over ternary vectors is bounded by the prefix length.
proof fn lemma_dot_bounded(a: Seq<i8>, b: Seq<i8>, k: int)
    requires
        0 <= k <= a.len(),
        k <= b.len(),
        forall|i: int| 0 <= i < a.len() ==> -1 <= #[trigger] a[i] <= 1,
        forall|i: int| 0 <= i < b.len() ==> -1 <= #[trigger] b[i] <= 1,
    ensures
        -k <= dot_prefix(a, b, k) <= k,
    decreases k,
{
    if k > 0 {
        lemma_dot_bounded(a, b, k - 1);
        assert(-1 <= (a[k - 1] as int) * (b[k - 1] as int) <= 1) by (nonlinear_arith)
            requires
                -1 <= a[k - 1] as int <= 1 && -1 <= b[k - 1] as int <= 1,
        ;
    }
}

/// A lookup lands on the first entry whose key matches.
proof fn lemma_assoc_found(entries: Seq<(Seq<char>, Seq<i8>)>, key: Seq<char>, i: int)
    requires
        0 <= i < entries.len(),
        entries[i].0 == key,
        forall|j: int| 0 <= j < i ==> (#[trigger] entries[j]).0 != key,
    ensures
        assoc_lookup(entries, key) == Some(entries[i].1),
    decreases i,
{
    if i > 0 {
        lemma_assoc_found(entries.drop_first(), key, i - 1);
        assert forall|j: int| 0 <= j < i - 1 implies (#[trigger] entries.drop_first()[j]).0
            != key by {
            assert(entries.drop_first()[j] == entries[j + 1]);
        }
    }
}

/// A lookup over entries none of which carry the key finds nothing.
proof fn lemma_assoc_missing(entries: Seq<(Seq<char>, Seq<i8>)>, key: Seq<char>)
    requires
        forall|j: int| 0 <= j < entries.len() ==> (#[trigger] entries[j]).0 != key,
    ensures
        assoc_lookup(entries, key) is None,
    decreases entries.len(),
{
    if entries.len() > 0 {
        assert forall|j: int| 0 <= j < entries.len() - 1 implies (#[trigger] entries.drop_first()[
            j]).0 != key by {
            assert(entries.drop_first()[j] == entries[j + 1]);
        }
        lemma_assoc_missing(entries.drop_first(), key);
    }
}

/// A fresh copy of a string.
fn clone_string(s: &String) -> (r: String)
    ensures
        r@ == s@,
{
    s.clone()
}

/// Whether two strings hold the same characters.
fn string_equal(a: &String, b: &String) -> (r: bool)
    ensures
        r == (a@ == b@),
{
    a.eq(b)
}

/// Name-to-concept association with analogy by binding.
pub struct HyperdimensionalReasoner {
    concept_space: Vec<(String, HyperVector)>,
    relation_space: Vec<(String, HyperVector)>,
}

impl HyperdimensionalReasoner {
    /// The concept store.
    pub closed spec fn concepts(&self) -> Seq<(String, HyperVector)> {
        self.concept_space@
    }

    /// Stores hold well-formed vectors only.
    pub open spec fn wf(&self) -> bool {
        store_wf(self.concepts())
    }

    pub fn new() -> (r: HyperdimensionalReasoner)
        ensures
            r.wf(),
            r.concepts().len() == 0,
    {
        HyperdimensionalReasoner { concept_space: Vec::new(), relation_space: Vec::new() }
    }

    /// Defines a concept as the bundle of fresh random vectors, one per
    /// listed property, stored under `name`.
    pub fn define_concept(&mut self, name: String, properties: &Vec<String>)
        requires
            old(self).wf(),
        ensures
            final(self).wf(),
            final(self).concepts().len() == old(self).concepts().len() + 1,
            final(self).concepts()[old(self).concepts().len() as int].0@ == name@,
    {
        let mut concept_vector = HyperVector::zero();
        let n = properties.len();
        let mut i: usize = 0;
        while i < n
            invariant
                i <= n,
                hyper_wf(concept_vector@),
            decreases n - i,
        {
            let prop_vec = HyperVector::random();
            concept_vector = concept_vector.bundle(&prop_vec);
            i = i + 1;
        }
        self.concept_space.push((name, concept_vector));
    }

    /// Solves "a is to b as c is to ?": binds the relation `b (x) a` onto
    /// `c` and returns the name of the nearest stored concept other than
    /// `c`, if all three names are stored.
    pub fn analogical_reasoning(&self, a_to_b: (&String, &String), c: &String) -> (r: Option<
        String,
    >)
        requires
            self.wf(),
        ensures
            match r {
                Some(name) => {
                    &&& name@ != c@
                    &&& exists|i: int|
                        0 <= i < self.concepts().len() && (#[trigger] self.concepts()[i]).0@
                            == name@
                },
                None => {
                    ||| assoc_lookup(store_view(self.concepts()), a_to_b.0@) is None
                    ||| assoc_lookup(store_view(self.concepts()), a_to_b.1@) is None
                    ||| assoc_lookup(store_view(self.concepts()), c@) is None
                    ||| forall|i: int|
                        0 <= i < self.concepts().len() ==> (#[trigger] self.concepts()[i]).0@
                            == c@
                },
            },
    {
        let va = self.find_concept(a_to_b.0);
        let vb = self.find_concept(a_to_b.1);
        let vc = self.find_concept(c);
        match (va, vb, vc) {
            (Some(vec_a), Some(vec_b), Some(vec_c)) => {
                let relation = vec_b.bind(&vec_a);
                let predicted = vec_c.bind(&relation);
                let n = self.concept_space.len();
                let mut best: Option<usize> = None;
                let mut best_dot: i32 = -10001;
                let mut i: usize = 0;
                while i < n
                    invariant
                        i <= n,
                        n == self.concepts().len(),
                        self.wf(),
                        hyper_wf(predicted@),
                        match best {
                            Some(k) => (k as int) < n as int && self.concepts()[k as int].0@
                                != c@,
                            None => forall|j: int|
                                0 <= j < i ==> (#[trigger] self.concepts()[j]).0@ == c@,
                        },
                    decreases n - i,
                {
                    if !string_equal(&self.concept_space[i].0, c) {
                        proof {
                            assert(hyper_wf(self.concepts()[i as int].1@));
                        }
                        let d = predicted.dot(&self.concept_space[i].1);
                        if best.is_none() || d > best_dot {
                            best = Some(i);
                            best_dot = d;
                        }
                    }
                    i = i + 1;
                }
                match best {
                    Some(k) => {
                        let name = clone_string(&self.concept_space[k].0);
                        proof {
                            assert(self.concepts()[k as int].0@ == name@);
                        }
                        Some(name)
                    },
                    None => None,
                }
            },
            _ => None,
        }
    }

    /// The stored vector under `name`, if any: the first entry whose key
    /// matches.
    fn find_concept(&self, name: &String) -> (r: Option<HyperVector>)
        requires
            self.wf(),
        ensures
            match r {
                Some(v) => hyper_wf(v@) && assoc_lookup(store_view(self.concepts()), name@)
                    == Some(v@),
                None => assoc_lookup(store_view(self.concepts()), name@) is None,
            },
    {
        let n = self.concept_space.len();
        let mut i: usize = 0;
        while i < n
            invariant
                i <= n,
                n == self.concepts().len(),
                self.wf(),
                forall|j: int| 0 <= j < i ==> (#[trigger] store_view(self.concepts())[j]).0
                    != name@,
            decreases n - i,
        {
            if string_equal(&self.concept_space[i].0, name) {
                let r = self.concept_space[i].1.duplicate();
                proof {
                    assert(store_view(self.concepts())[i as int].0 == self.concept_space@[
                        i as int].0@);
                    assert(store_view(self.concepts())[i as int].1 == self.concept_space@[
                        i as int].1@);
                    lemma_assoc_found(store_view(self.concepts()), name@, i as int);
                    assert(hyper_wf(self.concepts()[i as int].1@));
                }
                return Some(r);
            }
            proof {
                assert(store_view(self.concepts())[i as int].0 == self.concept_space@[
                    i as int].0@);
            }
            i = i + 1;
        }
        proof {
            lemma_assoc_missing(store_view(self.concepts()), name@);
        }
        None
    }
}

/// Folds a fact list into per-subject bundles of random fact vectors:
/// the knowledge store keyed by subject, first occurrence first.
pub fn hyperdimensional_knowledge_graph(facts: &Vec<(String, String, String)>) -> (r: Vec<
    (String, HyperVector),
>)
    ensures
        store_wf(r@),
{
    let mut knowledge: Vec<(String, HyperVector)> = Vec::new();
    let n = facts.len();
    let mut k: usize = 0;
    while k < n
        invariant
            k <= n,
            n == facts@.len(),
            store_wf(knowledge@),
        decreases n - k,
    {
        let subj_vec = HyperVector::random();
        let pred_vec = HyperVector::random();
        let obj_vec = HyperVector::random();
        let fact_vec = subj_vec.bind(&pred_vec).bind(&obj_vec);
        let subject = clone_string(&facts[k].0);
        let m = knowledge.len();
        let mut i: usize = 0;
        let mut found: Option<usize> = None;
        while i < m
            invariant
                i <= m,
                m == knowledge@.len(),
                store_wf(knowledge@),
                match found {
                    Some(f) => (f as int) < m as int,
                    None => true,
                },
            decreases m - i,
        {
            if string_equal(&knowledge[i].0, &subject) {
                found = Some(i);
            }
            i = i + 1;
        }
        match found {
            Some(f) => {
                knowledge = bundle_into(knowledge, f, &fact_vec);
            },
            None => {
                let zero = HyperVector::zero();
                let bundled = zero.bundle(&fact_vec);
                knowledge.push((subject, bundled));
            },
        }
        k = k + 1;
    }
    knowledge
}

/// The store with the vector at `idx` bundled with `fact`.
fn bundle_into(knowledge: Vec<(String, HyperVector)>, idx: usize, fact: &HyperVector) -> (r: Vec<
    (String, HyperVector),
>)
    requires
        store_wf(knowledge@),
        (idx as int) < knowledge@.len(),
        hyper_wf(fact@),
    ensures
        store_wf(r@),
        r@.len() == knowledge@.len(),
{
    let mut out: Vec<(String, HyperVector)> = Vec::new();
    let n = knowledge.len();
    let mut j: usize = 0;
    while j < n
        invariant
            j <= n,
            n == knowledge@.len(),
            (idx as int) < knowledge@.len(),
            store_wf(knowledge@),
            hyper_wf(fact@),
            out@.len() == j,
            store_wf(out@),
        decreases n - j,
    {
        let name = clone_string(&knowledge[j].0);
        proof {
            assert(hyper_wf(knowledge@[j as int].1@));
        }
        if j == idx {
            let bundled = knowledge[j].1.bundle(fact);
            out.push((name, bundled));
        } else {
            let copy = knowledge[j].1.duplicate();
            out.push((name, copy));
        }
        j = j + 1;
    }
    out
}

} // verus!
