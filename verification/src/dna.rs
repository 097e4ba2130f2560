//! DNA computation and storage: strand complement and hybridization,
//! Adleman-style edge encoding with ligation and selection, and a small
//! byte codec with a checksum base and redundant copies.

use vstd::prelude::*;

verus! {

use vstd::arithmetic::mul::{lemma_mul_inequality, lemma_mul_is_distributive_add_other_way};
use vstd::arithmetic::div_mod::lemma_fundamental_div_mod_converse_div;

/// The four bases in code order: two bits per base.
pub open spec fn base_at(code: int) -> char {
    if code == 0 {
        'A'
    } else if code == 1 {
        'T'
    } else if code == 2 {
        'G'
    } else {
        'C'
    }
}

/// Watson-Crick complement of one base; other characters are untouched.
pub open spec fn base_complement(c: char) -> char {
    if c == 'A' {
        'T'
    } else if c == 'T' {
        'A'
    } else if c == 'G' {
        'C'
    } else if c == 'C' {
        'G'
    } else {
        c
    }
}

/// Whether two bases pair.
pub open spec fn bases_pair(a: char, b: char) -> bool {
    ||| (a == 'A' && b == 'T')
    ||| (a == 'T' && b == 'A')
    ||| (a == 'G' && b == 'C')
    ||| (a == 'C' && b == 'G')
}

/// The two-bit code of a base, zero for anything else.
pub open spec fn base_code(c: char) -> int {
    if c == 'A' {
        0
    } else if c == 'T' {
        1
    } else if c == 'G' {
        2
    } else if c == 'C' {
        3
    } else {
        0
    }
}

/// One DNA strand: a base sequence.
#[derive(Clone, Debug)]
pub struct DNAStrand {
    sequence: Vec<char>,
}

impl View for DNAStrand {
    type V = Seq<char>;

    closed spec fn view(&self) -> Seq<char> {
        self.sequence@
    }
}

impl DNAStrand {
    pub fn new(sequence: Vec<char>) -> (s: DNAStrand)
        ensures
            s@ == sequence@,
    {
        DNAStrand { sequence }
    }

    /// Number of bases.
    pub fn len(&self) -> (n: usize)
        ensures
            n == self@.len(),
    {
        self.sequence.len()
    }

    /// The base at one position.
    pub fn base(&self, i: usize) -> (c: char)
        requires
            (i as int) < self@.len(),
        ensures
            c == self@[i as int],
    {
        self.sequence[i]
    }

    /// The strand of complementary bases, position by position.
    pub fn complement(&self) -> (r: DNAStrand)
        ensures
            r@.len() == self@.len(),
            forall|i: int| 0 <= i < self@.len() ==> #[trigger] r@[i] == base_complement(self@[i]),
    {
        let mut comp_seq: Vec<char> = Vec::new();
        let mut i: usize = 0;
        let n = self.sequence.len();
        while i < n
            invariant
                i <= n,
                n == self@.len(),
                comp_seq@.len() == i,
                forall|j: int| 0 <= j < i ==> #[trigger] comp_seq@[j] == base_complement(self@[j]),
            decreases n - i,
        {
            let base = self.sequence[i];
            let c = if base == 'A' {
                'T'
            } else if base == 'T' {
                'A'
            } else if base == 'G' {
                'C'
            } else if base == 'C' {
                'G'
            } else {
                base
            };
            comp_seq.push(c);
            i = i + 1;
        }
        DNAStrand { sequence: comp_seq }
    }

    /// Whether the two strands pair position by position.
    pub fn hybridize(&self, other: &DNAStrand) -> (r: bool)
        ensures
            r == (self@.len() == other@.len() && (forall|i: int|
                0 <= i < self@.len() ==> bases_pair(#[trigger] self@[i], other@[i]))),
    {
        if self.sequence.len() != other.sequence.len() {
            return false;
        }
        let n = self.sequence.len();
        let mut i: usize = 0;
        while i < n
            invariant
                i <= n,
                n == self@.len(),
                self@.len() == other@.len(),
                forall|j: int| 0 <= j < i ==> bases_pair(#[trigger] self@[j], other@[j]),
            decreases n - i,
        {
            let a = self.sequence[i];
            let b = other.sequence[i];
            let ok = (a == 'A' && b == 'T') || (a == 'T' && b == 'A') || (a == 'G' && b == 'C') || (
            a == 'C' && b == 'G');
            if !ok {
                return false;
            }
            i = i + 1;
        }
        true
    }
}

/// The 20-base encoding of one directed edge: ten bases naming the source
/// vertex, ten naming the destination.
pub open spec fn edge_seq(from: int, to: int) -> Seq<char> {
    Seq::new(
        20,
        |i: int|
            if i < 10 {
                base_at((from * 7 + i) % 4)
            } else {
                base_at((to * 11 + (i - 10)) % 4)
            },
    )
}

/// An Adleman-style strand pool.
pub struct DNAComputer {
    strand_pool: Vec<DNAStrand>,
}

impl DNAComputer {
    /// The pool as a sequence of base sequences.
    pub closed spec fn pool(&self) -> Seq<Seq<char>> {
        self.strand_pool@.map(|i: int, s: DNAStrand| s@)
    }

    /// Every strand in the pool carries at least one full edge.
    pub open spec fn wf(&self) -> bool {
        forall|i: int| 0 <= i < self.pool().len() ==> (#[trigger] self.pool()[i]).len() >= 20
    }

    pub fn new() -> (c: DNAComputer)
        ensures
            c.pool() == Seq::<Seq<char>>::empty(),
            c.wf(),
    {
        DNAComputer { strand_pool: Vec::new() }
    }

    /// Number of strands in the pool.
    pub fn pool_len(&self) -> (n: usize)
        ensures
            n == self.pool().len(),
    {
        self.strand_pool.len()
    }

    /// A copy of the strand at one pool position.
    pub fn strand_at(&self, i: usize) -> (s: DNAStrand)
        requires
            (i as int) < self.pool().len(),
        ensures
            s@ == self.pool()[i as int],
    {
        DNAStrand { sequence: clone_chars(&self.strand_pool[i].sequence) }
    }

    /// Encodes each edge as a 20-base strand and adds it to the pool.
    pub fn encode_graph(&mut self, edges: &Vec<(usize, usize)>)
        requires
            old(self).wf(),
            forall|k: int|
                0 <= k < edges@.len() ==> (#[trigger] edges@[k]).0 <= 0x0fff_ffff && edges@[k].1
                    <= 0x0fff_ffff,
        ensures
            final(self).wf(),
            final(self).pool().len() == old(self).pool().len() + edges@.len(),
            forall|i: int|
                0 <= i < old(self).pool().len() ==> #[trigger] final(self).pool()[i] == old(
                    self,
                ).pool()[i],
            forall|k: int|
                0 <= k < edges@.len() ==> #[trigger] final(self).pool()[old(self).pool().len() + k]
                    == edge_seq(edges@[k].0 as int, edges@[k].1 as int),
    {
        let m = edges.len();
        let mut k: usize = 0;
        while k < m
            invariant
                k <= m,
                m == edges@.len(),
                self.wf(),
                forall|j: int|
                    0 <= j < edges@.len() ==> (#[trigger] edges@[j]).0 <= 0x0fff_ffff
                        && edges@[j].1 <= 0x0fff_ffff,
                self.pool().len() == old(self).pool().len() + k,
                forall|i: int|
                    0 <= i < old(self).pool().len() ==> #[trigger] self.pool()[i] == old(
                        self,
                    ).pool()[i],
                forall|j: int|
                    0 <= j < k ==> #[trigger] self.pool()[old(self).pool().len() + j] == edge_seq(
                        edges@[j].0 as int,
                        edges@[j].1 as int,
                    ),
            decreases m - k,
        {
            let (u, v) = edges[k];
            let seq_chars = encode_edge(u, v);
            let ghost prev = self.pool();
            self.strand_pool.push(DNAStrand { sequence: seq_chars });
            proof {
                assert(self.pool() =~= prev.push(edge_seq(edges@[k as int].0 as int,
                    edges@[k as int].1 as int)));
            }
            k = k + 1;
        }
    }


    /// One ligation round: for every ordered pair of distinct strands
    /// whose 20-base edge windows are compatible -- the second ten bases
    /// of the first strand equal the first ten of the second -- the
    /// joined strand is added to the pool.  Every added strand is such a
    /// join of two strands already in the pool.
    pub fn ligate_paths(&mut self)
        requires
            old(self).wf(),
        ensures
            final(self).wf(),
            final(self).pool().len() >= old(self).pool().len(),
            forall|i: int|
                0 <= i < old(self).pool().len() ==> #[trigger] final(self).pool()[i] == old(
                    self,
                ).pool()[i],
            forall|t: int|
                old(self).pool().len() <= t < final(self).pool().len() ==> is_ligation(
                    old(self).pool(),
                    #[trigger] final(self).pool()[t],
                ),
    {
        let n = self.strand_pool.len();
        let mut new_strands: Vec<DNAStrand> = Vec::new();
        let mut i: usize = 0;
        while i < n
            invariant
                i <= n,
                n == self.pool().len(),
                self.wf(),
                *self == *old(self),
                forall|s: int| 0 <= s < new_strands@.len() ==> (#[trigger] new_strands@[s]@).len()
                    >= 20,
                forall|s: int|
                    0 <= s < new_strands@.len() ==> is_ligation(
                        self.pool(),
                        #[trigger] new_strands@[s]@,
                    ),
            decreases n - i,
        {
            let mut j: usize = 0;
            while j < n
                invariant
                    j <= n,
                    i < n,
                    n == self.pool().len(),
                    self.wf(),
                    *self == *old(self),
                    forall|s: int| 0 <= s < new_strands@.len() ==> (
                    #[trigger] new_strands@[s]@).len() >= 20,
                    forall|s: int|
                        0 <= s < new_strands@.len() ==> is_ligation(
                            self.pool(),
                            #[trigger] new_strands@[s]@,
                        ),
                decreases n - j,
            {
                if i != j {
                    proof {
                        assert(self.strand_pool@[i as int]@ == self.pool()[i as int]);
                        assert(self.strand_pool@[j as int]@ == self.pool()[j as int]);
                        assert(self.pool()[i as int].len() >= 20);
                        assert(self.pool()[j as int].len() >= 20);
                    }
                    if windows_match(&self.strand_pool[i], &self.strand_pool[j]) {
                        let lig = ligate(&self.strand_pool[i], &self.strand_pool[j]);
                        proof {
                            assert(lig@ == joined(self.pool(), i as int, j as int));
                            assert(is_ligation(self.pool(), lig@));
                        }
                        new_strands.push(lig);
                    }
                }
                j = j + 1;
            }
            i = i + 1;
        }
        let m = new_strands.len();
        let mut s: usize = 0;
        while s < m
            invariant
                s <= m,
                m == new_strands@.len(),
                n == old(self).pool().len(),
                self.wf(),
                self.pool().len() == n + s,
                forall|p: int| 0 <= p < n ==> #[trigger] self.pool()[p] == old(self).pool()[p],
                forall|p: int|
                    n <= p < self.pool().len() ==> is_ligation(
                        old(self).pool(),
                        #[trigger] self.pool()[p],
                    ),
                forall|q: int| 0 <= q < new_strands@.len() ==> (
                #[trigger] new_strands@[q]@).len() >= 20,
                forall|q: int|
                    0 <= q < new_strands@.len() ==> is_ligation(
                        old(self).pool(),
                        #[trigger] new_strands@[q]@,
                    ),
            decreases m - s,
        {
            let ghost prev = self.pool();
            let copy = DNAStrand { sequence: clone_chars(&new_strands[s].sequence) };
            self.strand_pool.push(copy);
            proof {
                assert(self.pool() =~= prev.push(new_strands@[s as int]@));
            }
            s = s + 1;
        }
    }

    /// Polymerase chain reaction: appends ten rounds of copies of every
    /// strand that carries the primer as a contiguous window.  Every
    /// added strand equals a pool strand that carries the primer.
    pub fn pcr_amplify(&mut self, primer: &DNAStrand)
        requires
            old(self).wf(),
        ensures
            final(self).wf(),
            final(self).pool().len() >= old(self).pool().len(),
            forall|i: int|
                0 <= i < old(self).pool().len() ==> #[trigger] final(self).pool()[i] == old(
                    self,
                ).pool()[i],
            forall|t: int|
                old(self).pool().len() <= t < final(self).pool().len() ==> has_site(
                    #[trigger] final(self).pool()[t],
                    primer@,
                ) && in_pool(old(self).pool(), final(self).pool()[t]),
    {
        let n = self.strand_pool.len();
        let mut matching: Vec<DNAStrand> = Vec::new();
        let mut i: usize = 0;
        while i < n
            invariant
                i <= n,
                n == self.pool().len(),
                self.wf(),
                *self == *old(self),
                forall|s: int|
                    0 <= s < matching@.len() ==> has_site(#[trigger] matching@[s]@, primer@)
                        && in_pool(self.pool(), matching@[s]@) && matching@[s]@.len() >= 20,
            decreases n - i,
        {
            proof {
                assert(self.strand_pool@[i as int]@ == self.pool()[i as int]);
                assert(self.pool()[i as int].len() >= 20);
            }
            if has_primer_site(&self.strand_pool[i], primer) {
                let copy = DNAStrand { sequence: clone_chars(&self.strand_pool[i].sequence) };
                proof {
                    assert(copy@ == self.pool()[i as int]);
                    assert(in_pool(self.pool(), copy@));
                }
                matching.push(copy);
            }
            i = i + 1;
        }
        let mut cycle: usize = 0;
        while cycle < 10
            invariant
                cycle <= 10,
                n == old(self).pool().len(),
                self.wf(),
                self.pool().len() >= n,
                forall|p: int| 0 <= p < n ==> #[trigger] self.pool()[p] == old(self).pool()[p],
                forall|t: int|
                    n <= t < self.pool().len() ==> has_site(#[trigger] self.pool()[t], primer@)
                        && in_pool(old(self).pool(), self.pool()[t]),
                forall|s: int|
                    0 <= s < matching@.len() ==> has_site(#[trigger] matching@[s]@, primer@)
                        && in_pool(old(self).pool(), matching@[s]@) && matching@[s]@.len() >= 20,
            decreases 10 - cycle,
        {
            let m = matching.len();
            let mut s: usize = 0;
            while s < m
                invariant
                    s <= m,
                    m == matching@.len(),
                    n == old(self).pool().len(),
                    self.wf(),
                    self.pool().len() >= n,
                    forall|p: int| 0 <= p < n ==> #[trigger] self.pool()[p] == old(self).pool()[p],
                    forall|t: int|
                        n <= t < self.pool().len() ==> has_site(
                            #[trigger] self.pool()[t],
                            primer@,
                        ) && in_pool(old(self).pool(), self.pool()[t]),
                    forall|q: int|
                        0 <= q < matching@.len() ==> has_site(#[trigger] matching@[q]@, primer@)
                            && in_pool(old(self).pool(), matching@[q]@) && matching@[q]@.len()
                            >= 20,
                decreases m - s,
            {
                let ghost prev = self.pool();
                let copy = DNAStrand { sequence: clone_chars(&matching[s].sequence) };
                self.strand_pool.push(copy);
                proof {
                    assert(self.pool() =~= prev.push(matching@[s as int]@));
                }
                s = s + 1;
            }
            cycle = cycle + 1;
        }
    }

    /// Keeps only the strands of exactly `target_length` bases, in order.
    pub fn select_by_length(&mut self, target_length: usize)
        requires
            old(self).wf(),
        ensures
            final(self).wf(),
            final(self).pool() == old(self).pool().filter(
                |s: Seq<char>| s.len() == target_length as int,
            ),
    {
        let ghost pred = |s: Seq<char>| s.len() == target_length as int;
        let n = self.strand_pool.len();
        let mut kept: Vec<DNAStrand> = Vec::new();
        let mut i: usize = 0;
        proof {
            assert(self.pool().subrange(0, 0) =~= Seq::<Seq<char>>::empty());
            reveal(Seq::filter);
        }
        while i < n
            invariant
                i <= n,
                n == self.pool().len(),
                self.wf(),
                *self == *old(self),
                pred == (|s: Seq<char>| s.len() == target_length as int),
                kept@.map(|j: int, s: DNAStrand| s@) == self.pool().subrange(0, i as int).filter(
                    pred,
                ),
                forall|j: int| 0 <= j < kept@.len() ==> (#[trigger] kept@[j]@).len() >= 20,
            decreases n - i,
        {
            let ghost prev = kept@.map(|j: int, s: DNAStrand| s@);
            proof {
                reveal(Seq::filter);
                assert(self.pool().subrange(0, i + 1).drop_last() =~= self.pool().subrange(
                    0,
                    i as int,
                ));
                assert(self.pool().subrange(0, i + 1).last() == self.pool()[i as int]);
            }
            if self.strand_pool[i].sequence.len() == target_length {
                let s = DNAStrand { sequence: clone_chars(&self.strand_pool[i].sequence) };
                proof {
                    assert(s@ == self.pool()[i as int]);
                }
                kept.push(s);
                proof {
                    assert(kept@.map(|j: int, s2: DNAStrand| s2@) =~= prev.push(
                        self.pool()[i as int],
                    ));
                }
            } else {
                proof {
                    assert(!pred(self.pool()[i as int]));
                }
            }
            i = i + 1;
        }
        proof {
            assert(self.pool().subrange(0, n as int) =~= self.pool());
        }
        let ghost kept_view = kept@.map(|j: int, s: DNAStrand| s@);
        self.strand_pool = kept;
        proof {
            assert(self.pool() =~= kept_view);
        }
    }
}

/// The 20-base edge strand, ten bases per endpoint.
fn encode_edge(from: usize, to: usize) -> (r: Vec<char>)
    requires
        from <= 0x0fff_ffff,
        to <= 0x0fff_ffff,
    ensures
        r@ == edge_seq(from as int, to as int),
{
    let mut seq_chars: Vec<char> = Vec::new();
    let mut i: usize = 0;
    while i < 10
        invariant
            i <= 10,
            from <= 0x0fff_ffff,
            seq_chars@.len() == i,
            forall|j: int| 0 <= j < i ==> #[trigger] seq_chars@[j] == base_at(
                ((from as int) * 7 + j) % 4,
            ),
        decreases 10 - i,
    {
        let code = (from * 7 + i) % 4;
        seq_chars.push(base_char(code));
        i = i + 1;
    }
    let mut k: usize = 0;
    while k < 10
        invariant
            k <= 10,
            to <= 0x0fff_ffff,
            seq_chars@.len() == 10 + k,
            forall|j: int| 0 <= j < 10 ==> #[trigger] seq_chars@[j] == base_at(
                ((from as int) * 7 + j) % 4,
            ),
            forall|j: int| 10 <= j < 10 + k ==> #[trigger] seq_chars@[j] == base_at(
                ((to as int) * 11 + (j - 10)) % 4,
            ),
        decreases 10 - k,
    {
        let code = (to * 11 + k) % 4;
        seq_chars.push(base_char(code));
        k = k + 1;
    }
    proof {
        assert(seq_chars@ =~= edge_seq(from as int, to as int));
    }
    seq_chars
}

/// The base for a two-bit code.
fn base_char(code: usize) -> (c: char)
    requires
        code < 4,
    ensures
        c == base_at(code as int),
{
    if code == 0 {
        'A'
    } else if code == 1 {
        'T'
    } else if code == 2 {
        'G'
    } else {
        'C'
    }
}

/// The five-base encoding of one byte: four data bases, least significant
/// two bits first, then the checksum base that xors the four codes.
pub open spec fn byte_checksum(b: u8) -> u8 {
    (b & 3) ^ ((b >> 2) & 3) ^ ((b >> 4) & 3) ^ ((b >> 6) & 3)
}

pub open spec fn byte_strand(b: u8) -> Seq<char> {
    seq![
        base_at((b & 3) as int),
        base_at(((b >> 2) & 3) as int),
        base_at(((b >> 4) & 3) as int),
        base_at(((b >> 6) & 3) as int),
        base_at(byte_checksum(b) as int),
    ]
}

/// The strands' base sequences.
pub open spec fn strand_views(ss: Seq<DNAStrand>) -> Seq<Seq<char>> {
    ss.map(|i: int, s: DNAStrand| s@)
}

/// Positions `at .. at + red` of the pool all hold the strand of byte `b`.
pub open spec fn chunk_is(pool: Seq<Seq<char>>, at: int, red: int, b: u8) -> bool {
    forall|c: int| 0 <= c < red ==> 0 <= at + c < pool.len() && #[trigger] pool[at + c]
        == byte_strand(b)
}

/// A byte codec over DNA strands with redundant copies.
pub struct DNAStorageCodec {
    redundancy: usize,
}

impl DNAStorageCodec {
    /// Copies stored per byte.
    pub closed spec fn copies(&self) -> nat {
        self.redundancy as nat
    }

    pub fn new(redundancy: usize) -> (c: DNAStorageCodec)
        ensures
            c.copies() == redundancy as nat,
    {
        DNAStorageCodec { redundancy }
    }

    /// Encodes each byte as a five-base strand, `copies` times over.
    pub fn encode_bytes(&self, data: &Vec<u8>) -> (r: Vec<DNAStrand>)
        requires
            self.copies() >= 1,
            data@.len() * self.copies() <= usize::MAX,
        ensures
            r@.len() == data@.len() * self.copies(),
            forall|k: int|
                0 <= k < r@.len() ==> #[trigger] r@[k]@ == byte_strand(
                    data@[k / (self.copies() as int)],
                ),
    {
        let mut out: Vec<DNAStrand> = Vec::new();
        let n = data.len();
        let mut j: usize = 0;
        proof {
            vstd::arithmetic::mul::lemma_mul_basics(self.copies() as int);
        }
        while j < n
            invariant
                j <= n,
                n == data@.len(),
                self.copies() >= 1,
                data@.len() * self.copies() <= usize::MAX,
                out@.len() == j * (self.copies() as int),
                forall|k: int|
                    0 <= k < out@.len() ==> #[trigger] out@[k]@ == byte_strand(
                        data@[k / (self.copies() as int)],
                    ),
            decreases n - j,
        {
            proof {
                lemma_mul_inequality(j as int + 1, n as int, self.copies() as int);
            }
            let b = data[j];
            let strand = encode_byte(b);
            let mut c: usize = 0;
            while c < self.redundancy
                invariant
                    c <= self.redundancy,
                    self.copies() == self.redundancy as nat,
                    j < n,
                    n == data@.len(),
                    (j + 1) * (self.copies() as int) <= n * (self.copies() as int),
                    n * (self.copies() as int) <= usize::MAX,
                    strand@ == byte_strand(data@[j as int]),
                    out@.len() == j * (self.copies() as int) + c,
                    forall|k: int|
                        0 <= k < out@.len() ==> #[trigger] out@[k]@ == byte_strand(
                            data@[k / (self.copies() as int)],
                        ),
                decreases self.redundancy - c,
            {
                proof {
                    lemma_mul_is_distributive_add_other_way(self.copies() as int, j as int, 1);
                    lemma_fundamental_div_mod_converse_div(
                        out@.len() as int,
                        self.copies() as int,
                        j as int,
                        c as int,
                    );
                }
                out.push(DNAStrand { sequence: clone_chars(&strand) });
                c = c + 1;
            }
            proof {
                lemma_mul_is_distributive_add_other_way(self.copies() as int, j as int, 1);
            }
            j = j + 1;
        }
        out
    }

    /// Decodes by majority vote over each run of `copies` strands; a run
    /// of identical copies of a byte's strand yields that byte back.
    pub fn decode_strands(&self, strands: &Vec<DNAStrand>) -> (r: Vec<u8>)
        requires
            self.copies() >= 1,
        ensures
            r@.len() * (self.copies() as int) <= strands@.len(),
            forall|k: int, b: u8|
                #![trigger chunk_is(strand_views(strands@), k * (self.copies() as int), self.copies() as int, b)]
                0 <= k < r@.len() && chunk_is(
                    strand_views(strands@),
                    k * (self.copies() as int),
                    self.copies() as int,
                    b,
                ) ==> r@[k] == b,
    {
        let mut out: Vec<u8> = Vec::new();
        let mut start: usize = 0;
        let n = strands.len();
        proof {
            vstd::arithmetic::mul::lemma_mul_basics(self.copies() as int);
        }
        while self.redundancy <= n - start
            invariant
                self.copies() >= 1,
                n == strands@.len(),
                start == out@.len() * (self.copies() as int),
                start <= n,
                forall|k: int, b: u8|
                    #![trigger chunk_is(strand_views(strands@), k * (self.copies() as int), self.copies() as int, b)]
                    0 <= k < out@.len() && chunk_is(
                        strand_views(strands@),
                        k * (self.copies() as int),
                        self.copies() as int,
                        b,
                    ) ==> out@[k] == b,
            decreases n - start,
        {
            let byte = self.consensus_byte(strands, start);
            out.push(byte);
            start = start + self.redundancy;
            proof {
                vstd::arithmetic::mul::lemma_mul_is_distributive_add_other_way(
                    self.copies() as int,
                    out@.len() as int - 1,
                    1,
                );
            }
        }
        out
    }

    /// The consensus byte over one run of copies: if every copy in the run
    /// is the exact strand of a byte `b`, the result is `b`.
    fn consensus_byte(&self, strands: &Vec<DNAStrand>, start: usize) -> (r: u8)
        requires
            self.copies() >= 1,
            start + self.copies() <= strands@.len(),
        ensures
            forall|b: u8|
                #![trigger chunk_is(strand_views(strands@), start as int, self.copies() as int, b)]
                chunk_is(strand_views(strands@), start as int, self.copies() as int, b) ==> r
                    == b,
    {
        let ghost sv = strand_views(strands@);
        let first = &strands[start];
        let uniform = self.run_is_uniform(strands, start);
        if uniform && first.sequence.len() == 5 {
            let b0 = code_of(first.sequence[0]);
            let b1 = code_of(first.sequence[1]);
            let b2 = code_of(first.sequence[2]);
            let b3 = code_of(first.sequence[3]);
            let byte = (b0 as u8) + 4 * (b1 as u8) + 16 * (b2 as u8) + 64 * (b3 as u8);
            proof {
                assert forall|b: u8|
                    chunk_is(sv, start as int, self.copies() as int, b) implies byte == b by {
                    assert(sv[start + 0] == byte_strand(b));
                    assert(sv[start as int] == strands@[start as int]@);
                    lemma_byte_strand_decodes(b);
                }
            }
            byte
        } else {
            proof {
                assert forall|b: u8|
                    chunk_is(sv, start as int, self.copies() as int, b) implies false by {
                    assert(sv[start + 0] == byte_strand(b));
                    assert(sv[start as int] == strands@[start as int]@);
                    if !uniform {
                        assert forall|c: int| 0 <= c < self.copies() implies #[trigger] strands@[
                            start + c]@ == strands@[start as int]@ by {
                            assert(sv[start + c] == byte_strand(b));
                            assert(sv[start + c] == strands@[start + c]@);
                        }
                    } else {
                        assert(byte_strand(b).len() == 5);
                    }
                }
            }
            0
        }
    }

    /// Whether every strand in the run equals the first.
    fn run_is_uniform(&self, strands: &Vec<DNAStrand>, start: usize) -> (r: bool)
        requires
            self.copies() >= 1,
            start + self.copies() <= strands@.len(),
        ensures
            r == (forall|c: int|
                0 <= c < self.copies() ==> #[trigger] strands@[start + c]@
                    == strands@[start as int]@),
    {
        let n = strands.len();
        let mut c: usize = 1;
        while c < self.redundancy
            invariant
                1 <= c <= self.redundancy,
                self.copies() == self.redundancy as nat,
                start + self.copies() <= strands@.len(),
                n == strands@.len(),
                forall|c2: int|
                    0 <= c2 < c ==> #[trigger] strands@[start + c2]@ == strands@[start as int]@,
            decreases self.redundancy - c,
        {
            if !chars_equal(&strands[start], &strands[start + c]) {
                return false;
            }
            c = c + 1;
        }
        proof {
            assert(strands@[start + 0]@ == strands@[start as int]@);
        }
        true
    }
}

/// Reading the byte back from its strand inverts the encoding.
proof fn lemma_byte_strand_decodes(b: u8)
    ensures
        byte_strand(b).len() == 5,
        base_code(byte_strand(b)[0]) + 4 * base_code(byte_strand(b)[1]) + 16 * base_code(
            byte_strand(b)[2],
        ) + 64 * base_code(byte_strand(b)[3]) == b as int,
{
    assert((b & 3) < 4 && ((b >> 2) & 3) < 4 && ((b >> 4) & 3) < 4 && ((b >> 6) & 3) < 4) by (
    bit_vector);
    assert(base_code(base_at((b & 3) as int)) == (b & 3) as int);
    assert(base_code(base_at(((b >> 2) & 3) as int)) == ((b >> 2) & 3) as int);
    assert(base_code(base_at(((b >> 4) & 3) as int)) == ((b >> 4) & 3) as int);
    assert(base_code(base_at(((b >> 6) & 3) as int)) == ((b >> 6) & 3) as int);
    assert((b & 3) + 4 * ((b >> 2) & 3) + 16 * ((b >> 4) & 3) + 64 * ((b >> 6) & 3) == b) by (
    bit_vector);
}

/// The two-bit code of a base.
fn code_of(c: char) -> (r: usize)
    ensures
        r as int == base_code(c),
        r < 4,
{
    if c == 'A' {
        0
    } else if c == 'T' {
        1
    } else if c == 'G' {
        2
    } else if c == 'C' {
        3
    } else {
        0
    }
}

/// A fresh copy of a base vector.
fn clone_chars(v: &Vec<char>) -> (r: Vec<char>)
    ensures
        r@ == v@,
{
    let mut out: Vec<char> = Vec::new();
    let n = v.len();
    let mut i: usize = 0;
    while i < n
        invariant
            i <= n,
            n == v@.len(),
            out@ == v@.subrange(0, i as int),
        decreases n - i,
    {
        out.push(v[i]);
        proof {
            assert(out@ =~= v@.subrange(0, i + 1));
        }
        i = i + 1;
    }
    proof {
        assert(v@.subrange(0, n as int) =~= v@);
    }
    out
}

/// Whether two strands hold the same bases.
fn chars_equal(a: &DNAStrand, b: &DNAStrand) -> (r: bool)
    ensures
        r == (a@ == b@),
{
    if a.sequence.len() != b.sequence.len() {
        proof {
            assert(a@.len() != b@.len());
        }
        return false;
    }
    let n = a.sequence.len();
    let mut i: usize = 0;
    while i < n
        invariant
            i <= n,
            n == a@.len(),
            a@.len() == b@.len(),
            forall|j: int| 0 <= j < i ==> #[trigger] a@[j] == b@[j],
        decreases n - i,
    {
        if a.sequence[i] != b.sequence[i] {
            return false;
        }
        i = i + 1;
    }
    proof {
        assert(a@ =~= b@);
    }
    true
}

/// The five-base strand of one byte.
fn encode_byte(b: u8) -> (r: Vec<char>)
    ensures
        r@ == byte_strand(b),
{
    let c0 = b & 3;
    let c1 = (b >> 2) & 3;
    let c2 = (b >> 4) & 3;
    let c3 = (b >> 6) & 3;
    let check = c0 ^ c1 ^ c2 ^ c3;
    proof {
        assert((b & 3) < 4 && ((b >> 2) & 3) < 4 && ((b >> 4) & 3) < 4 && ((b >> 6) & 3) < 4
            && ((b & 3) ^ ((b >> 2) & 3) ^ ((b >> 4) & 3) ^ ((b >> 6) & 3)) < 4) by (bit_vector);
    }
    let mut out: Vec<char> = Vec::new();
    out.push(base_char(c0 as usize));
    out.push(base_char(c1 as usize));
    out.push(base_char(c2 as usize));
    out.push(base_char(c3 as usize));
    out.push(base_char(check as usize));
    proof {
        assert(out@ =~= byte_strand(b));
    }
    out
}

/// The strand `a` followed by `b` past its first ten bases.
pub open spec fn joined(pool: Seq<Seq<char>>, a: int, b: int) -> Seq<char> {
    pool[a] + pool[b].subrange(10, pool[b].len() as int)
}

/// The strand is a compatible join of two distinct pool strands.
pub open spec fn is_ligation(pool: Seq<Seq<char>>, s: Seq<char>) -> bool {
    exists|a: int, b: int|
        {
            &&& 0 <= a < pool.len()
            &&& 0 <= b < pool.len()
            &&& a != b
            &&& pool[a].subrange(10, 20) == pool[b].subrange(0, 10)
            &&& s == #[trigger] joined(pool, a, b)
        }
}

/// The strand equals some pool strand.
pub open spec fn in_pool(pool: Seq<Seq<char>>, s: Seq<char>) -> bool {
    exists|a: int| 0 <= a < pool.len() && s == #[trigger] pool[a]
}

/// The primer occurs as a contiguous window of the strand.
pub open spec fn has_site(s: Seq<char>, p: Seq<char>) -> bool {
    exists|t: int| 0 <= t <= s.len() - p.len() && #[trigger] s.subrange(t, t + p.len()) == p
}

/// Whether the second ten bases of `a` equal the first ten of `b`.
fn windows_match(a: &DNAStrand, b: &DNAStrand) -> (r: bool)
    requires
        a@.len() >= 20,
        b@.len() >= 10,
    ensures
        r == (a@.subrange(10, 20) == b@.subrange(0, 10)),
{
    let mut t: usize = 0;
    while t < 10
        invariant
            t <= 10,
            a@.len() >= 20,
            b@.len() >= 10,
            forall|x: int| 0 <= x < t ==> a@[10 + x] == #[trigger] b@[x],
        decreases 10 - t,
    {
        if a.sequence[10 + t] != b.sequence[t] {
            proof {
                assert(a@.subrange(10, 20)[t as int] != b@.subrange(0, 10)[t as int]);
            }
            return false;
        }
        t = t + 1;
    }
    proof {
        assert(a@.subrange(10, 20) =~= b@.subrange(0, 10));
    }
    true
}

/// The join: all of `a`, then `b` past its first ten bases.
fn ligate(a: &DNAStrand, b: &DNAStrand) -> (r: DNAStrand)
    requires
        a@.len() >= 20,
        b@.len() >= 10,
    ensures
        r@ == a@ + b@.subrange(10, b@.len() as int),
        r@.len() >= 20,
{
    let mut seq_chars = clone_chars(&a.sequence);
    let mut t: usize = 10;
    let bn = b.sequence.len();
    while t < bn
        invariant
            10 <= t <= bn,
            bn == b@.len(),
            seq_chars@ == a@ + b@.subrange(10, t as int),
        decreases bn - t,
    {
        seq_chars.push(b.sequence[t]);
        proof {
            assert(seq_chars@ =~= a@ + b@.subrange(10, t + 1));
        }
        t = t + 1;
    }
    proof {
        assert(a@ + b@.subrange(10, 10) =~= a@);
    }
    DNAStrand { sequence: seq_chars }
}

/// Whether the strand carries the primer as a contiguous window.
fn has_primer_site(strand: &DNAStrand, primer: &DNAStrand) -> (r: bool)
    ensures
        r == has_site(strand@, primer@),
{
    let sn = strand.sequence.len();
    let pn = primer.sequence.len();
    if pn > sn {
        proof {
            assert(!has_site(strand@, primer@));
        }
        return false;
    }
    if pn == 0 {
        proof {
            assert(strand@.subrange(0, 0 + (primer@.len() as int)) =~= primer@);
            assert(has_site(strand@, primer@));
        }
        return true;
    }
    let mut t: usize = 0;
    while t <= sn - pn
        invariant
            t <= sn - pn + 1,
            1 <= pn <= sn,
            sn == strand@.len(),
            pn == primer@.len(),
            forall|x: int| 0 <= x < t ==> #[trigger] strand@.subrange(x, x + pn) != primer@,
        decreases sn + 1 - t,
    {
        let mut x: usize = 0;
        let mut all = true;
        while x < pn
            invariant
                x <= pn,
                t + pn <= sn,
                sn == strand@.len(),
                pn == primer@.len(),
                all ==> forall|y: int| 0 <= y < x ==> strand@[t + y] == #[trigger] primer@[y],
                !all ==> strand@.subrange(t as int, t + pn) != primer@,
            decreases pn - x,
        {
            if strand.sequence[t + x] != primer.sequence[x] {
                all = false;
                proof {
                    assert(strand@.subrange(t as int, t + pn)[x as int] != primer@[x as int]);
                }
                x = pn;
            } else {
                x = x + 1;
            }
        }
        if all {
            proof {
                assert(strand@.subrange(t as int, t + pn) =~= primer@);
            }
            return true;
        }
        proof {
            assert(strand@.subrange(t as int, t + pn) != primer@);
        }
        t = t + 1;
    }
    proof {
        assert forall|y: int| 0 <= y <= strand@.len() - primer@.len() implies #[trigger] strand@.subrange(
            y,
            y + primer@.len(),
        ) != primer@ by {
            assert(strand@.subrange(y, y + (primer@.len() as int)) != primer@);
        }
    }
    false
}

} // verus!
