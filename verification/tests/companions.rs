//! The classical companion modules: DNA strands and storage, the
//! hyperdimensional layer, simplices, the constraint system, the stack
//! machine, and key distribution.

use qsim_exact::bb84::{Basis, Bit, BB84};
use qsim_exact::dna::{DNAComputer, DNAStorageCodec, DNAStrand};
use qsim_exact::hyperdim::{
    hyperdimensional_knowledge_graph, HyperVector, HyperdimensionalMemory,
    HyperdimensionalReasoner,
};
use qsim_exact::synth::{fredkin_gate, reversible_and, Bit as WireBit, Op, Program};
use qsim_exact::topology::{PersistentHomologyVectorizer, Simplex};
use qsim_exact::zk::{dot_product, interpolate, FieldElement, Polynomial, R1CS};

#[test]
fn strand_complement_and_hybridize() {
    let s = DNAStrand::new(vec!['A', 'T', 'G', 'C']);
    let c = s.complement();
    assert_eq!(
        (0..4).map(|i| c.base(i)).collect::<Vec<_>>(),
        vec!['T', 'A', 'C', 'G']
    );
    assert!(s.hybridize(&c));
    assert!(!s.hybridize(&s));
    assert!(!s.hybridize(&DNAStrand::new(vec!['A', 'T'])));
}

#[test]
fn adleman_pool_ligates_compatible_edges() {
    let mut computer = DNAComputer::new();
    computer.encode_graph(&vec![(0, 1), (1, 2)]);
    assert_eq!(computer.pool_len(), 2);
    assert_eq!(computer.strand_at(0).len(), 20);
    computer.ligate_paths();
    // the edge pair (0,1)+(1,2) is the one compatible join
    assert_eq!(computer.pool_len(), 3);
    assert_eq!(computer.strand_at(2).len(), 30);
    computer.select_by_length(30);
    assert_eq!(computer.pool_len(), 1);
    assert_eq!(computer.strand_at(0).len(), 30);
}

#[test]
fn pcr_amplifies_matching_strands() {
    let mut computer = DNAComputer::new();
    computer.encode_graph(&vec![(0, 1), (2, 3)]);
    let primer = computer.strand_at(0);
    computer.pcr_amplify(&primer);
    // ten cycles copy the one matching strand
    assert_eq!(computer.pool_len(), 12);
}

#[test]
fn dna_codec_round_trip() {
    let codec = DNAStorageCodec::new(3);
    let data = vec![72u8, 101, 108, 108, 111, 0, 255];
    let strands = codec.encode_bytes(&data);
    assert_eq!(strands.len(), data.len() * 3);
    assert_eq!(strands[0].len(), 5);
    let decoded = codec.decode_strands(&strands);
    assert_eq!(decoded, data);
}

#[test]
fn dna_codec_single_copy_round_trip() {
    let codec = DNAStorageCodec::new(1);
    let data = vec![0u8, 1, 2, 3, 250];
    let decoded = codec.decode_strands(&codec.encode_bytes(&data));
    assert_eq!(decoded, data);
}

#[test]
fn hypervector_algebra() {
    let z = HyperVector::zero();
    let r = HyperVector::random();
    assert_eq!(z.dot(&r), 0);
    // binding a sign vector with itself gives the all-one vector
    let b = r.bind(&r);
    assert_eq!(b.dot(&b), 10000);
    // bundling a sign vector with itself keeps it
    let s = r.bundle(&r);
    assert_eq!(s.dot(&r), 10000);
    // rotating by zero keeps the vector
    assert_eq!(r.permute(0).dot(&r), 10000);
    // rotating by the full dimension keeps the vector too
    assert_eq!(r.permute(10000).dot(&r), 10000);
}

#[test]
fn memory_returns_stable_item_codes() {
    let mut memory = HyperdimensionalMemory::new();
    let first = memory.encode_item("apple".to_string());
    let second = memory.encode_item("apple".to_string());
    assert_eq!(first.dot(&second), 10000);
    let other = memory.encode_item("pear".to_string());
    // distinct random codes are not identical
    assert!(first.dot(&other) < 10000);
}

#[test]
fn memory_recall_thresholds() {
    let memory = HyperdimensionalMemory::new();
    let q = HyperVector::random();
    assert_eq!(memory.recall(&q), None);
    let mut memory2 = HyperdimensionalMemory::new();
    memory2.store_episode(&vec!["a".to_string(), "b".to_string()], "ctx".to_string());
}

#[test]
fn reasoner_analogy_avoids_the_cue() {
    let mut reasoner = HyperdimensionalReasoner::new();
    reasoner.define_concept("dog".to_string(), &vec!["animal".to_string()]);
    reasoner.define_concept("cat".to_string(), &vec!["animal".to_string()]);
    reasoner.define_concept("puppy".to_string(), &vec!["young".to_string()]);
    let a = "dog".to_string();
    let b = "cat".to_string();
    let c = "puppy".to_string();
    let answer = reasoner.analogical_reasoning((&a, &b), &c).unwrap();
    assert_ne!(answer, "puppy");
}

#[test]
fn knowledge_graph_groups_by_subject() {
    let facts = vec![
        ("sun".to_string(), "is".to_string(), "star".to_string()),
        ("sun".to_string(), "has".to_string(), "light".to_string()),
        ("moon".to_string(), "is".to_string(), "rock".to_string()),
    ];
    let graph = hyperdimensional_knowledge_graph(&facts);
    assert_eq!(graph.len(), 2);
    assert_eq!(graph[0].0, "sun");
    assert_eq!(graph[1].0, "moon");
}

#[test]
fn simplex_sorts_and_faces() {
    let s = Simplex::new(vec![2, 0, 1]);
    assert_eq!(s.dimension(), 2);
    assert_eq!(
        (0..3).map(|i| s.vertex_at(i)).collect::<Vec<_>>(),
        vec![0, 1, 2]
    );
    let faces = s.faces();
    assert_eq!(faces.len(), 3);
    assert_eq!(
        (0..2).map(|i| faces[0].vertex_at(i)).collect::<Vec<_>>(),
        vec![1, 2]
    );
    assert_eq!(
        (0..2).map(|i| faces[1].vertex_at(i)).collect::<Vec<_>>(),
        vec![0, 2]
    );
    assert_eq!(
        (0..2).map(|i| faces[2].vertex_at(i)).collect::<Vec<_>>(),
        vec![0, 1]
    );
    // a vertex has no faces
    let v = Simplex::new(vec![7]);
    assert_eq!(v.faces().len(), 0);
}

#[test]
fn boundary_alternates_signs() {
    let s = Simplex::new(vec![0, 1, 2]);
    let boundary = s.boundary_operator();
    assert_eq!(boundary.len(), 3);
    assert_eq!(boundary[0].1, 1);
    assert_eq!(boundary[1].1, -1);
    assert_eq!(boundary[2].1, 1);
    let v = PersistentHomologyVectorizer::new(2, 4);
    let _ = v;
}

#[test]
fn field_arithmetic_reduces() {
    let p: i64 = 3221225473;
    let a = FieldElement::new(-5);
    assert_eq!(a.val as i64, p - 5);
    let b = FieldElement::new(p + 7);
    assert_eq!(b.val, 7);
    let x = FieldElement::new(3);
    assert_eq!(x.add(&x).val, 6);
    assert_eq!(x.mul(&x).val, 9);
    assert_eq!(x.sub(&FieldElement::new(5)).val as i64, p - 2);
    // the inverse really inverts
    let inv = x.inv();
    assert_eq!(x.mul(&inv).val, 1);
    assert_eq!(x.pow(4).val, 81);
}

#[test]
fn r1cs_accepts_the_cubic_witness() {
    // x^3 + x + 5 = 35 with x = 3: assignment [1, x, out, x^2, x^3]
    let fe = |v: i64| FieldElement::new(v);
    let x = fe(3);
    let sym_1 = x.mul(&x);
    let y = sym_1.mul(&x);
    let out = y.add(&x).add(&fe(5));
    let assignment = vec![fe(1), x, out, sym_1, y];
    let mut r1cs = R1CS::new(5);
    r1cs.add_constraint(
        vec![fe(0), fe(1), fe(0), fe(0), fe(0)],
        vec![fe(0), fe(1), fe(0), fe(0), fe(0)],
        vec![fe(0), fe(0), fe(0), fe(1), fe(0)],
    );
    r1cs.add_constraint(
        vec![fe(0), fe(0), fe(0), fe(1), fe(0)],
        vec![fe(0), fe(1), fe(0), fe(0), fe(0)],
        vec![fe(0), fe(0), fe(0), fe(0), fe(1)],
    );
    r1cs.add_constraint(
        vec![fe(0), fe(1), fe(0), fe(0), fe(1)],
        vec![fe(1), fe(0), fe(0), fe(0), fe(0)],
        vec![fe(-5), fe(0), fe(1), fe(0), fe(0)],
    );
    assert!(r1cs.verify(&assignment));
    // a wrong witness is rejected
    let bad = vec![fe(1), fe(4), out, sym_1, y];
    assert!(!r1cs.verify(&bad));
}

#[test]
fn dot_product_and_polynomial() {
    let fe = |v: i64| FieldElement::new(v);
    let d = dot_product(&vec![fe(2), fe(3)], &vec![fe(10), fe(100)]);
    assert_eq!(d.val, 320);
    // coefficients past the variables contribute nothing
    let d2 = dot_product(&vec![fe(2), fe(3), fe(9)], &vec![fe(10), fe(100)]);
    assert_eq!(d2.val, 320);
    let poly = Polynomial { coeffs: vec![fe(5), fe(1), fe(1)] };
    // 5 + x + x^2 at x = 3 is 17
    assert_eq!(poly.evaluate(fe(3)).val, 17);
    let stub = interpolate(&vec![(fe(0), fe(1))]);
    assert_eq!(stub.coeffs.len(), 1);
    assert_eq!(stub.coeffs[0].val, 1);
}

#[test]
fn stack_machine_evaluates_programs() {
    let p = Program::new(vec![Op::Var(0), Op::Var(1), Op::Plus]);
    assert_eq!(p.evaluate(&vec![2, 3]), Some(5));
    let p2 = Program::new(vec![Op::Const(7), Op::Var(0), Op::Mult, Op::Const(1), Op::Minus]);
    assert_eq!(p2.evaluate(&vec![6]), Some(41));
    // underflow and bad variable index fail
    assert_eq!(Program::new(vec![Op::Plus]).evaluate(&vec![1]), None);
    assert_eq!(Program::new(vec![Op::Var(2)]).evaluate(&vec![1]), None);
    assert_eq!(Program::new(vec![]).evaluate(&vec![]), None);
    // wrapping arithmetic
    let w = Program::new(vec![Op::Const(i32::MAX), Op::Const(1), Op::Plus]);
    assert_eq!(w.evaluate(&vec![]), Some(i32::MIN));
}

#[test]
fn fredkin_swaps_on_control() {
    let t = WireBit(true);
    let f = WireBit(false);
    assert_eq!(fredkin_gate(f, t, f), (f, t, f));
    assert_eq!(fredkin_gate(t, t, f), (t, f, t));
    assert_eq!(reversible_and(t, f), f);
    assert_eq!(reversible_and(t, t), t);
    assert_eq!(reversible_and(f, f), f);
    assert_eq!(reversible_and(f, t), f);
}

#[test]
fn bb84_keys_always_agree() {
    let protocol = BB84::new(64);
    let (alice_key, bob_key, ok) = protocol.simulate();
    assert!(ok);
    assert_eq!(alice_key, bob_key);
}

#[test]
fn bb84_measure_and_sift_are_deterministic() {
    let protocol = BB84::new(4);
    let alice_bits = vec![Bit::One, Bit::Zero, Bit::One, Bit::Zero];
    let alice_bases = vec![
        Basis::Rectilinear,
        Basis::Diagonal,
        Basis::Rectilinear,
        Basis::Diagonal,
    ];
    let bob_bases = vec![
        Basis::Rectilinear,
        Basis::Rectilinear,
        Basis::Diagonal,
        Basis::Diagonal,
    ];
    let noise = vec![Bit::Zero, Bit::One, Bit::Zero, Bit::One];
    let bob_bits = protocol.measure(&alice_bits, &alice_bases, &bob_bases, &noise);
    // matching bases read the sender's bit; the rest read the collapse bit
    assert_eq!(bob_bits, vec![Bit::One, Bit::One, Bit::Zero, Bit::Zero]);
    let alice_key = protocol.sift(&alice_bits, &alice_bases, &bob_bases);
    let bob_key = protocol.sift(&bob_bits, &alice_bases, &bob_bases);
    assert_eq!(alice_key, vec![Bit::One, Bit::Zero]);
    assert_eq!(alice_key, bob_key);
}
