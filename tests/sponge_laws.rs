use tip5::tip5::{LOOKUP_TABLE, NUM_ROUNDS};
use tip5::{BFieldElement, Digest, Domain, Sponge, Tip5};

fn elems(vals: &[u64]) -> Vec<BFieldElement> {
    vals.iter().map(|&v| BFieldElement::new(v)).collect()
}

fn digest_of(vals: [u64; 5]) -> Digest {
    Digest::new(vals.map(BFieldElement::new))
}

#[test]
fn lookup_table_is_a_bijection() {
    let mut seen = [false; 256];
    for &b in LOOKUP_TABLE.iter() {
        assert!(!seen[b as usize]);
        seen[b as usize] = true;
    }
}

#[test]
fn lookup_table_is_the_offset_cube_map() {
    for i in 0..256u16 {
        assert_eq!(LOOKUP_TABLE[i as usize] as u16, Tip5::offset_fermat_cube_map(i));
    }
    assert_eq!(Tip5::offset_fermat_cube_map(0), 0);
    assert_eq!(Tip5::offset_fermat_cube_map(1), 7);
    assert_eq!(Tip5::offset_fermat_cube_map(256), 256);
}

#[test]
fn hash_pair_is_hash_10_of_concatenation() {
    let a = digest_of([1, 2, 3, 4, 5]);
    let b = digest_of([6, 7, 8, 9, 10]);
    let mut both = [BFieldElement::zero(); 10];
    both[..5].copy_from_slice(&a.values());
    both[5..].copy_from_slice(&b.values());
    assert_eq!(Tip5::hash_pair(a, b).values(), Tip5::hash_10(&both));
    assert_ne!(Tip5::hash_pair(a, b), Tip5::hash_pair(b, a));
}

#[test]
fn hashes_are_deterministic() {
    let input = elems(&[3, 1, 4, 1, 5, 9, 2, 6, 5, 3, 5]);
    let first = Tip5::hash_varlen(&input);
    let _ = Tip5::hash_varlen(&elems(&[42]));
    assert_eq!(Tip5::hash_varlen(&input), first);
    let ten: [BFieldElement; 10] = input[..10].try_into().unwrap();
    assert_eq!(Tip5::hash_10(&ten), Tip5::hash_10(&ten));
}

#[test]
fn fresh_states_by_domain() {
    let var = Tip5::new(Domain::VariableLength);
    assert!(var.state.iter().all(|e| e.is_zero()));
    let fixed = Tip5::new(Domain::FixedLength);
    assert!(fixed.state[..10].iter().all(|e| e.is_zero()));
    assert!(fixed.state[10..].iter().all(|e| e.is_one()));
    assert!(Tip5::init().state.iter().all(|e| e.is_zero()));
}

#[test]
fn padding_absorbs_ceil_of_length_plus_one_blocks() {
    // 9 elements pad to one block, 10 elements to two
    for n in [0usize, 1, 9, 10, 11, 19, 20] {
        let input: Vec<BFieldElement> = (0..n as u64).map(BFieldElement::new).collect();
        let mut padded = input.clone();
        padded.push(BFieldElement::one());
        while padded.len() % 10 != 0 {
            padded.push(BFieldElement::zero());
        }
        assert_eq!(padded.len() / 10, (n + 1 + 9) / 10);
        let mut sponge = Tip5::init();
        for block in padded.chunks(10) {
            sponge.absorb(block.try_into().unwrap());
        }
        let expected: [BFieldElement; 5] = sponge.state[..5].try_into().unwrap();
        assert_eq!(Tip5::hash_varlen(&input).values(), expected);

        let mut streamed = Tip5::init();
        streamed.pad_and_absorb_all(&input);
        assert_eq!(streamed.state, sponge.state);
    }
}

#[test]
fn variable_and_fixed_domains_differ() {
    let nine = elems(&[1, 2, 3, 4, 5, 6, 7, 8, 9]);
    let mut padded = [BFieldElement::zero(); 10];
    padded[..9].copy_from_slice(&nine);
    padded[9] = BFieldElement::one();
    assert_ne!(Tip5::hash_varlen(&nine).values(), Tip5::hash_10(&padded));
}

#[test]
fn squeeze_reads_then_permutes() {
    let mut sponge = Tip5::init();
    sponge.absorb(elems(&[1, 2, 3, 4, 5, 6, 7, 8, 9, 10]).try_into().unwrap());
    let before = sponge.state;
    let out = sponge.squeeze();
    assert_eq!(out[..], before[..10]);
    let mut again = Tip5 { state: before };
    let trace = again.trace();
    assert_eq!(sponge.state, trace[NUM_ROUNDS]);
    let second = sponge.squeeze();
    assert_ne!(out, second);
}

#[test]
fn trace_records_every_round() {
    let mut sponge = Tip5::new(Domain::FixedLength);
    sponge.state[0] = BFieldElement::new(1);
    let start = sponge.state;
    let trace = sponge.trace();
    assert_eq!(trace.len(), 1 + NUM_ROUNDS);
    assert_eq!(trace[0], start);
    assert_eq!(trace[NUM_ROUNDS], sponge.state);
    for k in 1..=NUM_ROUNDS {
        assert_ne!(trace[k], trace[k - 1]);
    }
    let mut other = Tip5 { state: start };
    let mut block = [BFieldElement::zero(); 10];
    block.copy_from_slice(&start[..10]);
    other.absorb(block);
    assert_eq!(other.state, sponge.state);
}
