//! The Tip5 permutation and the hash functions built on it.
use crate::b_field_element::{
    add_raw, bytes_of_word, lemma_pow_mul_mod, lemma_value_add, lemma_value_congruent, lemma_value_mul,
    mont_reduce, mul_raw, radix, radix_inv, value_of, word_of_bytes, BFieldElement, EPSILON, P, R2,
};
use crate::digest::Digest;
use crate::sponge::{pad, words_of, Domain, Sponge, RATE};
use vstd::arithmetic::div_mod::*;
use vstd::arithmetic::mul::*;
use vstd::arithmetic::power::*;
use vstd::prelude::*;

verus! {

/// Number of elements in the permutation's state.
pub const STATE_SIZE: usize = 16;

/// Number of state elements that go through the byte-wise S-box.
pub const NUM_SPLIT_AND_LOOKUP: usize = 4;

/// Number of rounds of the permutation.
pub const NUM_ROUNDS: usize = 7;

/// The byte substitution of the S-box, a permutation of `0..256`.
pub const LOOKUP_TABLE: [u8; 256] = [
    0, 7, 26, 63, 124, 215, 85, 254, 214, 228, 45, 185, 140, 173, 33, 240, 29, 177, 176, 32, 8,
    110, 87, 202, 204, 99, 150, 106, 230, 14, 235, 128, 213, 239, 212, 138, 23, 130, 208, 6, 44,
    71, 93, 116, 146, 189, 251, 81, 199, 97, 38, 28, 73, 179, 95, 84, 152, 48, 35, 119, 49, 88,
    242, 3, 148, 169, 72, 120, 62, 161, 166, 83, 175, 191, 137, 19, 100, 129, 112, 55, 221, 102,
    218, 61, 151, 237, 68, 164, 17, 147, 46, 234, 203, 216, 22, 141, 65, 57, 123, 12, 244, 54, 219,
    231, 96, 77, 180, 154, 5, 253, 133, 165, 98, 195, 205, 134, 245, 30, 9, 188, 59, 142, 186, 197,
    181, 144, 92, 31, 224, 163, 111, 74, 58, 69, 113, 196, 67, 246, 225, 10, 121, 50, 60, 157, 90,
    122, 2, 250, 101, 75, 178, 159, 24, 36, 201, 11, 243, 132, 198, 190, 114, 233, 39, 52, 21, 209,
    108, 238, 91, 187, 18, 104, 194, 37, 153, 34, 200, 143, 126, 155, 236, 118, 64, 80, 172, 89,
    94, 193, 135, 183, 86, 107, 252, 13, 167, 206, 136, 220, 207, 103, 171, 160, 76, 182, 227, 217,
    158, 56, 174, 4, 66, 109, 139, 162, 184, 211, 249, 47, 125, 232, 117, 43, 16, 42, 127, 20, 241,
    25, 149, 105, 156, 51, 53, 168, 145, 247, 223, 79, 78, 226, 15, 222, 82, 115, 70, 210, 27, 41,
    1, 170, 40, 131, 192, 229, 248, 255,
];

/// The round constants, sixteen per round, as canonical field values.
pub const ROUND_CONSTANTS: [u64; 112] = [
    // round 0
    1332676891236936200,
    16607633045354064669,
    12746538998793080786,
    15240351333789289931,
    10333439796058208418,
    986873372968378050,
    153505017314310505,
    703086547770691416,
    8522628845961587962,
    1727254290898686320,
    199492491401196126,
    2969174933639985366,
    1607536590362293391,
    16971515075282501568,
    15401316942841283351,
    14178982151025681389,
    // round 1
    2916963588744282587,
    5474267501391258599,
    5350367839445462659,
    7436373192934779388,
    12563531800071493891,
    12265318129758141428,
    6524649031155262053,
    1388069597090660214,
    3049665785814990091,
    5225141380721656276,
    10399487208361035835,
    6576713996114457203,
    12913805829885867278,
    10299910245954679423,
    12980779960345402499,
    593670858850716490,
    // round 2
    12184128243723146967,
    1315341360419235257,
    9107195871057030023,
    4354141752578294067,
    8824457881527486794,
    14811586928506712910,
    7768837314956434138,
    2807636171572954860,
    9487703495117094125,
    13452575580428891895,
    14689488045617615844,
    16144091782672017853,
    15471922440568867245,
    17295382518415944107,
    15054306047726632486,
    5708955503115886019,
    // round 3
    9596017237020520842,
    16520851172964236909,
    8513472793890943175,
    8503326067026609602,
    9402483918549940854,
    8614816312698982446,
    7744830563717871780,
    14419404818700162041,
    8090742384565069824,
    15547662568163517559,
    17314710073626307254,
    10008393716631058961,
    14480243402290327574,
    13569194973291808551,
    10573516815088946209,
    15120483436559336219,
    // round 4
    3515151310595301563,
    1095382462248757907,
    5323307938514209350,
    14204542692543834582,
    12448773944668684656,
    13967843398310696452,
    14838288394107326806,
    13718313940616442191,
    15032565440414177483,
    13769903572116157488,
    17074377440395071208,
    16931086385239297738,
    8723550055169003617,
    590842605971518043,
    16642348030861036090,
    10708719298241282592,
    // round 5
    12766914315707517909,
    11780889552403245587,
    113183285481780712,
    9019899125655375514,
    3300264967390964820,
    12802381622653377935,
    891063765000023873,
    15939045541699412539,
    3240223189948727743,
    4087221142360949772,
    10980466041788253952,
    18199914337033135244,
    7168108392363190150,
    16860278046098150740,
    13088202265571714855,
    4712275036097525581,
    // round 6
    16338034078141228133,
    1455012125527134274,
    5024057780895012002,
    9289161311673217186,
    9401110072402537104,
    11919498251456187748,
    4173156070774045271,
    15647643457869530627,
    15642078237964257476,
    1405048341078324037,
    3059193199283698832,
    1605012781983592984,
    7134876918849821827,
    5796994175286958720,
    7251651436095127661,
    4565856221886323991,
];

/// The defining first column of the circulant MDS matrix, from the SHA-256 digest of the ASCII
/// string "Tip5" cut into 16-bit chunks.
pub const MDS_MATRIX_FIRST_COLUMN: [i64; 16] = [
    61402, 1108, 28750, 33823, 7454, 43244, 53865, 12034, 56951, 27521, 41351, 40901, 12021, 59689,
    26798, 17845,
];

/// The S-box of one word: each of its eight bytes replaced through `LOOKUP_TABLE`.
pub open spec fn sbox_word(w: u64) -> u64 {
    word_of_bytes(bytes_of_word(w).map_values(|b: u8| LOOKUP_TABLE@[b as int])) as u64
}

/// The word of the seventh power, as `w^2`, `w^4` and `w * (w^2 * w^4)`.
pub open spec fn pow7_raw(w: u64) -> u64 {
    let sq = mul_raw(w, w);
    let qu = mul_raw(sq, sq);
    mul_raw(w, mul_raw(sq, qu))
}

/// The nonlinear layer: the byte-wise S-box on the first words, the seventh power on the rest.
pub open spec fn sbox_layer_spec(s: Seq<u64>) -> Seq<u64> {
    Seq::new(
        STATE_SIZE as nat,
        |i: int| if i < NUM_SPLIT_AND_LOOKUP { sbox_word(s[i]) } else { pow7_raw(s[i]) },
    )
}

/// Entry `(r, c)` of the circulant MDS matrix is `mds_entry((r - c) mod 16)`.
pub open spec fn mds_entry(k: int) -> int {
    MDS_MATRIX_FIRST_COLUMN@[k] as int
}

/// `sum_{c < n} M[r][c] * s[c]`, over the integers.
pub open spec fn mds_row_sum(s: Seq<u64>, r: int, n: nat) -> int
    decreases n,
{
    if n == 0 {
        0
    } else {
        mds_row_sum(s, r, (n - 1) as nat) + mds_entry((r - (n - 1)) % 16) * s[n - 1]
    }
}

/// A word congruent to `x` modulo p, for `x < 2^84`: the high part `h` of `x = h * 2^64 + l`
/// folds in as `h * (2^32 - 1)`, and a carry out of 64 bits folds in once more.
pub open spec fn fold_wide(x: int) -> u64 {
    let t = x % radix() + (x / radix()) * EPSILON;
    if t >= radix() {
        (t - radix() + EPSILON) as u64
    } else {
        t as u64
    }
}

/// The linear layer: the circulant matrix times the state, each row folded to one word.
pub open spec fn mds_spec(s: Seq<u64>) -> Seq<u64> {
    Seq::new(STATE_SIZE as nat, |r: int| fold_wide(mds_row_sum(s, r, STATE_SIZE as nat)))
}

/// The Montgomery word of round constant `k`.
pub open spec fn round_constant_word(k: int) -> u64 {
    mont_reduce(ROUND_CONSTANTS@[k] * R2) as u64
}

/// Round `i`: the nonlinear layer, the linear layer, then the round's constants added.
pub open spec fn round_spec(s: Seq<u64>, i: int) -> Seq<u64> {
    let m = mds_spec(sbox_layer_spec(s));
    Seq::new(
        STATE_SIZE as nat,
        |j: int| add_raw(m[j], round_constant_word(i * STATE_SIZE + j)),
    )
}

/// The state after the first `n` rounds.
pub open spec fn rounds_spec(s: Seq<u64>, n: nat) -> Seq<u64>
    decreases n,
{
    if n == 0 {
        s
    } else {
        round_spec(rounds_spec(s, (n - 1) as nat), n - 1)
    }
}

/// The whole permutation.
pub open spec fn permutation_spec(s: Seq<u64>) -> Seq<u64> {
    rounds_spec(s, NUM_ROUNDS as nat)
}

/// The fresh state of a domain: zero, but for a capacity of ones in the fixed-length domain.
pub open spec fn initial_words(domain: Domain) -> Seq<u64> {
    Seq::new(
        STATE_SIZE as nat,
        |i: int|
            if i >= RATE && domain == Domain::FixedLength {
                EPSILON
            } else {
                0u64
            },
    )
}

/// The first five words after permuting the fixed-length state whose rate part is `input`.
pub open spec fn hash_10_spec(input: Seq<u64>) -> Seq<u64> {
    permutation_spec(input + initial_words(Domain::FixedLength).skip(RATE as int)).take(
        Digest::LEN as int,
    )
}

/// The first five words after absorbing the padded `input` into a fresh variable-length state.
pub open spec fn hash_varlen_spec(input: Seq<u64>) -> Seq<u64> {
    absorb_all(initial_words(Domain::VariableLength), pad(input)).take(Digest::LEN as int)
}

/// The state after absorbing `padded`, `RATE` words at a time, into the state `w`.
pub open spec fn absorb_all(w: Seq<u64>, padded: Seq<u64>) -> Seq<u64>
    decreases padded.len(),
{
    if padded.len() < RATE {
        w
    } else {
        absorb_all(
            permutation_spec(padded.take(RATE as int) + w.skip(RATE as int)),
            padded.skip(RATE as int),
        )
    }
}

/// The Tip5 permutation's state, 16 elements: a rate part of 10, then a capacity part of 6.
pub struct Tip5 {
    pub state: [BFieldElement; 16],
}

impl Tip5 {
    /// A fresh state for `domain`.
    pub fn new(domain: Domain) -> (r: Self)
        ensures
            words_of(r.state@) == initial_words(domain),
    {
        let mut state = [BFieldElement::zero(); 16];
        match domain {
            Domain::VariableLength => {},
            Domain::FixedLength => {
                let mut i = RATE;
                while i < STATE_SIZE
                    invariant
                        RATE <= i <= STATE_SIZE,
                        forall|j: int| 0 <= j < RATE ==> state[j].raw() == 0,
                        forall|j: int| RATE <= j < i ==> state[j].raw() == EPSILON,
                        forall|j: int| i <= j < STATE_SIZE ==> state[j].raw() == 0,
                    decreases STATE_SIZE - i,
                {
                    state[i] = BFieldElement::one();
                    i += 1;
                }
            },
        }
        assert(words_of(state@) =~= initial_words(domain));
        Self { state }
    }

    /// `((x + 1)^3 - 1) mod 257`, the map that `LOOKUP_TABLE` tabulates on `0..256`.
    pub fn offset_fermat_cube_map(x: u16) -> (r: u16)
        requires
            x < 0xffff,
        ensures
            r as int == ((x + 1) * (x + 1) * (x + 1) + 256) % 257,
    {
        let xx = (x + 1) as u64;
        proof {
            lemma_mul_upper_bound(xx as int, 0x1_0000, xx as int, 0x1_0000);
            lemma_mul_upper_bound(xx * xx, 0x1_0000_0000, xx as int, 0x1_0000);
        }
        let xxx = xx * xx * xx;
        ((xxx + 256) % 257) as u16
    }
}

impl Tip5 {
    /// Replaces each byte of the element's Montgomery word through `LOOKUP_TABLE`.
    fn split_and_lookup(element: &mut BFieldElement)
        ensures
            final(element).raw() == sbox_word(old(element).raw()),
    {
        let mut bytes = element.raw_bytes();
        let ghost orig = bytes@;
        let mut i: usize = 0;
        while i < 8
            invariant
                i <= 8,
                orig == bytes_of_word(old(element).raw()),
                forall|j: int| 0 <= j < i ==> bytes[j] == LOOKUP_TABLE@[orig[j] as int],
                forall|j: int| i <= j < 8 ==> bytes[j] == orig[j],
            decreases 8 - i,
        {
            bytes[i] = LOOKUP_TABLE[bytes[i] as usize];
            i += 1;
        }
        assert(bytes@ =~= orig.map_values(|b: u8| LOOKUP_TABLE@[b as int]));
        *element = BFieldElement::from_raw_bytes(&bytes);
    }

    /// Multiplies the state by the circulant MDS matrix, on the Montgomery words.
    fn mds_generated(&mut self)
        ensures
            words_of(final(self).state@) == mds_spec(words_of(old(self).state@)),
    {
        let ghost s = words_of(self.state@);
        let mut result = self.state;
        let mut r: usize = 0;
        while r < STATE_SIZE
            invariant
                r <= STATE_SIZE,
                s == words_of(self.state@),
                forall|j: int| 0 <= j < r ==> result[j].raw() == mds_spec(s)[j],
            decreases STATE_SIZE - r,
        {
            let mut sum: u128 = 0;
            let mut c: usize = 0;
            while c < STATE_SIZE
                invariant
                    c <= STATE_SIZE,
                    r < STATE_SIZE,
                    s == words_of(self.state@),
                    sum as int == mds_row_sum(s, r as int, c as nat),
                    sum <= c * 0x1_0000 * radix(),
                decreases STATE_SIZE - c,
            {
                let k = (r + STATE_SIZE - c) % STATE_SIZE;
                assert(k == (r - c) % 16);
                let m = MDS_MATRIX_FIRST_COLUMN[k] as u128;
                let w = self.state[c].raw_u64() as u128;
                proof {
                    lemma_mul_upper_bound(m as int, 0x1_0000, w as int, radix());
                }
                sum = sum + m * w;
                c += 1;
            }
            let s_hi = (sum / 0x1_0000_0000_0000_0000) as u64;
            let s_lo = (sum % 0x1_0000_0000_0000_0000) as u64;
            let res = s_lo.wrapping_add(s_hi * EPSILON);
            let over = res < s_lo;
            result[r] = BFieldElement::from_raw_u64(if over { res + EPSILON } else { res });
            r += 1;
        }
        assert(words_of(result@) =~= mds_spec(s));
        self.state = result;
    }

    /// The nonlinear layer.
    fn sbox_layer(&mut self)
        ensures
            words_of(final(self).state@) == sbox_layer_spec(words_of(old(self).state@)),
    {
        let ghost s = words_of(self.state@);
        let mut state = self.state;
        let mut i: usize = 0;
        while i < NUM_SPLIT_AND_LOOKUP
            invariant
                i <= NUM_SPLIT_AND_LOOKUP,
                forall|j: int| 0 <= j < i ==> state[j].raw() == sbox_layer_spec(s)[j],
                forall|j: int| i <= j < STATE_SIZE ==> state[j].raw() == s[j],
            decreases NUM_SPLIT_AND_LOOKUP - i,
        {
            let mut e = state[i];
            Self::split_and_lookup(&mut e);
            state[i] = e;
            i += 1;
        }
        while i < STATE_SIZE
            invariant
                NUM_SPLIT_AND_LOOKUP <= i <= STATE_SIZE,
                forall|j: int| 0 <= j < i ==> state[j].raw() == sbox_layer_spec(s)[j],
                forall|j: int| i <= j < STATE_SIZE ==> state[j].raw() == s[j],
            decreases STATE_SIZE - i,
        {
            let sq = state[i] * state[i];
            let qu = sq * sq;
            state[i] = state[i] * (sq * qu);
            i += 1;
        }
        assert(words_of(state@) =~= sbox_layer_spec(s));
        self.state = state;
    }

    /// Round `round_index` of the permutation.
    fn round(&mut self, round_index: usize)
        requires
            round_index < NUM_ROUNDS,
        ensures
            words_of(final(self).state@) == round_spec(words_of(old(self).state@), round_index as int),
    {
        let ghost s = words_of(self.state@);
        self.sbox_layer();
        self.mds_generated();
        let ghost m = words_of(self.state@);
        let mut state = self.state;
        let mut i: usize = 0;
        while i < STATE_SIZE
            invariant
                i <= STATE_SIZE,
                round_index < NUM_ROUNDS,
                m == mds_spec(sbox_layer_spec(s)),
                forall|j: int| 0 <= j < i ==> state[j].raw() == round_spec(s, round_index as int)[j],
                forall|j: int| i <= j < STATE_SIZE ==> state[j].raw() == m[j],
            decreases STATE_SIZE - i,
        {
            let constant = BFieldElement::new(ROUND_CONSTANTS[round_index * STATE_SIZE + i]);
            state[i] = state[i] + constant;
            i += 1;
        }
        assert(words_of(state@) =~= round_spec(s, round_index as int));
        self.state = state;
    }

    /// Applies all rounds.
    fn permutation(&mut self)
        ensures
            words_of(final(self).state@) == permutation_spec(words_of(old(self).state@)),
    {
        let ghost s = words_of(self.state@);
        let mut i: usize = 0;
        while i < NUM_ROUNDS
            invariant
                i <= NUM_ROUNDS,
                words_of(self.state@) == rounds_spec(s, i as nat),
            decreases NUM_ROUNDS - i,
        {
            self.round(i);
            i += 1;
        }
    }

    /// Applies the permutation, like `permutation`, and returns the state before the first round
    /// and after each round.
    pub fn trace(&mut self) -> (r: [[BFieldElement; 16]; 8])
        ensures
            words_of(final(self).state@) == permutation_spec(words_of(old(self).state@)),
            forall|k: int|
                0 <= k <= NUM_ROUNDS ==> words_of(#[trigger] r[k]@) == rounds_spec(
                    words_of(old(self).state@),
                    k as nat,
                ),
    {
        let ghost s = words_of(self.state@);
        let mut trace = [[BFieldElement::zero(); 16]; 8];
        trace[0] = self.state;
        let mut i: usize = 0;
        while i < NUM_ROUNDS
            invariant
                i <= NUM_ROUNDS,
                words_of(self.state@) == rounds_spec(s, i as nat),
                forall|k: int| 0 <= k <= i ==> words_of(#[trigger] trace[k]@) == rounds_spec(s, k as nat),
            decreases NUM_ROUNDS - i,
        {
            self.round(i);
            trace[1 + i] = self.state;
            i += 1;
        }
        trace
    }

    /// Hashes exactly ten elements: no padding, fixed-length domain, one permutation.
    pub fn hash_10(input: &[BFieldElement; 10]) -> (r: [BFieldElement; 5])
        ensures
            words_of(r@) == hash_10_spec(words_of(input@)),
    {
        let mut sponge = Self::new(Domain::FixedLength);
        let mut i: usize = 0;
        while i < RATE
            invariant
                i <= RATE,
                forall|j: int| 0 <= j < i ==> sponge.state[j] == input[j],
                forall|j: int| i <= j < STATE_SIZE ==> sponge.state[j].raw() == initial_words(Domain::FixedLength)[j],
            decreases RATE - i,
        {
            sponge.state[i] = input[i];
            i += 1;
        }
        assert(words_of(sponge.state@) =~= words_of(input@) + initial_words(Domain::FixedLength).skip(RATE as int));
        sponge.permutation();
        let r = Self::digest_part(&sponge.state);
        r
    }

    /// Hashes two digests: `hash_10` of their ten elements, left first.
    pub fn hash_pair(left: Digest, right: Digest) -> (r: Digest)
        ensures
            words_of(r.0@) == hash_10_spec(words_of(left.0@) + words_of(right.0@)),
    {
        let mut sponge = Self::new(Domain::FixedLength);
        let lv = left.values();
        let rv = right.values();
        let mut i: usize = 0;
        while i < Digest::LEN
            invariant
                i <= Digest::LEN,
                forall|j: int| 0 <= j < i ==> sponge.state[j] == lv[j],
                forall|j: int| 0 <= j < i ==> sponge.state[Digest::LEN + j] == rv[j],
                forall|j: int| RATE <= j < STATE_SIZE ==> sponge.state[j].raw() == initial_words(Domain::FixedLength)[j],
            decreases Digest::LEN - i,
        {
            sponge.state[i] = lv[i];
            sponge.state[Digest::LEN + i] = rv[i];
            i += 1;
        }
        assert(words_of(sponge.state@) =~= (words_of(left.0@) + words_of(right.0@)) + initial_words(Domain::FixedLength).skip(RATE as int));
        sponge.permutation();
        Digest::new(Self::digest_part(&sponge.state))
    }

    /// Hashes any number of elements: variable-length domain, padded and absorbed block by block.
    pub fn hash_varlen(input: &[BFieldElement]) -> (r: Digest)
        ensures
            words_of(r.0@) == hash_varlen_spec(words_of(input@)),
    {
        let mut sponge = Self::init();
        sponge.pad_and_absorb_all(input);
        Digest::new(Self::digest_part(&sponge.state))
    }

    /// The first five elements of a state.
    fn digest_part(state: &[BFieldElement; 16]) -> (r: [BFieldElement; 5])
        ensures
            r@ == state@.take(Digest::LEN as int),
    {
        let r = [state[0], state[1], state[2], state[3], state[4]];
        assert(r@ =~= state@.take(Digest::LEN as int));
        r
    }
}

impl Sponge for Tip5 {
    const RATE: usize = RATE;

    open spec fn words(&self) -> Seq<u64> {
        words_of(self.state@)
    }

    open spec fn absorb_spec(w: Seq<u64>, block: Seq<u64>) -> Seq<u64> {
        permutation_spec(block + w.skip(RATE as int))
    }

    open spec fn permute_spec(w: Seq<u64>) -> Seq<u64> {
        permutation_spec(w)
    }

    open spec fn init_words() -> Seq<u64> {
        initial_words(Domain::VariableLength)
    }

    fn init() -> (r: Self) {
        Self::new(Domain::VariableLength)
    }

    fn absorb(&mut self, input: [BFieldElement; RATE]) {
        let ghost w = words_of(self.state@);
        let mut i: usize = 0;
        while i < RATE
            invariant
                i <= RATE,
                forall|j: int| 0 <= j < i ==> self.state[j] == input[j],
                forall|j: int| i <= j < STATE_SIZE ==> self.state[j].raw() == w[j],
            decreases RATE - i,
        {
            self.state[i] = input[i];
            i += 1;
        }
        assert(words_of(self.state@) =~= words_of(input@) + w.skip(RATE as int));
        self.permutation();
    }

    open spec fn absorb_padded(w: Seq<u64>, padded: Seq<u64>) -> Seq<u64> {
        absorb_all(w, padded)
    }

    fn pad_and_absorb_all(&mut self, input: &[BFieldElement]) {
        let ghost w0 = words_of(self.state@);
        let ghost padded = pad(words_of(input@));
        let n = input.len();
        // the padded input is one block longer than the whole blocks of `input`
        let num_blocks = n / RATE + 1;
        let mut blk: usize = 0;
        proof {
            assert(padded.skip(0) =~= padded);
        }
        while blk < num_blocks
            invariant
                blk <= num_blocks,
                num_blocks == n / RATE + 1,
                n == input@.len(),
                padded == pad(words_of(input@)),
                padded.len() == num_blocks * RATE,
                absorb_all(w0, padded) == absorb_all(self.words(), padded.skip(blk * RATE)),
            decreases num_blocks - blk,
        {
            let start = blk * RATE;
            let mut block = [BFieldElement::zero(); RATE];
            let mut k: usize = 0;
            while k < RATE
                invariant
                    k <= RATE,
                    start == blk * RATE,
                    blk < num_blocks,
                    start <= n,
                    n == input@.len(),
                    padded == pad(words_of(input@)),
                    padded.len() == num_blocks * RATE,
                    forall|j: int| 0 <= j < k ==> block[j].raw() == padded[start + j],
                decreases RATE - k,
            {
                if k < n - start {
                    block[k] = input[start + k];
                } else if k == n - start {
                    block[k] = BFieldElement::one();
                } else {
                    block[k] = BFieldElement::zero();
                }
                k += 1;
            }
            proof {
                assert(words_of(block@) =~= padded.skip(start as int).take(RATE as int));
                assert(padded.skip(start as int).skip(RATE as int) =~= padded.skip(start + RATE));
            }
            self.absorb(block);
            blk += 1;
        }
        proof {
            assert(padded.skip(blk * RATE).len() == 0);
        }
    }

    fn squeeze(&mut self) -> (r: [BFieldElement; RATE]) {
        let mut produce = [BFieldElement::zero(); RATE];
        let mut i: usize = 0;
        while i < RATE
            invariant
                i <= RATE,
                forall|j: int| 0 <= j < i ==> produce[j] == self.state[j],
            decreases RATE - i,
        {
            produce[i] = self.state[i];
            i += 1;
        }
        assert(words_of(produce@) =~= words_of(self.state@).take(RATE as int));
        self.permutation();
        produce
    }
}

/// On field values, `pow7_raw` is the seventh power.
pub proof fn lemma_pow7_value(w: u64)
    ensures
        value_of(pow7_raw(w) as int) == pow(value_of(w as int), 7) % (P as int),
{
    let v = value_of(w as int);
    let sq = mul_raw(w, w);
    let qu = mul_raw(sq, sq);
    let sq_qu = mul_raw(sq, qu);
    lemma_pow1(v);
    lemma_small_mod(v as nat, P as nat);
    lemma_value_mul(w, w);
    lemma_pow_mul_mod(v, 1, 1);
    lemma_value_mul(sq, sq);
    lemma_pow_mul_mod(v, 2, 2);
    lemma_value_mul(sq, qu);
    lemma_pow_mul_mod(v, 2, 4);
    lemma_value_mul(w, sq_qu);
    lemma_pow_mul_mod(v, 1, 6);
}

/// `sum_{c < n} M[r][c] * value(s[c])`, over the integers.
pub open spec fn mds_row_value(s: Seq<u64>, r: int, n: nat) -> int
    decreases n,
{
    if n == 0 {
        0
    } else {
        mds_row_value(s, r, (n - 1) as nat) + mds_entry((r - (n - 1)) % 16) * value_of(
            s[n - 1] as int,
        )
    }
}

proof fn lemma_mds_row(s: Seq<u64>, r: int, n: nat)
    requires
        n <= s.len(),
    ensures
        0 <= mds_row_sum(s, r, n) <= n * 0x1_0000 * radix(),
        value_of(mds_row_sum(s, r, n)) == mds_row_value(s, r, n) % (P as int),
    decreases n,
{
    if n > 0 {
        let k = (r - (n - 1)) % 16;
        let m = mds_entry(k);
        let w = s[n - 1] as int;
        let prev = mds_row_sum(s, r, (n - 1) as nat);
        lemma_mds_row(s, r, (n - 1) as nat);
        assert(0 <= m <= 0x1_0000);
        lemma_mul_upper_bound(m, 0x1_0000, w, radix());
        lemma_mul_nonnegative(m, w);
        lemma_value_add(prev, m * w);
        // value(m * w) == m * value(w) (mod p)
        lemma_mul_is_associative(m, w, radix_inv());
        lemma_mul_mod_noop_right(m, w * radix_inv(), P as int);
        lemma_add_mod_noop(
            mds_row_value(s, r, (n - 1) as nat),
            m * value_of(w),
            P as int,
        );
        lemma_mod_twice(mds_row_value(s, r, (n - 1) as nat), P as int);
        lemma_mul_mod_noop_right(m, value_of(w), P as int);
        lemma_mod_twice(m * w * radix_inv(), P as int);
    }
}

/// A word that `fold_wide` yields is congruent to its argument modulo p.
proof fn lemma_fold_wide(x: int)
    requires
        0 <= x <= 16 * 0x1_0000 * radix(),
    ensures
        (fold_wide(x) as int) % (P as int) == x % (P as int),
{
    let hi = x / radix();
    let lo = x % radix();
    lemma_fundamental_div_mod(x, radix());
    let t = lo + hi * EPSILON;
    assert(x == hi * P + t);
    if t >= radix() {
        assert(fold_wide(x) as int == t - P);
        lemma_mod_multiples_vanish(hi + 1, fold_wide(x) as int, P as int);
    } else {
        lemma_mod_multiples_vanish(hi, t, P as int);
    }
}

/// On field values, the linear layer is the circulant matrix times the state:
/// `value(new[r]) == sum_c M[r][c] * value(old[c]) mod p`.
pub proof fn lemma_mds_is_matrix_product(s: Seq<u64>)
    requires
        s.len() == STATE_SIZE,
    ensures
        forall|r: int|
            0 <= r < STATE_SIZE ==> value_of(#[trigger] mds_spec(s)[r] as int) == mds_row_value(
                s,
                r,
                STATE_SIZE as nat,
            ) % (P as int),
{
    assert forall|r: int| 0 <= r < STATE_SIZE implies value_of(
        #[trigger] mds_spec(s)[r] as int,
    ) == mds_row_value(s, r, STATE_SIZE as nat) % (P as int) by {
        let x = mds_row_sum(s, r, STATE_SIZE as nat);
        lemma_mds_row(s, r, STATE_SIZE as nat);
        lemma_fold_wide(x);
        lemma_value_congruent(fold_wide(x) as int, x);
    }
}

/// Whether no two entries of `LOOKUP_TABLE` are equal, so that it permutes `0..256`.
pub open spec fn lookup_table_is_bijective() -> bool {
    forall|i: int, j: int| 0 <= i < j < 256 ==> LOOKUP_TABLE@[i] != LOOKUP_TABLE@[j]
}

/// The lookup table is a bijection on `0..256`: its 256 entries, all bytes, are pairwise
/// distinct, so each byte value appears exactly once.
pub proof fn lemma_lookup_table_bijective()
    ensures
        lookup_table_is_bijective(),
{
}

/// Composition: hashing a pair of digests is `hash_10` of their ten elements, left first.
pub proof fn lemma_hash_pair_is_hash_10(left: Digest, right: Digest)
    ensures
        hash_10_spec(words_of(left.values_spec() + right.values_spec())) == hash_10_spec(
            words_of(left.0@) + words_of(right.0@),
        ),
{
    assert(words_of(left.values_spec() + right.values_spec()) =~= words_of(left.0@) + words_of(
        right.0@,
    ));
}

/// Determinism: each hash is a function of its input words alone, so equal inputs hash equally.
pub proof fn lemma_hash_deterministic(x: Seq<u64>, y: Seq<u64>)
    requires
        x == y,
    ensures
        hash_10_spec(x) == hash_10_spec(y),
        hash_varlen_spec(x) == hash_varlen_spec(y),
{
}

} // verus!
