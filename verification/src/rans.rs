//! The normative entropy floor: a deterministic, order-0 byte rANS coder.
//!
//! | Quantity | Value |
//! |---|---|
//! | State width | 32 bits, unsigned |
//! | Alphabet | byte symbols `0..=255`, cumulative table in ascending order |
//! | Frequency scale | 14 bits, `MODEL_TOTAL = 16384` |
//! | Normalization lower bound | `STATE_L = 2^23` |
//! | Encoder renorm bound per symbol | `x_max = 2^17 · freq` |
//! | Initial state | `STATE_L`; the final 32-bit state is flushed raw |
//! | Renormalization | byte-wise, little-endian |
//! | Model serialization | 256 × `u16` LE frequencies (512 bytes) |
//! | Decode direction | symbols produced in reverse order (ANS is LIFO) |
//!
//! Encode step `C(s, x) = (x / freq) · 2^14 + x % freq + start`, with the
//! state renormalized before the step while `x ≥ x_max`. The decoder inverts
//! each step and renormalizes after each pop while `x < STATE_L`, reading
//! bytes forward (the encoder writes them backward; the payload stores them
//! reversed).
//!
//! [`encode_block`] chooses the rANS representation only when
//! `512 + encoded_bytes < raw_bytes`, and otherwise stores the payload
//! literally.

use vstd::arithmetic::div_mod::*;
use vstd::arithmetic::mul::*;
use vstd::prelude::*;

use crate::error::VoleError;

verus! {

/// Frequency scale bits.
pub const SCALE_BITS: u32 = 14;

/// Total frequency (`2^SCALE_BITS`).
pub const MODEL_TOTAL: u32 = 16384;

/// Lower bound of the rANS normalization interval.
pub const STATE_L: u32 = 8388608;

/// Serialized size of a model: 256 frequencies × u16.
pub const MODEL_SERIALIZED: usize = 512;

/// Kind byte for the literal payload container.
pub const KIND_RAW: u8 = 0;

/// Kind byte for the rANS payload container.
pub const KIND_RANS: u8 = 1;

/// Sum of the first `i` frequencies: the start of symbol `i`'s partition.
pub open spec fn psum(f: Seq<u16>, i: int) -> nat
    decreases i,
{
    if i <= 0 || i > f.len() {
        0
    } else {
        psum(f, i - 1) + f[i - 1] as nat
    }
}

/// Prefix sums never decrease.
pub proof fn lemma_psum_mono(f: Seq<u16>, i: int, j: int)
    requires
        0 <= i <= j <= f.len(),
    ensures
        psum(f, i) <= psum(f, j),
    decreases j - i,
{
    if i < j {
        lemma_psum_mono(f, i, j - 1);
    }
}

/// Prefix sums of `k` entries are bounded by `k · 65535`.
pub proof fn lemma_psum_bound(f: Seq<u16>, i: int)
    requires
        0 <= i <= f.len(),
    ensures
        psum(f, i) <= i * 65535,
    decreases i,
{
    if i > 0 {
        lemma_psum_bound(f, i - 1);
    }
}

/// An order-0 static byte model: 256 frequencies and their cumulative sums.
#[derive(Debug, PartialEq, Eq)]
pub struct ByteModel {
    freq: Vec<u16>,
    cum: Vec<u32>,
}

/// A frequency table is a valid model when it sums to [`MODEL_TOTAL`].
pub open spec fn model_valid(f: Seq<u16>) -> bool {
    f.len() == 256 && psum(f, 256) == MODEL_TOTAL
}

impl ByteModel {
    #[verifier::type_invariant]
    spec fn inv(self) -> bool {
        &&& self.freq@.len() == 256
        &&& self.cum@.len() == 257
        &&& forall|i: int| 0 <= i <= 256 ==> #[trigger] self.cum@[i] == psum(self.freq@, i)
    }

    /// The 256 frequencies (model).
    pub closed spec fn freqs(self) -> Seq<u16> {
        self.freq@
    }

    /// Start of symbol `s`'s partition (model).
    pub open spec fn cstart(self, s: int) -> nat {
        psum(self.freqs(), s)
    }

    /// Build a model from explicit frequencies (validity is checked
    /// separately by [`ByteModel::validate`]).
    pub fn from_freqs(freq: [u16; 256]) -> (r: Self)
        ensures
            r.freqs() == freq@,
    {
        let mut f: Vec<u16> = Vec::new();
        let mut i = 0usize;
        while i < 256
            invariant
                i <= 256,
                f@ == freq@.take(i as int),
            decreases 256 - i,
        {
            f.push(freq[i]);
            proof {
                assert(f@ =~= freq@.take(i + 1));
            }
            i = i + 1;
        }
        proof {
            assert(f@ =~= freq@);
        }
        Self::from_freq_vec(f)
    }

    /// Build a model from a 256-entry frequency vector.
    fn from_freq_vec(f: Vec<u16>) -> (r: Self)
        requires
            f@.len() == 256,
        ensures
            r.freqs() == f@,
    {
        let mut cum: Vec<u32> = Vec::new();
        cum.push(0);
        let mut i = 0usize;
        while i < 256
            invariant
                f@.len() == 256,
                i <= 256,
                cum@.len() == i + 1,
                forall|j: int| 0 <= j <= i ==> #[trigger] cum@[j] == psum(f@, j),
            decreases 256 - i,
        {
            proof {
                lemma_psum_bound(f@, i as int);
            }
            let next = cum[i] + (f[i] as u32);
            cum.push(next);
            i = i + 1;
        }
        ByteModel { freq: f, cum }
    }

    /// Validate the model: the frequencies sum to [`MODEL_TOTAL`].
    pub fn validate(&self) -> (r: Result<(), VoleError>)
        ensures
            r is Ok <==> model_valid(self.freqs()),
            r matches Err(e) ==> e == VoleError::EntropyCorrupt,
    {
        proof {
            use_type_invariant(self);
        }
        if self.cum[256] != MODEL_TOTAL {
            return Err(VoleError::EntropyCorrupt);
        }
        Ok(())
    }

    /// Frequency of a symbol.
    pub fn freq(&self, sym: usize) -> (r: u32)
        requires
            sym < 256,
        ensures
            r == self.freqs()[sym as int],
    {
        proof {
            use_type_invariant(self);
        }
        self.freq[sym] as u32
    }

    /// Start (cumulative) of a symbol's partition.
    pub fn start(&self, sym: usize) -> (r: u32)
        requires
            sym <= 256,
        ensures
            r == self.cstart(sym as int),
    {
        proof {
            use_type_invariant(self);
        }
        self.cum[sym]
    }

    /// Serialize the model canonically: 256 × u16 little-endian frequencies.
    pub fn to_bytes(&self) -> (r: Vec<u8>)
        ensures
            r@ == freq_bytes(self.freqs()),
            r@.len() == MODEL_SERIALIZED,
    {
        proof {
            use_type_invariant(self);
        }
        let mut out: Vec<u8> = Vec::new();
        let mut i = 0usize;
        while i < 256
            invariant
                i <= 256,
                self.freq@.len() == 256,
                out@ == freq_bytes(self.freq@).take(2 * i),
            decreases 256 - i,
        {
            let f = self.freq[i];
            out.push((f % 256) as u8);
            out.push((f / 256) as u8);
            proof {
                assert(out@ =~= freq_bytes(self.freq@).take(2 * (i + 1)));
            }
            i = i + 1;
        }
        proof {
            assert(out@ =~= freq_bytes(self.freq@));
        }
        out
    }

    /// Deserialize a model from exactly 512 bytes of little-endian
    /// frequencies.
    pub fn from_bytes(bytes: &[u8]) -> (r: Result<Self, VoleError>)
        ensures
            r is Ok <==> bytes@.len() == MODEL_SERIALIZED,
            r matches Ok(m) ==> m.freqs() == freqs_of_bytes(bytes@),
            r matches Err(e) ==> e == VoleError::LengthMismatch,
    {
        if bytes.len() != MODEL_SERIALIZED {
            return Err(VoleError::LengthMismatch);
        }
        let mut f: Vec<u16> = Vec::new();
        let mut i = 0usize;
        while i < 256
            invariant
                i <= 256,
                bytes@.len() == 512,
                f@ == freqs_of_bytes(bytes@).take(i as int),
            decreases 256 - i,
        {
            let w = (bytes[2 * i] as u16) + (bytes[2 * i + 1] as u16) * 256;
            f.push(w);
            proof {
                assert(f@ =~= freqs_of_bytes(bytes@).take(i + 1));
            }
            i = i + 1;
        }
        proof {
            assert(f@ =~= freqs_of_bytes(bytes@));
        }
        Ok(Self::from_freq_vec(f))
    }

    /// Locate the symbol whose partition contains `slot`, if any.
    fn find(&self, slot: u32) -> (r: Option<usize>)
        ensures
            r is Some <==> exists|s: int| 0 <= s < 256 && #[trigger] self.cstart(s) <= slot
                < self.cstart(s + 1),
            r matches Some(s) ==> s < 256 && self.cstart(s as int) <= slot < self.cstart(
                s + 1,
            ),
    {
        proof {
            use_type_invariant(self);
        }
        let mut lo = 0usize;
        let mut hi = 256usize;
        while lo < hi
            invariant
                lo <= hi <= 256,
                self.freq@.len() == 256,
                self.cum@.len() == 257,
                forall|i: int| 0 <= i <= 256 ==> #[trigger] self.cum@[i] == psum(self.freq@, i),
                forall|s: int| 1 <= s <= lo ==> #[trigger] psum(self.freq@, s) <= slot,
                forall|s: int| hi <= s < 256 ==> #[trigger] psum(self.freq@, s) > slot,
            decreases hi - lo,
        {
            let mid = lo + (hi - lo) / 2;
            if self.cum[mid + 1] <= slot {
                proof {
                    assert forall|s: int| 1 <= s <= mid + 1 implies #[trigger] psum(self.freq@, s)
                        <= slot by {
                        lemma_psum_mono(self.freq@, s, mid + 1);
                    }
                }
                lo = mid + 1;
            } else if self.cum[mid] > slot {
                proof {
                    assert forall|s: int| mid <= s < 256 implies #[trigger] psum(self.freq@, s)
                        > slot by {
                        lemma_psum_mono(self.freq@, mid as int, s);
                    }
                }
                hi = mid;
            } else {
                assert(self.cstart(mid as int) <= slot < self.cstart(mid + 1));
                return Some(mid);
            }
        }
        proof {
            assert forall|s: int| 0 <= s < 256 implies !(#[trigger] self.cstart(s) <= slot
                < self.cstart(s + 1)) by {
                if s < lo {
                    assert(psum(self.freq@, s + 1) <= slot);
                } else {
                    assert(psum(self.freq@, s) > slot);
                }
            }
        }
        None
    }
}

/// Little-endian serialization of a frequency table.
pub open spec fn freq_bytes(f: Seq<u16>) -> Seq<u8> {
    Seq::new(
        2 * f.len(),
        |i: int|
            if i % 2 == 0 {
                (f[i / 2] % 256) as u8
            } else {
                (f[i / 2] / 256) as u8
            },
    )
}

/// Frequencies read from a little-endian byte form.
pub open spec fn freqs_of_bytes(b: Seq<u8>) -> Seq<u16> {
    Seq::new(b.len() / 2, |i: int| (b[2 * i] + 256 * b[2 * i + 1]) as u16)
}

/// Serializing a model and reading it back gives the same frequencies.
pub proof fn lemma_model_bytes_roundtrip(f: Seq<u16>)
    ensures
        freqs_of_bytes(freq_bytes(f)) =~= f,
{
    let b = freq_bytes(f);
    assert forall|k: int| 0 <= k < f.len() implies freqs_of_bytes(b)[k] == f[k] by {
        assert((2 * k) / 2 == k);
        assert((2 * k + 1) / 2 == k);
        assert((2 * k) % 2 == 0);
        assert((2 * k + 1) % 2 == 1);
        lemma_fundamental_div_mod(f[k] as int, 256);
    }
}


// ---------------------------------------------------------------------------
// Encoder and decoder semantics
// ---------------------------------------------------------------------------

/// Little-endian bytes of a 32-bit value.
pub open spec fn le32(x: nat) -> Seq<u8> {
    seq![(x % 256) as u8, (x / 256 % 256) as u8, (x / 65536 % 256) as u8, (x / 16777216 % 256) as u8]
}

/// The 32-bit little-endian value of the first four bytes.
pub open spec fn read_le32(b: Seq<u8>) -> nat {
    (b[0] + 256 * b[1] + 65536 * b[2] + 16777216 * b[3]) as nat
}

/// Encoder renormalization: while the state is at least `xmax`, emit its
/// low byte and shift it right by eight bits. Returns the renormalized
/// state and the bytes in emission order.
pub open spec fn renorm_enc(x: nat, xmax: nat) -> (nat, Seq<u8>)
    decreases x,
{
    if xmax > 0 && x >= xmax {
        let (y, e) = renorm_enc(x / 256, xmax);
        (y, seq![(x % 256) as u8] + e)
    } else {
        (x, seq![])
    }
}

/// One encode step of a symbol with frequency `f` and start `c`:
/// renormalize against `2^17 · f`, then `C(s, y) = (y / f) · 2^14 + y % f + c`.
pub open spec fn enc_step(x: nat, f: nat, c: nat) -> (nat, Seq<u8>) {
    let (y, e) = renorm_enc(x, 131072 * f);
    if f == 0 {
        (y, e)
    } else {
        ((y / f) * 16384 + y % f + c, e)
    }
}

/// The encoder run over `data` in input order: the final state and every
/// renormalization byte in emission order.
pub open spec fn enc_run(data: Seq<u8>, m: Seq<u16>) -> (nat, Seq<u8>)
    decreases data.len(),
{
    if data.len() == 0 {
        (STATE_L as nat, seq![])
    } else {
        let (x, e) = enc_run(data.drop_last(), m);
        let s = data.last() as int;
        let (x2, e2) = enc_step(x, m[s] as nat, psum(m, s));
        (x2, e + e2)
    }
}

/// Every symbol of `data` has a nonzero frequency.
pub open spec fn all_coded(data: Seq<u8>, m: Seq<u16>) -> bool {
    forall|i: int| 0 <= i < data.len() ==> m[data[i] as int] > 0
}

/// The canonical rANS payload of `data` under model `m`.
pub open spec fn encode_spec(data: Seq<u8>, m: Seq<u16>) -> Result<Seq<u8>, VoleError> {
    if data.len() == 0 {
        Ok(le32(STATE_L as nat))
    } else if !model_valid(m) || !all_coded(data, m) {
        Err(VoleError::EntropyCorrupt)
    } else {
        let (x, e) = enc_run(data, m);
        Ok(le32(x) + e.reverse())
    }
}

/// Decoder renormalization: while the state is below `STATE_L`, shift in
/// the next byte of the stream. `None` when the stream runs out.
pub open spec fn renorm_dec(x: nat, s: Seq<u8>) -> Option<(nat, Seq<u8>)>
    decreases s.len(),
{
    if x >= STATE_L {
        Some((x, s))
    } else if s.len() == 0 {
        None
    } else {
        renorm_dec((x * 256 + s[0]) as nat, s.drop_first())
    }
}

/// The symbol whose partition contains `slot`, when there is one.
pub open spec fn find_spec(m: Seq<u16>, slot: nat) -> Option<nat> {
    if exists|s: int| 0 <= s < 256 && #[trigger] psum(m, s) <= slot < psum(m, s + 1) {
        Some((choose|s: int| 0 <= s < 256 && #[trigger] psum(m, s) <= slot < psum(m, s + 1)) as nat)
    } else {
        None
    }
}

/// Prepend already-popped symbols to a decode result.
pub open spec fn prepend_res(
    p: Seq<u8>,
    r: Result<(Seq<u8>, nat, Seq<u8>), VoleError>,
) -> Result<(Seq<u8>, nat, Seq<u8>), VoleError> {
    match r {
        Ok((q, x, s)) => Ok((p + q, x, s)),
        Err(e) => Err(e),
    }
}

/// Pop one symbol from state `x`: locate its partition, invert the encode
/// step, and renormalize from the stream `s`.
pub open spec fn dec_one(x: nat, s: Seq<u8>, m: Seq<u16>) -> Result<(u8, nat, Seq<u8>), VoleError> {
    let slot = x % 16384;
    match find_spec(m, slot) {
        None => Err(VoleError::EntropyCorrupt),
        Some(sym) => {
            let nx = (m[sym as int] * (x / 16384) + slot - psum(m, sym as int)) as nat;
            match renorm_dec(nx, s) {
                None => Err(VoleError::EntropyOverread),
                Some((x2, s2)) => Ok((sym as u8, x2, s2)),
            }
        },
    }
}

/// Pop `k` symbols from state `x`, reading renormalization bytes from the
/// stream `s`. Returns the popped symbols (in pop order), the final state
/// and the unread stream.
pub open spec fn dec_steps(x: nat, s: Seq<u8>, k: nat, m: Seq<u16>) -> Result<
    (Seq<u8>, nat, Seq<u8>),
    VoleError,
>
    decreases k,
{
    if k == 0 {
        Ok((seq![], x, s))
    } else {
        match dec_one(x, s, m) {
            Err(e) => Err(e),
            Ok((sym, x2, s2)) => prepend_res(seq![sym], dec_steps(x2, s2, (k - 1) as nat, m)),
        }
    }
}

/// The result of decoding `n` symbols from a canonical rANS payload.
pub open spec fn decode_spec(payload: Seq<u8>, m: Seq<u16>, n: nat) -> Result<Seq<u8>, VoleError> {
    if n == 0 {
        if payload.len() == 4 {
            Ok(seq![])
        } else {
            Err(VoleError::NonCanonicalEncoding)
        }
    } else if !model_valid(m) {
        Err(VoleError::EntropyCorrupt)
    } else if payload.len() < 4 {
        Err(VoleError::Truncated)
    } else {
        match dec_steps(read_le32(payload), payload.subrange(4, payload.len() as int), n, m) {
            Err(e) => Err(e),
            Ok((p, _x, rest)) => if rest.len() == 0 {
                Ok(p.reverse())
            } else {
                Err(VoleError::NonCanonicalEncoding)
            },
        }
    }
}


// ---------------------------------------------------------------------------
// The coding laws
// ---------------------------------------------------------------------------

/// Encoder renormalization lands the state in `[2^9·f, 2^17·f)`.
pub proof fn lemma_renorm_enc_bounds(x: nat, f: nat)
    requires
        1 <= f <= 16384,
        512 * f <= x < 0x8000_0000,
    ensures
        512 * f <= renorm_enc(x, 131072 * f).0 < 131072 * f,
    decreases x,
{
    if x >= 131072 * f {
        lemma_renorm_enc_bounds(x / 256, f);
    }
}

/// Every encode step keeps the state in `[STATE_L, 2^31)`.
pub proof fn lemma_enc_step_bounds(x: nat, f: nat, c: nat)
    requires
        STATE_L <= x < 0x8000_0000,
        1 <= f,
        c + f <= 16384,
    ensures
        STATE_L <= enc_step(x, f, c).0 < 0x8000_0000,
{
    lemma_renorm_enc_bounds(x, f);
    let y = renorm_enc(x, 131072 * f).0;
    let q = y / f;
    let r = y % f;
    lemma_fundamental_div_mod(y as int, f as int);
    assert(q >= 512) by {
        lemma_div_is_ordered((512 * f) as int, y as int, f as int);
        lemma_div_multiples_vanish(512, f as int);
    }
    assert(q < 131072) by {
        lemma_div_is_ordered_by_denominator(y as int, f as int, f as int);
        if q >= 131072 {
            lemma_mul_inequality(131072, q as int, f as int);
        }
    }
}

/// The state after encoding any prefix stays in `[STATE_L, 2^31)`.
pub proof fn lemma_enc_run_bounds(data: Seq<u8>, m: Seq<u16>)
    requires
        model_valid(m),
        all_coded(data, m),
    ensures
        STATE_L <= enc_run(data, m).0 < 0x8000_0000,
    decreases data.len(),
{
    if data.len() > 0 {
        let d = data.drop_last();
        assert(all_coded(d, m)) by {
            assert forall|i: int| 0 <= i < d.len() implies m[d[i] as int] > 0 by {
                assert(d[i] == data[i]);
            }
        }
        lemma_enc_run_bounds(d, m);
        let s = data.last() as int;
        assert(m[s] > 0) by {
            assert(data[data.len() - 1] == data.last());
        }
        lemma_psum_mono(m, s + 1, 256);
        lemma_enc_step_bounds(enc_run(d, m).0, m[s] as nat, psum(m, s));
    }
}

/// Decoder renormalization reads back, in reverse, exactly the bytes the
/// encoder emitted, restoring the pre-renormalization state.
pub proof fn lemma_renorm_inverse(x: nat, xmax: nat, t: Seq<u8>)
    requires
        x < 0x8000_0000,
        xmax > 0,
    ensures
        renorm_dec(renorm_enc(x, xmax).0, renorm_enc(x, xmax).1.reverse() + t) == renorm_dec(x, t),
    decreases x,
{
    if x >= xmax {
        let (y, e) = renorm_enc(x / 256, xmax);
        let b = (x % 256) as u8;
        lemma_renorm_inverse(x / 256, xmax, seq![b] + t);
        assert((seq![b] + e).reverse() =~= e.reverse() + seq![b]);
        assert(e.reverse() + seq![b] + t =~= e.reverse() + (seq![b] + t));
        lemma_fundamental_div_mod(x as int, 256);
        assert((seq![b] + t).drop_first() =~= t);
        assert(x / 256 < STATE_L);
    }
}

/// Partitions of a model are disjoint, so `find_spec` names the unique
/// symbol whose partition holds the slot.
pub proof fn lemma_find_spec_is(m: Seq<u16>, slot: nat, s: int)
    requires
        m.len() == 256,
        0 <= s < 256,
        psum(m, s) <= slot < psum(m, s + 1),
    ensures
        find_spec(m, slot) == Some(s as nat),
{
    assert(exists|t: int| 0 <= t < 256 && #[trigger] psum(m, t) <= slot < psum(m, t + 1));
    let t = choose|t: int| 0 <= t < 256 && #[trigger] psum(m, t) <= slot < psum(m, t + 1);
    if t < s {
        lemma_psum_mono(m, t + 1, s);
    } else if t > s {
        lemma_psum_mono(m, s + 1, t);
    }
}

/// One decode step inverts one encode step.
pub proof fn lemma_step_inverse(y: nat, m: Seq<u16>, s: int)
    requires
        model_valid(m),
        0 <= s < 256,
        m[s] > 0,
        y < 131072 * m[s],
    ensures
        ({
            let f = m[s] as nat;
            let c = psum(m, s);
            let nx = (y / f) * 16384 + y % f + c;
            &&& find_spec(m, nx % 16384) == Some(s as nat)
            &&& m[s] * (nx / 16384) + nx % 16384 - c == y
        }),
{
    let f = m[s] as nat;
    let c = psum(m, s);
    let q = y / f;
    let r = y % f;
    lemma_fundamental_div_mod(y as int, f as int);
    lemma_psum_mono(m, s + 1, 256);
    assert(psum(m, s + 1) == c + f);
    let nx = q * 16384 + r + c;
    assert(r + c < 16384);
    lemma_fundamental_div_mod_converse(nx as int, 16384, q as int, (r + c) as int);
    lemma_find_spec_is(m, nx % 16384, s);
    lemma_mul_is_commutative(f as int, q as int);
}

/// Decoding the reversed encoder output (followed by any trailing stream)
/// pops exactly the encoded symbols in reverse order, ending at the
/// initial state with the trailing stream untouched.
pub proof fn lemma_decode_encode(data: Seq<u8>, m: Seq<u16>, t: Seq<u8>)
    requires
        model_valid(m),
        all_coded(data, m),
    ensures
        dec_steps(enc_run(data, m).0, enc_run(data, m).1.reverse() + t, data.len(), m) == Ok::<
            (Seq<u8>, nat, Seq<u8>),
            VoleError,
        >((data.reverse(), STATE_L as nat, t)),
    decreases data.len(),
{
    if data.len() == 0 {
        assert(enc_run(data, m).1.reverse() + t =~= t);
        assert(data.reverse() =~= seq![]);
    } else {
        let d = data.drop_last();
        assert(all_coded(d, m)) by {
            assert forall|i: int| 0 <= i < d.len() implies m[d[i] as int] > 0 by {
                assert(d[i] == data[i]);
            }
        }
        let s = data.last() as int;
        assert(m[s] > 0) by {
            assert(data[data.len() - 1] == data.last());
        }
        let (x1, e1) = enc_run(d, m);
        let f = m[s] as nat;
        let c = psum(m, s);
        lemma_enc_run_bounds(d, m);
        lemma_psum_mono(m, s + 1, 256);
        lemma_renorm_enc_bounds(x1, f);
        let (y, e2) = renorm_enc(x1, 131072 * f);
        let x = (y / f) * 16384 + y % f + c;
        assert(enc_run(data, m) == (x, e1 + e2));
        let rest = e1.reverse() + t;
        assert((e1 + e2).reverse() + t =~= e2.reverse() + rest);
        lemma_step_inverse(y, m, s);
        lemma_renorm_inverse(x1, 131072 * f, rest);
        lemma_decode_encode(d, m, t);
        assert(renorm_dec(x1, rest) == Some((x1, rest)));
        assert(data.reverse() =~= seq![s as u8] + d.reverse());
    }
}


/// Reading back four little-endian bytes of a 32-bit value gives the value.
pub proof fn lemma_le32_roundtrip(x: nat, t: Seq<u8>)
    requires
        x < 0x1_0000_0000,
    ensures
        read_le32(le32(x) + t) == x,
        (le32(x) + t).subrange(4, (le32(x) + t).len() as int) =~= t,
{
    let b = le32(x) + t;
    lemma_fundamental_div_mod(x as int, 256);
    lemma_fundamental_div_mod((x / 256) as int, 256);
    lemma_fundamental_div_mod((x / 65536) as int, 256);
    lemma_div_denominator(x as int, 256, 256);
    lemma_div_denominator(x as int, 65536, 256);
    assert(x / 16777216 < 256) by {
        lemma_div_is_ordered(x as int, 0xffff_ffff, 16777216);
    }
    lemma_small_mod((x / 16777216) as nat, 256);
}

/// Push the little-endian bytes of `x`.
fn push_le32(out: &mut Vec<u8>, x: u32)
    ensures
        final(out)@ == old(out)@ + le32(x as nat),
{
    out.push((x % 256) as u8);
    out.push((x / 256 % 256) as u8);
    out.push((x / 65536 % 256) as u8);
    out.push((x / 16777216 % 256) as u8);
    proof {
        assert(final(out)@ =~= old(out)@ + le32(x as nat));
    }
}

/// Upper bound of bytes an rANS payload can reach for `n` symbols.
pub fn encoded_len_bound(n: usize) -> (r: usize)
    requires
        n <= (usize::MAX - 5) / 2,
    ensures
        r == 5 + 2 * n,
{
    4 + 1 + 2 * n
}

/// Encode `data` with an explicit model, returning the canonical rANS
/// payload (`[u32 state LE][renorm bytes in reverse emission order]`).
pub fn encode_with(data: &[u8], model: &ByteModel) -> (r: Result<Vec<u8>, VoleError>)
    ensures
        match r {
            Ok(p) => encode_spec(data@, model.freqs()) == Ok::<Seq<u8>, VoleError>(p@),
            Err(e) => encode_spec(data@, model.freqs()) == Err::<Seq<u8>, VoleError>(e),
        },
{
    proof {
        use_type_invariant(model);
    }
    if data.len() == 0 {
        let mut out: Vec<u8> = Vec::new();
        push_le32(&mut out, STATE_L);
        return Ok(out);
    }
    model.validate()?;
    let ghost m = model.freqs();
    let mut x: u32 = STATE_L;
    let mut emitted: Vec<u8> = Vec::new();
    let mut i = 0usize;
    while i < data.len()
        invariant
            i <= data@.len(),
            m == model.freqs(),
            model_valid(m),
            all_coded(data@.take(i as int), m),
            (x as nat, emitted@) == enc_run(data@.take(i as int), m),
            STATE_L <= x < 0x8000_0000,
        decreases data.len() - i,
    {
        let s = data[i] as usize;
        let f = model.freq(s);
        if f == 0 {
            proof {
                assert(!all_coded(data@, m)) by {
                    assert(m[data@[i as int] as int] == 0);
                }
            }
            return Err(VoleError::EntropyCorrupt);
        }
        let start = model.start(s);
        proof {
            lemma_psum_mono(m, s + 1, 256);
            assert(psum(m, s as int + 1) == start + f);
        }
        let x_max: u32 = 131072 * f;
        let ghost x0 = x;
        let ghost e0 = emitted@;
        while x >= x_max
            invariant
                x_max == 131072 * f,
                1 <= f <= 16384,
                x <= x0,
                x0 < 0x8000_0000,
                renorm_enc(x as nat, x_max as nat).0 == renorm_enc(x0 as nat, x_max as nat).0,
                emitted@ + renorm_enc(x as nat, x_max as nat).1 == e0 + renorm_enc(
                    x0 as nat,
                    x_max as nat,
                ).1,
            decreases x,
        {
            let b = (x % 256) as u8;
            proof {
                let (y, e) = renorm_enc((x / 256) as nat, x_max as nat);
                assert(renorm_enc(x as nat, x_max as nat) == (y, seq![b] + e));
                assert(emitted@.push(b) + e =~= emitted@ + (seq![b] + e));
            }
            emitted.push(b);
            x = x / 256;
        }
        proof {
            assert(emitted@ =~= e0 + renorm_enc(x0 as nat, x_max as nat).1);
            lemma_renorm_enc_bounds(x0 as nat, f as nat);
            lemma_fundamental_div_mod(x as int, f as int);
            assert(x / f < 131072) by {
                if x / f >= 131072 {
                    lemma_mul_inequality(131072, (x / f) as int, f as int);
                    lemma_mul_is_commutative(f as int, (x / f) as int);
                }
            }
        }
        let q = x / f;
        let r = x % f;
        let nx = q * 16384 + r + start;
        proof {
            lemma_enc_step_bounds(x0 as nat, f as nat, start as nat);
            let d = data@.take(i + 1);
            assert(d.drop_last() =~= data@.take(i as int));
            assert(d.last() == data@[i as int]);
            assert(all_coded(d, m)) by {
                assert forall|j: int| 0 <= j < d.len() implies m[d[j] as int] > 0 by {
                    if j < i {
                        assert(data@.take(i as int)[j] == d[j]);
                    }
                }
            }
        }
        x = nx;
        i = i + 1;
    }
    proof {
        assert(data@.take(data@.len() as int) =~= data@);
    }
    let mut out: Vec<u8> = Vec::new();
    push_le32(&mut out, x);
    let n = emitted.len();
    let mut k = 0usize;
    while k < n
        invariant
            n == emitted@.len(),
            k <= n,
            out@ == le32(x as nat) + emitted@.reverse().take(k as int),
        decreases n - k,
    {
        out.push(emitted[n - 1 - k]);
        proof {
            assert(out@ =~= le32(x as nat) + emitted@.reverse().take(k + 1));
        }
        k = k + 1;
    }
    proof {
        assert(emitted@.reverse().take(n as int) =~= emitted@.reverse());
    }
    Ok(out)
}

/// Pop one symbol from state `x` with the unread stream starting at `pos`.
#[verifier::loop_isolation(false)]
fn pop_symbol(payload: &[u8], model: &ByteModel, x: u32, pos: usize) -> (r: Result<
    (u8, u32, usize),
    VoleError,
>)
    requires
        model_valid(model.freqs()),
        pos <= payload@.len(),
    ensures
        match r {
            Ok((sym, x2, p2)) => pos <= p2 <= payload@.len() && dec_one(
                x as nat,
                payload@.subrange(pos as int, payload@.len() as int),
                model.freqs(),
            ) == Ok::<(u8, nat, Seq<u8>), VoleError>(
                (sym, x2 as nat, payload@.subrange(p2 as int, payload@.len() as int)),
            ),
            Err(e) => dec_one(
                x as nat,
                payload@.subrange(pos as int, payload@.len() as int),
                model.freqs(),
            ) == Err::<(u8, nat, Seq<u8>), VoleError>(e),
        },
{
    let ghost m = model.freqs();
    let ghost cur = payload@.subrange(pos as int, payload@.len() as int);
    let slot = x % 16384;
    let s = match model.find(slot) {
        Some(s) => s,
        None => {
            proof {
                assert(!exists|t: int| 0 <= t < 256 && #[trigger] psum(m, t) <= slot < psum(m, t + 1)) by {
                    assert forall|t: int| 0 <= t < 256 implies !(#[trigger] psum(m, t) <= slot < psum(m, t + 1)) by {
                        assert(model.cstart(t) == psum(m, t));
                        assert(model.cstart(t + 1) == psum(m, t + 1));
                    }
                }
                assert(find_spec(m, slot as nat) is None);
            }
            return Err(VoleError::EntropyCorrupt);
        },
    };
    proof {
        lemma_find_spec_is(m, slot as nat, s as int);
        lemma_psum_mono(m, s as int + 1, 256);
    }
    let f = model.freq(s);
    let start = model.start(s);
    proof {
        assert(psum(m, s as int + 1) == start + f);
        assert(f * (x / 16384) <= 16384 * (x / 16384)) by {
            lemma_mul_inequality(f as int, 16384, (x / 16384) as int);
        }
        lemma_fundamental_div_mod(x as int, 16384);
        lemma_mul_is_commutative(16384, (x / 16384) as int);
    }
    let nx = f * (x / 16384) + slot - start;
    let ghost nx0 = nx as nat;
    let mut y = nx;
    let mut p = pos;
    while y < STATE_L
        invariant
            pos <= p <= payload@.len(),
            renorm_dec(y as nat, payload@.subrange(p as int, payload@.len() as int))
                == renorm_dec(nx0, cur),
        decreases payload@.len() - p,
    {
        if p >= payload.len() {
            proof {
                assert(payload@.subrange(p as int, payload@.len() as int).len() == 0);
                assert(renorm_dec(nx0, cur) is None);
                assert(nx0 == (m[s as int] * (x / 16384) + slot - psum(m, s as int)) as nat);
            }
            return Err(VoleError::EntropyOverread);
        }
        let b = payload[p];
        proof {
            let rest = payload@.subrange(p as int, payload@.len() as int);
            assert(rest[0] == b);
            assert(rest.drop_first() =~= payload@.subrange(p + 1, payload@.len() as int));
        }
        p = p + 1;
        y = y * 256 + (b as u32);
    }
    Ok((s as u8, y, p))
}

/// Decode `out_len` symbols from a canonical rANS payload with a model.
/// Symbols are produced in reverse encode order; truncated, over-read or
/// structurally corrupt input is a typed error, and the payload must be
/// consumed exactly.
pub fn decode_with(payload: &[u8], model: &ByteModel, out_len: usize) -> (r: Result<
    Vec<u8>,
    VoleError,
>)
    ensures
        match r {
            Ok(v) => decode_spec(payload@, model.freqs(), out_len as nat) == Ok::<
                Seq<u8>,
                VoleError,
            >(v@),
            Err(e) => decode_spec(payload@, model.freqs(), out_len as nat) == Err::<
                Seq<u8>,
                VoleError,
            >(e),
        },
{
    proof {
        use_type_invariant(model);
    }
    if out_len == 0 {
        if payload.len() == 4 {
            return Ok(Vec::new());
        }
        return Err(VoleError::NonCanonicalEncoding);
    }
    model.validate()?;
    if payload.len() < 4 {
        return Err(VoleError::Truncated);
    }
    let ghost m = model.freqs();
    let mut x: u32 = (payload[0] as u32) + (payload[1] as u32) * 256 + (payload[2] as u32) * 65536
        + (payload[3] as u32) * 16777216;
    let ghost x0 = x as nat;
    let ghost s0 = payload@.subrange(4, payload@.len() as int);
    proof {
        assert(x0 == read_le32(payload@));
    }
    let mut pos = 4usize;
    let mut popped: Vec<u8> = Vec::new();
    let mut i = 0usize;
    while i < out_len
        invariant
            out_len > 0,
            payload@.len() >= 4,
            x0 == read_le32(payload@),
            s0 == payload@.subrange(4, payload@.len() as int),
            m == model.freqs(),
            model_valid(m),
            4 <= pos <= payload@.len(),
            i <= out_len,
            popped@.len() == i,
            dec_steps(x0, s0, out_len as nat, m) == prepend_res(
                popped@,
                dec_steps(
                    x as nat,
                    payload@.subrange(pos as int, payload@.len() as int),
                    (out_len - i) as nat,
                    m,
                ),
            ),
        decreases out_len - i,
    {
        let ghost cur = payload@.subrange(pos as int, payload@.len() as int);
        let ghost popped_prev = popped@;
        let ghost x_prev = x as nat;
        let ghost k = (out_len - i) as nat;
        let step = pop_symbol(payload, model, x, pos);
        let (sym, nx, npos) = match step {
            Ok(t) => t,
            Err(e) => {
                proof {
                    assert(dec_steps(x_prev, cur, k, m) == Err::<(Seq<u8>, nat, Seq<u8>), VoleError>(e));
                }
                return Err(e);
            },
        };
        popped.push(sym);
        x = nx;
        pos = npos;
        proof {
            let rest = payload@.subrange(pos as int, payload@.len() as int);
            assert(dec_steps(x_prev, cur, k, m) == prepend_res(
                seq![sym],
                dec_steps(x as nat, rest, (k - 1) as nat, m),
            ));
            assert(popped@ == popped_prev + seq![sym]);
            lemma_prepend_assoc(popped_prev, seq![sym], dec_steps(x as nat, rest, (k - 1) as nat, m));
        }
        i = i + 1;
    }
    let ghost rest = payload@.subrange(pos as int, payload@.len() as int);
    proof {
        assert(dec_steps(x0, s0, out_len as nat, m) == Ok::<(Seq<u8>, nat, Seq<u8>), VoleError>((popped@, x as nat, rest))) by {
            assert(popped@ + seq![] =~= popped@);
        }
        assert(x0 == read_le32(payload@));
    }
    if pos != payload.len() {
        return Err(VoleError::NonCanonicalEncoding);
    }
    let n = popped.len();
    let mut out: Vec<u8> = Vec::new();
    let mut k = 0usize;
    while k < n
        invariant
            n == popped@.len(),
            k <= n,
            out@ == popped@.reverse().take(k as int),
        decreases n - k,
    {
        out.push(popped[n - 1 - k]);
        proof {
            assert(out@ =~= popped@.reverse().take(k + 1));
        }
        k = k + 1;
    }
    proof {
        assert(popped@.reverse().take(n as int) =~= popped@.reverse());
    }
    Ok(out)
}

/// Prepending two popped runs in turn is prepending their concatenation.
pub proof fn lemma_prepend_assoc(
    p: Seq<u8>,
    q: Seq<u8>,
    r: Result<(Seq<u8>, nat, Seq<u8>), VoleError>,
)
    ensures
        prepend_res(p, prepend_res(q, r)) == prepend_res(p + q, r),
{
    if let Ok((a, x, s)) = r {
        assert(p + (q + a) =~= (p + q) + a);
    }
}


/// Decoding a payload produced by the encoder, with the same model and
/// the encoded length, gives back exactly the encoded bytes.
pub proof fn law_decode_inverts_encode(data: Seq<u8>, m: Seq<u16>)
    requires
        encode_spec(data, m) is Ok,
    ensures
        decode_spec(encode_spec(data, m)->Ok_0, m, data.len()) == Ok::<Seq<u8>, VoleError>(data),
{
    let payload = encode_spec(data, m)->Ok_0;
    if data.len() == 0 {
        assert(payload.len() == 4);
        assert(data =~= seq![]);
    } else {
        let (x, e) = enc_run(data, m);
        lemma_enc_run_bounds(data, m);
        lemma_le32_roundtrip(x, e.reverse());
        lemma_decode_encode(data, m, seq![]);
        assert(e.reverse() + seq![] =~= e.reverse());
        assert(data.reverse().reverse() =~= data);
    }
}

// ---------------------------------------------------------------------------
// Model construction from a histogram
// ---------------------------------------------------------------------------

/// Sum of the first `k` counts.
pub open spec fn count_sum(c: Seq<u64>, k: int) -> nat
    decreases k,
{
    if k <= 0 || k > c.len() {
        0
    } else {
        count_sum(c, k - 1) + c[k - 1] as nat
    }
}

/// Number of nonzero counts among the first `k`.
pub open spec fn used_count(c: Seq<u64>, k: int) -> nat
    decreases k,
{
    if k <= 0 || k > c.len() {
        0
    } else {
        used_count(c, k - 1) + if c[k - 1] > 0 {
            1nat
        } else {
            0nat
        }
    }
}

/// The spare units distributed in proportion to counts.
pub open spec fn extras_of(c: Seq<u64>) -> nat {
    (MODEL_TOTAL - used_count(c, 256)) as nat
}

/// Base frequency of a symbol: one per present symbol plus its floor
/// share of the spare units.
pub open spec fn base_freq(c: Seq<u64>, i: int) -> nat {
    if c[i] > 0 {
        1 + (c[i] as nat * extras_of(c)) / count_sum(c, 256)
    } else {
        0
    }
}

/// Fractional remainder of a symbol's share (the largest-remainder key).
pub open spec fn share_rem(c: Seq<u64>, i: int) -> nat {
    (c[i] as nat * extras_of(c)) % count_sum(c, 256)
}

/// Sum of the first `k` base frequencies.
pub open spec fn base_sum(c: Seq<u64>, k: int) -> nat
    decreases k,
{
    if k <= 0 || k > c.len() {
        0
    } else {
        base_sum(c, k - 1) + base_freq(c, k - 1)
    }
}

/// Whether present symbol `j` precedes `i` in the largest-remainder order
/// (remainder descending, then symbol ascending).
pub open spec fn precedes(c: Seq<u64>, j: int, i: int) -> bool {
    c[j] > 0 && (share_rem(c, j) > share_rem(c, i) || (share_rem(c, j) == share_rem(c, i) && j < i))
}

/// Number of present symbols among the first `k` preceding `i`: its
/// position in the largest-remainder order.
pub open spec fn rank_upto(c: Seq<u64>, i: int, k: int) -> nat
    decreases k,
{
    if k <= 0 || k > c.len() {
        0
    } else {
        rank_upto(c, i, k - 1) + if precedes(c, k - 1, i) {
            1nat
        } else {
            0nat
        }
    }
}

/// The normalized frequency of symbol `i` for histogram `c`: the base
/// frequency, plus one for each of the first `MODEL_TOTAL − Σ base`
/// present symbols in largest-remainder order. An all-zero histogram
/// gives an all-zero table.
pub open spec fn norm_freq(c: Seq<u64>, i: int) -> nat {
    if count_sum(c, 256) == 0 {
        0
    } else {
        base_freq(c, i) + if c[i] > 0 && rank_upto(c, i, 256) + base_sum(c, 256) < MODEL_TOTAL {
            1nat
        } else {
            0nat
        }
    }
}

/// The normalized table of a 256-entry histogram.
pub open spec fn normalize(c: Seq<u64>) -> Seq<u16> {
    Seq::new(256, |i: int| norm_freq(c, i) as u16)
}

/// Occurrences of byte `b` among the first `k` bytes.
pub open spec fn occurrences(data: Seq<u8>, b: int, k: int) -> nat
    decreases k,
{
    if k <= 0 || k > data.len() {
        0
    } else {
        occurrences(data, b, k - 1) + if data[k - 1] as int == b {
            1nat
        } else {
            0nat
        }
    }
}

/// The byte histogram of `data`.
pub open spec fn histogram(data: Seq<u8>) -> Seq<u64> {
    Seq::new(256, |b: int| occurrences(data, b, data.len() as int) as u64)
}

/// Floors of shares never sum past the spare units: `Σ ⌊c·E/T⌋ · T ≤ E · Σ c`.
proof fn lemma_floor_shares(c: Seq<u64>, e: nat, t: nat, k: int)
    requires
        t > 0,
        0 <= k <= c.len(),
    ensures
        floor_share_sum(c, e, t, k) * t <= e * count_sum(c, k),
    decreases k,
{
    if k > 0 {
        lemma_floor_shares(c, e, t, k - 1);
        let a = c[k - 1] as nat * e;
        let q = a / t;
        let f1 = floor_share_sum(c, e, t, k - 1);
        let s1 = count_sum(c, k - 1);
        lemma_fundamental_div_mod(a as int, t as int);
        lemma_mod_pos_bound(a as int, t as int);
        assert(floor_share_sum(c, e, t, k) == f1 + q);
        assert(count_sum(c, k) == s1 + c[k - 1]);
        assert((f1 + q) * t == f1 * t + q * t) by (nonlinear_arith);
        assert(q * t <= a) by (nonlinear_arith)
            requires
                a == t * q + a % t,
                a % t >= 0,
        ;
        assert(e * (s1 + c[k - 1]) == e * s1 + a) by (nonlinear_arith)
            requires
                a == c[k - 1] * e,
        ;
        assert(f1 * t <= e * s1);
        assert((f1 + q) * t <= e * (s1 + c[k - 1]));
    } else {
        assert(floor_share_sum(c, e, t, k) == 0);
        assert(count_sum(c, k) == 0);
    }
}

/// Sum over the first `k` symbols of `⌊c·e/t⌋`.
pub open spec fn floor_share_sum(c: Seq<u64>, e: nat, t: nat, k: int) -> nat
    decreases k,
{
    if k <= 0 || k > c.len() {
        0
    } else {
        floor_share_sum(c, e, t, k - 1) + (c[k - 1] as nat * e) / t
    }
}

/// `Σ base = used + Σ floor shares`.
proof fn lemma_base_sum_split(c: Seq<u64>, k: int)
    requires
        0 <= k <= c.len(),
        c.len() == 256,
        count_sum(c, 256) > 0,
    ensures
        base_sum(c, k) == used_count(c, k) + floor_share_sum(c, extras_of(c), count_sum(c, 256), k),
    decreases k,
{
    if k > 0 {
        lemma_base_sum_split(c, k - 1);
        if c[k - 1] == 0 {
            assert(c[k - 1] as nat * extras_of(c) == 0);
        }
    }
}

/// At most 256 symbols are used.
proof fn lemma_used_bound(c: Seq<u64>, k: int)
    requires
        0 <= k <= c.len(),
    ensures
        used_count(c, k) <= k,
    decreases k,
{
    if k > 0 {
        lemma_used_bound(c, k - 1);
    }
}

/// The base frequencies never exceed the model total.
proof fn lemma_base_sum_bound(c: Seq<u64>)
    requires
        c.len() == 256,
        count_sum(c, 256) > 0,
    ensures
        base_sum(c, 256) <= MODEL_TOTAL,
{
    lemma_used_bound(c, 256);
    lemma_base_sum_split(c, 256);
    let t = count_sum(c, 256);
    let e = extras_of(c);
    lemma_floor_shares(c, e, t, 256);
    let fs = floor_share_sum(c, e, t, 256);
    if fs > e {
        lemma_mul_strict_inequality(e as int, fs as int, t as int);
        lemma_mul_is_commutative(e as int, t as int);
    }
}


/// Every count is at most the total.
proof fn lemma_count_le_sum(c: Seq<u64>, i: int, k: int)
    requires
        0 <= i < k <= c.len(),
    ensures
        c[i] <= count_sum(c, k),
    decreases k,
{
    if i < k - 1 {
        lemma_count_le_sum(c, i, k - 1);
    }
}

/// Sum over the first `k` symbols of the share remainders.
pub open spec fn rem_sum(c: Seq<u64>, k: int) -> nat
    decreases k,
{
    if k <= 0 || k > c.len() {
        0
    } else {
        rem_sum(c, k - 1) + share_rem(c, k - 1)
    }
}

/// Floors and remainders of the shares add back up exactly, and each
/// present symbol's remainder is below the total.
proof fn lemma_share_exact(c: Seq<u64>, k: int)
    requires
        c.len() == 256,
        count_sum(c, 256) > 0,
        0 <= k <= 256,
    ensures
        floor_share_sum(c, extras_of(c), count_sum(c, 256), k) * count_sum(c, 256) + rem_sum(c, k) == extras_of(c)
            * count_sum(c, k),
        rem_sum(c, k) + used_count(c, k) <= used_count(c, k) * count_sum(c, 256),
    decreases k,
{
    let t = count_sum(c, 256);
    let e = extras_of(c);
    if k > 0 {
        lemma_share_exact(c, k - 1);
        let a = c[k - 1] as nat * e;
        let q = a / t;
        let r = a % t;
        let f1 = floor_share_sum(c, e, t, k - 1);
        let r1 = rem_sum(c, k - 1);
        let s1 = count_sum(c, k - 1);
        let u1 = used_count(c, k - 1);
        lemma_fundamental_div_mod(a as int, t as int);
        lemma_mod_pos_bound(a as int, t as int);
        assert(share_rem(c, k - 1) == r);
        assert((f1 + q) * t + (r1 + r) == e * (s1 + c[k - 1])) by (nonlinear_arith)
            requires
                f1 * t + r1 == e * s1,
                a == t * q + r,
                a == c[k - 1] * e,
        ;
        if c[k - 1] > 0 {
            assert(r1 + r + (u1 + 1) <= (u1 + 1) * t) by (nonlinear_arith)
                requires
                    r1 + u1 <= u1 * t,
                    r < t,
            ;
        } else {
            assert(a == 0);
            lemma_small_mod(0, t);
        }
        assert(floor_share_sum(c, e, t, k) == f1 + q);
        assert(rem_sum(c, k) == r1 + r);
        assert(count_sum(c, k) == s1 + c[k - 1]);
    } else {
        assert(floor_share_sum(c, e, t, k) == 0);
        assert(rem_sum(c, k) == 0);
        assert(count_sum(c, k) == 0);
        assert(0 * t + 0 == e * 0) by (nonlinear_arith);
    }
}

/// Symbols with counts exist once the total is positive.
proof fn lemma_used_positive(c: Seq<u64>, k: int)
    requires
        0 <= k <= c.len(),
        count_sum(c, k) > 0,
    ensures
        used_count(c, k) > 0,
    decreases k,
{
    if k > 0 && c[k - 1] == 0 {
        lemma_used_positive(c, k - 1);
    }
}

/// A symbol preceding `k` never ranks after it, and ranks strictly before
/// it once the symbol itself is counted.
proof fn lemma_rank_order(c: Seq<u64>, i: int, k: int, n: int)
    requires
        c.len() == 256,
        0 <= i < 256,
        0 <= k < 256,
        precedes(c, i, k),
        0 <= n <= 256,
    ensures
        rank_upto(c, i, n) <= rank_upto(c, k, n),
        n > i ==> rank_upto(c, i, n) < rank_upto(c, k, n),
    decreases n,
{
    if n > 0 {
        lemma_rank_order(c, i, k, n - 1);
    }
}

/// A present symbol's rank counts other present symbols only.
proof fn lemma_rank_bound(c: Seq<u64>, i: int, n: int)
    requires
        c.len() == 256,
        0 <= i < 256,
        c[i] > 0,
        0 <= n <= 256,
    ensures
        rank_upto(c, i, n) + (if i < n {
            1int
        } else {
            0int
        }) <= used_count(c, n),
    decreases n,
{
    if n > 0 {
        lemma_rank_bound(c, i, n - 1);
    }
}

/// The present symbols among the first `n`.
pub open spec fn present_set(c: Seq<u64>, n: int) -> Set<int> {
    Set::new(|j: int| 0 <= j < n && c[j] > 0)
}

proof fn lemma_present_len(c: Seq<u64>, n: int)
    requires
        0 <= n <= c.len(),
    ensures
        present_set(c, n).finite(),
        present_set(c, n).len() == used_count(c, n),
    decreases n,
{
    if n == 0 {
        assert(present_set(c, n) =~= Set::<int>::empty());
    } else {
        lemma_present_len(c, n - 1);
        if c[n - 1] > 0 {
            assert(present_set(c, n) =~= present_set(c, n - 1).insert(n - 1));
        } else {
            assert(present_set(c, n) =~= present_set(c, n - 1));
        }
    }
}

/// Present symbols among the first `n` whose rank is below `m`.
pub open spec fn low_count(c: Seq<u64>, m: int, n: int) -> nat
    decreases n,
{
    if n <= 0 || n > c.len() {
        0
    } else {
        low_count(c, m, n - 1) + if c[n - 1] > 0 && rank_upto(c, n - 1, 256) < m {
            1nat
        } else {
            0nat
        }
    }
}

/// The set counted by [`low_count`].
pub open spec fn low_set(c: Seq<u64>, m: int, n: int) -> Set<int> {
    Set::new(|j: int| 0 <= j < n && c[j] > 0 && rank_upto(c, j, 256) < m)
}

proof fn lemma_low_len(c: Seq<u64>, m: int, n: int)
    requires
        0 <= n <= c.len(),
    ensures
        low_set(c, m, n).finite(),
        low_set(c, m, n).len() == low_count(c, m, n),
    decreases n,
{
    if n == 0 {
        assert(low_set(c, m, n) =~= Set::<int>::empty());
    } else {
        lemma_low_len(c, m, n - 1);
        if c[n - 1] > 0 && rank_upto(c, n - 1, 256) < m {
            assert(low_set(c, m, n) =~= low_set(c, m, n - 1).insert(n - 1));
        } else {
            assert(low_set(c, m, n) =~= low_set(c, m, n - 1));
        }
    }
}

/// The ranks of the present symbols are exactly `0 .. used`, so `m` of
/// them rank below `m`.
proof fn lemma_low_count(c: Seq<u64>, m: int)
    requires
        c.len() == 256,
        0 <= m <= used_count(c, 256),
    ensures
        low_count(c, m, 256) == m,
{
    let u = used_count(c, 256) as int;
    let f = |j: int| rank_upto(c, j, 256) as int;
    let q = present_set(c, 256);
    lemma_present_len(c, 256);
    assert(vstd::relations::injective_on(f, q)) by {
        assert forall|x1: int, x2: int| q.contains(x1) && q.contains(x2) && #[trigger] f(x1) == #[trigger] f(x2) implies x1
            == x2 by {
            if x1 != x2 {
                if precedes(c, x1, x2) {
                    lemma_rank_order(c, x1, x2, 256);
                } else {
                    assert(precedes(c, x2, x1));
                    lemma_rank_order(c, x2, x1, 256);
                }
            }
        }
    }
    let img = q.map(f);
    vstd::set_lib::lemma_map_size(q, img, f);
    let range = vstd::set_lib::set_int_range(0, u);
    vstd::set_lib::lemma_int_range(0, u);
    assert(img.subset_of(range)) by {
        assert forall|v: int| img.contains(v) implies range.contains(v) by {
            let j = choose|j: int| q.contains(j) && f(j) == v;
            lemma_rank_bound(c, j, 256);
        }
    }
    assert forall|v: int| 0 <= v < u implies img.contains(v) by {
        if !img.contains(v) {
            assert(img.subset_of(range.remove(v)));
            vstd::set_lib::lemma_len_subset(img, range.remove(v));
        }
    }
    let p = low_set(c, m, 256);
    lemma_low_len(c, m, 256);
    assert(vstd::relations::injective_on(f, p)) by {
        assert forall|x1: int, x2: int| p.contains(x1) && p.contains(x2) && #[trigger] f(x1) == #[trigger] f(x2) implies x1
            == x2 by {
            assert(q.contains(x1) && q.contains(x2));
        }
    }
    let low_range = vstd::set_lib::set_int_range(0, m);
    vstd::set_lib::lemma_int_range(0, m);
    assert(p.map(f) =~= low_range) by {
        assert forall|v: int| p.map(f).contains(v) implies low_range.contains(v) by {
            let j = choose|j: int| p.contains(j) && f(j) == v;
        }
        assert forall|v: int| low_range.contains(v) implies p.map(f).contains(v) by {
            assert(img.contains(v));
            let j = choose|j: int| q.contains(j) && f(j) == v;
            assert(p.contains(j));
        }
    }
    vstd::set_lib::lemma_map_size(p, low_range, f);
}

/// A normalized frequency is its base plus one when the symbol ranks
/// within the leftover units, and fits 16 bits.
proof fn lemma_norm_entry(c: Seq<u64>, i: int)
    requires
        c.len() == 256,
        count_sum(c, 256) > 0,
        0 <= i < 256,
    ensures
        norm_freq(c, i) == base_freq(c, i) + if c[i] > 0 && rank_upto(c, i, 256) < MODEL_TOTAL - base_sum(c, 256) {
            1nat
        } else {
            0nat
        },
        norm_freq(c, i) <= 16385,
        normalize(c)[i] == norm_freq(c, i),
{
    let t = count_sum(c, 256);
    let e = extras_of(c);
    lemma_count_le_sum(c, i, 256);
    lemma_used_bound(c, 256);
    lemma_used_positive(c, 256);
    assert((c[i] as nat * e) / t <= e) by {
        lemma_mul_inequality(c[i] as int, t as int, e as int);
        lemma_mul_is_commutative(t as int, e as int);
        lemma_div_is_ordered((c[i] as nat * e) as int, (e * t) as int, t as int);
        lemma_div_multiples_vanish(e as int, t as int);
    }
}

/// Prefix sums of the normalized table: bases plus the low-ranked units.
proof fn lemma_norm_psum(c: Seq<u64>, n: int)
    requires
        c.len() == 256,
        count_sum(c, 256) > 0,
        0 <= n <= 256,
    ensures
        psum(normalize(c), n) == base_sum(c, n) + low_count(c, MODEL_TOTAL - base_sum(c, 256), n),
    decreases n,
{
    if n > 0 {
        lemma_norm_psum(c, n - 1);
        lemma_norm_entry(c, n - 1);
    }
}

/// Normalizing a histogram with at least one count gives a valid model:
/// the 256 frequencies sum to `MODEL_TOTAL`, and a symbol has a nonzero
/// frequency exactly when it has a nonzero count.
pub proof fn law_normalize_total(c: Seq<u64>)
    requires
        c.len() == 256,
        count_sum(c, 256) > 0,
    ensures
        model_valid(normalize(c)),
        forall|i: int| 0 <= i < 256 ==> (#[trigger] normalize(c)[i] > 0 <==> c[i] > 0),
{
    let t = count_sum(c, 256);
    let e = extras_of(c);
    let u = used_count(c, 256);
    lemma_used_bound(c, 256);
    lemma_used_positive(c, 256);
    lemma_base_sum_split(c, 256);
    lemma_base_sum_bound(c);
    lemma_share_exact(c, 256);
    let fs = floor_share_sum(c, e, t, 256);
    let rs = rem_sum(c, 256);
    let r = MODEL_TOTAL - base_sum(c, 256);
    assert(r == e - fs);
    assert(0 <= r < u) by (nonlinear_arith)
        requires
            fs * t + rs == e * t,
            rs + u <= u * t,
            r == e - fs,
            r >= 0,
            u >= 1,
            t >= 1,
    ;
    lemma_low_count(c, r);
    lemma_norm_psum(c, 256);
    assert forall|i: int| 0 <= i < 256 implies (#[trigger] normalize(c)[i] > 0 <==> c[i] > 0) by {
        lemma_norm_entry(c, i);
    }
}

/// Normalizing an all-zero histogram gives an all-zero table.
pub proof fn law_normalize_empty(c: Seq<u64>)
    requires
        c.len() == 256,
        count_sum(c, 256) == 0,
    ensures
        forall|i: int| 0 <= i < 256 ==> #[trigger] normalize(c)[i] == 0,
{
}

/// Largest-remainder normalization of a 256-entry histogram.
fn normalize_counts(c: &Vec<u64>) -> (r: Vec<u16>)
    requires
        c@.len() == 256,
    ensures
        r@ == normalize(c@),
{
    let mut total: u128 = 0;
    let mut used: u32 = 0;
    let mut i = 0usize;
    while i < 256
        invariant
            c@.len() == 256,
            i <= 256,
            total == count_sum(c@, i as int),
            total <= i * 0xffff_ffff_ffff_ffff,
            used == used_count(c@, i as int),
            used <= i,
        decreases 256 - i,
    {
        total = total + (c[i] as u128);
        if c[i] > 0 {
            used = used + 1;
        }
        i = i + 1;
    }
    if total == 0 {
        let mut z: Vec<u16> = Vec::new();
        let mut k = 0usize;
        while k < 256
            invariant
                k <= 256,
                count_sum(c@, 256) == 0,
                z@.len() == k,
                forall|j: int| 0 <= j < k ==> z@[j] == normalize(c@)[j],
            decreases 256 - k,
        {
            z.push(0);
            k = k + 1;
        }
        proof {
            assert(z@ =~= normalize(c@));
        }
        return z;
    }
    let extras: u128 = (MODEL_TOTAL - used) as u128;
    let mut base: Vec<u16> = Vec::new();
    let mut rema: Vec<u128> = Vec::new();
    let mut assigned: u32 = 0;
    let mut i = 0usize;
    while i < 256
        invariant
            c@.len() == 256,
            i <= 256,
            total == count_sum(c@, 256),
            total > 0,
            extras == extras_of(c@),
            extras <= MODEL_TOTAL,
            base@.len() == i,
            rema@.len() == i,
            forall|j: int| 0 <= j < i ==> base@[j] == base_freq(c@, j),
            forall|j: int| 0 <= j < i ==> base@[j] <= 16385,
            forall|j: int| 0 <= j < i ==> rema@[j] == share_rem(c@, j),
            assigned == base_sum(c@, i as int),
            assigned <= i * 16385,
        decreases 256 - i,
    {
        let ci = c[i] as u128;
        proof {
            lemma_count_le_sum(c@, i as int, 256);
            lemma_mul_upper_bound(ci as int, 0xffff_ffff_ffff_ffff, extras as int, 16384);
        }
        let numer = ci * extras;
        let share = numer / total;
        proof {
            lemma_mul_inequality(ci as int, total as int, extras as int);
            lemma_div_is_ordered(numer as int, (total * extras) as int, total as int);
            lemma_mul_is_commutative(total as int, extras as int);
            lemma_div_multiples_vanish(extras as int, total as int);
        }
        if c[i] > 0 {
            base.push((1 + share) as u16);
            assigned = assigned + 1 + (share as u32);
        } else {
            base.push(0);
        }
        rema.push(numer % total);
        i = i + 1;
    }
    proof {
        lemma_base_sum_bound(c@);
    }
    let rem: u32 = MODEL_TOTAL - assigned;
    let mut out: Vec<u16> = Vec::new();
    let mut i = 0usize;
    while i < 256
        invariant
            c@.len() == 256,
            i <= 256,
            total == count_sum(c@, 256),
            total > 0,
            base@.len() == 256,
            rema@.len() == 256,
            forall|j: int| 0 <= j < 256 ==> base@[j] == base_freq(c@, j),
            forall|j: int| 0 <= j < 256 ==> base@[j] <= 16385,
            forall|j: int| 0 <= j < 256 ==> rema@[j] == share_rem(c@, j),
            assigned == base_sum(c@, 256),
            rem + assigned == MODEL_TOTAL,
            out@.len() == i,
            forall|j: int| 0 <= j < i ==> out@[j] == normalize(c@)[j],
        decreases 256 - i,
    {
        let mut f = base[i];
        if c[i] > 0 {
            let mut rank: u32 = 0;
            let mut j = 0usize;
            while j < 256
                invariant
                    c@.len() == 256,
                    rema@.len() == 256,
                    forall|k: int| 0 <= k < 256 ==> rema@[k] == share_rem(c@, k),
                    i < 256,
                    j <= 256,
                    rank == rank_upto(c@, i as int, j as int),
                    rank <= j,
                decreases 256 - j,
            {
                if c[j] > 0 && (rema[j] > rema[i] || (rema[j] == rema[i] && j < i)) {
                    rank = rank + 1;
                }
                j = j + 1;
            }
            if rank < rem {
                f = f + 1;
            }
        }
        out.push(f);
        proof {
            assert(out@[i as int] == normalize(c@)[i as int]);
        }
        i = i + 1;
    }
    proof {
        assert(out@ =~= normalize(c@));
    }
    out
}

impl ByteModel {
    /// Build a model from a byte histogram by deterministic, integer-only
    /// largest-remainder normalization: every present symbol receives one
    /// unit, the remaining `MODEL_TOTAL − used` units are distributed in
    /// proportion to counts by floor division, and the leftover units go one
    /// each to present symbols ordered by (remainder descending, symbol
    /// ascending). An all-zero histogram yields an all-zero model.
    pub fn from_counts(counts: &[u64; 256]) -> (r: Self)
        ensures
            r.freqs() == normalize(counts@),
    {
        let mut c: Vec<u64> = Vec::new();
        let mut i = 0usize;
        while i < 256
            invariant
                i <= 256,
                c@ == counts@.take(i as int),
            decreases 256 - i,
        {
            c.push(counts[i]);
            proof {
                assert(c@ =~= counts@.take(i + 1));
            }
            i = i + 1;
        }
        proof {
            assert(c@ =~= counts@);
        }
        let f = normalize_counts(&c);
        Self::from_freq_vec(f)
    }

    /// Build a model directly from a byte sample (histogram + normalize).
    pub fn from_data(data: &[u8]) -> (r: Self)
        ensures
            r.freqs() == normalize(histogram(data@)),
    {
        let mut counts: Vec<u64> = Vec::new();
        let mut b = 0usize;
        while b < 256
            invariant
                b <= 256,
                counts@.len() == b,
                forall|k: int| 0 <= k < b ==> counts@[k] == 0,
            decreases 256 - b,
        {
            counts.push(0);
            b = b + 1;
        }
        let mut i = 0usize;
        while i < data.len()
            invariant
                i <= data@.len(),
                counts@.len() == 256,
                forall|k: int| 0 <= k < 256 ==> counts@[k] == occurrences(data@, k, i as int),
                forall|k: int| 0 <= k < 256 ==> counts@[k] <= i,
            decreases data.len() - i,
        {
            let v = data[i] as usize;
            let old_count = counts[v];
            counts.set(v, old_count + 1);
            i = i + 1;
        }
        proof {
            assert(counts@ =~= histogram(data@));
        }
        let f = normalize_counts(&counts);
        Self::from_freq_vec(f)
    }
}


// ---------------------------------------------------------------------------
// The self-describing block container
// ---------------------------------------------------------------------------

/// Kind of a payload produced by [`encode_block`].
#[derive(Debug, Clone, Copy, PartialEq, Eq, Structural)]
pub enum BlockKind {
    /// Literal bytes stored verbatim.
    Raw,
    /// rANS-coded bytes with an inline model.
    Rans,
}

impl BlockKind {
    fn to_byte(self) -> (r: u8)
        ensures
            r == if self == BlockKind::Raw {
                KIND_RAW
            } else {
                KIND_RANS
            },
    {
        match self {
            BlockKind::Raw => KIND_RAW,
            BlockKind::Rans => KIND_RANS,
        }
    }

    fn from_byte(b: u8) -> (r: Option<Self>)
        ensures
            r == kind_of_byte(b),
    {
        if b == KIND_RAW {
            Some(BlockKind::Raw)
        } else if b == KIND_RANS {
            Some(BlockKind::Rans)
        } else {
            None
        }
    }
}

/// The block kind a kind byte names.
pub open spec fn kind_of_byte(b: u8) -> Option<BlockKind> {
    if b == KIND_RAW {
        Some(BlockKind::Raw)
    } else if b == KIND_RANS {
        Some(BlockKind::Rans)
    } else {
        None
    }
}

/// Little-endian bytes of a 64-bit value.
pub open spec fn le64(v: nat) -> Seq<u8> {
    seq![
        (v % 0x100) as u8,
        (v / 0x100 % 0x100) as u8,
        (v / 0x1_0000 % 0x100) as u8,
        (v / 0x100_0000 % 0x100) as u8,
        (v / 0x1_0000_0000 % 0x100) as u8,
        (v / 0x100_0000_0000 % 0x100) as u8,
        (v / 0x1_0000_0000_0000 % 0x100) as u8,
        (v / 0x100_0000_0000_0000 % 0x100) as u8,
    ]
}

/// The 64-bit little-endian value of eight bytes starting at `at`.
pub open spec fn read_le64(b: Seq<u8>, at: int) -> nat {
    (b[at] + 0x100 * b[at + 1] + 0x1_0000 * b[at + 2] + 0x100_0000 * b[at + 3] + 0x1_0000_0000
        * b[at + 4] + 0x100_0000_0000 * b[at + 5] + 0x1_0000_0000_0000 * b[at + 6]
        + 0x100_0000_0000_0000 * b[at + 7]) as nat
}

/// The block container of `data`: RANS (kind, length, model, payload) when
/// the model pays for itself, else RAW (kind, length, literal bytes).
pub open spec fn encode_block_spec(data: Seq<u8>) -> Seq<u8> {
    let m = normalize(histogram(data));
    let hdr = le64(data.len());
    let coded = encode_spec(data, m);
    if data.len() > 0 && coded is Ok && coded->Ok_0.len() + MODEL_SERIALIZED < data.len() {
        seq![KIND_RANS] + hdr + freq_bytes(m) + coded->Ok_0
    } else {
        seq![KIND_RAW] + hdr + data
    }
}

/// The structural checks shared by [`decode_block`] and [`check_block`]:
/// `Ok(declared length)` or the first typed failure.
pub open spec fn block_header_spec(bytes: Seq<u8>, max_out: u64) -> Result<nat, VoleError> {
    if bytes.len() < 9 {
        Err(VoleError::Truncated)
    } else if kind_of_byte(bytes[0]) is None {
        Err(VoleError::NonCanonicalEncoding)
    } else if read_le64(bytes, 1) > max_out {
        Err(VoleError::DimensionTooLarge)
    } else {
        let len = read_le64(bytes, 1);
        if kind_of_byte(bytes[0]) == Some(BlockKind::Raw) {
            if 9 + len > usize::MAX {
                Err(VoleError::ArithmeticOverflow)
            } else if bytes.len() < 9 + len {
                Err(VoleError::Truncated)
            } else if bytes.len() != 9 + len {
                Err(VoleError::NonCanonicalEncoding)
            } else {
                Ok(len)
            }
        } else if bytes.len() <= 9 + MODEL_SERIALIZED {
            Err(VoleError::Truncated)
        } else {
            Ok(len)
        }
    }
}

/// The decoded content of a block container.
pub open spec fn decode_block_spec(bytes: Seq<u8>, max_out: u64) -> Result<Seq<u8>, VoleError> {
    match block_header_spec(bytes, max_out) {
        Err(e) => Err(e),
        Ok(len) => if bytes[0] == KIND_RAW {
            Ok(bytes.subrange(9, bytes.len() as int))
        } else if len > usize::MAX {
            Err(VoleError::ArithmeticOverflow)
        } else {
            decode_spec(
                bytes.subrange(9 + MODEL_SERIALIZED, bytes.len() as int),
                freqs_of_bytes(bytes.subrange(9, 9 + MODEL_SERIALIZED)),
                len,
            )
        },
    }
}

/// Push the little-endian bytes of `v`.
fn push_le64(out: &mut Vec<u8>, v: u64)
    ensures
        final(out)@ == old(out)@ + le64(v as nat),
{
    out.push((v % 0x100) as u8);
    out.push((v / 0x100 % 0x100) as u8);
    out.push((v / 0x1_0000 % 0x100) as u8);
    out.push((v / 0x100_0000 % 0x100) as u8);
    out.push((v / 0x1_0000_0000 % 0x100) as u8);
    out.push((v / 0x100_0000_0000 % 0x100) as u8);
    out.push((v / 0x1_0000_0000_0000 % 0x100) as u8);
    out.push((v / 0x100_0000_0000_0000 % 0x100) as u8);
    proof {
        assert(final(out)@ =~= old(out)@ + le64(v as nat));
    }
}

/// Read eight little-endian bytes at `at`.
fn get_le64(b: &[u8], at: usize) -> (r: u64)
    requires
        at + 8 <= b@.len(),
    ensures
        r == read_le64(b@, at as int),
{
    (b[at] as u64) + 0x100 * (b[at + 1] as u64) + 0x1_0000 * (b[at + 2] as u64) + 0x100_0000 * (
    b[at + 3] as u64) + 0x1_0000_0000 * (b[at + 4] as u64) + 0x100_0000_0000 * (b[at + 5] as u64)
        + 0x1_0000_0000_0000 * (b[at + 6] as u64) + 0x100_0000_0000_0000 * (b[at + 7] as u64)
}

/// Append a whole slice.
fn extend(out: &mut Vec<u8>, src: &[u8])
    ensures
        final(out)@ == old(out)@ + src@,
{
    let mut i = 0usize;
    while i < src.len()
        invariant
            i <= src@.len(),
            out@ == old(out)@ + src@.take(i as int),
        decreases src.len() - i,
    {
        out.push(src[i]);
        proof {
            assert(out@ =~= old(out)@ + src@.take(i + 1));
        }
        i = i + 1;
    }
    proof {
        assert(src@.take(src@.len() as int) =~= src@);
    }
}

/// Encode a payload with the RAW-fallback accounting policy:
///
/// ```text
/// RAW:  kind u8 = 0 | out_len u64 | literal bytes
/// RANS: kind u8 = 1 | out_len u64 | model (512 bytes) | rANS payload
/// ```
///
/// rANS is chosen only when `512 + rans_bytes < out_len`; an empty input is
/// always RAW.
pub fn encode_block(data: &[u8]) -> (r: Vec<u8>)
    ensures
        r@ == encode_block_spec(data@),
{
    let len = data.len() as u64;
    let mut out: Vec<u8> = Vec::new();
    if data.len() != 0 {
        let model = ByteModel::from_data(data);
        let coded = encode_with(data, &model);
        if let Ok(rans) = coded {
            if data.len() > MODEL_SERIALIZED && rans.len() < data.len() - MODEL_SERIALIZED {
                out.push(BlockKind::Rans.to_byte());
                push_le64(&mut out, len);
                let mb = model.to_bytes();
                extend(&mut out, mb.as_slice());
                extend(&mut out, rans.as_slice());
                return out;
            }
        }
    }
    out.push(BlockKind::Raw.to_byte());
    push_le64(&mut out, len);
    extend(&mut out, data);
    out
}

/// Decode a self-describing block (see [`encode_block`]). `max_out` bounds
/// the declared output length before any work, so a hostile length prefix
/// cannot drive an unbounded allocation.
pub fn decode_block(bytes: &[u8], max_out: u64) -> (r: Result<Vec<u8>, VoleError>)
    ensures
        match r {
            Ok(v) => decode_block_spec(bytes@, max_out) == Ok::<Seq<u8>, VoleError>(v@),
            Err(e) => decode_block_spec(bytes@, max_out) == Err::<Seq<u8>, VoleError>(e),
        },
{
    let len = block_header(bytes, max_out)?;
    if bytes[0] == KIND_RAW {
        let body = vstd::slice::slice_subrange(bytes, 9, bytes.len());
        return Ok(vstd::slice::slice_to_vec(body));
    }
    if len > usize::MAX as u64 {
        return Err(VoleError::ArithmeticOverflow);
    }
    let mb = vstd::slice::slice_subrange(bytes, 9, 9 + MODEL_SERIALIZED);
    let model = ByteModel::from_bytes(mb)?;
    let payload = vstd::slice::slice_subrange(bytes, 9 + MODEL_SERIALIZED, bytes.len());
    decode_with(payload, &model, len as usize)
}

/// The structural header checks: `Ok(declared length)` or a typed error.
fn block_header(bytes: &[u8], max_out: u64) -> (r: Result<u64, VoleError>)
    ensures
        match r {
            Ok(n) => block_header_spec(bytes@, max_out) == Ok::<nat, VoleError>(n as nat),
            Err(e) => block_header_spec(bytes@, max_out) == Err::<nat, VoleError>(e),
        },
{
    if bytes.len() < 9 {
        return Err(VoleError::Truncated);
    }
    let kind = match BlockKind::from_byte(bytes[0]) {
        Some(k) => k,
        None => return Err(VoleError::NonCanonicalEncoding),
    };
    let len = get_le64(bytes, 1);
    if len > max_out {
        return Err(VoleError::DimensionTooLarge);
    }
    match kind {
        BlockKind::Raw => {
            if len > (usize::MAX - 9) as u64 {
                return Err(VoleError::ArithmeticOverflow);
            }
            let need = 9 + len as usize;
            if bytes.len() < need {
                return Err(VoleError::Truncated);
            }
            if bytes.len() != need {
                return Err(VoleError::NonCanonicalEncoding);
            }
            Ok(len)
        },
        BlockKind::Rans => {
            if bytes.len() <= 9 + MODEL_SERIALIZED {
                return Err(VoleError::Truncated);
            }
            Ok(len)
        },
    }
}

/// Structural validation of a block without decoding it: valid kind byte,
/// declared length within `max_out`, RAW exactly `9 + out_len` bytes, RANS
/// carrying at least the 512-byte inline model.
pub fn check_block(bytes: &[u8], max_out: u64) -> (r: Result<(), VoleError>)
    ensures
        r is Ok <==> block_header_spec(bytes@, max_out) is Ok,
        r matches Err(e) ==> block_header_spec(bytes@, max_out) == Err::<nat, VoleError>(e),
{
    block_header(bytes, max_out)?;
    Ok(())
}

/// Reading back eight little-endian bytes of a 64-bit value gives the value.
pub proof fn lemma_le64_roundtrip(v: nat, pre: Seq<u8>, t: Seq<u8>)
    requires
        v <= u64::MAX,
    ensures
        read_le64(pre + le64(v) + t, pre.len() as int) == v,
{
    let b = pre + le64(v) + t;
    let at = pre.len() as int;
    assert(b[at] == le64(v)[0]);
    assert(b[at + 1] == le64(v)[1]);
    assert(b[at + 2] == le64(v)[2]);
    assert(b[at + 3] == le64(v)[3]);
    assert(b[at + 4] == le64(v)[4]);
    assert(b[at + 5] == le64(v)[5]);
    assert(b[at + 6] == le64(v)[6]);
    assert(b[at + 7] == le64(v)[7]);
    lemma_fundamental_div_mod(v as int, 0x100);
    lemma_fundamental_div_mod((v / 0x100) as int, 0x100);
    lemma_fundamental_div_mod((v / 0x1_0000) as int, 0x100);
    lemma_fundamental_div_mod((v / 0x100_0000) as int, 0x100);
    lemma_fundamental_div_mod((v / 0x1_0000_0000) as int, 0x100);
    lemma_fundamental_div_mod((v / 0x100_0000_0000) as int, 0x100);
    lemma_fundamental_div_mod((v / 0x1_0000_0000_0000) as int, 0x100);
    lemma_div_denominator(v as int, 0x100, 0x100);
    lemma_div_denominator(v as int, 0x1_0000, 0x100);
    lemma_div_denominator(v as int, 0x100_0000, 0x100);
    lemma_div_denominator(v as int, 0x1_0000_0000, 0x100);
    lemma_div_denominator(v as int, 0x100_0000_0000, 0x100);
    lemma_div_denominator(v as int, 0x1_0000_0000_0000, 0x100);
    assert(v / 0x100_0000_0000_0000 < 0x100) by {
        lemma_div_is_ordered(v as int, 0xffff_ffff_ffff_ffff, 0x100_0000_0000_0000);
    }
    lemma_small_mod((v / 0x100_0000_0000_0000) as nat, 0x100);
}

/// A block decodes back to exactly the bytes it was encoded from whenever
/// the length bound admits them.
#[verifier::spinoff_prover]
#[verifier::rlimit(40)]
pub proof fn law_block_roundtrip(data: Seq<u8>, max_out: u64)
    requires
        data.len() <= max_out,
        data.len() + 9 <= usize::MAX,
    ensures
        decode_block_spec(encode_block_spec(data), max_out) == Ok::<Seq<u8>, VoleError>(data),
{
    let m = normalize(histogram(data));
    let hdr = le64(data.len());
    let coded = encode_spec(data, m);
    let b = encode_block_spec(data);
    if data.len() > 0 && coded is Ok && coded->Ok_0.len() + MODEL_SERIALIZED < data.len() {
        let p = coded->Ok_0;
        lemma_le64_roundtrip(data.len(), seq![KIND_RANS], freq_bytes(m) + p);
        assert(b =~= seq![KIND_RANS] + hdr + (freq_bytes(m) + p));
        assert(b.subrange(9, 9 + MODEL_SERIALIZED) =~= freq_bytes(m));
        assert(b.subrange(9 + MODEL_SERIALIZED, b.len() as int) =~= p);
        lemma_model_bytes_roundtrip(m);
        law_decode_inverts_encode(data, m);
    } else {
        lemma_le64_roundtrip(data.len(), seq![KIND_RAW], data);
        assert(b.subrange(9, b.len() as int) =~= data);
    }
}

} // verus!
