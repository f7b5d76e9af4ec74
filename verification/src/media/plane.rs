//! Canonical sample planes.
//!
//! Canonical storage is planar, tight, little-endian, with no stride
//! padding: up to 8 active bits per sample live in a `u8` plane; 9..=16
//! active bits live in a `u16` plane whose active bits are the low bits
//! (padding high bits must be zero). Sample payloads are validated against
//! the declared geometry and bit depth at construction, so a [`Plane`] value
//! is canonical by type.

use vstd::arithmetic::div_mod::*;
use vstd::arithmetic::mul::*;
use vstd::arithmetic::power2::*;
use vstd::bits::*;
use vstd::prelude::*;

use crate::error::VoleError;
use crate::media::layout::Component;

verus! {

/// Active sample depth in bits (1..=16).
#[derive(Debug, Clone, Copy, PartialEq, Eq, Hash, Structural)]
pub struct BitDepth(u8);

/// Largest sample value of a depth of `bits` bits: `2^bits − 1`.
pub open spec fn max_sample_of(bits: u8) -> nat {
    (pow2(bits as nat) - 1) as nat
}

impl BitDepth {
    #[verifier::type_invariant]
    spec fn inv(self) -> bool {
        1 <= self.0 <= 16
    }

    /// Active bit count (model).
    pub closed spec fn b(self) -> u8 {
        self.0
    }

    /// Largest sample value at this depth (model).
    pub open spec fn max(self) -> nat {
        max_sample_of(self.b())
    }

    /// A depth of `bits ∈ 1..=16`.
    pub fn new(bits: u8) -> (r: Result<Self, VoleError>)
        ensures
            r is Ok <==> 1 <= bits <= 16,
            r matches Ok(d) ==> d.b() == bits,
            r matches Err(e) ==> e == VoleError::InvalidSamples,
    {
        if bits == 0 || bits > 16 {
            return Err(VoleError::InvalidSamples);
        }
        Ok(BitDepth(bits))
    }

    /// Active bit count.
    pub fn bits(self) -> (r: u8)
        ensures
            r == self.b(),
            1 <= r <= 16,
    {
        proof {
            use_type_invariant(&self);
        }
        self.0
    }

    /// Whether samples fit one byte (at most 8 bits).
    pub fn is_byte_depth(self) -> (r: bool)
        ensures
            r <==> self.b() <= 8,
    {
        self.0 <= 8
    }

    /// The canonical storage width for this depth.
    pub fn storage(self) -> (r: PlaneStorage)
        ensures
            r == storage_of(self.b()),
    {
        if self.is_byte_depth() {
            PlaneStorage::U8
        } else {
            PlaneStorage::U16
        }
    }

    /// The largest canonical sample value at this depth (`2^bits − 1`).
    pub fn max_sample(self) -> (r: u32)
        ensures
            r == self.max(),
            r <= 0xffff,
            self.b() <= 8 ==> r <= 0xff,
    {
        proof {
            use_type_invariant(&self);
            lemma_max_sample_small(self);
        }
        let b = self.0 as u32;
        proof {
            lemma_u32_pow2_no_overflow(b as nat);
            if b < 16 {
                lemma_pow2_strictly_increases(b as nat, 16);
            }
            lemma2_to64();
            lemma_u32_shl_is_mul(1, b);
        }
        (1u32 << b) - 1
    }

    /// Whether `sample` is inside the active range of this depth.
    pub fn contains(self, sample: u32) -> (r: bool)
        ensures
            r <==> sample <= self.max(),
    {
        sample <= self.max_sample()
    }
}

/// Canonical storage width of a plane.
#[derive(Debug, Clone, Copy, PartialEq, Eq, Hash, Structural)]
pub enum PlaneStorage {
    /// One byte per sample (depth ≤ 8).
    U8,
    /// One `u16` per sample (depth 9..=16), little-endian on the wire.
    U16,
}

/// Storage width of a depth.
pub open spec fn storage_of(bits: u8) -> PlaneStorage {
    if bits <= 8 {
        PlaneStorage::U8
    } else {
        PlaneStorage::U16
    }
}

/// Bytes per stored sample.
pub open spec fn bytes_per(s: PlaneStorage) -> nat {
    match s {
        PlaneStorage::U8 => 1,
        PlaneStorage::U16 => 2,
    }
}

impl PlaneStorage {
    /// Bytes per stored sample.
    pub fn bytes_per_sample(self) -> (r: u64)
        ensures
            r == bytes_per(self),
    {
        match self {
            PlaneStorage::U8 => 1,
            PlaneStorage::U16 => 2,
        }
    }
}

/// The tightly packed canonical sample payload of a plane.
#[derive(Debug, Clone, PartialEq, Eq)]
pub enum PlaneData {
    /// `u8` samples (depth ≤ 8).
    U8(Vec<u8>),
    /// `u16` samples (depth 9..=16), active bits in the low bits.
    U16(Vec<u16>),
}

/// The largest sample a plane at depth `d` can store: a full byte for byte
/// depths, the active maximum otherwise.
pub open spec fn holdable(d: BitDepth) -> nat {
    if d.b() <= 8 {
        255
    } else {
        d.max()
    }
}

/// The samples of a payload, widened to `u32`.
pub open spec fn data_samples(d: PlaneData) -> Seq<u32> {
    match d {
        PlaneData::U8(v) => v@.map_values(|x: u8| x as u32),
        PlaneData::U16(v) => v@.map_values(|x: u16| x as u32),
    }
}

/// Sample count of a payload.
pub open spec fn data_len(d: PlaneData) -> nat {
    match d {
        PlaneData::U8(v) => v@.len(),
        PlaneData::U16(v) => v@.len(),
    }
}

impl PlaneData {
    /// Sample count.
    pub fn len(&self) -> (r: usize)
        ensures
            r == data_len(*self),
    {
        match self {
            PlaneData::U8(v) => v.len(),
            PlaneData::U16(v) => v.len(),
        }
    }

    /// Whether the payload is empty.
    pub fn is_empty(&self) -> (r: bool)
        ensures
            r <==> data_len(*self) == 0,
    {
        self.len() == 0
    }
}

/// Little-endian byte form of a `u16` sequence.
pub open spec fn le_bytes_of(words: Seq<u16>) -> Seq<u8> {
    Seq::new(
        2 * words.len(),
        |i: int|
            if i % 2 == 0 {
                (words[i / 2] % 256) as u8
            } else {
                (words[i / 2] / 256) as u8
            },
    )
}

/// The `u16` words read from a little-endian byte form of even length.
pub open spec fn words_of_le(bytes: Seq<u8>) -> Seq<u16> {
    Seq::new(bytes.len() / 2, |i: int| (bytes[2 * i] + 256 * bytes[2 * i + 1]) as u16)
}

/// The canonical byte form of a payload.
pub open spec fn data_bytes(d: PlaneData) -> Seq<u8> {
    match d {
        PlaneData::U8(v) => v@,
        PlaneData::U16(v) => le_bytes_of(v@),
    }
}

/// Whether a plane with these parts is canonical.
pub open spec fn plane_ok(
    width: u32,
    height: u32,
    depth: BitDepth,
    subsample_x: u8,
    subsample_y: u8,
    data: PlaneData,
) -> bool {
    &&& width > 0 && height > 0
    &&& subsample_x <= 3 && subsample_y <= 3
    &&& data_len(data) == width * height
    &&& (data is U8 <==> depth.b() <= 8)
    &&& data is U16 ==> forall|i: int|
        0 <= i < data_len(data) ==> data_samples(data)[i] <= depth.max()
}

/// The error [`Plane::new`] reports for non-canonical parts.
pub open spec fn plane_error(width: u32, height: u32, subsample_x: u8, subsample_y: u8) -> VoleError {
    if width == 0 || height == 0 || subsample_x > 3 || subsample_y > 3 {
        VoleError::GeometryMismatch
    } else {
        VoleError::InvalidSamples
    }
}

/// A copy of a payload, sample for sample.
pub(crate) fn copy_data(d: &PlaneData) -> (r: PlaneData)
    ensures
        data_samples(r) == data_samples(*d),
        data_bytes(r) == data_bytes(*d),
        data_len(r) == data_len(*d),
        r is U8 <==> d is U8,
{
    match d {
        PlaneData::U8(v) => PlaneData::U8(v.clone()),
        PlaneData::U16(v) => PlaneData::U16(v.clone()),
    }
}

/// A canonical sample plane: component, geometry, depth, subsampling
/// exponents (informational) and the validated tight payload.
#[derive(Debug, PartialEq, Eq)]
pub struct Plane {
    component: Component,
    width: u32,
    height: u32,
    bit_depth: BitDepth,
    subsample_x: u8,
    subsample_y: u8,
    data: PlaneData,
}

impl Clone for Plane {
    fn clone(&self) -> (r: Self)
        ensures
            r.comp() == self.comp(),
            r.w() == self.w(),
            r.h() == self.h(),
            r.depth() == self.depth(),
            r.sx() == self.sx(),
            r.sy() == self.sy(),
            r.samples() == self.samples(),
            r.bytes() == self.bytes(),
    {
        proof {
            use_type_invariant(self);
        }
        Plane {
            component: self.component,
            width: self.width,
            height: self.height,
            bit_depth: self.bit_depth,
            subsample_x: self.subsample_x,
            subsample_y: self.subsample_y,
            data: copy_data(&self.data),
        }
    }
}

impl Plane {
    #[verifier::type_invariant]
    spec fn inv(self) -> bool {
        &&& plane_ok(
            self.width,
            self.height,
            self.bit_depth,
            self.subsample_x,
            self.subsample_y,
            self.data,
        )
        &&& 1 <= self.bit_depth.b() <= 16
    }

    /// Component (model).
    pub closed spec fn comp(self) -> Component {
        self.component
    }

    /// Width (model).
    pub closed spec fn w(self) -> u32 {
        self.width
    }

    /// Height (model).
    pub closed spec fn h(self) -> u32 {
        self.height
    }

    /// Depth (model).
    pub closed spec fn depth(self) -> BitDepth {
        self.bit_depth
    }

    /// Horizontal subsampling exponent (model).
    pub closed spec fn sx(self) -> u8 {
        self.subsample_x
    }

    /// Vertical subsampling exponent (model).
    pub closed spec fn sy(self) -> u8 {
        self.subsample_y
    }

    /// Payload (model).
    pub closed spec fn pdata(self) -> PlaneData {
        self.data
    }

    /// The samples in row-major order (model).
    pub open spec fn samples(self) -> Seq<u32> {
        data_samples(self.pdata())
    }

    /// The canonical byte form (model).
    pub open spec fn bytes(self) -> Seq<u8> {
        data_bytes(self.pdata())
    }

    /// Whether this value is a canonical plane. Every plane that executable
    /// code holds is one: the constructors refuse anything else.
    pub closed spec fn valid(self) -> bool {
        self.inv()
    }

    /// Every plane held by executable code is canonical (a proof aid with
    /// no run-time effect).
    pub fn witness_valid(&self)
        ensures
            self.valid(),
    {
        proof {
            use_type_invariant(self);
        }
    }

    /// What a canonical plane's samples and bytes are: one sample per pixel,
    /// each stored in one byte (depth at most 8) or as a little-endian pair.
    pub proof fn lemma_valid_bytes(self)
        requires
            self.valid(),
        ensures
            1 <= self.depth().b() <= 16,
            self.samples().len() == self.w() * self.h(),
            self.bytes().len() == self.samples().len() * bytes_per(storage_of(self.depth().b())),
            forall|k: int|
                0 <= k < self.samples().len() && self.depth().b() > 8 ==> #[trigger] self.samples()[k]
                    <= self.depth().max(),
            forall|k: int|
                0 <= k < self.samples().len() && self.depth().b() <= 8 ==> #[trigger] self.samples()[k]
                    == self.bytes()[k] as u32,
            forall|k: int|
                0 <= k < self.samples().len() && self.depth().b() > 8 ==> #[trigger] self.samples()[k]
                    == self.bytes()[2 * k] + 256 * self.bytes()[2 * k + 1],
    {
        match self.data {
            PlaneData::U8(v) => {},
            PlaneData::U16(v) => {
                assert forall|k: int|
                    0 <= k < self.samples().len() implies #[trigger] self.samples()[k] == self.bytes()[2 * k]
                        + 256 * self.bytes()[2 * k + 1] by {
                    let x = v@[k];
                    assert((2 * k) / 2 == k && (2 * k) % 2 == 0);
                    assert((2 * k + 1) / 2 == k && (2 * k + 1) % 2 == 1);
                    assert(x / 256 < 256);
                    assert(x % 256 + 256 * (x / 256) == x);
                }
            },
        }
    }

    /// The canonical byte form of a plane reads back as the same plane:
    /// [`Plane::from_canonical_bytes`] accepts it with the plane's own
    /// geometry and depth, and the plane it builds has the same bytes and
    /// samples.
    pub proof fn law_canonical_bytes_roundtrip(self)
        requires
            self.valid(),
        ensures
            canonical_bytes_ok(self.w(), self.h(), self.depth(), self.sx(), self.sy(), self.bytes()),
            decoded_samples(self.depth(), self.bytes()) == self.samples(),
    {
        self.lemma_valid_bytes();
        match self.data {
            PlaneData::U8(v) => {
                assert(decoded_samples(self.depth(), self.bytes()) =~= self.samples());
            },
            PlaneData::U16(v) => {
                lemma_le_roundtrip_words(v@);
                assert(decoded_samples(self.depth(), self.bytes()) =~= self.samples());
            },
        }
    }

    /// Build a canonical plane; non-canonical parts are refused:
    /// `GeometryMismatch` for zero geometry or subsampling above 3,
    /// `InvalidSamples` for a length, storage or active-bit violation.
    #[verifier::loop_isolation(false)]
    pub fn new(
        component: Component,
        width: u32,
        height: u32,
        bit_depth: BitDepth,
        subsample_x: u8,
        subsample_y: u8,
        data: PlaneData,
    ) -> (r: Result<Self, VoleError>)
        ensures
            r is Ok <==> plane_ok(width, height, bit_depth, subsample_x, subsample_y, data),
            r matches Ok(p) ==> p.comp() == component && p.w() == width && p.h() == height
                && p.depth() == bit_depth && p.sx() == subsample_x && p.sy() == subsample_y
                && p.pdata() == data,
            r matches Err(e) ==> e == plane_error(width, height, subsample_x, subsample_y),
    {
        proof {
            use_type_invariant(&bit_depth);
        }
        if width == 0 || height == 0 || subsample_x > 3 || subsample_y > 3 {
            return Err(VoleError::GeometryMismatch);
        }
        proof {
            lemma_mul_upper_bound(width as int, 0xffff_ffff, height as int, 0xffff_ffff);
        }
        let count = (width as u64) * (height as u64);
        match &data {
            PlaneData::U8(v) => {
                if !bit_depth.is_byte_depth() {
                    return Err(VoleError::InvalidSamples);
                }
                if v.len() as u64 != count {
                    return Err(VoleError::InvalidSamples);
                }
            },
            PlaneData::U16(v) => {
                if bit_depth.is_byte_depth() {
                    return Err(VoleError::InvalidSamples);
                }
                if v.len() as u64 != count {
                    return Err(VoleError::InvalidSamples);
                }
                let max = bit_depth.max_sample();
                let mut i = 0usize;
                while i < v.len()
                    invariant
                        i <= v.len(),
                        max == bit_depth.max(),
                        data == PlaneData::U16(*v),
                        forall|j: int| 0 <= j < i ==> v@[j] <= max,
                    decreases v.len() - i,
                {
                    if (v[i] as u32) > max {
                        assert(data_samples(data)[i as int] == v@[i as int] as u32);
                        return Err(VoleError::InvalidSamples);
                    }
                    i = i + 1;
                }
            },
        }
        Ok(Plane { component, width, height, bit_depth, subsample_x, subsample_y, data })
    }

    /// Build a canonical plane from its tight canonical byte form (row-major
    /// samples, little-endian `u16` words for depths above 8).
    #[verifier::loop_isolation(false)]
    pub fn from_canonical_bytes(
        component: Component,
        width: u32,
        height: u32,
        bit_depth: BitDepth,
        subsample_x: u8,
        subsample_y: u8,
        bytes: &[u8],
    ) -> (r: Result<Self, VoleError>)
        ensures
            r is Ok <==> canonical_bytes_ok(
                width,
                height,
                bit_depth,
                subsample_x,
                subsample_y,
                bytes@,
            ),
            r matches Ok(p) ==> p.comp() == component && p.w() == width && p.h() == height
                && p.depth() == bit_depth && p.sx() == subsample_x && p.sy() == subsample_y
                && p.bytes() == bytes@ && p.samples() == decoded_samples(bit_depth, bytes@),
            r matches Err(e) ==> e == if width == 0 || height == 0 {
                VoleError::GeometryMismatch
            } else if width * height * bytes_per(storage_of(bit_depth.b())) > u64::MAX {
                VoleError::ArithmeticOverflow
            } else if bytes@.len() != width * height * bytes_per(storage_of(bit_depth.b())) {
                VoleError::InvalidSamples
            } else if bit_depth.b() > 8 && !(forall|i: int|
                0 <= i < width * height ==> decoded_samples(bit_depth, bytes@)[i]
                    <= bit_depth.max()) {
                VoleError::InvalidSamples
            } else {
                plane_error(width, height, subsample_x, subsample_y)
            },
    {
        proof {
            use_type_invariant(&bit_depth);
        }
        if width == 0 || height == 0 {
            return Err(VoleError::GeometryMismatch);
        }
        proof {
            lemma_mul_upper_bound(width as int, 0xffff_ffff, height as int, 0xffff_ffff);
        }
        let count = (width as u64) * (height as u64);
        let storage = bit_depth.storage();
        let per = storage.bytes_per_sample();
        let blen = bytes.len() as u64;
        let want = match count.checked_mul(per) {
            Some(w) => w,
            None => {
                return Err(VoleError::ArithmeticOverflow);
            },
        };
        if blen != want {
            return Err(VoleError::InvalidSamples);
        }
        let data = match storage {
            PlaneStorage::U8 => PlaneData::U8(vstd::slice::slice_to_vec(bytes)),
            PlaneStorage::U16 => {
                let max = bit_depth.max_sample();
                let n = bytes.len() / 2;
                let mut words: Vec<u16> = Vec::new();
                let mut i = 0usize;
                while i < n
                    invariant
                        n == bytes@.len() / 2,
                        bytes@.len() == 2 * (width * height),
                        bit_depth.b() > 8,
                        i <= n,
                        max == bit_depth.max(),
                        words@ == words_of_le(bytes@).take(i as int),
                        forall|j: int| 0 <= j < i ==> words@[j] <= max,
                    decreases n - i,
                {
                    assert(2 * i + 1 < bytes@.len());
                    let w = (bytes[2 * i] as u16) + (bytes[2 * i + 1] as u16) * 256;
                    assert(w == words_of_le(bytes@)[i as int]);
                    if (w as u32) > max {
                        assert(decoded_samples(bit_depth, bytes@)[i as int] == w as u32);
                        return Err(VoleError::InvalidSamples);
                    }
                    words.push(w);
                    proof {
                        assert(words@ =~= words_of_le(bytes@).take(i + 1));
                    }
                    i = i + 1;
                }
                proof {
                    assert(words@ =~= words_of_le(bytes@));
                    lemma_le_roundtrip_bytes(bytes@);
                }
                PlaneData::U16(words)
            },
        };
        Self::new(component, width, height, bit_depth, subsample_x, subsample_y, data)
    }

    /// Component.
    pub fn component(&self) -> (r: Component)
        ensures
            r == self.comp(),
    {
        self.component
    }

    /// Width in samples.
    pub fn width(&self) -> (r: u32)
        ensures
            r == self.w(),
            r > 0,
    {
        proof {
            use_type_invariant(self);
        }
        self.width
    }

    /// Height in samples.
    pub fn height(&self) -> (r: u32)
        ensures
            r == self.h(),
            r > 0,
    {
        proof {
            use_type_invariant(self);
        }
        self.height
    }

    /// Sample count (`width × height`).
    pub fn sample_count(&self) -> (r: u64)
        ensures
            r == self.w() * self.h(),
            r == self.samples().len(),
    {
        proof {
            use_type_invariant(self);
            lemma_mul_upper_bound(self.width as int, 0xffff_ffff, self.height as int, 0xffff_ffff);
        }
        (self.width as u64) * (self.height as u64)
    }

    /// Active bit depth.
    pub fn bit_depth(&self) -> (r: BitDepth)
        ensures
            r == self.depth(),
    {
        self.bit_depth
    }

    /// Horizontal subsampling exponent (informational).
    pub fn subsample_x(&self) -> (r: u8)
        ensures
            r == self.sx(),
            r <= 3,
    {
        proof {
            use_type_invariant(self);
        }
        self.subsample_x
    }

    /// Vertical subsampling exponent (informational).
    pub fn subsample_y(&self) -> (r: u8)
        ensures
            r == self.sy(),
            r <= 3,
    {
        proof {
            use_type_invariant(self);
        }
        self.subsample_y
    }

    /// Storage width.
    pub fn storage(&self) -> (r: PlaneStorage)
        ensures
            r == storage_of(self.depth().b()),
    {
        self.bit_depth.storage()
    }

    /// The tight canonical byte form: row-major, `u16` words little-endian
    /// for depths above 8; length `sample_count × bytes_per_sample`.
    pub fn canonical_bytes(&self) -> (r: Vec<u8>)
        ensures
            r@ == self.bytes(),
            r@.len() == self.w() * self.h() * bytes_per(storage_of(self.depth().b())),
    {
        proof {
            use_type_invariant(self);
        }
        match &self.data {
            PlaneData::U8(v) => v.clone(),
            PlaneData::U16(v) => {
                let mut out: Vec<u8> = Vec::new();
                let mut i = 0usize;
                while i < v.len()
                    invariant
                        i <= v.len(),
                        v@.len() == self.w() * self.h(),
                        out@ == le_bytes_of(v@).take(2 * i),
                    decreases v.len() - i,
                {
                    let s = v[i];
                    out.push((s % 256) as u8);
                    out.push((s / 256) as u8);
                    proof {
                        assert(out@ =~= le_bytes_of(v@).take(2 * (i + 1)));
                    }
                    i = i + 1;
                }
                proof {
                    assert(out@ =~= le_bytes_of(v@));
                }
                out
            },
        }
    }

    /// A one-sample gray plane, used as a stand-in while a plane is edited.
    pub(crate) fn vacant() -> (r: Plane) {
        let data = PlaneData::U8(vec![0u8]);
        let d = BitDepth(8);
        assert(data_len(data) == 1 * 1);
        Plane {
            component: Component::Gray,
            width: 1,
            height: 1,
            bit_depth: d,
            subsample_x: 0,
            subsample_y: 0,
            data,
        }
    }

    /// Overwrite sample `i` (row-major) with `value`, which must lie in the
    /// plane's active depth.
    pub fn set_sample(&mut self, i: usize, value: u32)
        requires
            i < old(self).samples().len(),
            value <= old(self).depth().max(),
        ensures
            final(self).comp() == old(self).comp(),
            final(self).w() == old(self).w(),
            final(self).h() == old(self).h(),
            final(self).depth() == old(self).depth(),
            final(self).sx() == old(self).sx(),
            final(self).sy() == old(self).sy(),
            final(self).samples() == old(self).samples().update(i as int, value),
    {
        let mut taken = Plane::vacant();
        std::mem::swap(self, &mut taken);
        proof {
            use_type_invariant(&taken);
            lemma_max_sample_small(taken.bit_depth);
        }
        let Plane { component, width, height, bit_depth, subsample_x, subsample_y, data } = taken;
        let ghost before = data_samples(data);
        let data = match data {
            PlaneData::U8(mut v) => {
                v.set(i, value as u8);
                proof {
                    assert(v@.map_values(|x: u8| x as u32) =~= before.update(i as int, value));
                }
                PlaneData::U8(v)
            },
            PlaneData::U16(mut v) => {
                v.set(i, value as u16);
                proof {
                    assert(v@.map_values(|x: u16| x as u32) =~= before.update(i as int, value));
                }
                PlaneData::U16(v)
            },
        };
        *self = Plane { component, width, height, bit_depth, subsample_x, subsample_y, data };
    }

    /// Number of stored samples, as an index bound.
    pub fn sample_len(&self) -> (r: usize)
        ensures
            r == self.samples().len(),
            r == self.w() * self.h(),
    {
        proof {
            use_type_invariant(self);
        }
        self.data.len()
    }

    /// Sample `i` (row-major); it fits the plane's storage: a byte for byte
    /// depths, the active depth otherwise.
    pub fn sample(&self, i: usize) -> (r: u32)
        requires
            i < self.samples().len(),
        ensures
            r == self.samples()[i as int],
            r <= holdable(self.depth()),
    {
        proof {
            use_type_invariant(self);
        }
        match &self.data {
            PlaneData::U8(v) => v[i] as u32,
            PlaneData::U16(v) => v[i] as u32,
        }
    }

    /// Raw sample payload.
    pub fn data(&self) -> (r: &PlaneData)
        ensures
            *r == self.pdata(),
    {
        &self.data
    }

    /// Consume into parts.
    pub fn into_parts(self) -> (r: (u32, u32, BitDepth, PlaneData))
        ensures
            r == (self.w(), self.h(), self.depth(), self.pdata()),
            plane_ok(r.0, r.1, r.2, 0, 0, r.3),
    {
        proof {
            use_type_invariant(&self);
        }
        (self.width, self.height, self.bit_depth, self.data)
    }
}

/// The samples a canonical byte form decodes to at `depth`.
pub open spec fn decoded_samples(depth: BitDepth, bytes: Seq<u8>) -> Seq<u32> {
    if depth.b() <= 8 {
        bytes.map_values(|x: u8| x as u32)
    } else {
        words_of_le(bytes).map_values(|x: u16| x as u32)
    }
}

/// Whether a canonical byte form is accepted by
/// [`Plane::from_canonical_bytes`].
pub open spec fn canonical_bytes_ok(
    width: u32,
    height: u32,
    depth: BitDepth,
    subsample_x: u8,
    subsample_y: u8,
    bytes: Seq<u8>,
) -> bool {
    &&& width > 0 && height > 0
    &&& subsample_x <= 3 && subsample_y <= 3
    &&& bytes.len() == width * height * bytes_per(storage_of(depth.b()))
    &&& depth.b() > 8 ==> forall|i: int|
        0 <= i < width * height ==> decoded_samples(depth, bytes)[i] <= depth.max()
}

/// Reading little-endian words and writing them back is the identity on an
/// even-length byte form.
pub proof fn lemma_le_roundtrip_bytes(bytes: Seq<u8>)
    requires
        bytes.len() % 2 == 0,
    ensures
        le_bytes_of(words_of_le(bytes)) =~= bytes,
{
    let words = words_of_le(bytes);
    assert forall|i: int| 0 <= i < bytes.len() implies le_bytes_of(words)[i] == bytes[i] by {
        let k = i / 2;
        lemma_fundamental_div_mod(i, 2);
        let w = bytes[2 * k] + 256 * bytes[2 * k + 1];
        assert(w % 256 == bytes[2 * k]) by {
            lemma_mod_multiples_vanish(bytes[2 * k + 1] as int, bytes[2 * k] as int, 256);
            lemma_small_mod(bytes[2 * k] as nat, 256);
        }
        assert(w / 256 == bytes[2 * k + 1]) by {
            lemma_fundamental_div_mod_converse_div(w, 256, bytes[2 * k + 1] as int, bytes[2 * k] as int);
        }
    }
}

/// Writing words little-endian and reading them back is the identity.
pub proof fn lemma_le_roundtrip_words(words: Seq<u16>)
    ensures
        words_of_le(le_bytes_of(words)) =~= words,
{
    let bytes = le_bytes_of(words);
    assert forall|k: int| 0 <= k < words.len() implies words_of_le(bytes)[k] == words[k] by {
        assert((2 * k) / 2 == k);
        assert((2 * k + 1) / 2 == k);
        assert((2 * k) % 2 == 0);
        assert((2 * k + 1) % 2 == 1);
        lemma_fundamental_div_mod(words[k] as int, 256);
    }
}

/// Depths with the same bit count are the same depth.
pub proof fn lemma_depth_eq(a: BitDepth, b: BitDepth)
    requires
        a.b() == b.b(),
    ensures
        a == b,
{
}

/// The largest sample of a depth fits its storage word.
pub proof fn lemma_max_sample_small(d: BitDepth)
    requires
        1 <= d.b() <= 16,
    ensures
        d.max() <= 0xffff,
        d.b() <= 8 ==> d.max() <= 0xff,
{
    lemma2_to64();
    if d.b() < 16 {
        lemma_pow2_strictly_increases(d.b() as nat, 16);
    }
    if d.b() < 8 {
        lemma_pow2_strictly_increases(d.b() as nat, 8);
    }
}

} // verus!
