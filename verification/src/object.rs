//! Immutable content objects and their identity.
//!
//! An **object** is immutable visual content that can be reused across time:
//! a bounded Gray8 raster patch (stored, uniform, or palette-index) plus its
//! geometry. Its identity is the id under which it is declared in the object
//! table and referenced by instances.

use vstd::arithmetic::mul::*;
use vstd::prelude::*;

use crate::error::VoleError;
use crate::limits::Limits;

verus! {

/// Local object identity in format-v1 index space.
#[derive(Debug, Clone, Copy, PartialEq, Eq, Hash, PartialOrd, Ord, Structural)]
pub struct ObjectId(pub u32);

/// Immutable object content kind in format v1.
#[derive(Debug, Clone, Copy, PartialEq, Eq, Structural)]
pub enum ObjectKindKind {
    /// A uniform fill of a declared rectangle; stores one sample.
    Fill,
    /// A literal Gray8 raster, tight row-major.
    RawRaster,
    /// A palette-index raster: tight row-major indices into the palette bound
    /// to the painting instance.
    IndexRaster,
    /// A bounded procedural content program, computed at materialization.
    Generator,
}

/// Record kind byte of a Gray8 raster.
pub const RECORD_RAW_RASTER: u8 = 0x01;

/// Record kind byte of a uniform fill.
pub const RECORD_FILL: u8 = 0x02;

/// Record kind byte of a palette-index raster.
pub const RECORD_INDEX_RASTER: u8 = 0x05;

/// A declared immutable object.
#[derive(Debug)]
pub struct Object {
    kind: ObjectKindKind,
    width: u32,
    height: u32,
    /// Raster samples (RawRaster), index samples (IndexRaster), or one byte
    /// (Fill).
    storage: Vec<u8>,
}

/// Whether `(kind, width, height, storage)` is a well-formed stored object:
/// nonzero geometry, one byte for a fill and exactly `width·height` bytes for
/// the raster kinds.
pub open spec fn object_shape_ok(kind: ObjectKindKind, width: u32, height: u32, storage: Seq<u8>) -> bool {
    &&& width > 0
    &&& height > 0
    &&& match kind {
        ObjectKindKind::Fill => storage.len() == 1,
        ObjectKindKind::RawRaster | ObjectKindKind::IndexRaster => storage.len() == width * height,
        ObjectKindKind::Generator => false,
    }
}

impl Clone for Object {
    fn clone(&self) -> (r: Self)
        ensures
            r.k() == self.k(),
            r.w() == self.w(),
            r.h() == self.h(),
            r.payload() == self.payload(),
    {
        proof {
            use_type_invariant(self);
        }
        Object {
            kind: self.kind,
            width: self.width,
            height: self.height,
            storage: self.storage.clone(),
        }
    }
}

impl Object {
    #[verifier::type_invariant]
    spec fn inv(self) -> bool {
        object_shape_ok(self.kind, self.width, self.height, self.storage@)
    }

    /// Content kind (model).
    pub closed spec fn k(self) -> ObjectKindKind {
        self.kind
    }

    /// Box width (model).
    pub closed spec fn w(self) -> u32 {
        self.width
    }

    /// Box height (model).
    pub closed spec fn h(self) -> u32 {
        self.height
    }

    /// Stored bytes (model): one sample for a fill, the raster otherwise.
    pub closed spec fn payload(self) -> Seq<u8> {
        self.storage@
    }

    /// The tight row-major `width·height` samples (or indices) this object
    /// paints.
    pub open spec fn pixels(self) -> Seq<u8> {
        if self.k() == ObjectKindKind::Fill {
            Seq::new((self.w() * self.h()) as nat, |i: int| self.payload()[0])
        } else {
            self.payload()
        }
    }

    /// Object whose raster is a single uniform gray of `value`.
    pub fn fill(width: u32, height: u32, value: u8) -> (r: Result<Self, VoleError>)
        ensures
            r is Ok <==> width > 0 && height > 0,
            r matches Ok(o) ==> o.k() == ObjectKindKind::Fill && o.w() == width && o.h() == height
                && o.payload() == seq![value],
            r matches Err(e) ==> e == VoleError::DimensionTooLarge,
    {
        if width == 0 || height == 0 {
            return Err(VoleError::DimensionTooLarge);
        }
        let storage = vec![value];
        Ok(Object { kind: ObjectKindKind::Fill, width, height, storage })
    }

    /// Shared checks of the two stored-raster constructors.
    fn stored(kind: ObjectKindKind, width: u32, height: u32, data: Vec<u8>) -> (r: Result<Self, VoleError>)
        requires
            kind == ObjectKindKind::RawRaster || kind == ObjectKindKind::IndexRaster,
        ensures
            r is Ok <==> width > 0 && height > 0 && data@.len() == width * height,
            r matches Ok(o) ==> o.k() == kind && o.w() == width && o.h() == height && o.payload()
                == data@,
            r matches Err(e) ==> e == if width == 0 || height == 0 {
                VoleError::DimensionTooLarge
            } else {
                VoleError::LengthMismatch
            },
    {
        if width == 0 || height == 0 {
            return Err(VoleError::DimensionTooLarge);
        }
        proof {
            lemma_mul_upper_bound(width as int, 0xffff_ffff, height as int, 0xffff_ffff);
        }
        let n = (width as u64) * (height as u64);
        if data.len() as u64 != n {
            return Err(VoleError::LengthMismatch);
        }
        Ok(Object { kind, width, height, storage: data })
    }

    /// Object carrying explicit Gray8 raster content of exactly
    /// `width·height` bytes.
    pub fn raster(width: u32, height: u32, data: Vec<u8>) -> (r: Result<Self, VoleError>)
        ensures
            r is Ok <==> width > 0 && height > 0 && data@.len() == width * height,
            r matches Ok(o) ==> o.k() == ObjectKindKind::RawRaster && o.w() == width && o.h()
                == height && o.payload() == data@,
            r matches Err(e) ==> e == if width == 0 || height == 0 {
                VoleError::DimensionTooLarge
            } else {
                VoleError::LengthMismatch
            },
    {
        Self::stored(ObjectKindKind::RawRaster, width, height, data)
    }

    /// Object carrying a palette-index raster; geometry and length rules
    /// mirror [`Object::raster`].
    pub fn index_raster(width: u32, height: u32, data: Vec<u8>) -> (r: Result<Self, VoleError>)
        ensures
            r is Ok <==> width > 0 && height > 0 && data@.len() == width * height,
            r matches Ok(o) ==> o.k() == ObjectKindKind::IndexRaster && o.w() == width && o.h()
                == height && o.payload() == data@,
            r matches Err(e) ==> e == if width == 0 || height == 0 {
                VoleError::DimensionTooLarge
            } else {
                VoleError::LengthMismatch
            },
    {
        Self::stored(ObjectKindKind::IndexRaster, width, height, data)
    }

    /// Object construction kind.
    pub fn kind(&self) -> (r: ObjectKindKind)
        ensures
            r == self.k(),
    {
        self.kind
    }

    /// Raster width.
    pub fn width(&self) -> (r: u32)
        ensures
            r == self.w(),
    {
        self.width
    }

    /// Raster height.
    pub fn height(&self) -> (r: u32)
        ensures
            r == self.h(),
    {
        self.height
    }

    /// Sample count `width·height`.
    pub fn sample_count(&self) -> (r: u64)
        ensures
            r == self.w() * self.h(),
    {
        proof {
            lemma_mul_upper_bound(self.width as int, 0xffff_ffff, self.height as int, 0xffff_ffff);
        }
        (self.width as u64) * (self.height as u64)
    }

    /// The object's samples as a tight row-major buffer of `width·height`
    /// bytes (a fill is replicated).
    pub fn expand(&self) -> (r: Vec<u8>)
        requires
            self.w() * self.h() <= usize::MAX,
        ensures
            r@ == self.pixels(),
    {
        proof {
            use_type_invariant(self);
        }
        match self.kind {
            ObjectKindKind::Fill => {
                let v = self.storage[0];
                proof {
                    lemma_mul_upper_bound(self.width as int, 0xffff_ffff, self.height as int, 0xffff_ffff);
                }
                let n = (self.width as usize) * (self.height as usize);
                let mut out: Vec<u8> = Vec::new();
                let mut i = 0usize;
                while i < n
                    invariant
                        i <= n,
                        out@ == Seq::new(i as nat, |k: int| v),
                    decreases n - i,
                {
                    out.push(v);
                    proof {
                        assert(out@ =~= Seq::new((i + 1) as nat, |k: int| v));
                    }
                    i = i + 1;
                }
                proof {
                    assert(out@ =~= self.pixels());
                }
                out
            },
            _ => self.storage.clone(),
        }
    }

    /// The uniform sample of a fill object.
    pub fn fill_value(&self) -> (r: Option<u8>)
        ensures
            r == if self.k() == ObjectKindKind::Fill {
                Some(self.payload()[0])
            } else {
                None::<u8>
            },
    {
        proof {
            use_type_invariant(self);
        }
        match self.kind {
            ObjectKindKind::Fill => Some(self.storage[0]),
            _ => None,
        }
    }

    /// Tight row-major Gray8 samples iff this object stores them (RawRaster).
    pub fn samples(&self) -> (r: Option<&[u8]>)
        ensures
            r matches Some(s) ==> self.k() == ObjectKindKind::RawRaster && s@ == self.payload(),
            r is None ==> self.k() != ObjectKindKind::RawRaster,
    {
        match self.kind {
            ObjectKindKind::RawRaster => Some(self.storage.as_slice()),
            _ => None,
        }
    }

    /// Tight row-major palette indices iff this object is an index raster.
    pub fn indices(&self) -> (r: Option<&[u8]>)
        ensures
            r matches Some(s) ==> self.k() == ObjectKindKind::IndexRaster && s@ == self.payload(),
            r is None ==> self.k() != ObjectKindKind::IndexRaster,
    {
        match self.kind {
            ObjectKindKind::IndexRaster => Some(self.storage.as_slice()),
            _ => None,
        }
    }
}

/// Little-endian `u32` at `bytes[at..at + 4]`.
pub open spec fn le_u32_at(bytes: Seq<u8>, at: int) -> u32 {
    (bytes[at] as int + bytes[at + 1] as int * 0x100 + bytes[at + 2] as int * 0x1_0000 + bytes[at
        + 3] as int * 0x100_0000) as u32
}

/// What parsing a canonical object record
/// `[kind:u8][width:u32 le][height:u32 le][payload]` yields: the object's
/// `(kind, width, height, payload)` or the typed error, checked in order
/// (truncated header, zero geometry, size envelope, kind, payload, trailing
/// bytes).
pub open spec fn record_parse(bytes: Seq<u8>, max_object_bytes: u64) -> Result<
    (ObjectKindKind, u32, u32, Seq<u8>),
    VoleError,
> {
    if bytes.len() < 9 {
        Err(VoleError::Truncated)
    } else {
        let kind = bytes[0];
        let w = le_u32_at(bytes, 1);
        let h = le_u32_at(bytes, 5);
        let n = w * h;
        if w == 0 || h == 0 {
            Err(VoleError::DimensionTooLarge)
        } else if n > max_object_bytes {
            Err(VoleError::DimensionTooLarge)
        } else if kind == RECORD_FILL {
            if bytes.len() < 10 {
                Err(VoleError::Truncated)
            } else if bytes.len() > 10 {
                Err(VoleError::NonCanonicalEncoding)
            } else {
                Ok((ObjectKindKind::Fill, w, h, seq![bytes[9]]))
            }
        } else if kind == RECORD_RAW_RASTER || kind == RECORD_INDEX_RASTER {
            if bytes.len() < 9 + n {
                Err(VoleError::Truncated)
            } else if bytes.len() > 9 + n {
                Err(VoleError::NonCanonicalEncoding)
            } else {
                Ok((
                    if kind == RECORD_RAW_RASTER {
                        ObjectKindKind::RawRaster
                    } else {
                        ObjectKindKind::IndexRaster
                    },
                    w,
                    h,
                    bytes.subrange(9, 9 + n),
                ))
            }
        } else {
            Err(VoleError::NonCanonicalEncoding)
        }
    }
}

/// Little-endian `u32` at `bytes[at..at + 4]`.
fn read_le_u32(bytes: &[u8], at: usize) -> (r: u32)
    requires
        at + 4 <= bytes@.len(),
    ensures
        r == le_u32_at(bytes@, at as int),
{
    let b0 = bytes[at] as u32;
    let b1 = bytes[at + 1] as u32;
    let b2 = bytes[at + 2] as u32;
    let b3 = bytes[at + 3] as u32;
    b0 + b1 * 0x100 + b2 * 0x1_0000 + b3 * 0x100_0000
}

impl Object {
    /// Parse an object from its canonical record bytes
    /// `[kind:u8][width:u32][height:u32][payload]` (kinds `0x02` fill,
    /// `0x01` Gray8 raster, `0x05` palette-index raster), validating the
    /// geometry against `limits`; an unknown kind or trailing bytes are
    /// non-canonical.
    pub fn from_canonical_record(bytes: &[u8], limits: &Limits) -> (r: Result<Self, VoleError>)
        ensures
            match record_parse(bytes@, limits.max_object_bytes) {
                Ok((k, w, h, p)) => r matches Ok(o) && o.k() == k && o.w() == w && o.h() == h
                    && o.payload() == p,
                Err(e) => r == Err::<Self, VoleError>(e),
            },
    {
        if bytes.len() < 9 {
            return Err(VoleError::Truncated);
        }
        let kind = bytes[0];
        let w = read_le_u32(bytes, 1);
        let h = read_le_u32(bytes, 5);
        if w == 0 || h == 0 {
            return Err(VoleError::DimensionTooLarge);
        }
        proof {
            lemma_mul_upper_bound(w as int, 0xffff_ffff, h as int, 0xffff_ffff);
        }
        let n = (w as u64) * (h as u64);
        if n > limits.max_object_bytes {
            return Err(VoleError::DimensionTooLarge);
        }
        if kind == RECORD_FILL {
            if bytes.len() < 10 {
                return Err(VoleError::Truncated);
            }
            if bytes.len() > 10 {
                return Err(VoleError::NonCanonicalEncoding);
            }
            let storage = vec![bytes[9]];
            return Ok(Object { kind: ObjectKindKind::Fill, width: w, height: h, storage });
        }
        if kind == RECORD_RAW_RASTER || kind == RECORD_INDEX_RASTER {
            let avail = (bytes.len() - 9) as u64;
            if avail < n {
                return Err(VoleError::Truncated);
            }
            if avail > n {
                return Err(VoleError::NonCanonicalEncoding);
            }
            let end = bytes.len();
            let mut data: Vec<u8> = Vec::new();
            let mut i = 9usize;
            while i < end
                invariant
                    9 <= i <= end,
                    end == bytes@.len(),
                    data@ == bytes@.subrange(9, i as int),
                decreases end - i,
            {
                data.push(bytes[i]);
                proof {
                    assert(data@ =~= bytes@.subrange(9, i + 1));
                }
                i = i + 1;
            }
            let k = if kind == RECORD_RAW_RASTER {
                ObjectKindKind::RawRaster
            } else {
                ObjectKindKind::IndexRaster
            };
            return Ok(Object { kind: k, width: w, height: h, storage: data });
        }
        Err(VoleError::NonCanonicalEncoding)
    }
}

} // verus!
