//! Typed attribute values: decoding packed big-endian value regions into
//! element sequences, and encoding them back, byte for byte.

use crate::error::{result_of, ErrView, HeadScratcherError};
use crate::parser::components::{
    be_u32_at, be_u64_at, copy_range, spec_padding, utf8_to_string, NetCDFAttribute, NetCDFType,
};
use vstd::prelude::*;
use vstd::utf8::{decode_utf8, decode_utf8_encode_utf8, encode_utf8, valid_utf8};

verus! {

/// The decoded value of an attribute.  Floats and doubles are carried as
/// their big-endian bit patterns; turning them into machine floats is the
/// caller's concern.
#[derive(Debug, PartialEq, Clone)]
pub enum TypedValue {
    Bytes(Vec<u8>),
    Text(String),
    Shorts(Vec<i16>),
    Ints(Vec<i32>),
    Floats(Vec<u32>),
    Doubles(Vec<u64>),
}

/// Mathematical image of a [`TypedValue`].
pub enum ValueView {
    Bytes(Seq<u8>),
    Text(Seq<char>),
    Shorts(Seq<i16>),
    Ints(Seq<i32>),
    Floats(Seq<u32>),
    Doubles(Seq<u64>),
}

impl DeepView for TypedValue {
    type V = ValueView;

    open spec fn deep_view(&self) -> ValueView {
        match self {
            TypedValue::Bytes(v) => ValueView::Bytes(v@),
            TypedValue::Text(s) => ValueView::Text(s@),
            TypedValue::Shorts(v) => ValueView::Shorts(v@),
            TypedValue::Ints(v) => ValueView::Ints(v@),
            TypedValue::Floats(v) => ValueView::Floats(v@),
            TypedValue::Doubles(v) => ValueView::Doubles(v@),
        }
    }
}

/// The big-endian 16-bit value stored at `p`.
pub open spec fn be_u16_at(b: Seq<u8>, p: int) -> u16 {
    ((b[p] as int) * 0x100 + (b[p + 1] as int)) as u16
}

/// What decoding a packed value region yields: one element per
/// `sizeof(type)` bytes, big-endian.  Text must be valid UTF-8.
pub open spec fn spec_decode_value(t: NetCDFType, b: Seq<u8>) -> Result<ValueView, ErrView> {
    let n = b.len() as int / t.spec_extsize() as int;
    match t {
        NetCDFType::NC_BYTE => Result::Ok(ValueView::Bytes(b)),
        NetCDFType::NC_CHAR => {
            if valid_utf8(b) {
                Result::Ok(ValueView::Text(decode_utf8(b)))
            } else {
                Result::Err(ErrView::Utf8)
            }
        },
        NetCDFType::NC_SHORT => Result::Ok(
            ValueView::Shorts(Seq::new(n as nat, |i: int| be_u16_at(b, 2 * i) as i16)),
        ),
        NetCDFType::NC_INT => Result::Ok(
            ValueView::Ints(Seq::new(n as nat, |i: int| be_u32_at(b, 4 * i) as i32)),
        ),
        NetCDFType::NC_FLOAT => Result::Ok(
            ValueView::Floats(Seq::new(n as nat, |i: int| be_u32_at(b, 4 * i))),
        ),
        NetCDFType::NC_DOUBLE => Result::Ok(
            ValueView::Doubles(Seq::new(n as nat, |i: int| be_u64_at(b, 8 * i))),
        ),
    }
}

/// The packed content bytes of a value, without trailing padding.
pub open spec fn spec_value_content(v: ValueView) -> Seq<u8> {
    match v {
        ValueView::Bytes(s) => s,
        ValueView::Text(s) => encode_utf8(s),
        ValueView::Shorts(s) => Seq::new(
            s.len() * 2,
            |j: int| ((s[j / 2] as u16) as int / byte_shift_u16(j % 2) % 0x100) as u8,
        ),
        ValueView::Ints(s) => Seq::new(
            s.len() * 4,
            |j: int| ((s[j / 4] as u32) as int / byte_shift_u32(j % 4) % 0x100) as u8,
        ),
        ValueView::Floats(s) => Seq::new(
            s.len() * 4,
            |j: int| ((s[j / 4] as int) / byte_shift_u32(j % 4) % 0x100) as u8,
        ),
        ValueView::Doubles(s) => Seq::new(
            s.len() * 8,
            |j: int| ((s[j / 8] as int) / byte_shift_u64(j % 8) % 0x100) as u8,
        ),
    }
}

/// Divisor that brings byte `r` of a big-endian 16-bit value into the low
/// byte: `0x100` for the leading byte, `1` for the trailing one.
pub open spec fn byte_shift_u16(r: int) -> int {
    if r == 0 {
        0x100
    } else {
        1
    }
}

/// Divisor that brings byte `r` of a big-endian 32-bit value into the low
/// byte.
pub open spec fn byte_shift_u32(r: int) -> int {
    if r == 0 {
        0x100_0000
    } else if r == 1 {
        0x1_0000
    } else if r == 2 {
        0x100
    } else {
        1
    }
}

/// Divisor that brings byte `r` of a big-endian 64-bit value into the low
/// byte.
pub open spec fn byte_shift_u64(r: int) -> int {
    if r == 0 {
        0x100_0000_0000_0000
    } else if r == 1 {
        0x1_0000_0000_0000
    } else if r == 2 {
        0x100_0000_0000
    } else if r == 3 {
        0x1_0000_0000
    } else if r == 4 {
        0x100_0000
    } else if r == 5 {
        0x1_0000
    } else if r == 6 {
        0x100
    } else {
        1
    }
}

/// What encoding a value yields: its packed content followed by zero
/// padding to the next 4-byte boundary.
pub open spec fn spec_encode_value(v: ValueView) -> Seq<u8> {
    let content = spec_value_content(v);
    content + Seq::new(spec_padding(content.len() as int) as nat, |j: int| 0u8)
}

/// Decodes a packed big-endian value region into typed elements.
pub fn decode_value(t: NetCDFType, b: &[u8]) -> (r: Result<TypedValue, HeadScratcherError>)
    requires
        b@.len() as int % t.spec_extsize() as int == 0,
    ensures
        result_of(r, spec_decode_value(t, b@)),
{
    let n = b.len() / t.extsize();
    match t {
        NetCDFType::NC_BYTE => {
            let out = copy_range(b, 0, b.len());
            proof {
                assert(out@ =~= b@);
            }
            Ok(TypedValue::Bytes(out))
        },
        NetCDFType::NC_CHAR => match utf8_to_string(b) {
            Some(s) => Ok(TypedValue::Text(s)),
            None => Err(HeadScratcherError::Utf8),
        },
        NetCDFType::NC_SHORT => {
            proof {
                vstd::arithmetic::div_mod::lemma_fundamental_div_mod(b@.len() as int, 2);
            }
            let mut out: Vec<i16> = Vec::new();
            let mut i: usize = 0;
            while i < n
                invariant
                    i <= n,
                    n == b@.len() / 2,
                    2 * n == b@.len(),
                    b@.len() <= usize::MAX,
                    out@.len() == i,
                    forall|l: int| 0 <= l < i ==> out@[l] == be_u16_at(b@, 2 * l) as i16,
                decreases n - i,
            {
                let hi = b[2 * i] as u16;
                let lo = b[2 * i + 1] as u16;
                out.push((hi * 0x100 + lo) as i16);
                i = i + 1;
            }
            proof {
                assert(out@ =~= Seq::new(
                    (b@.len() as int / 2) as nat,
                    |l: int| be_u16_at(b@, 2 * l) as i16,
                ));
            }
            Ok(TypedValue::Shorts(out))
        },
        NetCDFType::NC_INT => {
            proof {
                vstd::arithmetic::div_mod::lemma_fundamental_div_mod(b@.len() as int, 4);
            }
            let mut out: Vec<i32> = Vec::new();
            let mut i: usize = 0;
            while i < n
                invariant
                    i <= n,
                    n == b@.len() / 4,
                    4 * n == b@.len(),
                    b@.len() <= usize::MAX,
                    out@.len() == i,
                    forall|l: int| 0 <= l < i ==> out@[l] == be_u32_at(b@, 4 * l) as i32,
                decreases n - i,
            {
                let v = (b[4 * i] as u32) * 0x100_0000 + (b[4 * i + 1] as u32) * 0x1_0000 + (b[4 * i
                    + 2] as u32) * 0x100 + (b[4 * i + 3] as u32);
                out.push(v as i32);
                i = i + 1;
            }
            proof {
                assert(out@ =~= Seq::new(
                    (b@.len() as int / 4) as nat,
                    |l: int| be_u32_at(b@, 4 * l) as i32,
                ));
            }
            Ok(TypedValue::Ints(out))
        },
        NetCDFType::NC_FLOAT => {
            proof {
                vstd::arithmetic::div_mod::lemma_fundamental_div_mod(b@.len() as int, 4);
            }
            let mut out: Vec<u32> = Vec::new();
            let mut i: usize = 0;
            while i < n
                invariant
                    i <= n,
                    n == b@.len() / 4,
                    4 * n == b@.len(),
                    b@.len() <= usize::MAX,
                    out@.len() == i,
                    forall|l: int| 0 <= l < i ==> out@[l] == be_u32_at(b@, 4 * l),
                decreases n - i,
            {
                let v = (b[4 * i] as u32) * 0x100_0000 + (b[4 * i + 1] as u32) * 0x1_0000 + (b[4 * i
                    + 2] as u32) * 0x100 + (b[4 * i + 3] as u32);
                out.push(v);
                i = i + 1;
            }
            proof {
                assert(out@ =~= Seq::new(
                    (b@.len() as int / 4) as nat,
                    |l: int| be_u32_at(b@, 4 * l),
                ));
            }
            Ok(TypedValue::Floats(out))
        },
        NetCDFType::NC_DOUBLE => {
            proof {
                vstd::arithmetic::div_mod::lemma_fundamental_div_mod(b@.len() as int, 8);
            }
            let mut out: Vec<u64> = Vec::new();
            let mut i: usize = 0;
            while i < n
                invariant
                    i <= n,
                    n == b@.len() / 8,
                    8 * n == b@.len(),
                    b@.len() <= usize::MAX,
                    out@.len() == i,
                    forall|l: int| 0 <= l < i ==> out@[l] == be_u64_at(b@, 8 * l),
                decreases n - i,
            {
                let v = (b[8 * i] as u64) * 0x100_0000_0000_0000 + (b[8 * i + 1] as u64)
                    * 0x1_0000_0000_0000 + (b[8 * i + 2] as u64) * 0x100_0000_0000 + (b[8 * i
                    + 3] as u64) * 0x1_0000_0000 + (b[8 * i + 4] as u64) * 0x100_0000 + (b[8 * i
                    + 5] as u64) * 0x1_0000 + (b[8 * i + 6] as u64) * 0x100 + (b[8 * i + 7] as u64);
                out.push(v);
                i = i + 1;
            }
            proof {
                assert(out@ =~= Seq::new(
                    (b@.len() as int / 8) as nat,
                    |l: int| be_u64_at(b@, 8 * l),
                ));
            }
            Ok(TypedValue::Doubles(out))
        },
    }
}

/// Encodes a typed value into its packed big-endian content, followed by
/// zero padding to the next 4-byte boundary.
pub fn encode_value(v: &TypedValue) -> (r: Vec<u8>)
    ensures
        r@ == spec_encode_value(v.deep_view()),
{
    let mut out: Vec<u8> = Vec::new();
    match v {
        TypedValue::Bytes(s) => {
            out = copy_range(s.as_slice(), 0, s.len());
            proof {
                assert(out@ =~= spec_value_content(v.deep_view()));
            }
        },
        TypedValue::Text(s) => {
            let bytes = s.as_str().as_bytes();
            out = copy_range(bytes, 0, bytes.len());
            proof {
                assert(out@ =~= spec_value_content(v.deep_view()));
            }
        },
        TypedValue::Shorts(s) => {
            let mut i: usize = 0;
            while i < s.len()
                invariant
                    i <= s@.len(),
                    out@.len() == 2 * i,
                    forall|j: int|
                        0 <= j < out@.len() ==> out@[j] == ((s@[j / 2] as u16) as int
                            / byte_shift_u16(j % 2) % 0x100) as u8,
                decreases s@.len() - i,
            {
                let e = s[i] as u16;
                out.push((e / 0x100) as u8);
                out.push((e % 0x100) as u8);
                i = i + 1;
            }
            proof {
                assert(out@ =~= spec_value_content(v.deep_view()));
            }
        },
        TypedValue::Ints(s) => {
            let mut i: usize = 0;
            while i < s.len()
                invariant
                    i <= s@.len(),
                    out@.len() == 4 * i,
                    forall|j: int|
                        0 <= j < out@.len() ==> out@[j] == ((s@[j / 4] as u32) as int
                            / byte_shift_u32(j % 4) % 0x100) as u8,
                decreases s@.len() - i,
            {
                let e = s[i] as u32;
                out.push((e / 0x100_0000) as u8);
                out.push((e / 0x1_0000 % 0x100) as u8);
                out.push((e / 0x100 % 0x100) as u8);
                out.push((e % 0x100) as u8);
                i = i + 1;
            }
            proof {
                assert(out@ =~= spec_value_content(v.deep_view()));
            }
        },
        TypedValue::Floats(s) => {
            let mut i: usize = 0;
            while i < s.len()
                invariant
                    i <= s@.len(),
                    out@.len() == 4 * i,
                    forall|j: int|
                        0 <= j < out@.len() ==> out@[j] == ((s@[j / 4] as int) / byte_shift_u32(
                            j % 4,
                        ) % 0x100) as u8,
                decreases s@.len() - i,
            {
                let e = s[i];
                out.push((e / 0x100_0000) as u8);
                out.push((e / 0x1_0000 % 0x100) as u8);
                out.push((e / 0x100 % 0x100) as u8);
                out.push((e % 0x100) as u8);
                i = i + 1;
            }
            proof {
                assert(out@ =~= spec_value_content(v.deep_view()));
            }
        },
        TypedValue::Doubles(s) => {
            let mut i: usize = 0;
            while i < s.len()
                invariant
                    i <= s@.len(),
                    out@.len() == 8 * i,
                    forall|j: int|
                        0 <= j < out@.len() ==> out@[j] == ((s@[j / 8] as int) / byte_shift_u64(
                            j % 8,
                        ) % 0x100) as u8,
                decreases s@.len() - i,
            {
                let e = s[i];
                out.push((e / 0x100_0000_0000_0000) as u8);
                out.push((e / 0x1_0000_0000_0000 % 0x100) as u8);
                out.push((e / 0x100_0000_0000 % 0x100) as u8);
                out.push((e / 0x1_0000_0000 % 0x100) as u8);
                out.push((e / 0x100_0000 % 0x100) as u8);
                out.push((e / 0x1_0000 % 0x100) as u8);
                out.push((e / 0x100 % 0x100) as u8);
                out.push((e % 0x100) as u8);
                i = i + 1;
            }
            proof {
                assert(out@ =~= spec_value_content(v.deep_view()));
            }
        },
    }
    // Zero padding to the next 4-byte boundary.
    let ghost content = spec_value_content(v.deep_view());
    let rem = out.len() % 4;
    if rem != 0 {
        let mut z: usize = 4 - rem;
        while z > 0
            invariant
                out@.len() + z == content.len() + spec_padding(content.len() as int),
                content.len() <= out@.len(),
                out@.subrange(0, content.len() as int) == content,
                forall|j: int| content.len() <= j < out@.len() ==> out@[j] == 0,
            decreases z,
        {
            out.push(0);
            z = z - 1;
        }
    }
    proof {
        assert(out@ =~= spec_encode_value(v.deep_view()));
    }
    out
}

impl NetCDFAttribute {
    /// The attribute's value, decoded element by element.
    pub fn value(&self) -> (r: Result<TypedValue, HeadScratcherError>)
        requires
            self.data@.len() as int % self.nc_type.spec_extsize() as int == 0,
        ensures
            result_of(r, spec_decode_value(self.nc_type, self.data@)),
    {
        decode_value(self.nc_type, self.data.as_slice())
    }
}

/// Decoding a packed value region and encoding the result reproduces the
/// region byte for byte, trailing padding included: the on-disk form of an
/// attribute value is uniquely determined by its decoded value.
pub proof fn lemma_value_round_trip(t: NetCDFType, region: Seq<u8>, n: nat)
    requires
        region.len() == n * t.spec_extsize() + spec_padding((n * t.spec_extsize()) as int),
        forall|j: int| n * t.spec_extsize() <= j < region.len() ==> region[j] == 0,
        spec_decode_value(t, region.subrange(0, (n * t.spec_extsize()) as int)) matches Ok(v),
    ensures
        (spec_decode_value(t, region.subrange(0, (n * t.spec_extsize()) as int)) matches Ok(v)
            && spec_encode_value(v) == region),
{
    let ext = t.spec_extsize() as int;
    let content = region.subrange(0, n * ext);
    let v = match spec_decode_value(t, content) {
        Result::Ok(v) => v,
        Result::Err(_) => arbitrary(),
    };
    assert(content.len() == n * ext);
    lemma_content_round_trip(t, content, n);
    assert(spec_value_content(v).len() == n * ext);
    assert(spec_encode_value(v) =~= region);
}

/// The content part of the round trip: re-encoding the decoded elements
/// yields the content bytes again.
proof fn lemma_content_round_trip(t: NetCDFType, content: Seq<u8>, n: nat)
    requires
        content.len() == n * t.spec_extsize(),
        spec_decode_value(t, content) matches Ok(v),
    ensures
        (spec_decode_value(t, content) matches Ok(v) && spec_value_content(v) == content),
{
    let ext = t.spec_extsize() as int;
    let v = match spec_decode_value(t, content) {
        Result::Ok(v) => v,
        Result::Err(_) => arbitrary(),
    };
    vstd::arithmetic::div_mod::lemma_div_multiples_vanish(n as int, ext);
    assert(content.len() as int / ext == n);
    match t {
        NetCDFType::NC_BYTE => {
            assert(spec_value_content(v) =~= content);
        },
        NetCDFType::NC_CHAR => {
            decode_utf8_encode_utf8(content);
            assert(spec_value_content(v) =~= content);
        },
        NetCDFType::NC_SHORT => {
            assert(spec_value_content(v) =~= content) by {
                assert forall|j: int| 0 <= j < content.len() implies spec_value_content(v)[j]
                    == content[j] by {
                    lemma_short_byte_recovery(content, j);
                }
            }
        },
        NetCDFType::NC_INT => {
            assert(spec_value_content(v) =~= content) by {
                assert forall|j: int| 0 <= j < content.len() implies spec_value_content(v)[j]
                    == content[j] by {
                    lemma_word_byte_recovery(content, j);
                }
            }
        },
        NetCDFType::NC_FLOAT => {
            assert(spec_value_content(v) =~= content) by {
                assert forall|j: int| 0 <= j < content.len() implies spec_value_content(v)[j]
                    == content[j] by {
                    lemma_word_byte_recovery(content, j);
                }
            }
        },
        NetCDFType::NC_DOUBLE => {
            assert(spec_value_content(v) =~= content) by {
                assert forall|j: int| 0 <= j < content.len() implies spec_value_content(v)[j]
                    == content[j] by {
                    lemma_double_byte_recovery(content, j);
                }
            }
        },
    }
}

/// Byte `j` of a packed 16-bit element array is recovered by shifting the
/// decoded element back.
proof fn lemma_short_byte_recovery(content: Seq<u8>, j: int)
    requires
        0 <= j < content.len(),
    ensures
        ((be_u16_at(content, 2 * (j / 2)) as i16 as u16) as int / byte_shift_u16(j % 2)
            % 0x100) as u8 == content[j],
{
    let i = j / 2;
    let x = (content[2 * i] as int) * 0x100 + (content[2 * i + 1] as int);
    assert(0 <= x < 0x1_0000);
    assert(be_u16_at(content, 2 * i) == x as u16);
    let y: u16 = x as u16;
    assert(y as i16 as u16 == y) by (bit_vector);
    assert((y as i16 as u16) as int == x);
    if j % 2 == 0 {
        assert(2 * i == j);
        assert(x / 0x100 % 0x100 == content[j]);
    } else {
        assert(2 * i + 1 == j);
        assert(x / 1 % 0x100 == content[j]);
    }
}

/// Byte `j` of a packed 32-bit element array is recovered by shifting the
/// decoded element back; signedness does not change the bits.
proof fn lemma_word_byte_recovery(content: Seq<u8>, j: int)
    requires
        0 <= j < content.len(),
    ensures
        ((be_u32_at(content, 4 * (j / 4)) as i32 as u32) as int / byte_shift_u32(j % 4)
            % 0x100) as u8 == content[j],
        ((be_u32_at(content, 4 * (j / 4)) as int) / byte_shift_u32(j % 4) % 0x100) as u8
            == content[j],
{
    let i = j / 4;
    let d0 = content[4 * i] as int;
    let d1 = content[4 * i + 1] as int;
    let d2 = content[4 * i + 2] as int;
    let d3 = content[4 * i + 3] as int;
    let x = d0 * 0x100_0000 + d1 * 0x1_0000 + d2 * 0x100 + d3;
    assert(0 <= x < 0x1_0000_0000);
    assert(be_u32_at(content, 4 * i) == x as u32);
    let y: u32 = x as u32;
    assert(y as i32 as u32 == y) by (bit_vector);
    assert((y as i32 as u32) as int == x);
    if j % 4 == 0 {
        lemma_digit(x, 0, content[j], d1 * 0x1_0000 + d2 * 0x100 + d3, 0x100_0000);
    } else if j % 4 == 1 {
        lemma_digit(x, d0, content[j], d2 * 0x100 + d3, 0x1_0000);
    } else if j % 4 == 2 {
        lemma_digit(x, d0 * 0x100 + d1, content[j], d3, 0x100);
    } else {
        lemma_digit(x, d0 * 0x1_0000 + d1 * 0x100 + d2, content[j], 0, 1);
    }
}

/// Extracting one base-256 digit: dividing by its place value and taking
/// the low byte recovers the digit.
proof fn lemma_digit(x: int, hi: int, d: u8, lo: int, shift: int)
    requires
        shift >= 1,
        hi >= 0,
        0 <= lo < shift,
        x == hi * (0x100 * shift) + (d as int) * shift + lo,
    ensures
        x / shift % 0x100 == d,
{
    let q = hi * 0x100 + d as int;
    assert(x == q * shift + lo) by (nonlinear_arith)
        requires
            x == hi * (0x100 * shift) + (d as int) * shift + lo,
            q == hi * 0x100 + d as int,
    ;
    vstd::arithmetic::div_mod::lemma_fundamental_div_mod_converse(x, shift, q, lo);
    vstd::arithmetic::div_mod::lemma_mod_multiples_vanish(hi, d as int, 0x100);
}

/// Byte `j` of a packed 64-bit element array is recovered by shifting the
/// decoded element back.
proof fn lemma_double_byte_recovery(content: Seq<u8>, j: int)
    requires
        0 <= j < content.len(),
    ensures
        ((be_u64_at(content, 8 * (j / 8)) as int) / byte_shift_u64(j % 8) % 0x100) as u8
            == content[j],
{
    let i = j / 8;
    let d0 = content[8 * i] as int;
    let d1 = content[8 * i + 1] as int;
    let d2 = content[8 * i + 2] as int;
    let d3 = content[8 * i + 3] as int;
    let d4 = content[8 * i + 4] as int;
    let d5 = content[8 * i + 5] as int;
    let d6 = content[8 * i + 6] as int;
    let d7 = content[8 * i + 7] as int;
    let x = d0 * 0x100_0000_0000_0000 + d1 * 0x1_0000_0000_0000 + d2 * 0x100_0000_0000 + d3
        * 0x1_0000_0000 + d4 * 0x100_0000 + d5 * 0x1_0000 + d6 * 0x100 + d7;
    assert(0 <= x < 0x1_0000_0000_0000_0000);
    assert(be_u64_at(content, 8 * i) == x as u64);
    if j % 8 == 0 {
        lemma_digit(x, 0, content[j], x - d0 * 0x100_0000_0000_0000, 0x100_0000_0000_0000);
    } else if j % 8 == 1 {
        lemma_digit(
            x,
            d0,
            content[j],
            d2 * 0x100_0000_0000 + d3 * 0x1_0000_0000 + d4 * 0x100_0000 + d5 * 0x1_0000 + d6
                * 0x100 + d7,
            0x1_0000_0000_0000,
        );
    } else if j % 8 == 2 {
        lemma_digit(
            x,
            d0 * 0x100 + d1,
            content[j],
            d3 * 0x1_0000_0000 + d4 * 0x100_0000 + d5 * 0x1_0000 + d6 * 0x100 + d7,
            0x100_0000_0000,
        );
    } else if j % 8 == 3 {
        lemma_digit(
            x,
            d0 * 0x1_0000 + d1 * 0x100 + d2,
            content[j],
            d4 * 0x100_0000 + d5 * 0x1_0000 + d6 * 0x100 + d7,
            0x1_0000_0000,
        );
    } else if j % 8 == 4 {
        lemma_digit(
            x,
            d0 * 0x100_0000 + d1 * 0x1_0000 + d2 * 0x100 + d3,
            content[j],
            d5 * 0x1_0000 + d6 * 0x100 + d7,
            0x100_0000,
        );
    } else if j % 8 == 5 {
        lemma_digit(
            x,
            d0 * 0x1_0000_0000 + d1 * 0x100_0000 + d2 * 0x1_0000 + d3 * 0x100 + d4,
            content[j],
            d6 * 0x100 + d7,
            0x1_0000,
        );
    } else if j % 8 == 6 {
        lemma_digit(
            x,
            d0 * 0x1_0000_0000_00 + d1 * 0x1_0000_0000 + d2 * 0x1_0000_00 + d3 * 0x1_0000 + d4
                * 0x100 + d5,
            content[j],
            d7,
            0x100,
        );
    } else {
        lemma_digit(
            x,
            d0 * 0x100_0000_0000_00 + d1 * 0x1_0000_0000_00 + d2 * 0x100_0000_00 + d3 * 0x1_0000_00
                + d4 * 0x1_0000 + d5 * 0x100 + d6,
            content[j],
            0,
            1,
        );
    }
}

} // verus!
