//! Primitive decoders and record parsers for the header grammar.
//!
//! Every executable parser here takes the input bytes and a cursor and is
//! proved equal to a spec-level grammar function over `Seq<u8>`.  A parser
//! yields the next cursor and a value, reports that the input is too short to
//! decide (`ParseErr::Incomplete`), or fails with a domain error.

use crate::constants_and_types as csts;
use crate::error::{ErrView, HeadScratcherError};
use vstd::prelude::*;
use vstd::utf8::{decode_utf8, valid_utf8};

verus! {

// ------------------------------------------------------------------
// Value types
// ------------------------------------------------------------------

/// Supported NetCDF on-disk layouts.
#[derive(Debug, PartialEq, Eq, Structural, Clone, Copy)]
pub enum NetCDFVersion {
    Classic,
    Offset64,
}

impl DeepView for NetCDFVersion {
    type V = NetCDFVersion;

    open spec fn deep_view(&self) -> NetCDFVersion {
        *self
    }
}

/// NetCDF external data types.
#[derive(Debug, PartialEq, Eq, Structural, Clone, Copy)]
#[allow(non_camel_case_types)]
pub enum NetCDFType {
    NC_BYTE,
    NC_CHAR,
    NC_SHORT,
    NC_INT,
    NC_FLOAT,
    NC_DOUBLE,
}

impl DeepView for NetCDFType {
    type V = NetCDFType;

    open spec fn deep_view(&self) -> NetCDFType {
        *self
    }
}

impl NetCDFType {
    /// External size of one element of this type, in bytes.
    pub open spec fn spec_extsize(&self) -> usize {
        match self {
            NetCDFType::NC_BYTE => 1usize,
            NetCDFType::NC_CHAR => 1usize,
            NetCDFType::NC_SHORT => 2usize,
            NetCDFType::NC_INT => 4usize,
            NetCDFType::NC_FLOAT => 4usize,
            NetCDFType::NC_DOUBLE => 8usize,
        }
    }

    /// Get the external size of type in bytes.
    pub fn extsize(&self) -> (r: usize)
        ensures
            r == self.spec_extsize(),
            1 <= r <= 8,
    {
        match self {
            NetCDFType::NC_BYTE => 1,
            NetCDFType::NC_CHAR => 1,
            NetCDFType::NC_SHORT => 2,
            NetCDFType::NC_INT => 4,
            NetCDFType::NC_FLOAT => 4,
            NetCDFType::NC_DOUBLE => 8,
        }
    }
}

/// The kind of list a tag word announces.
#[derive(Debug, PartialEq, Eq, Structural, Clone, Copy)]
pub enum ListType {
    Absent,
    DimensionList,
    AttributeList,
    VariableList,
}

impl DeepView for ListType {
    type V = ListType;

    open spec fn deep_view(&self) -> ListType {
        *self
    }
}

/// Declared length of the record dimension.
#[derive(Debug, PartialEq, Eq, Structural, Clone, Copy)]
pub enum NumberOfRecords {
    NonNegative(csts::NON_NEG),
    Streaming,
}

impl DeepView for NumberOfRecords {
    type V = NumberOfRecords;

    open spec fn deep_view(&self) -> NumberOfRecords {
        *self
    }
}

/// NetCDF dimension: a name and a declared length.  Length 0 marks the
/// record (unlimited) dimension.
#[derive(Debug, PartialEq, Clone)]
pub struct NetCDFDimension {
    pub name: String,
    pub length: usize,
}

/// Mathematical image of a [`NetCDFDimension`].
pub struct DimView {
    pub name: Seq<char>,
    pub length: usize,
}

impl DeepView for NetCDFDimension {
    type V = DimView;

    open spec fn deep_view(&self) -> DimView {
        DimView { name: self.name@, length: self.length }
    }
}

impl NetCDFDimension {
    /// Create new NetCDF dimension.
    pub fn new(name: String, length: usize) -> (r: Self)
        ensures
            r.deep_view() == (DimView { name: name@, length }),
    {
        NetCDFDimension { name, length }
    }
}

/// NetCDF attribute: a name, an element type, and the raw value bytes
/// (without trailing padding).
#[derive(Debug, PartialEq, Clone)]
pub struct NetCDFAttribute {
    pub name: String,
    pub nc_type: NetCDFType,
    pub data: Vec<u8>,
}

/// Mathematical image of a [`NetCDFAttribute`].
pub struct AttrView {
    pub name: Seq<char>,
    pub nc_type: NetCDFType,
    pub data: Seq<u8>,
}

impl DeepView for NetCDFAttribute {
    type V = AttrView;

    open spec fn deep_view(&self) -> AttrView {
        AttrView { name: self.name@, nc_type: self.nc_type, data: self.data@ }
    }
}

impl NetCDFAttribute {
    /// Create a new NetCDF Attribute.
    pub fn new(name: String, nc_type: NetCDFType, data: Vec<u8>) -> (r: Self)
        ensures
            r.deep_view() == (AttrView { name: name@, nc_type, data: data@ }),
    {
        NetCDFAttribute { name, nc_type, data }
    }
}

/// NetCDF variable: a name, dimension IDs, an optional attribute list, an
/// element type, the declared on-disk size of its data region, and the
/// absolute byte offset where that region begins.
#[derive(Debug, PartialEq, Clone)]
pub struct NetCDFVariable {
    pub name: String,
    pub dims: Vec<u32>,
    pub attributes: Option<Vec<NetCDFAttribute>>,
    pub nc_type: NetCDFType,
    pub vsize: usize,
    pub begin: u64,
}

/// Mathematical image of a [`NetCDFVariable`].
pub struct VarView {
    pub name: Seq<char>,
    pub dims: Seq<u32>,
    pub attributes: Option<Seq<AttrView>>,
    pub nc_type: NetCDFType,
    pub vsize: usize,
    pub begin: u64,
}

impl DeepView for NetCDFVariable {
    type V = VarView;

    open spec fn deep_view(&self) -> VarView {
        VarView {
            name: self.name@,
            dims: self.dims.deep_view(),
            attributes: self.attributes.deep_view(),
            nc_type: self.nc_type,
            vsize: self.vsize,
            begin: self.begin,
        }
    }
}

impl NetCDFVariable {
    /// Generate a new variable.
    pub fn new(
        name: String,
        dims: Vec<u32>,
        attributes: Option<Vec<NetCDFAttribute>>,
        nc_type: NetCDFType,
        vsize: usize,
        begin: u64,
    ) -> (r: Self)
        ensures
            r.deep_view() == (VarView {
                name: name@,
                dims: dims.deep_view(),
                attributes: attributes.deep_view(),
                nc_type,
                vsize,
                begin,
            }),
    {
        NetCDFVariable { name, dims, attributes, nc_type, vsize, begin }
    }
}

// ------------------------------------------------------------------
// The parse-step model
// ------------------------------------------------------------------

/// Spec-level outcome of applying a grammar production at a cursor: the
/// production consumed input up to a new cursor and produced a value, or the
/// input ends before the production can decide, or the bytes are ill-formed.
pub enum PStep<T> {
    Done(int, T),
    More,
    Fail(ErrView),
}

/// Executable signal that a parser did not produce a value: either the input
/// is too short to decide, or a domain error was found.
#[derive(Debug, PartialEq, Clone)]
pub enum ParseErr {
    Incomplete,
    Failed(HeadScratcherError),
}

/// Relates an executable parse result to a spec-level parse step.
pub open spec fn step_of<T: DeepView>(
    r: Result<(usize, T), ParseErr>,
    s: PStep<T::V>,
) -> bool {
    match s {
        PStep::Done(next, v) => r matches Ok(p) && p.0 == next && p.1.deep_view() == v,
        PStep::More => r matches Err(ParseErr::Incomplete),
        PStep::Fail(e) => r matches Err(ParseErr::Failed(f)) && f@ == e,
    }
}

// ------------------------------------------------------------------
// Padding
// ------------------------------------------------------------------

/// Zero bytes that follow `count` content bytes to reach the next 4-byte
/// boundary: exactly `(4 - count % 4) % 4`.
pub open spec fn spec_padding(count: int) -> int {
    (4 - count % 4) % 4
}

/// Calculate padding to the next 4-byte boundary.
///
/// For `count` bytes of content, exactly `(4 - count % 4) % 4` padding bytes
/// follow on disk.
pub fn padding(count: u32) -> (r: u8)
    ensures
        r == spec_padding(count as int),
        r < 4,
{
    let pad: u32 = 4 - (count % 4);
    if pad == 4 {
        0
    } else {
        pad as u8
    }
}

// ------------------------------------------------------------------
// Primitive decoders
// ------------------------------------------------------------------

/// The big-endian 32-bit value stored at `p`.
pub open spec fn be_u32_at(b: Seq<u8>, p: int) -> u32 {
    ((b[p] as int) * 0x100_0000 + (b[p + 1] as int) * 0x1_0000 + (b[p + 2] as int) * 0x100 + (b[p
        + 3] as int)) as u32
}

/// The big-endian 64-bit value stored at `p`.
pub open spec fn be_u64_at(b: Seq<u8>, p: int) -> u64 {
    ((b[p] as int) * 0x100_0000_0000_0000 + (b[p + 1] as int) * 0x1_0000_0000_0000 + (b[p
        + 2] as int) * 0x100_0000_0000 + (b[p + 3] as int) * 0x1_0000_0000 + (b[p + 4] as int)
        * 0x100_0000 + (b[p + 5] as int) * 0x1_0000 + (b[p + 6] as int) * 0x100 + (b[p
        + 7] as int)) as u64
}

/// Grammar: one big-endian `u32`.
pub open spec fn spec_non_neg(b: Seq<u8>, p: int) -> PStep<u32> {
    if p + 4 <= b.len() {
        PStep::Done(p + 4, be_u32_at(b, p))
    } else {
        PStep::More
    }
}

/// Parse non negative numbers [atomic].
pub fn non_neg(i: &[u8], pos: usize) -> (r: Result<(usize, u32), ParseErr>)
    requires
        pos <= i@.len(),
    ensures
        step_of(r, spec_non_neg(i@, pos as int)),
        r matches Ok(p) ==> pos <= p.0 <= i@.len(),
{
    if i.len() - pos < 4 {
        return Err(ParseErr::Incomplete);
    }
    let v: u32 = (i[pos] as u32) * 0x100_0000 + (i[pos + 1] as u32) * 0x1_0000 + (i[pos
        + 2] as u32) * 0x100 + (i[pos + 3] as u32);
    Ok((pos + 4, v))
}

/// Parse number of elements [atomic].
pub fn nelems(i: &[u8], pos: usize) -> (r: Result<(usize, u32), ParseErr>)
    requires
        pos <= i@.len(),
    ensures
        step_of(r, spec_non_neg(i@, pos as int)),
        r matches Ok(p) ==> pos <= p.0 <= i@.len(),
{
    non_neg(i, pos)
}

/// Parse dimension length [atomic].
pub fn dim_length(i: &[u8], pos: usize) -> (r: Result<(usize, u32), ParseErr>)
    requires
        pos <= i@.len(),
    ensures
        step_of(r, spec_non_neg(i@, pos as int)),
        r matches Ok(p) ==> pos <= p.0 <= i@.len(),
{
    non_neg(i, pos)
}

/// Grammar: one big-endian `u64`.
pub open spec fn spec_be_u64(b: Seq<u8>, p: int) -> PStep<u64> {
    if p + 8 <= b.len() {
        PStep::Done(p + 8, be_u64_at(b, p))
    } else {
        PStep::More
    }
}

/// Parse a big-endian 64-bit offset [atomic].
pub fn be_u64(i: &[u8], pos: usize) -> (r: Result<(usize, u64), ParseErr>)
    requires
        pos <= i@.len(),
    ensures
        step_of(r, spec_be_u64(i@, pos as int)),
        r matches Ok(p) ==> pos <= p.0 <= i@.len(),
{
    if i.len() - pos < 8 {
        return Err(ParseErr::Incomplete);
    }
    let v: u64 = (i[pos] as u64) * 0x100_0000_0000_0000 + (i[pos + 1] as u64) * 0x1_0000_0000_0000
        + (i[pos + 2] as u64) * 0x100_0000_0000 + (i[pos + 3] as u64) * 0x1_0000_0000 + (i[pos
        + 4] as u64) * 0x100_0000 + (i[pos + 5] as u64) * 0x1_0000 + (i[pos + 6] as u64) * 0x100 + (
    i[pos + 7] as u64);
    Ok((pos + 8, v))
}

/// Grammar: one byte.
pub open spec fn spec_take_u8(b: Seq<u8>, p: int) -> PStep<u8> {
    if p + 1 <= b.len() {
        PStep::Done(p + 1, b[p])
    } else {
        PStep::More
    }
}

/// Parse a single byte [atomic].
fn take_u8(i: &[u8], pos: usize) -> (r: Result<(usize, u8), ParseErr>)
    requires
        pos <= i@.len(),
    ensures
        step_of(r, spec_take_u8(i@, pos as int)),
        r matches Ok(p) ==> pos <= p.0 <= i@.len(),
{
    if i.len() - pos < 1 {
        return Err(ParseErr::Incomplete);
    }
    Ok((pos + 1, i[pos]))
}

/// Grammar: the literal bytes `CDF`.
pub open spec fn spec_initials(b: Seq<u8>, p: int) -> PStep<Seq<u8>> {
    if p + 3 <= b.len() {
        if b[p] == 0x43u8 && b[p + 1] == 0x44u8 && b[p + 2] == 0x46u8 {
            PStep::Done(p + 3, seq![0x43u8, 0x44u8, 0x46u8])
        } else {
            PStep::Fail(ErrView::InvalidFile)
        }
    } else {
        PStep::More
    }
}

/// Parse NetCDF initials [atomic].
pub fn initials(i: &[u8], pos: usize) -> (r: Result<(usize, Vec<u8>), ParseErr>)
    requires
        pos <= i@.len(),
    ensures
        step_of(r, spec_initials(i@, pos as int)),
        r matches Ok(p) ==> pos <= p.0 <= i@.len(),
{
    if i.len() - pos < 3 {
        return Err(ParseErr::Incomplete);
    }
    if i[pos] == 0x43u8 && i[pos + 1] == 0x44u8 && i[pos + 2] == 0x46u8 {
        let mut v: Vec<u8> = Vec::new();
        v.push(0x43);
        v.push(0x44);
        v.push(0x46);
        proof {
            assert(v.deep_view() =~= seq![0x43u8, 0x44u8, 0x46u8]);
        }
        Ok((pos + 3, v))
    } else {
        Err(ParseErr::Failed(HeadScratcherError::InvalidFile))
    }
}

/// Grammar: the version byte, 1 for classic and 2 for 64-bit offset.
pub open spec fn spec_nc_version(b: Seq<u8>, p: int) -> PStep<NetCDFVersion> {
    match spec_take_u8(b, p) {
        PStep::Done(p1, o) => {
            if o == 1u8 {
                PStep::Done(p1, NetCDFVersion::Classic)
            } else if o == 2u8 {
                PStep::Done(p1, NetCDFVersion::Offset64)
            } else {
                PStep::Fail(ErrView::UnsupportedVersion)
            }
        },
        PStep::More => PStep::More,
        PStep::Fail(e) => PStep::Fail(e),
    }
}

/// Parse NetCDF version [atomic].
pub fn nc_version(i: &[u8], pos: usize) -> (r: Result<(usize, NetCDFVersion), ParseErr>)
    requires
        pos <= i@.len(),
    ensures
        step_of(r, spec_nc_version(i@, pos as int)),
        r matches Ok(p) ==> pos <= p.0 <= i@.len(),
{
    let (p1, o) = match take_u8(i, pos) {
        Ok(x) => x,
        Err(e) => {
            return Err(e);
        },
    };
    match o {
        1 => Ok((p1, NetCDFVersion::Classic)),
        2 => Ok((p1, NetCDFVersion::Offset64)),
        _ => Err(ParseErr::Failed(HeadScratcherError::UnsupportedVersion)),
    }
}

/// Grammar: the magic, `CDF` followed by the version byte.
pub open spec fn spec_magic(b: Seq<u8>, p: int) -> PStep<NetCDFVersion> {
    match spec_initials(b, p) {
        PStep::Done(p1, _) => spec_nc_version(b, p1),
        PStep::More => PStep::More,
        PStep::Fail(e) => PStep::Fail(e),
    }
}

/// Parse NetCDF magic bytes [combined].
pub fn magic(i: &[u8], pos: usize) -> (r: Result<(usize, NetCDFVersion), ParseErr>)
    requires
        pos <= i@.len(),
    ensures
        step_of(r, spec_magic(i@, pos as int)),
        r matches Ok(p) ==> pos <= p.0 <= i@.len(),
{
    let (p1, _) = match initials(i, pos) {
        Ok(x) => x,
        Err(e) => {
            return Err(e);
        },
    };
    nc_version(i, p1)
}

/// Grammar: the record count; `0xFFFF_FFFF` is the streaming sentinel.
pub open spec fn spec_number_of_records(b: Seq<u8>, p: int) -> PStep<NumberOfRecords> {
    match spec_non_neg(b, p) {
        PStep::Done(p1, o) => {
            if o == csts::STREAMING {
                PStep::Done(p1, NumberOfRecords::Streaming)
            } else {
                PStep::Done(p1, NumberOfRecords::NonNegative(o))
            }
        },
        PStep::More => PStep::More,
        PStep::Fail(e) => PStep::Fail(e),
    }
}

/// Parse length of record dimension [atomic].
pub fn number_of_records(i: &[u8], pos: usize) -> (r: Result<(usize, NumberOfRecords), ParseErr>)
    requires
        pos <= i@.len(),
    ensures
        step_of(r, spec_number_of_records(i@, pos as int)),
        r matches Ok(p) ==> pos <= p.0 <= i@.len(),
{
    let (p1, o) = match non_neg(i, pos) {
        Ok(x) => x,
        Err(e) => {
            return Err(e);
        },
    };
    if o == csts::STREAMING {
        Ok((p1, NumberOfRecords::Streaming))
    } else {
        Ok((p1, NumberOfRecords::NonNegative(o)))
    }
}

/// Grammar: one `u32` that must be zero.
pub open spec fn spec_zero(b: Seq<u8>, p: int) -> PStep<bool> {
    match spec_non_neg(b, p) {
        PStep::Done(p1, o) => {
            if o == 0u32 {
                PStep::Done(p1, true)
            } else {
                PStep::Fail(ErrView::MalformedAbsentList)
            }
        },
        PStep::More => PStep::More,
        PStep::Fail(e) => PStep::Fail(e),
    }
}

/// Parse a zero [atomic].
pub fn zero(i: &[u8], pos: usize) -> (r: Result<(usize, bool), ParseErr>)
    requires
        pos <= i@.len(),
    ensures
        step_of(r, spec_zero(i@, pos as int)),
        r matches Ok(p) ==> pos <= p.0 <= i@.len(),
{
    let (p1, o) = match non_neg(i, pos) {
        Ok(x) => x,
        Err(e) => {
            return Err(e);
        },
    };
    if o == 0 {
        Ok((p1, true))
    } else {
        Err(ParseErr::Failed(HeadScratcherError::MalformedAbsentList))
    }
}

/// Grammar: an absent list, two zero words.
pub open spec fn spec_absent(b: Seq<u8>, p: int) -> PStep<ListType> {
    match spec_zero(b, p) {
        PStep::Done(p1, _) => match spec_zero(b, p1) {
            PStep::Done(p2, _) => PStep::Done(p2, ListType::Absent),
            PStep::More => PStep::More,
            PStep::Fail(e) => PStep::Fail(e),
        },
        PStep::More => PStep::More,
        PStep::Fail(e) => PStep::Fail(e),
    }
}

/// Parse an absent list [combined].
pub fn absent(i: &[u8], pos: usize) -> (r: Result<(usize, ListType), ParseErr>)
    requires
        pos <= i@.len(),
    ensures
        step_of(r, spec_absent(i@, pos as int)),
        r matches Ok(p) ==> pos <= p.0 <= i@.len(),
{
    let (p1, _) = match zero(i, pos) {
        Ok(x) => x,
        Err(e) => {
            return Err(e);
        },
    };
    let (p2, _) = match zero(i, p1) {
        Ok(x) => x,
        Err(e) => {
            return Err(e);
        },
    };
    Ok((p2, ListType::Absent))
}

/// Grammar: a list tag.  A zero word must be followed by a second zero word
/// (an absent list); 0x0A, 0x0B and 0x0C name the three list kinds; any
/// other word is unknown.
pub open spec fn spec_list_type(b: Seq<u8>, p: int) -> PStep<ListType> {
    match spec_non_neg(b, p) {
        PStep::Done(p1, o) => {
            if o == csts::ZERO {
                match spec_non_neg(b, p1) {
                    PStep::Done(p2, o2) => {
                        if o2 == csts::ZERO {
                            PStep::Done(p2, ListType::Absent)
                        } else {
                            PStep::Fail(ErrView::MalformedAbsentList)
                        }
                    },
                    PStep::More => PStep::More,
                    PStep::Fail(e) => PStep::Fail(e),
                }
            } else if o == csts::NC_DIMENSION {
                PStep::Done(p1, ListType::DimensionList)
            } else if o == csts::NC_VARIABLE {
                PStep::Done(p1, ListType::VariableList)
            } else if o == csts::NC_ATTRIBUTE {
                PStep::Done(p1, ListType::AttributeList)
            } else {
                PStep::Fail(ErrView::UnknownListTag(o))
            }
        },
        PStep::More => PStep::More,
        PStep::Fail(e) => PStep::Fail(e),
    }
}

/// Parse upcoming list type [atomic].
pub fn list_type(i: &[u8], pos: usize) -> (r: Result<(usize, ListType), ParseErr>)
    requires
        pos <= i@.len(),
    ensures
        step_of(r, spec_list_type(i@, pos as int)),
        r matches Ok(p) ==> pos <= p.0 <= i@.len(),
{
    let (p1, o) = match non_neg(i, pos) {
        Ok(x) => x,
        Err(e) => {
            return Err(e);
        },
    };
    if o == csts::ZERO {
        let (p2, o2) = match non_neg(i, p1) {
            Ok(x) => x,
            Err(e) => {
                return Err(e);
            },
        };
        if o2 == csts::ZERO {
            Ok((p2, ListType::Absent))
        } else {
            Err(ParseErr::Failed(HeadScratcherError::MalformedAbsentList))
        }
    } else if o == csts::NC_DIMENSION {
        Ok((p1, ListType::DimensionList))
    } else if o == csts::NC_VARIABLE {
        Ok((p1, ListType::VariableList))
    } else if o == csts::NC_ATTRIBUTE {
        Ok((p1, ListType::AttributeList))
    } else {
        Err(ParseErr::Failed(HeadScratcherError::UnknownListTag(o)))
    }
}

/// Copies `i[a..b]` into a fresh vector.
pub fn copy_range(i: &[u8], a: usize, b: usize) -> (r: Vec<u8>)
    requires
        a <= b <= i@.len(),
    ensures
        r@ == i@.subrange(a as int, b as int),
{
    let mut out: Vec<u8> = Vec::new();
    let mut j = a;
    while j < b
        invariant
            a <= j <= b <= i@.len(),
            out@.len() == j - a,
            forall|k: int| 0 <= k < out@.len() ==> out@[k] == i@[a + k],
        decreases b - j,
    {
        out.push(i[j]);
        j = j + 1;
    }
    proof {
        assert(out@ =~= i@.subrange(a as int, b as int));
    }
    out
}

/// Relies on std::str::from_utf8: it accepts exactly the valid UTF-8 byte
/// sequences, and the string it returns views those very bytes, so its
/// characters are their decoding.
#[verifier::external_body]
pub(crate) fn utf8_to_string(v: &[u8]) -> (r: Option<String>)
    ensures
        r is Some <==> valid_utf8(v@),
        r matches Some(s) ==> s@ == decode_utf8(v@),
{
    match core::str::from_utf8(v) {
        Ok(s) => Some(s.to_string()),
        Err(_) => None,
    }
}

/// Grammar: a length-prefixed UTF-8 name followed by zero padding to the
/// next 4-byte boundary.
pub open spec fn spec_name(b: Seq<u8>, p: int) -> PStep<Seq<char>> {
    match spec_non_neg(b, p) {
        PStep::Done(p1, count) => {
            let pad = spec_padding(count as int);
            if p1 + count + pad <= b.len() {
                let content = b.subrange(p1, p1 + count);
                if valid_utf8(content) {
                    PStep::Done(p1 + count + pad, decode_utf8(content))
                } else {
                    PStep::Fail(ErrView::Utf8)
                }
            } else {
                PStep::More
            }
        },
        PStep::More => PStep::More,
        PStep::Fail(e) => PStep::Fail(e),
    }
}

/// Parse the name of an element (dimension, variable, or attribute)
/// [combined].
pub fn name(i: &[u8], pos: usize) -> (r: Result<(usize, String), ParseErr>)
    requires
        pos <= i@.len(),
    ensures
        step_of(r, spec_name(i@, pos as int)),
        r matches Ok(p) ==> pos <= p.0 <= i@.len(),
{
    let (p1, count) = match non_neg(i, pos) {
        Ok(x) => x,
        Err(e) => {
            return Err(e);
        },
    };
    let pad = padding(count) as usize;
    let count_s = count as usize;
    if count_s > i.len() - p1 || pad > i.len() - p1 - count_s {
        return Err(ParseErr::Incomplete);
    }
    let content = copy_range(i, p1, p1 + count_s);
    match utf8_to_string(content.as_slice()) {
        Some(s) => Ok((p1 + count_s + pad, s)),
        None => Err(ParseErr::Failed(HeadScratcherError::Utf8)),
    }
}

/// Grammar: a dimension record, a name and a length word.
pub open spec fn spec_dimension(b: Seq<u8>, p: int) -> PStep<DimView> {
    match spec_name(b, p) {
        PStep::Done(p1, nm) => match spec_non_neg(b, p1) {
            PStep::Done(p2, len) => PStep::Done(
                p2,
                DimView { name: nm, length: len as usize },
            ),
            PStep::More => PStep::More,
            PStep::Fail(e) => PStep::Fail(e),
        },
        PStep::More => PStep::More,
        PStep::Fail(e) => PStep::Fail(e),
    }
}

/// Parse a single NetCDF dimension [combined].
pub fn dimension(i: &[u8], pos: usize) -> (r: Result<(usize, NetCDFDimension), ParseErr>)
    requires
        pos <= i@.len(),
    ensures
        step_of(r, spec_dimension(i@, pos as int)),
        r matches Ok(p) ==> pos <= p.0 <= i@.len(),
{
    let (p1, nm) = match name(i, pos) {
        Ok(x) => x,
        Err(e) => {
            return Err(e);
        },
    };
    let (p2, len) = match dim_length(i, p1) {
        Ok(x) => x,
        Err(e) => {
            return Err(e);
        },
    };
    Ok((p2, NetCDFDimension::new(nm, len as usize)))
}

/// Grammar: `k` dimension records in a row, appended to `acc`.
pub open spec fn spec_dims(b: Seq<u8>, p: int, k: nat, acc: Seq<DimView>) -> PStep<Seq<DimView>>
    decreases k,
{
    if k == 0 {
        PStep::Done(p, acc)
    } else {
        match spec_dimension(b, p) {
            PStep::Done(p1, d) => spec_dims(b, p1, (k - 1) as nat, acc.push(d)),
            PStep::More => PStep::More,
            PStep::Fail(e) => PStep::Fail(e),
        }
    }
}

/// Grammar: a count followed by that many dimension records.
pub open spec fn spec_dimension_list(b: Seq<u8>, p: int) -> PStep<Seq<DimView>> {
    match spec_non_neg(b, p) {
        PStep::Done(p1, count) => spec_dims(b, p1, count as nat, Seq::empty()),
        PStep::More => PStep::More,
        PStep::Fail(e) => PStep::Fail(e),
    }
}

/// Parse a list of NetCDF dimensions [combined].
pub fn dimension_list(i: &[u8], pos: usize) -> (r: Result<(usize, Vec<NetCDFDimension>), ParseErr>)
    requires
        pos <= i@.len(),
    ensures
        step_of(r, spec_dimension_list(i@, pos as int)),
        r matches Ok(p) ==> pos <= p.0 <= i@.len(),
{
    let (p1, count) = match nelems(i, pos) {
        Ok(x) => x,
        Err(e) => {
            return Err(e);
        },
    };
    let mut out: Vec<NetCDFDimension> = Vec::new();
    let mut p = p1;
    let mut k = count;
    proof {
        assert(out.deep_view() =~= Seq::<DimView>::empty());
    }
    while k > 0
        invariant
            pos <= p <= i@.len(),
            spec_dimension_list(i@, pos as int) == spec_dims(
                i@,
                p as int,
                k as nat,
                out.deep_view(),
            ),
        decreases k,
    {
        let (p2, d) = match dimension(i, p) {
            Ok(x) => x,
            Err(e) => {
                return Err(e);
            },
        };
        let ghost pre = out.deep_view();
        out.push(d);
        proof {
            assert(out.deep_view() =~= pre.push(d.deep_view()));
        }
        p = p2;
        k = k - 1;
    }
    Ok((p, out))
}

/// Grammar: an element type code, 1 through 6.
pub open spec fn spec_nc_type(b: Seq<u8>, p: int) -> PStep<NetCDFType> {
    match spec_non_neg(b, p) {
        PStep::Done(p1, o) => {
            if o == csts::NC_BYTE {
                PStep::Done(p1, NetCDFType::NC_BYTE)
            } else if o == csts::NC_CHAR {
                PStep::Done(p1, NetCDFType::NC_CHAR)
            } else if o == csts::NC_SHORT {
                PStep::Done(p1, NetCDFType::NC_SHORT)
            } else if o == csts::NC_INT {
                PStep::Done(p1, NetCDFType::NC_INT)
            } else if o == csts::NC_FLOAT {
                PStep::Done(p1, NetCDFType::NC_FLOAT)
            } else if o == csts::NC_DOUBLE {
                PStep::Done(p1, NetCDFType::NC_DOUBLE)
            } else {
                PStep::Fail(ErrView::UnknownType(o))
            }
        },
        PStep::More => PStep::More,
        PStep::Fail(e) => PStep::Fail(e),
    }
}

/// Parse NetCDF data format types [atomic].
pub fn nc_type(i: &[u8], pos: usize) -> (r: Result<(usize, NetCDFType), ParseErr>)
    requires
        pos <= i@.len(),
    ensures
        step_of(r, spec_nc_type(i@, pos as int)),
        r matches Ok(p) ==> pos <= p.0 <= i@.len(),
{
    let (p1, o) = match non_neg(i, pos) {
        Ok(x) => x,
        Err(e) => {
            return Err(e);
        },
    };
    if o == csts::NC_BYTE {
        Ok((p1, NetCDFType::NC_BYTE))
    } else if o == csts::NC_CHAR {
        Ok((p1, NetCDFType::NC_CHAR))
    } else if o == csts::NC_SHORT {
        Ok((p1, NetCDFType::NC_SHORT))
    } else if o == csts::NC_INT {
        Ok((p1, NetCDFType::NC_INT))
    } else if o == csts::NC_FLOAT {
        Ok((p1, NetCDFType::NC_FLOAT))
    } else if o == csts::NC_DOUBLE {
        Ok((p1, NetCDFType::NC_DOUBLE))
    } else {
        Err(ParseErr::Failed(HeadScratcherError::UnknownType(o)))
    }
}

// ------------------------------------------------------------------
// Attributes
// ------------------------------------------------------------------

/// True when some attribute in `acc` already bears the name `nm`.
pub open spec fn has_attr_name(acc: Seq<AttrView>, nm: Seq<char>) -> bool {
    exists|j: int| 0 <= j < acc.len() && acc[j].name == nm
}

/// Grammar: an attribute record: a name, a type code, an element count,
/// `count * sizeof(type)` raw value bytes, and zero padding to the next
/// 4-byte boundary.  Text attributes must hold valid UTF-8.
pub open spec fn spec_attribute(b: Seq<u8>, p: int) -> PStep<AttrView> {
    match spec_name(b, p) {
        PStep::Done(p1, nm) => match spec_nc_type(b, p1) {
            PStep::Done(p2, t) => match spec_non_neg(b, p2) {
                PStep::Done(p3, n) => {
                    let total = n * t.spec_extsize();
                    let pad = spec_padding(total as int);
                    if p3 + total + pad <= b.len() {
                        let content = b.subrange(p3, p3 + total);
                        if t is NC_CHAR && !valid_utf8(content) {
                            PStep::Fail(ErrView::Utf8)
                        } else {
                            PStep::Done(
                                p3 + total + pad,
                                AttrView { name: nm, nc_type: t, data: content },
                            )
                        }
                    } else {
                        PStep::More
                    }
                },
                PStep::More => PStep::More,
                PStep::Fail(e) => PStep::Fail(e),
            },
            PStep::More => PStep::More,
            PStep::Fail(e) => PStep::Fail(e),
        },
        PStep::More => PStep::More,
        PStep::Fail(e) => PStep::Fail(e),
    }
}

/// Parse a single NetCDF attribute [combined].
pub fn attribute(i: &[u8], pos: usize) -> (r: Result<(usize, NetCDFAttribute), ParseErr>)
    requires
        pos <= i@.len(),
    ensures
        step_of(r, spec_attribute(i@, pos as int)),
        r matches Ok(p) ==> pos <= p.0 <= i@.len(),
{
    let (p1, nm) = match name(i, pos) {
        Ok(x) => x,
        Err(e) => {
            return Err(e);
        },
    };
    let (p2, t) = match nc_type(i, p1) {
        Ok(x) => x,
        Err(e) => {
            return Err(e);
        },
    };
    let (p3, n) = match nelems(i, p2) {
        Ok(x) => x,
        Err(e) => {
            return Err(e);
        },
    };
    let ext = t.extsize();
    proof {
        assert((n as int) * (ext as int) <= 0xFFFF_FFFFint * 8) by (nonlinear_arith)
            requires
                n <= 0xFFFF_FFFFu32,
                0 <= ext <= 8,
        ;
    }
    let total: u64 = (n as u64) * (ext as u64);
    let pad: u64 = (4 - total % 4) % 4;
    proof {
        assert(pad == spec_padding(total as int));
    }
    let remaining: u64 = (i.len() - p3) as u64;
    if total > remaining || pad > remaining - total {
        return Err(ParseErr::Incomplete);
    }
    let total_s = total as usize;
    let pad_s = pad as usize;
    let content = copy_range(i, p3, p3 + total_s);
    if matches!(t, NetCDFType::NC_CHAR) && utf8_to_string(content.as_slice()).is_none() {
        return Err(ParseErr::Failed(HeadScratcherError::Utf8));
    }
    Ok((p3 + total_s + pad_s, NetCDFAttribute::new(nm, t, content)))
}

/// Grammar: `k` attribute records in a row, appended to `acc`; a record
/// whose name is already taken fails the list.
pub open spec fn spec_attrs(b: Seq<u8>, p: int, k: nat, acc: Seq<AttrView>) -> PStep<
    Seq<AttrView>,
>
    decreases k,
{
    if k == 0 {
        PStep::Done(p, acc)
    } else {
        match spec_attribute(b, p) {
            PStep::Done(p1, a) => {
                if has_attr_name(acc, a.name) {
                    PStep::Fail(ErrView::DuplicateName(a.name))
                } else {
                    spec_attrs(b, p1, (k - 1) as nat, acc.push(a))
                }
            },
            PStep::More => PStep::More,
            PStep::Fail(e) => PStep::Fail(e),
        }
    }
}

/// Grammar: a count followed by that many attribute records.
pub open spec fn spec_attribute_list(b: Seq<u8>, p: int) -> PStep<Seq<AttrView>> {
    match spec_non_neg(b, p) {
        PStep::Done(p1, count) => spec_attrs(b, p1, count as nat, Seq::empty()),
        PStep::More => PStep::More,
        PStep::Fail(e) => PStep::Fail(e),
    }
}

/// Whether some attribute already in `v` bears the name `nm`.
fn contains_attr_name(v: &Vec<NetCDFAttribute>, nm: &String) -> (r: bool)
    ensures
        r == has_attr_name(v.deep_view(), nm@),
{
    let mut j: usize = 0;
    while j < v.len()
        invariant
            j <= v@.len(),
            forall|jj: int| 0 <= jj < j ==> v.deep_view()[jj].name != nm@,
        decreases v@.len() - j,
    {
        if v[j].name == *nm {
            proof {
                assert(v.deep_view()[j as int].name == nm@);
            }
            return true;
        }
        j = j + 1;
    }
    false
}

/// Parse a list of NetCDF attributes [combined].
pub fn attribute_list(i: &[u8], pos: usize) -> (r: Result<(usize, Vec<NetCDFAttribute>), ParseErr>)
    requires
        pos <= i@.len(),
    ensures
        step_of(r, spec_attribute_list(i@, pos as int)),
        r matches Ok(p) ==> pos <= p.0 <= i@.len(),
{
    let (p1, count) = match nelems(i, pos) {
        Ok(x) => x,
        Err(e) => {
            return Err(e);
        },
    };
    let mut out: Vec<NetCDFAttribute> = Vec::new();
    let mut p = p1;
    let mut k = count;
    proof {
        assert(out.deep_view() =~= Seq::<AttrView>::empty());
    }
    while k > 0
        invariant
            pos <= p <= i@.len(),
            spec_attribute_list(i@, pos as int) == spec_attrs(
                i@,
                p as int,
                k as nat,
                out.deep_view(),
            ),
        decreases k,
    {
        let (p2, a) = match attribute(i, p) {
            Ok(x) => x,
            Err(e) => {
                return Err(e);
            },
        };
        if contains_attr_name(&out, &a.name) {
            return Err(ParseErr::Failed(HeadScratcherError::DuplicateName(a.name)));
        }
        let ghost pre = out.deep_view();
        out.push(a);
        proof {
            assert(out.deep_view() =~= pre.push(a.deep_view()));
        }
        p = p2;
        k = k - 1;
    }
    Ok((p, out))
}

// ------------------------------------------------------------------
// Variables
// ------------------------------------------------------------------

/// True when some variable in `acc` already bears the name `nm`.
pub open spec fn has_var_name(acc: Seq<VarView>, nm: Seq<char>) -> bool {
    exists|j: int| 0 <= j < acc.len() && acc[j].name == nm
}

/// Grammar: `k` dimension-ID words in a row, appended to `acc`.
pub open spec fn spec_dim_ids(b: Seq<u8>, p: int, k: nat, acc: Seq<u32>) -> PStep<Seq<u32>>
    decreases k,
{
    if k == 0 {
        PStep::Done(p, acc)
    } else {
        match spec_non_neg(b, p) {
            PStep::Done(p1, d) => spec_dim_ids(b, p1, (k - 1) as nat, acc.push(d)),
            PStep::More => PStep::More,
            PStep::Fail(e) => PStep::Fail(e),
        }
    }
}

/// Parses `k` dimension-ID words in a row.
fn dim_ids(i: &[u8], pos: usize, k: u32) -> (r: Result<(usize, Vec<u32>), ParseErr>)
    requires
        pos <= i@.len(),
    ensures
        step_of(r, spec_dim_ids(i@, pos as int, k as nat, Seq::empty())),
        r matches Ok(p) ==> pos <= p.0 <= i@.len(),
{
    let mut out: Vec<u32> = Vec::new();
    let mut p = pos;
    let mut rem = k;
    proof {
        assert(out.deep_view() =~= Seq::<u32>::empty());
    }
    while rem > 0
        invariant
            pos <= p <= i@.len(),
            spec_dim_ids(i@, pos as int, k as nat, Seq::empty()) == spec_dim_ids(
                i@,
                p as int,
                rem as nat,
                out.deep_view(),
            ),
        decreases rem,
    {
        let (p2, d) = match non_neg(i, p) {
            Ok(x) => x,
            Err(e) => {
                return Err(e);
            },
        };
        let ghost pre = out.deep_view();
        out.push(d);
        proof {
            assert(out.deep_view() =~= pre.push(d));
        }
        p = p2;
        rem = rem - 1;
    }
    Ok((p, out))
}

/// Grammar: a variable's optional attribute sub-list.  An absent tag pair
/// yields no list; an attribute tag must follow with the list; any other
/// valid tag is a mismatch.
pub open spec fn spec_var_attrs(b: Seq<u8>, p: int) -> PStep<Option<Seq<AttrView>>> {
    match spec_list_type(b, p) {
        PStep::Done(p1, lt) => {
            if lt is Absent {
                PStep::Done(p1, Option::None)
            } else if lt is AttributeList {
                match spec_attribute_list(b, p1) {
                    PStep::Done(p2, al) => PStep::Done(p2, Option::Some(al)),
                    PStep::More => PStep::More,
                    PStep::Fail(e) => PStep::Fail(e),
                }
            } else {
                PStep::Fail(
                    ErrView::UnexpectedListTag { expected: ListType::AttributeList, got: lt },
                )
            }
        },
        PStep::More => PStep::More,
        PStep::Fail(e) => PStep::Fail(e),
    }
}

/// Parses a variable's optional attribute sub-list.
pub(crate) fn var_attrs(i: &[u8], pos: usize) -> (r: Result<(usize, Option<Vec<NetCDFAttribute>>), ParseErr>)
    requires
        pos <= i@.len(),
    ensures
        step_of(r, spec_var_attrs(i@, pos as int)),
        r matches Ok(p) ==> pos <= p.0 <= i@.len(),
{
    let (p1, lt) = match list_type(i, pos) {
        Ok(x) => x,
        Err(e) => {
            return Err(e);
        },
    };
    match lt {
        ListType::Absent => Ok((p1, None)),
        ListType::AttributeList => {
            let (p2, al) = match attribute_list(i, p1) {
                Ok(x) => x,
                Err(e) => {
                    return Err(e);
                },
            };
            Ok((p2, Some(al)))
        },
        _ => Err(
            ParseErr::Failed(
                HeadScratcherError::UnexpectedListTag {
                    expected: ListType::AttributeList,
                    got: lt,
                },
            ),
        ),
    }
}

/// Grammar: the byte offset of a variable's data region; 32 bits wide in a
/// classic file and 64 bits wide in a 64-bit-offset file.
pub open spec fn spec_begin(b: Seq<u8>, p: int, version: NetCDFVersion) -> PStep<u64> {
    match version {
        NetCDFVersion::Classic => match spec_non_neg(b, p) {
            PStep::Done(p1, v) => PStep::Done(p1, v as u64),
            PStep::More => PStep::More,
            PStep::Fail(e) => PStep::Fail(e),
        },
        NetCDFVersion::Offset64 => spec_be_u64(b, p),
    }
}

/// Parses a variable's `begin` offset at the width the version dictates.
fn begin_offset(i: &[u8], pos: usize, version: NetCDFVersion) -> (r: Result<(usize, u64), ParseErr>)
    requires
        pos <= i@.len(),
    ensures
        step_of(r, spec_begin(i@, pos as int, version)),
        r matches Ok(p) ==> pos <= p.0 <= i@.len(),
{
    match version {
        NetCDFVersion::Classic => {
            let (p1, v) = match non_neg(i, pos) {
                Ok(x) => x,
                Err(e) => {
                    return Err(e);
                },
            };
            Ok((p1, v as u64))
        },
        NetCDFVersion::Offset64 => be_u64(i, pos),
    }
}

/// Grammar: a variable record: a name, a dimension-ID list, an optional
/// attribute sub-list, a type code, the declared data-region size, and the
/// version-dependent `begin` offset.
pub open spec fn spec_variable(b: Seq<u8>, p: int, version: NetCDFVersion) -> PStep<VarView> {
    match spec_name(b, p) {
        PStep::Done(p1, nm) => match spec_non_neg(b, p1) {
            PStep::Done(p2, ndims) => match spec_dim_ids(b, p2, ndims as nat, Seq::empty()) {
                PStep::Done(p3, ids) => match spec_var_attrs(b, p3) {
                    PStep::Done(p4, attrs) => match spec_nc_type(b, p4) {
                        PStep::Done(p5, t) => match spec_non_neg(b, p5) {
                            PStep::Done(p6, vs) => match spec_begin(b, p6, version) {
                                PStep::Done(p7, bg) => PStep::Done(
                                    p7,
                                    VarView {
                                        name: nm,
                                        dims: ids,
                                        attributes: attrs,
                                        nc_type: t,
                                        vsize: vs as usize,
                                        begin: bg,
                                    },
                                ),
                                PStep::More => PStep::More,
                                PStep::Fail(e) => PStep::Fail(e),
                            },
                            PStep::More => PStep::More,
                            PStep::Fail(e) => PStep::Fail(e),
                        },
                        PStep::More => PStep::More,
                        PStep::Fail(e) => PStep::Fail(e),
                    },
                    PStep::More => PStep::More,
                    PStep::Fail(e) => PStep::Fail(e),
                },
                PStep::More => PStep::More,
                PStep::Fail(e) => PStep::Fail(e),
            },
            PStep::More => PStep::More,
            PStep::Fail(e) => PStep::Fail(e),
        },
        PStep::More => PStep::More,
        PStep::Fail(e) => PStep::Fail(e),
    }
}

/// Parse a single NetCDF variable [combined].
pub fn variable(i: &[u8], pos: usize, version: NetCDFVersion) -> (r: Result<
    (usize, NetCDFVariable),
    ParseErr,
>)
    requires
        pos <= i@.len(),
    ensures
        step_of(r, spec_variable(i@, pos as int, version)),
        r matches Ok(p) ==> pos <= p.0 <= i@.len(),
{
    let (p1, nm) = match name(i, pos) {
        Ok(x) => x,
        Err(e) => {
            return Err(e);
        },
    };
    let (p2, ndims) = match nelems(i, p1) {
        Ok(x) => x,
        Err(e) => {
            return Err(e);
        },
    };
    let (p3, ids) = match dim_ids(i, p2, ndims) {
        Ok(x) => x,
        Err(e) => {
            return Err(e);
        },
    };
    let (p4, attrs) = match var_attrs(i, p3) {
        Ok(x) => x,
        Err(e) => {
            return Err(e);
        },
    };
    let (p5, t) = match nc_type(i, p4) {
        Ok(x) => x,
        Err(e) => {
            return Err(e);
        },
    };
    let (p6, vs) = match nelems(i, p5) {
        Ok(x) => x,
        Err(e) => {
            return Err(e);
        },
    };
    let (p7, bg) = match begin_offset(i, p6, version) {
        Ok(x) => x,
        Err(e) => {
            return Err(e);
        },
    };
    Ok((p7, NetCDFVariable::new(nm, ids, attrs, t, vs as usize, bg)))
}

/// Grammar: `k` variable records in a row, appended to `acc`; a record
/// whose name is already taken fails the list.
pub open spec fn spec_vars(
    b: Seq<u8>,
    p: int,
    version: NetCDFVersion,
    k: nat,
    acc: Seq<VarView>,
) -> PStep<Seq<VarView>>
    decreases k,
{
    if k == 0 {
        PStep::Done(p, acc)
    } else {
        match spec_variable(b, p, version) {
            PStep::Done(p1, v) => {
                if has_var_name(acc, v.name) {
                    PStep::Fail(ErrView::DuplicateName(v.name))
                } else {
                    spec_vars(b, p1, version, (k - 1) as nat, acc.push(v))
                }
            },
            PStep::More => PStep::More,
            PStep::Fail(e) => PStep::Fail(e),
        }
    }
}

/// Grammar: a count followed by that many variable records.
pub open spec fn spec_variable_list(b: Seq<u8>, p: int, version: NetCDFVersion) -> PStep<
    Seq<VarView>,
> {
    match spec_non_neg(b, p) {
        PStep::Done(p1, count) => spec_vars(b, p1, version, count as nat, Seq::empty()),
        PStep::More => PStep::More,
        PStep::Fail(e) => PStep::Fail(e),
    }
}

/// Whether some variable already in `v` bears the name `nm`.
fn contains_var_name(v: &Vec<NetCDFVariable>, nm: &String) -> (r: bool)
    ensures
        r == has_var_name(v.deep_view(), nm@),
{
    let mut j: usize = 0;
    while j < v.len()
        invariant
            j <= v@.len(),
            forall|jj: int| 0 <= jj < j ==> v.deep_view()[jj].name != nm@,
        decreases v@.len() - j,
    {
        if v[j].name == *nm {
            proof {
                assert(v.deep_view()[j as int].name == nm@);
            }
            return true;
        }
        j = j + 1;
    }
    false
}

/// Parse a list of NetCDF variables [combined].
pub fn variable_list(i: &[u8], pos: usize, version: NetCDFVersion) -> (r: Result<
    (usize, Vec<NetCDFVariable>),
    ParseErr,
>)
    requires
        pos <= i@.len(),
    ensures
        step_of(r, spec_variable_list(i@, pos as int, version)),
        r matches Ok(p) ==> pos <= p.0 <= i@.len(),
{
    let (p1, count) = match nelems(i, pos) {
        Ok(x) => x,
        Err(e) => {
            return Err(e);
        },
    };
    let mut out: Vec<NetCDFVariable> = Vec::new();
    let mut p = p1;
    let mut k = count;
    proof {
        assert(out.deep_view() =~= Seq::<VarView>::empty());
    }
    while k > 0
        invariant
            pos <= p <= i@.len(),
            spec_variable_list(i@, pos as int, version) == spec_vars(
                i@,
                p as int,
                version,
                k as nat,
                out.deep_view(),
            ),
        decreases k,
    {
        let (p2, v) = match variable(i, p, version) {
            Ok(x) => x,
            Err(e) => {
                return Err(e);
            },
        };
        if contains_var_name(&out, &v.name) {
            return Err(ParseErr::Failed(HeadScratcherError::DuplicateName(v.name)));
        }
        let ghost pre = out.deep_view();
        out.push(v);
        proof {
            assert(out.deep_view() =~= pre.push(v.deep_view()));
        }
        p = p2;
        k = k - 1;
    }
    Ok((p, out))
}

} // verus!
