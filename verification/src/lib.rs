//! Stream parser for the NetCDF classic and 64-bit-offset binary header
//! format, with a coordinate-based reader over an abstract byte source.
//!
//! The header grammar is stated as spec functions over the stream's bytes;
//! the executable parsers are proved equal to them, so parsing a file yields
//! one header, bit for bit, whatever chunk sizes the stream hands out.

use vstd::prelude::*;

pub mod constants_and_types;
pub mod error;
pub mod parser;
pub mod source;
pub mod utils;
pub mod values;

use error::{ErrView, HeadScratcherError};
use parser::components::DimView;
use parser::{header_wf, spec_header_full, spec_read_target, NetCDFHeader};
use source::ByteSource;
use utils::find_coord_from;

verus! {

/// Bytes pulled from the source per read while the header is parsed.
pub const DEFAULT_CHUNK: usize = 4096;

/// Names that mark a dimension as the longitude axis.
pub open spec fn lon_cands() -> Seq<Seq<char>> {
    seq!["lon"@, "longitude"@]
}

/// Names that mark a dimension as the latitude axis.
pub open spec fn lat_cands() -> Seq<Seq<char>> {
    seq!["lat"@, "latitude"@]
}

/// What [`NetCDF::mapsize`] returns: the product of the lengths of the
/// first longitude-like and the first latitude-like dimension, or which of
/// the two axes is missing; a product beyond the machine word is a layout
/// overflow.
pub open spec fn spec_mapsize(dims_o: Option<Seq<DimView>>) -> Result<usize, ErrView> {
    match dims_o {
        Option::None => Result::Err(ErrView::MissingCoordinate("longitude"@)),
        Option::Some(ds) => {
            let lon = find_coord_from(ds, lon_cands(), 0);
            let lat = find_coord_from(ds, lat_cands(), 0);
            match (lon, lat) {
                (Option::Some(lo), Option::Some(la)) => {
                    let prod = ds[lo].length * ds[la].length;
                    if prod > usize::MAX {
                        Result::Err(ErrView::LayoutOverflow)
                    } else {
                        Result::Ok(prod as usize)
                    }
                },
                (Option::Some(_), Option::None) => Result::Err(
                    ErrView::MissingCoordinate("latitude"@),
                ),
                (Option::None, _) => Result::Err(ErrView::MissingCoordinate("longitude"@)),
            }
        },
    }
}

/// A parsed NetCDF file: the header and the byte source its data is read
/// from.  The header is immutable after parsing; reads move the source's
/// position.
#[derive(Debug, PartialEq)]
pub struct NetCDF<F: ByteSource> {
    file: F,
    header: NetCDFHeader,
}

impl<F: ByteSource> NetCDF<F> {
    /// The held header, as a spec value.
    pub closed spec fn spec_header(self) -> NetCDFHeader {
        self.header
    }

    /// The held byte source, as a spec value.
    pub closed spec fn spec_file(self) -> F {
        self.file
    }

    /// The held header's stride table is exactly the one its variable and
    /// dimension tables induce.
    pub open spec fn wf(self) -> bool {
        header_wf(self.spec_header().deep_view())
    }

    /// Parses the header from the source, which must be at its start, and
    /// keeps the source for later reads.  Fails exactly where the grammar
    /// rejects the stream, or where the stream ends inside the header.
    pub fn new_from_file(file: F) -> (r: Result<Self, HeadScratcherError>)
        requires
            file.pos() == 0,
        ensures
            r matches Ok(nc) ==> nc.wf() && nc.spec_file().data() == file.data() && (
            spec_header_full(file.data()) matches Ok(hv) && nc.spec_header().deep_view() == hv),
            r matches Err(e) ==> spec_header_full(file.data()) matches Err(ev) && e@ == ev,
    {
        let mut f = file;
        let h = match NetCDFHeader::from_source(&mut f, DEFAULT_CHUNK) {
            Ok(h) => h,
            Err(e) => {
                return Err(e);
            },
        };
        Ok(NetCDF { file: f, header: h })
    }

    /// The parsed header.
    pub fn header(&self) -> (r: &NetCDFHeader)
        ensures
            *r == self.spec_header(),
    {
        &self.header
    }

    /// Seeks to the element at coordinate `start` of the variable named
    /// `variable` and fills `buffer` from the file, byte for byte.
    pub fn update_buffer(
        &mut self,
        variable: String,
        start: &[usize],
        buffer: &mut Vec<u8>,
    ) -> (r: Result<(), HeadScratcherError>)
        requires
            old(self).wf(),
        ensures
            final(self).wf(),
            final(self).spec_header() == old(self).spec_header(),
            final(self).spec_file().data() == old(self).spec_file().data(),
            final(buffer)@.len() == old(buffer)@.len(),
            r matches Ok(()) ==> spec_read_target(
                old(self).spec_header().deep_view(),
                variable@,
                start@,
            ) matches Ok(off) && (old(buffer)@.len() > 0 ==> off + old(buffer)@.len() <= old(
                self,
            ).spec_file().data().len() && final(buffer)@ == old(self).spec_file().data().subrange(
                off as int,
                off + old(buffer)@.len(),
            )),
            r matches Err(e) ==> final(buffer)@ == old(buffer)@ && ((spec_read_target(
                old(self).spec_header().deep_view(),
                variable@,
                start@,
            ) matches Err(ev) && e@ == ev) || (spec_read_target(
                old(self).spec_header().deep_view(),
                variable@,
                start@,
            ) matches Ok(off) && e@ == ErrView::UnexpectedEof && old(buffer)@.len() > 0 && off
                + old(buffer)@.len() > old(self).spec_file().data().len())),
    {
        self.header.update_buffer(&variable, start, &mut self.file, buffer)
    }

    /// Product of the lengths of the longitude-like and the latitude-like
    /// dimension, for sizing a two-dimensional raster buffer.
    pub fn mapsize(&self) -> (r: Result<usize, HeadScratcherError>)
        ensures
            crate::error::result_of(r, spec_mapsize(self.spec_header().deep_view().dims)),
    {
        match &self.header.dims {
            None => Err(HeadScratcherError::MissingCoordinate("longitude")),
            Some(dims) => {
                let mut lon_c: Vec<&str> = Vec::new();
                lon_c.push("lon");
                lon_c.push("longitude");
                let mut lat_c: Vec<&str> = Vec::new();
                lat_c.push("lat");
                lat_c.push("latitude");
                proof {
                    assert(lon_c.deep_view() =~= lon_cands());
                    assert(lat_c.deep_view() =~= lat_cands());
                }
                let lon = utils::get_coordinate_dim_id(dims, lon_c.as_slice());
                let lat = utils::get_coordinate_dim_id(dims, lat_c.as_slice());
                match (lon, lat) {
                    (Some(lo), Some(la)) => {
                        let a = dims[lo].length as u64;
                        let b = dims[la].length as u64;
                        match a.checked_mul(b) {
                            None => Err(HeadScratcherError::LayoutOverflow),
                            Some(p) => {
                                if p > usize::MAX as u64 {
                                    Err(HeadScratcherError::LayoutOverflow)
                                } else {
                                    Ok(p as usize)
                                }
                            },
                        }
                    },
                    (Some(_), None) => Err(HeadScratcherError::MissingCoordinate("latitude")),
                    (None, _) => Err(HeadScratcherError::MissingCoordinate("longitude")),
                }
            },
        }
    }
}

} // verus!
