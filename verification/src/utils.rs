//! Layout arithmetic: per-variable stride vectors and the byte offset of an
//! element, plus name lookups over the parsed tables.

use crate::error::{ErrView, HeadScratcherError};
use crate::parser::components::{DimView, NetCDFDimension, NetCDFVariable, NumberOfRecords, VarView};
use vstd::prelude::*;

verus! {

// ------------------------------------------------------------------
// Products and strides
// ------------------------------------------------------------------

/// Product of the lengths `lens[from..]`, as a mathematical integer.
pub open spec fn spec_prod(lens: Seq<usize>, from: int) -> int
    decreases lens.len() - from,
{
    if from >= lens.len() {
        1
    } else {
        lens[from] * spec_prod(lens, from + 1)
    }
}

/// The per-axis lengths of a variable, looked up in the dimension table.
pub open spec fn var_lens(v: VarView, dims: Seq<DimView>) -> Seq<usize> {
    Seq::new(v.dims.len(), |j: int| dims[v.dims[j] as int].length)
}

/// Every dimension ID of every variable is a valid index into the
/// dimension table.
pub open spec fn vars_dims_ok(vars: Seq<VarView>, ndims: int) -> bool {
    forall|i: int, j: int|
        0 <= i < vars.len() && 0 <= j < vars[i].dims.len() ==> #[trigger] vars[i].dims[j] < ndims
}

/// Every stride that the lengths `lens` induce fits the machine word.
pub open spec fn strides_fit(lens: Seq<usize>) -> bool {
    forall|j: int| 0 <= j < lens.len() ==> #[trigger] spec_prod(lens, j + 1) <= usize::MAX
}

/// The stride vector `sv` holds, per axis, the product of the lengths of
/// all later axes; the last stride is 1.
pub open spec fn strides_match(sv: Seq<usize>, lens: Seq<usize>) -> bool {
    &&& sv.len() == lens.len()
    &&& forall|j: int| 0 <= j < sv.len() ==> #[trigger] sv[j] == spec_prod(lens, j + 1)
}

/// Tail products of a length vector: entry `i` is the product of
/// `vecs[i..]`.
pub fn product_vector(vecs: &[usize], _record: bool) -> (r: Vec<usize>)
    requires
        forall|i: int| 0 <= i < vecs@.len() ==> #[trigger] spec_prod(vecs@, i) <= usize::MAX,
    ensures
        r@.len() == vecs@.len(),
        forall|i: int| 0 <= i < r@.len() ==> #[trigger] r@[i] == spec_prod(vecs@, i),
{
    let mut prod: usize = 1;
    let mut result: Vec<usize> = Vec::new();
    let mut j = vecs.len();
    while j > 0
        invariant
            j <= vecs@.len(),
            prod == spec_prod(vecs@, j as int),
            result@.len() == vecs@.len() - j,
            forall|l: int|
                0 <= l < result@.len() ==> #[trigger] result@[l] == spec_prod(vecs@, j + l),
            forall|i: int| 0 <= i < vecs@.len() ==> #[trigger] spec_prod(vecs@, i) <= usize::MAX,
        decreases j,
    {
        j = j - 1;
        proof {
            assert(spec_prod(vecs@, j as int) == vecs@[j as int] * spec_prod(vecs@, j + 1));
        }
        prod = vecs[j] * prod;
        let ghost pre = result@;
        result.insert(0, prod);
        proof {
            assert forall|l: int| 0 <= l < result@.len() implies #[trigger] result@[l]
                == spec_prod(vecs@, j + l) by {
                if l > 0 {
                    assert(result@[l] == pre[l - 1]);
                }
            }
        }
    }
    result
}

// ------------------------------------------------------------------
// Coordinate lookup by name
// ------------------------------------------------------------------

/// True when `nm` is one of the candidate names.
pub open spec fn name_in_cands(cands: Seq<Seq<char>>, nm: Seq<char>) -> bool {
    exists|j: int| 0 <= j < cands.len() && cands[j] == nm
}

/// First index at or after `i` of a dimension bearing a candidate name.
pub open spec fn find_coord_from(dims: Seq<DimView>, cands: Seq<Seq<char>>, i: int) -> Option<int>
    decreases dims.len() - i,
{
    if i < 0 || i >= dims.len() {
        Option::None
    } else if name_in_cands(cands, dims[i].name) {
        Option::Some(i)
    } else {
        find_coord_from(dims, cands, i + 1)
    }
}

/// Whether `nm` equals one of the candidate strings.
fn matches_candidate(nm: &String, candidates: &[&str]) -> (r: bool)
    ensures
        r == name_in_cands(candidates.deep_view(), nm@),
{
    let mut j: usize = 0;
    while j < candidates.len()
        invariant
            j <= candidates@.len(),
            forall|jj: int| 0 <= jj < j ==> candidates.deep_view()[jj] != nm@,
        decreases candidates@.len() - j,
    {
        let c: String = candidates[j].to_owned();
        if c == *nm {
            proof {
                assert(candidates.deep_view()[j as int] == nm@);
            }
            return true;
        }
        j = j + 1;
    }
    false
}

/// Position of the first dimension whose name is one of the candidates.
pub fn get_coordinate_dim_id(dims: &Vec<NetCDFDimension>, candidates: &[&str]) -> (r: Option<
    usize,
>)
    ensures
        match r {
            Some(ix) => ix < dims@.len() && find_coord_from(
                dims.deep_view(),
                candidates.deep_view(),
                0,
            ) == Option::Some(ix as int),
            None => find_coord_from(dims.deep_view(), candidates.deep_view(), 0) is None,
        },
{
    let mut i: usize = 0;
    while i < dims.len()
        invariant
            i <= dims@.len(),
            find_coord_from(dims.deep_view(), candidates.deep_view(), 0) == find_coord_from(
                dims.deep_view(),
                candidates.deep_view(),
                i as int,
            ),
        decreases dims@.len() - i,
    {
        if matches_candidate(&dims[i].name, candidates) {
            return Some(i);
        }
        i = i + 1;
    }
    None
}

// ------------------------------------------------------------------
// Offset computation
// ------------------------------------------------------------------

/// Sum of `start[l] * strides[l]` over the first `j` axes.
pub open spec fn dot_to(start: Seq<usize>, strides: Seq<usize>, j: int) -> int
    decreases j,
{
    if j <= 0 {
        0
    } else {
        dot_to(start, strides, j - 1) + start[j - 1] * strides[j - 1]
    }
}

/// The flattened element index of coordinate `start` under `strides`.
pub open spec fn spec_dot(start: Seq<usize>, strides: Seq<usize>) -> int {
    dot_to(start, strides, start.len() as int)
}

/// Prefix sums of nonnegative terms grow monotonically.
proof fn lemma_dot_mono(start: Seq<usize>, strides: Seq<usize>, j1: int, j2: int)
    requires
        0 <= j1 <= j2,
        j2 <= start.len(),
        j2 <= strides.len(),
    ensures
        dot_to(start, strides, j1) <= dot_to(start, strides, j2),
    decreases j2 - j1,
{
    if j1 < j2 {
        lemma_dot_mono(start, strides, j1, j2 - 1);
        let a = start[j2 - 1] as int;
        let b = strides[j2 - 1] as int;
        assert(a * b >= 0) by (nonlinear_arith)
            requires
                a >= 0,
                b >= 0,
        ;
    }
}

/// First index at or after `j` in the variable's coordinate lookup: the
/// position in the vector table of the first variable named `nm`.
pub open spec fn find_var_from(vars: Seq<VarView>, nm: Seq<char>, j: int) -> Option<int>
    decreases vars.len() - j,
{
    if j < 0 || j >= vars.len() {
        Option::None
    } else if vars[j].name == nm {
        Option::Some(j)
    } else {
        find_var_from(vars, nm, j + 1)
    }
}

/// The axis bound a coordinate is checked against: the dimension's length,
/// or the record count for the record dimension.  `None` means unbounded
/// (a streaming file's record axis).
pub open spec fn axis_bound(len: usize, nor: NumberOfRecords) -> Option<int> {
    if len > 0 {
        Option::Some(len as int)
    } else {
        match nor {
            NumberOfRecords::NonNegative(n) => Option::Some(n as int),
            NumberOfRecords::Streaming => Option::None,
        }
    }
}

/// First axis at or after `j` whose coordinate breaks its bound.
pub open spec fn first_oob_from(
    start: Seq<usize>,
    lens: Seq<usize>,
    nor: NumberOfRecords,
    j: int,
) -> Option<int>
    decreases start.len() - j,
{
    if j < 0 || j >= start.len() {
        Option::None
    } else {
        match axis_bound(lens[j], nor) {
            Option::Some(b) => {
                if start[j] >= b {
                    Option::Some(j)
                } else {
                    first_oob_from(start, lens, nor, j + 1)
                }
            },
            Option::None => first_oob_from(start, lens, nor, j + 1),
        }
    }
}

/// The stride table is sized like the variable table, with one stride per
/// variable axis.
pub open spec fn seeks_arity_ok(vars: Seq<VarView>, seeks: Seq<Seq<usize>>) -> bool {
    &&& seeks.len() == vars.len()
    &&& forall|i: int| 0 <= i < vars.len() ==> #[trigger] seeks[i].len() == vars[i].dims.len()
}

/// What [`calc_seek`] returns: the absolute byte position of the element at
/// coordinate `start` of the variable named `nm`, or the exact error.
pub open spec fn spec_calc_seek(
    vars: Seq<VarView>,
    dims: Seq<DimView>,
    nor: NumberOfRecords,
    seeks: Seq<Seq<usize>>,
    nm: Seq<char>,
    start: Seq<usize>,
) -> Result<u64, ErrView> {
    match find_var_from(vars, nm, 0) {
        Option::None => Result::Err(ErrView::UnknownVariable(nm)),
        Option::Some(ix) => {
            let v = vars[ix];
            if start.len() != v.dims.len() {
                Result::Err(
                    ErrView::OutOfBounds {
                        axis: 0,
                        value: start.len() as usize,
                        bound: v.dims.len() as usize,
                    },
                )
            } else {
                let lens = var_lens(v, dims);
                match first_oob_from(start, lens, nor, 0) {
                    Option::Some(j) => Result::Err(
                        ErrView::OutOfBounds {
                            axis: j as usize,
                            value: start[j],
                            bound: axis_bound(lens[j], nor).unwrap() as usize,
                        },
                    ),
                    Option::None => {
                        let total = v.begin + spec_dot(start, seeks[ix]) * v.nc_type.spec_extsize();
                        if total > u64::MAX {
                            Result::Err(ErrView::LayoutOverflow)
                        } else {
                            Result::Ok(total as u64)
                        }
                    },
                }
            }
        },
    }
}

/// Position in the variable table of the first variable named `nm`.
fn find_var_index(v: &Vec<NetCDFVariable>, nm: &String) -> (r: Option<usize>)
    ensures
        match r {
            Some(ix) => ix < v@.len() && find_var_from(v.deep_view(), nm@, 0) == Option::Some(
                ix as int,
            ),
            None => find_var_from(v.deep_view(), nm@, 0) is None,
        },
{
    let mut j: usize = 0;
    while j < v.len()
        invariant
            j <= v@.len(),
            find_var_from(v.deep_view(), nm@, 0) == find_var_from(v.deep_view(), nm@, j as int),
        decreases v@.len() - j,
    {
        if v[j].name == *nm {
            proof {
                assert(v.deep_view()[j as int].name == nm@);
            }
            return Some(j);
        }
        j = j + 1;
    }
    None
}

/// Byte position of the element at coordinate `start` of the variable named
/// `name`: the variable's `begin` plus the flattened element index times the
/// element size.  Rejects unknown names, wrong arity, and coordinates off
/// their axis; a position beyond the 64-bit range is a layout overflow.
pub fn calc_seek(
    v: &Vec<NetCDFVariable>,
    d: &Vec<NetCDFDimension>,
    nor: NumberOfRecords,
    s: &Vec<Vec<usize>>,
    name: &String,
    start: &[usize],
) -> (r: Result<u64, HeadScratcherError>)
    requires
        seeks_arity_ok(v.deep_view(), s.deep_view()),
        vars_dims_ok(v.deep_view(), d.deep_view().len() as int),
    ensures
        crate::error::result_of(
            r,
            spec_calc_seek(v.deep_view(), d.deep_view(), nor, s.deep_view(), name@, start@),
        ),
{
    let ghost gspec = spec_calc_seek(
        v.deep_view(),
        d.deep_view(),
        nor,
        s.deep_view(),
        name@,
        start@,
    );
    let ix = match find_var_index(v, name) {
        Some(ix) => ix,
        None => {
            return Err(HeadScratcherError::UnknownVariable(name.clone()));
        },
    };
    let k = v[ix].dims.len();
    if start.len() != k {
        return Err(
            HeadScratcherError::OutOfBounds { axis: 0, value: start.len(), bound: k },
        );
    }
    let ghost lens = var_lens(v.deep_view()[ix as int], d.deep_view());
    // Bounds check, axis by axis.
    let mut j: usize = 0;
    while j < k
        invariant
            j <= k,
            ix < v@.len(),
            k == v@[ix as int].dims@.len(),
            start@.len() == k,
            seeks_arity_ok(v.deep_view(), s.deep_view()),
            vars_dims_ok(v.deep_view(), d.deep_view().len() as int),
            lens == var_lens(v.deep_view()[ix as int], d.deep_view()),
            find_var_from(v.deep_view(), name@, 0) == Option::Some(ix as int),
            first_oob_from(start@, lens, nor, 0) == first_oob_from(start@, lens, nor, j as int),
        decreases k - j,
    {
        let id = v[ix].dims[j] as usize;
        proof {
            assert(v.deep_view()[ix as int].dims[j as int] < d.deep_view().len());
        }
        let l = d[id].length;
        proof {
            assert(lens[j as int] == l);
        }
        match nor {
            NumberOfRecords::NonNegative(n) => {
                let b = if l > 0 {
                    l
                } else {
                    n as usize
                };
                if start[j] >= b {
                    return Err(
                        HeadScratcherError::OutOfBounds { axis: j, value: start[j], bound: b },
                    );
                }
            },
            NumberOfRecords::Streaming => {
                if l > 0 && start[j] >= l {
                    return Err(
                        HeadScratcherError::OutOfBounds { axis: j, value: start[j], bound: l },
                    );
                }
            },
        }
        j = j + 1;
    }
    // Flattened element index.
    let st = &s[ix];
    let ghost gdot = spec_dot(start@, s.deep_view()[ix as int]);
    let ghost gext = v.deep_view()[ix as int].nc_type.spec_extsize() as int;
    let ghost gtotal = v.deep_view()[ix as int].begin + gdot * gext;
    proof {
        assert(st.deep_view() == s.deep_view()[ix as int]);
        assert(st@.len() == k);
        lemma_dot_mono(start@, st.deep_view(), 0, k as int);
        lemma_total_ge_dot(v.deep_view()[ix as int].begin, gdot, gext);
    }
    let mut acc: u64 = 0;
    let mut j2: usize = 0;
    while j2 < k
        invariant
            j2 <= k,
            ix < v@.len(),
            k == v@[ix as int].dims@.len(),
            start@.len() == k,
            st@.len() == k,
            st.deep_view() == s.deep_view()[ix as int],
            acc == dot_to(start@, st.deep_view(), j2 as int),
            gdot == spec_dot(start@, s.deep_view()[ix as int]),
            gext == v.deep_view()[ix as int].nc_type.spec_extsize() as int,
            gtotal == v.deep_view()[ix as int].begin + gdot * gext,
            gtotal >= gdot >= 0,
            gspec == spec_calc_seek(
                v.deep_view(),
                d.deep_view(),
                nor,
                s.deep_view(),
                name@,
                start@,
            ),
            gspec == if gtotal > u64::MAX {
                Result::<u64, ErrView>::Err(ErrView::LayoutOverflow)
            } else {
                Result::<u64, ErrView>::Ok(gtotal as u64)
            },
        decreases k - j2,
    {
        let term = match (start[j2] as u64).checked_mul(st[j2] as u64) {
            Some(t) => t,
            None => {
                proof {
                    lemma_term_overflow(start@, st.deep_view(), j2 as int, k as int);
                }
                return Err(HeadScratcherError::LayoutOverflow);
            },
        };
        let next = match acc.checked_add(term) {
            Some(t) => t,
            None => {
                proof {
                    lemma_dot_mono(start@, st.deep_view(), j2 + 1, k as int);
                }
                return Err(HeadScratcherError::LayoutOverflow);
            },
        };
        proof {
            lemma_dot_mono(start@, st.deep_view(), j2 + 1, k as int);
        }
        acc = next;
        j2 = j2 + 1;
    }
    // Scale by the element size and add the variable's begin offset.
    let ext = v[ix].nc_type.extsize();
    let bytes = match acc.checked_mul(ext as u64) {
        Some(t) => t,
        None => {
            return Err(HeadScratcherError::LayoutOverflow);
        },
    };
    match v[ix].begin.checked_add(bytes) {
        Some(t) => Ok(t),
        None => Err(HeadScratcherError::LayoutOverflow),
    }
}

// ------------------------------------------------------------------
// Laws of the layout
// ------------------------------------------------------------------

/// Product of the lengths `lens[from..]`, counting the record dimension
/// (length 0) as 1: the product of the non-record dimension lengths.
pub open spec fn prod_non_record(lens: Seq<usize>, from: int) -> int
    decreases lens.len() - from,
{
    if from >= lens.len() {
        1
    } else {
        (if lens[from] == 0 {
            1int
        } else {
            lens[from] as int
        }) * prod_non_record(lens, from + 1)
    }
}

/// The on-disk extent of a variable's data region (per record, for a record
/// variable): element size times the product of the non-record dimension
/// lengths, rounded up to the next 4-byte boundary.
pub open spec fn spec_vsize_of(v: VarView, dims: Seq<DimView>) -> int {
    let x = v.nc_type.spec_extsize() * prod_non_record(var_lens(v, dims), 0);
    x + crate::parser::components::spec_padding(x)
}

/// The product of non-record lengths is at least 1.
pub proof fn lemma_prod_non_record_pos(lens: Seq<usize>, from: int)
    ensures
        prod_non_record(lens, from) >= 1,
    decreases lens.len() - from,
{
    if from < lens.len() {
        lemma_prod_non_record_pos(lens, from + 1);
        let f: int = if lens[from] == 0 {
            1
        } else {
            lens[from] as int
        };
        assert(f * prod_non_record(lens, from + 1) >= 1) by (nonlinear_arith)
            requires
                f >= 1,
                prod_non_record(lens, from + 1) >= 1,
        ;
    }
}

/// A variable's on-disk size is a multiple of 4 and no smaller than its
/// element size times the product of its non-record dimension lengths.
pub proof fn lemma_vsize_of_aligned(v: VarView, dims: Seq<DimView>)
    ensures
        spec_vsize_of(v, dims) % 4 == 0,
        spec_vsize_of(v, dims) >= v.nc_type.spec_extsize() * prod_non_record(
            var_lens(v, dims),
            0,
        ),
{
    let lens = var_lens(v, dims);
    let ext = v.nc_type.spec_extsize() as int;
    lemma_prod_non_record_pos(lens, 0);
    let p = prod_non_record(lens, 0);
    let x = ext * p;
    assert(ext * p >= 1) by (nonlinear_arith)
        requires
            ext >= 1,
            p >= 1,
    ;
    vstd::arithmetic::div_mod::lemma_fundamental_div_mod(x, 4);
    let q = x / 4;
    let r = x % 4;
    if r == 0 {
        assert(spec_vsize_of(v, dims) == x);
    } else {
        assert(spec_vsize_of(v, dims) == x + 4 - r);
        assert(x + 4 - r == 4 * (q + 1));
        vstd::arithmetic::div_mod::lemma_mod_multiples_vanish(q + 1, 0, 4);
    }
}

/// Suffix form of the flattened element index: the part contributed by the
/// axes at and after `j`.
spec fn dsum(start: Seq<usize>, strides: Seq<usize>, j: int) -> int
    decreases start.len() - j,
{
    if j < 0 || j >= start.len() {
        0
    } else {
        start[j] * strides[j] + dsum(start, strides, j + 1)
    }
}

/// The prefix and the suffix of the flattened index sum to the whole.
proof fn lemma_dot_dsum(start: Seq<usize>, strides: Seq<usize>, j: int)
    requires
        0 <= j <= start.len(),
        start.len() <= strides.len(),
    ensures
        dot_to(start, strides, j) + dsum(start, strides, j) == dsum(start, strides, 0),
    decreases j,
{
    if j > 0 {
        lemma_dot_dsum(start, strides, j - 1);
    }
}

/// Under per-axis bounds, the suffix of the flattened index stays below the
/// product of the remaining non-record lengths.
proof fn lemma_dsum_bound(start: Seq<usize>, strides: Seq<usize>, lens: Seq<usize>, j: int)
    requires
        strides_match(strides, lens),
        start.len() == lens.len(),
        forall|l: int| 1 <= l < lens.len() ==> lens[l] > 0,
        forall|l: int|
            0 <= l < start.len() ==> ((lens[l] == 0 ==> start[l] == 0) && (lens[l] > 0
                ==> (start[l] as int) < lens[l])),
        0 <= j <= start.len(),
    ensures
        dsum(start, strides, j) <= prod_non_record(lens, j) - 1,
    decreases start.len() - j,
{
    let k = start.len() as int;
    if j < k {
        lemma_dsum_bound(start, strides, lens, j + 1);
        lemma_prod_eq_non_record(lens, j + 1);
        lemma_prod_non_record_pos(lens, j + 1);
        let p = prod_non_record(lens, j + 1);
        assert(strides[j] == spec_prod(lens, j + 1));
        assert(spec_prod(lens, j + 1) == p);
        if lens[j] == 0 {
            assert(start[j] == 0);
            assert(dsum(start, strides, j) == dsum(start, strides, j + 1));
        } else {
            vstd::arithmetic::mul::lemma_mul_inequality(start[j] as int, lens[j] - 1, p);
            assert((lens[j] - 1) * p + p == lens[j] * p) by (nonlinear_arith);
            assert(dsum(start, strides, j) <= lens[j] * p - 1);
        }
    }
}

/// Suffix products agree with their non-record form where no length is 0.
proof fn lemma_prod_eq_non_record(lens: Seq<usize>, from: int)
    requires
        forall|l: int| from <= l < lens.len() ==> lens[l] > 0,
    ensures
        spec_prod(lens, from) == prod_non_record(lens, from),
    decreases lens.len() - from,
{
    if from < lens.len() {
        lemma_prod_eq_non_record(lens, from + 1);
    }
}

/// The offset the indexer computes stays inside the variable's data
/// region: for every coordinate within its per-axis bounds, the byte offset
/// `begin + index * element size` satisfies
/// `begin <= offset < begin + vsize`, where `vsize` is the variable's
/// on-disk extent.  The record axis, if any, must be the leading one, and
/// its coordinate must name the first record.
pub proof fn lemma_offset_in_region(
    v: VarView,
    dims: Seq<DimView>,
    strides: Seq<usize>,
    start: Seq<usize>,
)
    requires
        strides_match(strides, var_lens(v, dims)),
        start.len() == v.dims.len(),
        forall|l: int| 1 <= l < var_lens(v, dims).len() ==> var_lens(v, dims)[l] > 0,
        forall|l: int|
            0 <= l < start.len() ==> ((var_lens(v, dims)[l] == 0 ==> start[l] == 0) && (var_lens(
                v,
                dims,
            )[l] > 0 ==> (start[l] as int) < var_lens(v, dims)[l])),
    ensures
        0 <= spec_dot(start, strides),
        spec_dot(start, strides) * v.nc_type.spec_extsize() < spec_vsize_of(v, dims),
{
    let lens = var_lens(v, dims);
    let k = start.len() as int;
    let ext = v.nc_type.spec_extsize() as int;
    assert(lens.len() == k);
    lemma_dot_mono(start, strides, 0, k);
    lemma_dot_dsum(start, strides, k);
    assert(spec_dot(start, strides) == dsum(start, strides, 0));
    lemma_dsum_bound(start, strides, lens, 0);
    lemma_prod_non_record_pos(lens, 0);
    let p = prod_non_record(lens, 0);
    let dot = spec_dot(start, strides);
    vstd::arithmetic::mul::lemma_mul_inequality(dot, p - 1, ext);
    assert((p - 1) * ext + ext == p * ext) by (nonlinear_arith);
    assert(p * ext == ext * p) by (nonlinear_arith);
    lemma_vsize_of_aligned(v, dims);
    assert(spec_vsize_of(v, dims) >= ext * p);
}

/// The whole offset dominates the flattened index it is built from.
proof fn lemma_total_ge_dot(begin: u64, dot: int, ext: int)
    requires
        dot >= 0,
        ext >= 1,
    ensures
        begin + dot * ext >= dot,
{
    assert(dot * ext >= dot * 1 == dot) by (nonlinear_arith)
        requires
            dot >= 0,
            ext >= 1,
    ;
}

/// If one term of the flattened index exceeds the 64-bit range, so does the
/// whole index.
proof fn lemma_term_overflow(start: Seq<usize>, strides: Seq<usize>, j: int, k: int)
    requires
        0 <= j < k,
        k <= start.len(),
        k <= strides.len(),
        start[j] * strides[j] > u64::MAX,
    ensures
        dot_to(start, strides, k) > u64::MAX,
{
    lemma_dot_mono(start, strides, 0, j);
    assert(dot_to(start, strides, j + 1) == dot_to(start, strides, j) + start[j] * strides[j]);
    lemma_dot_mono(start, strides, j + 1, k);
}

} // verus!
