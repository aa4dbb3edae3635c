//! Header grammar and streaming driver.

use crate::error::{result_of, ErrView, HeadScratcherError};
use crate::source::ByteSource;
use crate::utils::{
    calc_seek, seeks_arity_ok, spec_calc_seek, spec_prod, strides_fit, var_lens, vars_dims_ok,
};
use vstd::prelude::*;

pub mod components;
pub mod stability;

use components::{
    dimension_list, list_type, magic, number_of_records, spec_dimension_list, spec_list_type,
    spec_magic, spec_number_of_records, spec_var_attrs, spec_variable_list, step_of, var_attrs,
    variable_list, AttrView, DimView, ListType, NetCDFAttribute, NetCDFDimension, NetCDFVariable,
    NetCDFVersion, NumberOfRecords, PStep, ParseErr, VarView,
};

verus! {

// ------------------------------------------------------------------
// The header value
// ------------------------------------------------------------------

/// Everything the header of a NetCDF file declares, plus the derived
/// per-variable stride vectors.
#[derive(Debug, PartialEq)]
pub struct NetCDFHeader {
    pub version: NetCDFVersion,
    pub nor: NumberOfRecords,
    pub attrs: Option<Vec<NetCDFAttribute>>,
    pub dims: Option<Vec<NetCDFDimension>>,
    pub vars: Option<Vec<NetCDFVariable>>,
    pub seeks: Option<Vec<Vec<usize>>>,
}

/// Mathematical image of a [`NetCDFHeader`].
pub struct HeaderView {
    pub version: NetCDFVersion,
    pub nor: NumberOfRecords,
    pub attrs: Option<Seq<AttrView>>,
    pub dims: Option<Seq<DimView>>,
    pub vars: Option<Seq<VarView>>,
    pub seeks: Option<Seq<Seq<usize>>>,
}

impl DeepView for NetCDFHeader {
    type V = HeaderView;

    open spec fn deep_view(&self) -> HeaderView {
        HeaderView {
            version: self.version,
            nor: self.nor,
            attrs: self.attrs.deep_view(),
            dims: self.dims.deep_view(),
            vars: self.vars.deep_view(),
            seeks: self.seeks.deep_view(),
        }
    }
}

impl NetCDFHeader {
    /// Assembles a header value from its parts.
    pub fn new(
        version: NetCDFVersion,
        nor: NumberOfRecords,
        attrs: Option<Vec<NetCDFAttribute>>,
        dims: Option<Vec<NetCDFDimension>>,
        vars: Option<Vec<NetCDFVariable>>,
        seeks: Option<Vec<Vec<usize>>>,
    ) -> (r: Self)
        ensures
            r.deep_view() == (HeaderView {
                version,
                nor,
                attrs: attrs.deep_view(),
                dims: dims.deep_view(),
                vars: vars.deep_view(),
                seeks: seeks.deep_view(),
            }),
    {
        NetCDFHeader { version, nor, attrs, dims, vars, seeks }
    }
}

// ------------------------------------------------------------------
// Derived strides
// ------------------------------------------------------------------

/// The stride vector the lengths `lens` induce, in machine words.
pub open spec fn spec_strides_usize(lens: Seq<usize>) -> Seq<usize> {
    Seq::new(lens.len(), |j: int| spec_prod(lens, j + 1) as usize)
}

/// Every variable's strides fit the machine word.
pub open spec fn seeks_all_fit(vars: Seq<VarView>, dims: Seq<DimView>) -> bool {
    forall|i: int| 0 <= i < vars.len() ==> strides_fit(#[trigger] var_lens(vars[i], dims))
}

/// The stride table that the variable and dimension tables induce.
pub open spec fn spec_clc(vars: Seq<VarView>, dims: Seq<DimView>) -> Seq<Seq<usize>> {
    Seq::new(vars.len(), |i: int| spec_strides_usize(var_lens(vars[i], dims)))
}

/// Per-variable stride vectors: entry `j` for a variable is the product of
/// the lengths of its axes after `j`; the last entry is 1.  Fails when a
/// stride exceeds the machine word.
pub fn clc(vars: &Vec<NetCDFVariable>, dims: &Vec<NetCDFDimension>) -> (r: Result<
    Vec<Vec<usize>>,
    HeadScratcherError,
>)
    requires
        vars_dims_ok(vars.deep_view(), dims.deep_view().len() as int),
    ensures
        r matches Ok(s) ==> seeks_all_fit(vars.deep_view(), dims.deep_view())
            && s.deep_view() == spec_clc(vars.deep_view(), dims.deep_view()),
        r matches Err(e) ==> !seeks_all_fit(vars.deep_view(), dims.deep_view()) && e@
            == ErrView::LayoutOverflow,
{
    let ghost vdv = vars.deep_view();
    let ghost ddv = dims.deep_view();
    let mut out: Vec<Vec<usize>> = Vec::new();
    let mut i: usize = 0;
    proof {
        assert(out.deep_view() =~= Seq::<Seq<usize>>::empty());
    }
    while i < vars.len()
        invariant
            i <= vars@.len(),
            vdv == vars.deep_view(),
            ddv == dims.deep_view(),
            vars_dims_ok(vdv, ddv.len() as int),
            out.deep_view().len() == i,
            forall|l: int|
                0 <= l < i ==> strides_fit(#[trigger] var_lens(vdv[l], ddv))
                    && out.deep_view()[l] == spec_strides_usize(var_lens(vdv[l], ddv)),
        decreases vars@.len() - i,
    {
        let k = vars[i].dims.len();
        let ghost lensg = var_lens(vdv[i as int], ddv);
        // Look the variable's axis lengths up in the dimension table.
        let mut lens: Vec<usize> = Vec::new();
        let mut j: usize = 0;
        while j < k
            invariant
                j <= k,
                i < vars@.len(),
                k == vdv[i as int].dims.len(),
                vdv == vars.deep_view(),
                ddv == dims.deep_view(),
                vars_dims_ok(vdv, ddv.len() as int),
                lensg == var_lens(vdv[i as int], ddv),
                lens@.len() == j,
                forall|l: int| 0 <= l < j ==> lens@[l] == lensg[l],
            decreases k - j,
        {
            let id = vars[i].dims[j] as usize;
            proof {
                assert(vdv[i as int].dims[j as int] < ddv.len());
            }
            lens.push(dims[id].length);
            j = j + 1;
        }
        proof {
            assert(lens@ =~= lensg);
        }
        // Tail products, computed right to left.
        let mut st: Vec<usize> = vec![1usize; k];
        if k > 0 {
            let mut t: usize = k - 1;
            while t > 0
                invariant
                    t < k,
                    i < vars@.len(),
                    vdv == vars.deep_view(),
                    ddv == dims.deep_view(),
                    lensg == var_lens(vdv[i as int], ddv),
                    k == lens@.len(),
                    lens@ == lensg,
                    st@.len() == k,
                    forall|l: int|
                        t <= l < k ==> st@[l] == spec_prod(lensg, l + 1) && #[trigger] spec_prod(
                            lensg,
                            l + 1,
                        ) <= usize::MAX,
                decreases t,
            {
                let lt = lens[t];
                let scur = st[t];
                match lt.checked_mul(scur) {
                    Some(x) => {
                        proof {
                            assert(spec_prod(lensg, t as int) == lensg[t as int] * spec_prod(
                                lensg,
                                t + 1,
                            ));
                        }
                        st.set(t - 1, x);
                        t = t - 1;
                    },
                    None => {
                        proof {
                            assert(spec_prod(lensg, t as int) == lensg[t as int] * spec_prod(
                                lensg,
                                t + 1,
                            ));
                            assert(!strides_fit(lensg)) by {
                                assert(spec_prod(lensg, (t - 1) + 1) > usize::MAX);
                            }
                        }
                        return Err(HeadScratcherError::LayoutOverflow);
                    },
                }
            }
        }
        proof {
            assert(st.deep_view() =~= spec_strides_usize(lensg));
            assert(strides_fit(lensg));
        }
        let ghost pre = out.deep_view();
        out.push(st);
        proof {
            assert(out.deep_view() =~= pre.push(spec_strides_usize(lensg)));
        }
        i = i + 1;
    }
    proof {
        assert(out.deep_view() =~= spec_clc(vdv, ddv));
    }
    Ok(out)
}

/// What [`calculate_seeks`] returns: the stride table when both the
/// variable and the dimension tables are present, nothing when either is
/// absent, and a layout overflow when a stride does not fit.
pub open spec fn spec_calculate_seeks(
    vars: Option<Seq<VarView>>,
    dims: Option<Seq<DimView>>,
) -> Result<Option<Seq<Seq<usize>>>, ErrView> {
    match (vars, dims) {
        (Option::Some(vs), Option::Some(ds)) => {
            if seeks_all_fit(vs, ds) {
                Result::Ok(Option::Some(spec_clc(vs, ds)))
            } else {
                Result::Err(ErrView::LayoutOverflow)
            }
        },
        _ => Result::Ok(Option::None),
    }
}

/// Stride table of a header: present exactly when both the variable and the
/// dimension tables are.
pub fn calculate_seeks(
    vars: &Option<Vec<NetCDFVariable>>,
    dims: &Option<Vec<NetCDFDimension>>,
) -> (r: Result<Option<Vec<Vec<usize>>>, HeadScratcherError>)
    requires
        vars.deep_view() matches Some(vs) ==> (dims.deep_view() matches Some(ds)
            ==> vars_dims_ok(vs, ds.len() as int)),
    ensures
        result_of(r, spec_calculate_seeks(vars.deep_view(), dims.deep_view())),
{
    match (vars, dims) {
        (Some(v), Some(d)) => match clc(v, d) {
            Ok(s) => Ok(Some(s)),
            Err(e) => Err(e),
        },
        _ => Ok(None),
    }
}

// ------------------------------------------------------------------
// Dimension-reference check
// ------------------------------------------------------------------

/// First ID at or after `j` that is not a valid dimension index.
pub open spec fn bad_ids_from(ids: Seq<u32>, nd: int, j: int) -> Option<u32>
    decreases ids.len() - j,
{
    if j < 0 || j >= ids.len() {
        Option::None
    } else if ids[j] >= nd {
        Option::Some(ids[j])
    } else {
        bad_ids_from(ids, nd, j + 1)
    }
}

/// First invalid dimension reference in the variables at or after `i`.
pub open spec fn bad_ref_from(vars: Seq<VarView>, nd: int, i: int) -> Option<u32>
    decreases vars.len() - i,
{
    if i < 0 || i >= vars.len() {
        Option::None
    } else {
        match bad_ids_from(vars[i].dims, nd, 0) {
            Option::Some(x) => Option::Some(x),
            Option::None => bad_ref_from(vars, nd, i + 1),
        }
    }
}

/// First invalid dimension reference in the variable table, if any.
pub open spec fn spec_find_bad_ref(vars: Seq<VarView>, nd: int) -> Option<u32> {
    bad_ref_from(vars, nd, 0)
}

/// First ID in `ids` that is not below `nd`.
fn bad_ids(ids: &Vec<u32>, nd: usize) -> (r: Option<u32>)
    ensures
        r == bad_ids_from(ids.deep_view(), nd as int, 0),
        r is None ==> forall|j: int| 0 <= j < ids@.len() ==> ids@[j] < nd,
{
    let mut j: usize = 0;
    while j < ids.len()
        invariant
            j <= ids@.len(),
            bad_ids_from(ids.deep_view(), nd as int, 0) == bad_ids_from(
                ids.deep_view(),
                nd as int,
                j as int,
            ),
            forall|l: int| 0 <= l < j ==> ids@[l] < nd,
        decreases ids@.len() - j,
    {
        if ids[j] as usize >= nd {
            return Some(ids[j]);
        }
        j = j + 1;
    }
    None
}

/// First invalid dimension reference in the variable table, if any.
fn find_bad_ref(vars: &Vec<NetCDFVariable>, nd: usize) -> (r: Option<u32>)
    ensures
        r == spec_find_bad_ref(vars.deep_view(), nd as int),
        r is None ==> vars_dims_ok(vars.deep_view(), nd as int),
{
    let mut i: usize = 0;
    while i < vars.len()
        invariant
            i <= vars@.len(),
            bad_ref_from(vars.deep_view(), nd as int, 0) == bad_ref_from(
                vars.deep_view(),
                nd as int,
                i as int,
            ),
            forall|l: int, j: int|
                0 <= l < i && 0 <= j < vars.deep_view()[l].dims.len()
                    ==> #[trigger] vars.deep_view()[l].dims[j] < nd,
        decreases vars@.len() - i,
    {
        match bad_ids(&vars[i].dims, nd) {
            Some(x) => {
                return Some(x);
            },
            None => {},
        }
        i = i + 1;
    }
    None
}

// ------------------------------------------------------------------
// The header grammar
// ------------------------------------------------------------------

/// Grammar: the dimension list slot, under the tag protocol.
pub open spec fn spec_dim_slot(b: Seq<u8>, p: int) -> PStep<Option<Seq<DimView>>> {
    match spec_list_type(b, p) {
        PStep::Done(p1, lt) => {
            if lt is Absent {
                PStep::Done(p1, Option::None)
            } else if lt is DimensionList {
                match spec_dimension_list(b, p1) {
                    PStep::Done(p2, ds) => PStep::Done(p2, Option::Some(ds)),
                    PStep::More => PStep::More,
                    PStep::Fail(e) => PStep::Fail(e),
                }
            } else {
                PStep::Fail(
                    ErrView::UnexpectedListTag { expected: ListType::DimensionList, got: lt },
                )
            }
        },
        PStep::More => PStep::More,
        PStep::Fail(e) => PStep::Fail(e),
    }
}

/// Parses the dimension list slot.
fn dim_slot(i: &[u8], pos: usize) -> (r: Result<(usize, Option<Vec<NetCDFDimension>>), ParseErr>)
    requires
        pos <= i@.len(),
    ensures
        step_of(r, spec_dim_slot(i@, pos as int)),
        r matches Ok(p) ==> pos <= p.0 <= i@.len(),
{
    let (p1, lt) = match list_type(i, pos) {
        Ok(x) => x,
        Err(e) => {
            return Err(e);
        },
    };
    match lt {
        ListType::Absent => Ok((p1, None)),
        ListType::DimensionList => {
            let (p2, ds) = match dimension_list(i, p1) {
                Ok(x) => x,
                Err(e) => {
                    return Err(e);
                },
            };
            Ok((p2, Some(ds)))
        },
        _ => Err(
            ParseErr::Failed(
                HeadScratcherError::UnexpectedListTag {
                    expected: ListType::DimensionList,
                    got: lt,
                },
            ),
        ),
    }
}

/// Grammar: the variable list slot, under the tag protocol.
pub open spec fn spec_var_slot(b: Seq<u8>, p: int, version: NetCDFVersion) -> PStep<
    Option<Seq<VarView>>,
> {
    match spec_list_type(b, p) {
        PStep::Done(p1, lt) => {
            if lt is Absent {
                PStep::Done(p1, Option::None)
            } else if lt is VariableList {
                match spec_variable_list(b, p1, version) {
                    PStep::Done(p2, vs) => PStep::Done(p2, Option::Some(vs)),
                    PStep::More => PStep::More,
                    PStep::Fail(e) => PStep::Fail(e),
                }
            } else {
                PStep::Fail(
                    ErrView::UnexpectedListTag { expected: ListType::VariableList, got: lt },
                )
            }
        },
        PStep::More => PStep::More,
        PStep::Fail(e) => PStep::Fail(e),
    }
}

/// Parses the variable list slot.
fn var_slot(i: &[u8], pos: usize, version: NetCDFVersion) -> (r: Result<
    (usize, Option<Vec<NetCDFVariable>>),
    ParseErr,
>)
    requires
        pos <= i@.len(),
    ensures
        step_of(r, spec_var_slot(i@, pos as int, version)),
        r matches Ok(p) ==> pos <= p.0 <= i@.len(),
{
    let (p1, lt) = match list_type(i, pos) {
        Ok(x) => x,
        Err(e) => {
            return Err(e);
        },
    };
    match lt {
        ListType::Absent => Ok((p1, None)),
        ListType::VariableList => {
            let (p2, vs) = match variable_list(i, p1, version) {
                Ok(x) => x,
                Err(e) => {
                    return Err(e);
                },
            };
            Ok((p2, Some(vs)))
        },
        _ => Err(
            ParseErr::Failed(
                HeadScratcherError::UnexpectedListTag {
                    expected: ListType::VariableList,
                    got: lt,
                },
            ),
        ),
    }
}

/// Grammar: a whole header.  Magic and version, the record count, the three
/// top-level list slots, then the dimension-reference check and the derived
/// stride table.
pub open spec fn spec_header(b: Seq<u8>) -> PStep<HeaderView> {
    match spec_magic(b, 0) {
        PStep::Done(p1, version) => match spec_number_of_records(b, p1) {
            PStep::Done(p2, nor) => match spec_dim_slot(b, p2) {
                PStep::Done(p3, dims_o) => match spec_var_attrs(b, p3) {
                    PStep::Done(p4, attrs_o) => match spec_var_slot(b, p4, version) {
                        PStep::Done(p5, vars_o) => {
                            let nd: int = match dims_o {
                                Option::Some(ds) => ds.len() as int,
                                Option::None => 0,
                            };
                            let bad: Option<u32> = match vars_o {
                                Option::Some(vs) => spec_find_bad_ref(vs, nd),
                                Option::None => Option::None,
                            };
                            match bad {
                                Option::Some(id) => PStep::Fail(ErrView::BadDimRef(id)),
                                Option::None => match spec_calculate_seeks(vars_o, dims_o) {
                                    Result::Ok(sk) => PStep::Done(
                                        p5,
                                        HeaderView {
                                            version,
                                            nor,
                                            attrs: attrs_o,
                                            dims: dims_o,
                                            vars: vars_o,
                                            seeks: sk,
                                        },
                                    ),
                                    Result::Err(e) => PStep::Fail(e),
                                },
                            }
                        },
                        PStep::More => PStep::More,
                        PStep::Fail(e) => PStep::Fail(e),
                    },
                    PStep::More => PStep::More,
                    PStep::Fail(e) => PStep::Fail(e),
                },
                PStep::More => PStep::More,
                PStep::Fail(e) => PStep::Fail(e),
            },
            PStep::More => PStep::More,
            PStep::Fail(e) => PStep::Fail(e),
        },
        PStep::More => PStep::More,
        PStep::Fail(e) => PStep::Fail(e),
    }
}

/// A header is well formed when its stride table is exactly the one its
/// variable and dimension tables induce, every dimension reference is
/// valid, and the stride table is absent exactly when a table is.
pub open spec fn header_wf(h: HeaderView) -> bool {
    match (h.vars, h.dims) {
        (Option::Some(vs), Option::Some(ds)) => {
            &&& vars_dims_ok(vs, ds.len() as int)
            &&& seeks_all_fit(vs, ds)
            &&& h.seeks == Option::Some(spec_clc(vs, ds))
        },
        _ => h.seeks is None,
    }
}

/// What parsing a whole stream yields: the header the grammar produces, the
/// grammar's own error, or an unexpected end of file where the stream stops
/// before the grammar can decide.
pub open spec fn spec_header_full(data: Seq<u8>) -> Result<HeaderView, ErrView> {
    match spec_header(data) {
        PStep::Done(_, h) => Result::Ok(h),
        PStep::More => Result::Err(ErrView::UnexpectedEof),
        PStep::Fail(e) => Result::Err(e),
    }
}

/// Applies the header grammar to the accumulated bytes.
pub fn header(i: &[u8]) -> (r: Result<(usize, NetCDFHeader), ParseErr>)
    ensures
        step_of(r, spec_header(i@)),
        r matches Ok(p) ==> header_wf(p.1.deep_view()) && p.0 <= i@.len(),
{
    let (p1, version) = match magic(i, 0) {
        Ok(x) => x,
        Err(e) => {
            return Err(e);
        },
    };
    let (p2, nor) = match number_of_records(i, p1) {
        Ok(x) => x,
        Err(e) => {
            return Err(e);
        },
    };
    let (p3, dims_o) = match dim_slot(i, p2) {
        Ok(x) => x,
        Err(e) => {
            return Err(e);
        },
    };
    let (p4, attrs_o) = match var_attrs(i, p3) {
        Ok(x) => x,
        Err(e) => {
            return Err(e);
        },
    };
    let (p5, vars_o) = match var_slot(i, p4, version) {
        Ok(x) => x,
        Err(e) => {
            return Err(e);
        },
    };
    let nd: usize = match &dims_o {
        Some(d) => d.len(),
        None => 0,
    };
    match &vars_o {
        Some(vs) => {
            match find_bad_ref(vs, nd) {
                Some(id) => {
                    return Err(ParseErr::Failed(HeadScratcherError::BadDimRef(id)));
                },
                None => {},
            }
        },
        None => {},
    }
    let seeks = match calculate_seeks(&vars_o, &dims_o) {
        Ok(s) => s,
        Err(e) => {
            return Err(ParseErr::Failed(e));
        },
    };
    Ok((p5, NetCDFHeader::new(version, nor, attrs_o, dims_o, vars_o, seeks)))
}

// ------------------------------------------------------------------
// The streaming driver and the reader
// ------------------------------------------------------------------

/// Reads exactly `n` bytes from the source's current position, or reports
/// that the stream ends first.
pub(crate) fn read_exact<S: ByteSource>(src: &mut S, n: usize) -> (r: Result<
    Vec<u8>,
    HeadScratcherError,
>)
    requires
        old(src).pos() >= 0,
    ensures
        final(src).data() == old(src).data(),
        r matches Ok(v) ==> v@.len() == n && final(src).pos() == old(src).pos() + n && (n > 0
            ==> old(src).pos() + n <= old(src).data().len() && v@ == old(src).data().subrange(
            old(src).pos(),
            old(src).pos() + n,
        )),
        r matches Err(e) ==> e@ == ErrView::UnexpectedEof && n > 0 && old(src).pos() + n > old(
            src,
        ).data().len(),
{
    if n == 0 {
        return Ok(Vec::new());
    }
    let ghost p0 = src.pos();
    let ghost data = src.data();
    let mut out: Vec<u8> = Vec::new();
    while out.len() < n
        invariant
            p0 >= 0,
            n > 0,
            p0 == old(src).pos(),
            data == old(src).data(),
            src.data() == data,
            out@.len() <= n,
            src.pos() == p0 + out@.len(),
            out@.len() > 0 ==> p0 + out@.len() <= data.len(),
            forall|k: int| 0 <= k < out@.len() ==> out@[k] == data[p0 + k],
        decreases n - out@.len(),
    {
        let m = n - out.len();
        let mut c = src.read_chunk(m);
        if c.len() == 0 {
            return Err(HeadScratcherError::UnexpectedEof);
        }
        out.append(&mut c);
    }
    proof {
        assert(out@ =~= data.subrange(p0, p0 + n));
    }
    Ok(out)
}

/// The byte position a read request resolves to, or the exact error:
/// the stride table must be present and the variable, arity and bounds
/// checks of the indexer must pass.
pub open spec fn spec_read_target(h: HeaderView, nm: Seq<char>, start: Seq<usize>) -> Result<
    u64,
    ErrView,
> {
    match (h.vars, h.dims, h.seeks) {
        (Option::Some(vs), Option::Some(ds), Option::Some(sk)) => spec_calc_seek(
            vs,
            ds,
            h.nor,
            sk,
            nm,
            start,
        ),
        _ => Result::Err(ErrView::UnknownVariable(nm)),
    }
}

impl NetCDFHeader {
    /// Incrementally pulls bytes from the source and retries the header
    /// grammar until it resolves.
    ///
    /// The result is a function of the stream's bytes alone: any chunk size
    /// of at least one byte yields the same header, bit for bit.
    pub fn from_source<S: ByteSource>(src: &mut S, chunk: usize) -> (r: Result<
        NetCDFHeader,
        HeadScratcherError,
    >)
        requires
            chunk >= 1,
            old(src).pos() == 0,
        ensures
            final(src).data() == old(src).data(),
            result_of(r, spec_header_full(old(src).data())),
            r matches Ok(h) ==> header_wf(h.deep_view()),
    {
        let ghost data = src.data();
        let mut buf: Vec<u8> = Vec::new();
        loop
            invariant
                chunk >= 1,
                data == old(src).data(),
                src.data() == data,
                src.pos() == buf@.len(),
                buf@.len() <= data.len(),
                buf@ == data.subrange(0, buf@.len() as int),
            decreases data.len() - buf@.len(),
        {
            proof {
                assert(crate::parser::stability::is_prefix(buf@, data));
            }
            match header(buf.as_slice()) {
                Ok((_, h)) => {
                    proof {
                        stability::lemma_header_stable(buf@, data);
                    }
                    return Ok(h);
                },
                Err(ParseErr::Failed(e)) => {
                    proof {
                        stability::lemma_header_stable(buf@, data);
                    }
                    return Err(e);
                },
                Err(ParseErr::Incomplete) => {},
            }
            let mut c = src.read_chunk(chunk);
            if c.len() == 0 {
                proof {
                    assert(buf@ =~= data);
                }
                return Err(HeadScratcherError::UnexpectedEof);
            }
            buf.append(&mut c);
            proof {
                assert(buf@ =~= data.subrange(0, buf@.len() as int));
            }
        }
    }

    /// Seeks the source to the element at coordinate `start` of the
    /// variable named `var` and fills `buffer` from it, byte for byte.
    pub fn update_buffer<S: ByteSource>(
        &self,
        var: &String,
        start: &[usize],
        file: &mut S,
        buffer: &mut Vec<u8>,
    ) -> (r: Result<(), HeadScratcherError>)
        requires
            header_wf(self.deep_view()),
        ensures
            final(file).data() == old(file).data(),
            final(buffer)@.len() == old(buffer)@.len(),
            r matches Ok(()) ==> spec_read_target(self.deep_view(), var@, start@) matches Ok(off)
                && (old(buffer)@.len() > 0 ==> off + old(buffer)@.len() <= old(file).data().len()
                && final(buffer)@ == old(file).data().subrange(
                off as int,
                off + old(buffer)@.len(),
            )),
            r matches Err(e) ==> final(buffer)@ == old(buffer)@ && ((spec_read_target(
                self.deep_view(),
                var@,
                start@,
            ) matches Err(ev) && e@ == ev) || (spec_read_target(self.deep_view(), var@, start@)
                matches Ok(off) && e@ == ErrView::UnexpectedEof && old(buffer)@.len() > 0 && off
                + old(buffer)@.len() > old(file).data().len())),
    {
        let (v, d, s) = match (&self.vars, &self.dims, &self.seeks) {
            (Some(v), Some(d), Some(s)) => (v, d, s),
            _ => {
                return Err(HeadScratcherError::UnknownVariable(var.clone()));
            },
        };
        proof {
            assert(seeks_arity_ok(v.deep_view(), s.deep_view())) by {
                assert forall|i: int| 0 <= i < v.deep_view().len() implies #[trigger] s.deep_view()[i].len()
                    == v.deep_view()[i].dims.len() by {
                    assert(s.deep_view()[i] == spec_strides_usize(
                        var_lens(v.deep_view()[i], d.deep_view()),
                    ));
                }
            }
        }
        let off = match calc_seek(v, d, self.nor, s, var, start) {
            Ok(o) => o,
            Err(e) => {
                return Err(e);
            },
        };
        file.seek(off);
        let n = buffer.len();
        let out = match read_exact(file, n) {
            Ok(o) => o,
            Err(e) => {
                return Err(e);
            },
        };
        *buffer = out;
        Ok(())
    }
}

} // verus!
