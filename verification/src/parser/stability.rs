//! Prefix stability of the header grammar.
//!
//! A production that has decided — produced a value or failed — on some
//! prefix of a stream decides the same way on any extension of it.  This is
//! what lets the streaming driver parse a growing buffer: once the grammar
//! resolves, feeding more bytes cannot change the outcome.

use crate::parser::components::{
    be_u32_at, be_u64_at, spec_absent, spec_attribute, spec_attribute_list, spec_attrs,
    spec_be_u64, spec_begin, spec_dim_ids, spec_dimension, spec_dimension_list, spec_dims,
    spec_initials, spec_list_type, spec_magic, spec_name, spec_nc_type, spec_nc_version,
    spec_non_neg, spec_number_of_records, spec_take_u8, spec_var_attrs, spec_variable,
    spec_variable_list, spec_vars, spec_zero, AttrView, DimView, NetCDFVersion, PStep, VarView,
};
use crate::parser::{spec_dim_slot, spec_header, spec_var_slot};
use vstd::prelude::*;

verus! {

/// `b1` is an initial segment of `b2`.
pub open spec fn is_prefix(b1: Seq<u8>, b2: Seq<u8>) -> bool {
    &&& b1.len() <= b2.len()
    &&& forall|i: int| 0 <= i < b1.len() ==> #[trigger] b1[i] == b2[i]
}

pub proof fn lemma_non_neg_stable(b1: Seq<u8>, b2: Seq<u8>, p: int)
    requires
        is_prefix(b1, b2),
        0 <= p,
    ensures
        !(spec_non_neg(b1, p) is More) ==> spec_non_neg(b2, p) == spec_non_neg(b1, p),
        spec_non_neg(b1, p) matches PStep::Done(n, _) ==> p <= n <= b1.len(),
{
    if p + 4 <= b1.len() {
        assert(be_u32_at(b2, p) == be_u32_at(b1, p));
    }
}

pub proof fn lemma_be_u64_stable(b1: Seq<u8>, b2: Seq<u8>, p: int)
    requires
        is_prefix(b1, b2),
        0 <= p,
    ensures
        !(spec_be_u64(b1, p) is More) ==> spec_be_u64(b2, p) == spec_be_u64(b1, p),
        spec_be_u64(b1, p) matches PStep::Done(n, _) ==> p <= n <= b1.len(),
{
    if p + 8 <= b1.len() {
        assert(be_u64_at(b2, p) == be_u64_at(b1, p));
    }
}

pub proof fn lemma_take_u8_stable(b1: Seq<u8>, b2: Seq<u8>, p: int)
    requires
        is_prefix(b1, b2),
        0 <= p,
    ensures
        !(spec_take_u8(b1, p) is More) ==> spec_take_u8(b2, p) == spec_take_u8(b1, p),
        spec_take_u8(b1, p) matches PStep::Done(n, _) ==> p <= n <= b1.len(),
{
}

pub proof fn lemma_initials_stable(b1: Seq<u8>, b2: Seq<u8>, p: int)
    requires
        is_prefix(b1, b2),
        0 <= p,
    ensures
        !(spec_initials(b1, p) is More) ==> spec_initials(b2, p) == spec_initials(b1, p),
        spec_initials(b1, p) matches PStep::Done(n, _) ==> p <= n <= b1.len(),
{
}

pub proof fn lemma_nc_version_stable(b1: Seq<u8>, b2: Seq<u8>, p: int)
    requires
        is_prefix(b1, b2),
        0 <= p,
    ensures
        !(spec_nc_version(b1, p) is More) ==> spec_nc_version(b2, p) == spec_nc_version(b1, p),
        spec_nc_version(b1, p) matches PStep::Done(n, _) ==> p <= n <= b1.len(),
{
    lemma_take_u8_stable(b1, b2, p);
}

pub proof fn lemma_magic_stable(b1: Seq<u8>, b2: Seq<u8>, p: int)
    requires
        is_prefix(b1, b2),
        0 <= p,
    ensures
        !(spec_magic(b1, p) is More) ==> spec_magic(b2, p) == spec_magic(b1, p),
        spec_magic(b1, p) matches PStep::Done(n, _) ==> p <= n <= b1.len(),
{
    lemma_initials_stable(b1, b2, p);
    match spec_initials(b1, p) {
        PStep::Done(p1, _) => {
            lemma_nc_version_stable(b1, b2, p1);
        },
        _ => {},
    }
}

pub proof fn lemma_number_of_records_stable(b1: Seq<u8>, b2: Seq<u8>, p: int)
    requires
        is_prefix(b1, b2),
        0 <= p,
    ensures
        !(spec_number_of_records(b1, p) is More) ==> spec_number_of_records(b2, p)
            == spec_number_of_records(b1, p),
        spec_number_of_records(b1, p) matches PStep::Done(n, _) ==> p <= n <= b1.len(),
{
    lemma_non_neg_stable(b1, b2, p);
}

pub proof fn lemma_zero_stable(b1: Seq<u8>, b2: Seq<u8>, p: int)
    requires
        is_prefix(b1, b2),
        0 <= p,
    ensures
        !(spec_zero(b1, p) is More) ==> spec_zero(b2, p) == spec_zero(b1, p),
        spec_zero(b1, p) matches PStep::Done(n, _) ==> p <= n <= b1.len(),
{
    lemma_non_neg_stable(b1, b2, p);
}

pub proof fn lemma_absent_stable(b1: Seq<u8>, b2: Seq<u8>, p: int)
    requires
        is_prefix(b1, b2),
        0 <= p,
    ensures
        !(spec_absent(b1, p) is More) ==> spec_absent(b2, p) == spec_absent(b1, p),
        spec_absent(b1, p) matches PStep::Done(n, _) ==> p <= n <= b1.len(),
{
    lemma_zero_stable(b1, b2, p);
    match spec_zero(b1, p) {
        PStep::Done(p1, _) => {
            lemma_zero_stable(b1, b2, p1);
        },
        _ => {},
    }
}

pub proof fn lemma_list_type_stable(b1: Seq<u8>, b2: Seq<u8>, p: int)
    requires
        is_prefix(b1, b2),
        0 <= p,
    ensures
        !(spec_list_type(b1, p) is More) ==> spec_list_type(b2, p) == spec_list_type(b1, p),
        spec_list_type(b1, p) matches PStep::Done(n, _) ==> p <= n <= b1.len(),
{
    lemma_non_neg_stable(b1, b2, p);
    match spec_non_neg(b1, p) {
        PStep::Done(p1, _) => {
            lemma_non_neg_stable(b1, b2, p1);
        },
        _ => {},
    }
}

pub proof fn lemma_nc_type_stable(b1: Seq<u8>, b2: Seq<u8>, p: int)
    requires
        is_prefix(b1, b2),
        0 <= p,
    ensures
        !(spec_nc_type(b1, p) is More) ==> spec_nc_type(b2, p) == spec_nc_type(b1, p),
        spec_nc_type(b1, p) matches PStep::Done(n, _) ==> p <= n <= b1.len(),
{
    lemma_non_neg_stable(b1, b2, p);
}

pub proof fn lemma_name_stable(b1: Seq<u8>, b2: Seq<u8>, p: int)
    requires
        is_prefix(b1, b2),
        0 <= p,
    ensures
        !(spec_name(b1, p) is More) ==> spec_name(b2, p) == spec_name(b1, p),
        spec_name(b1, p) matches PStep::Done(n, _) ==> p <= n <= b1.len(),
{
    lemma_non_neg_stable(b1, b2, p);
    match spec_non_neg(b1, p) {
        PStep::Done(p1, count) => {
            let pad = crate::parser::components::spec_padding(count as int);
            if p1 + count + pad <= b1.len() {
                assert(b1.subrange(p1, p1 + count) =~= b2.subrange(p1, p1 + count));
            }
        },
        _ => {},
    }
}

pub proof fn lemma_dimension_stable(b1: Seq<u8>, b2: Seq<u8>, p: int)
    requires
        is_prefix(b1, b2),
        0 <= p,
    ensures
        !(spec_dimension(b1, p) is More) ==> spec_dimension(b2, p) == spec_dimension(b1, p),
        spec_dimension(b1, p) matches PStep::Done(n, _) ==> p <= n <= b1.len(),
{
    lemma_name_stable(b1, b2, p);
    match spec_name(b1, p) {
        PStep::Done(p1, _) => {
            lemma_non_neg_stable(b1, b2, p1);
        },
        _ => {},
    }
}

pub proof fn lemma_dims_stable(b1: Seq<u8>, b2: Seq<u8>, p: int, k: nat, acc: Seq<DimView>)
    requires
        is_prefix(b1, b2),
        0 <= p <= b1.len(),
    ensures
        !(spec_dims(b1, p, k, acc) is More) ==> spec_dims(b2, p, k, acc) == spec_dims(
            b1,
            p,
            k,
            acc,
        ),
        spec_dims(b1, p, k, acc) matches PStep::Done(n, _) ==> p <= n <= b1.len(),
    decreases k,
{
    if k > 0 {
        lemma_dimension_stable(b1, b2, p);
        match spec_dimension(b1, p) {
            PStep::Done(p1, d) => {
                lemma_dims_stable(b1, b2, p1, (k - 1) as nat, acc.push(d));
            },
            _ => {},
        }
    }
}

pub proof fn lemma_dimension_list_stable(b1: Seq<u8>, b2: Seq<u8>, p: int)
    requires
        is_prefix(b1, b2),
        0 <= p,
    ensures
        !(spec_dimension_list(b1, p) is More) ==> spec_dimension_list(b2, p)
            == spec_dimension_list(b1, p),
        spec_dimension_list(b1, p) matches PStep::Done(n, _) ==> p <= n <= b1.len(),
{
    lemma_non_neg_stable(b1, b2, p);
    match spec_non_neg(b1, p) {
        PStep::Done(p1, count) => {
            lemma_dims_stable(b1, b2, p1, count as nat, Seq::empty());
        },
        _ => {},
    }
}

pub proof fn lemma_attribute_stable(b1: Seq<u8>, b2: Seq<u8>, p: int)
    requires
        is_prefix(b1, b2),
        0 <= p,
    ensures
        !(spec_attribute(b1, p) is More) ==> spec_attribute(b2, p) == spec_attribute(b1, p),
        spec_attribute(b1, p) matches PStep::Done(n, _) ==> p <= n <= b1.len(),
{
    lemma_name_stable(b1, b2, p);
    match spec_name(b1, p) {
        PStep::Done(p1, _) => {
            lemma_nc_type_stable(b1, b2, p1);
            match spec_nc_type(b1, p1) {
                PStep::Done(p2, t) => {
                    lemma_non_neg_stable(b1, b2, p2);
                    match spec_non_neg(b1, p2) {
                        PStep::Done(p3, n) => {
                            let total = n * t.spec_extsize();
                            let pad = crate::parser::components::spec_padding(total as int);
                            vstd::arithmetic::mul::lemma_mul_nonnegative(
                                n as int,
                                t.spec_extsize() as int,
                            );
                            if p3 + total + pad <= b1.len() {
                                assert(b1.subrange(p3, p3 + total) =~= b2.subrange(
                                    p3,
                                    p3 + total,
                                ));
                            }
                        },
                        _ => {},
                    }
                },
                _ => {},
            }
        },
        _ => {},
    }
}

pub proof fn lemma_attrs_stable(b1: Seq<u8>, b2: Seq<u8>, p: int, k: nat, acc: Seq<AttrView>)
    requires
        is_prefix(b1, b2),
        0 <= p <= b1.len(),
    ensures
        !(spec_attrs(b1, p, k, acc) is More) ==> spec_attrs(b2, p, k, acc) == spec_attrs(
            b1,
            p,
            k,
            acc,
        ),
        spec_attrs(b1, p, k, acc) matches PStep::Done(n, _) ==> p <= n <= b1.len(),
    decreases k,
{
    if k > 0 {
        lemma_attribute_stable(b1, b2, p);
        match spec_attribute(b1, p) {
            PStep::Done(p1, a) => {
                lemma_attrs_stable(b1, b2, p1, (k - 1) as nat, acc.push(a));
            },
            _ => {},
        }
    }
}

pub proof fn lemma_attribute_list_stable(b1: Seq<u8>, b2: Seq<u8>, p: int)
    requires
        is_prefix(b1, b2),
        0 <= p,
    ensures
        !(spec_attribute_list(b1, p) is More) ==> spec_attribute_list(b2, p)
            == spec_attribute_list(b1, p),
        spec_attribute_list(b1, p) matches PStep::Done(n, _) ==> p <= n <= b1.len(),
{
    lemma_non_neg_stable(b1, b2, p);
    match spec_non_neg(b1, p) {
        PStep::Done(p1, count) => {
            lemma_attrs_stable(b1, b2, p1, count as nat, Seq::empty());
        },
        _ => {},
    }
}

pub proof fn lemma_dim_ids_stable(b1: Seq<u8>, b2: Seq<u8>, p: int, k: nat, acc: Seq<u32>)
    requires
        is_prefix(b1, b2),
        0 <= p <= b1.len(),
    ensures
        !(spec_dim_ids(b1, p, k, acc) is More) ==> spec_dim_ids(b2, p, k, acc) == spec_dim_ids(
            b1,
            p,
            k,
            acc,
        ),
        spec_dim_ids(b1, p, k, acc) matches PStep::Done(n, _) ==> p <= n <= b1.len(),
    decreases k,
{
    if k > 0 {
        lemma_non_neg_stable(b1, b2, p);
        match spec_non_neg(b1, p) {
            PStep::Done(p1, d) => {
                lemma_dim_ids_stable(b1, b2, p1, (k - 1) as nat, acc.push(d));
            },
            _ => {},
        }
    }
}

pub proof fn lemma_var_attrs_stable(b1: Seq<u8>, b2: Seq<u8>, p: int)
    requires
        is_prefix(b1, b2),
        0 <= p,
    ensures
        !(spec_var_attrs(b1, p) is More) ==> spec_var_attrs(b2, p) == spec_var_attrs(b1, p),
        spec_var_attrs(b1, p) matches PStep::Done(n, _) ==> p <= n <= b1.len(),
{
    lemma_list_type_stable(b1, b2, p);
    match spec_list_type(b1, p) {
        PStep::Done(p1, _) => {
            lemma_attribute_list_stable(b1, b2, p1);
        },
        _ => {},
    }
}

pub proof fn lemma_begin_stable(b1: Seq<u8>, b2: Seq<u8>, p: int, version: NetCDFVersion)
    requires
        is_prefix(b1, b2),
        0 <= p,
    ensures
        !(spec_begin(b1, p, version) is More) ==> spec_begin(b2, p, version) == spec_begin(
            b1,
            p,
            version,
        ),
        spec_begin(b1, p, version) matches PStep::Done(n, _) ==> p <= n <= b1.len(),
{
    lemma_non_neg_stable(b1, b2, p);
    lemma_be_u64_stable(b1, b2, p);
}

pub proof fn lemma_variable_stable(b1: Seq<u8>, b2: Seq<u8>, p: int, version: NetCDFVersion)
    requires
        is_prefix(b1, b2),
        0 <= p,
    ensures
        !(spec_variable(b1, p, version) is More) ==> spec_variable(b2, p, version)
            == spec_variable(b1, p, version),
        spec_variable(b1, p, version) matches PStep::Done(n, _) ==> p <= n <= b1.len(),
{
    lemma_name_stable(b1, b2, p);
    match spec_name(b1, p) {
        PStep::Done(p1, _) => {
            lemma_non_neg_stable(b1, b2, p1);
            match spec_non_neg(b1, p1) {
                PStep::Done(p2, ndims) => {
                    lemma_dim_ids_stable(b1, b2, p2, ndims as nat, Seq::empty());
                    match spec_dim_ids(b1, p2, ndims as nat, Seq::empty()) {
                        PStep::Done(p3, _) => {
                            lemma_var_attrs_stable(b1, b2, p3);
                            match spec_var_attrs(b1, p3) {
                                PStep::Done(p4, _) => {
                                    lemma_nc_type_stable(b1, b2, p4);
                                    match spec_nc_type(b1, p4) {
                                        PStep::Done(p5, _) => {
                                            lemma_non_neg_stable(b1, b2, p5);
                                            match spec_non_neg(b1, p5) {
                                                PStep::Done(p6, _) => {
                                                    lemma_begin_stable(b1, b2, p6, version);
                                                },
                                                _ => {},
                                            }
                                        },
                                        _ => {},
                                    }
                                },
                                _ => {},
                            }
                        },
                        _ => {},
                    }
                },
                _ => {},
            }
        },
        _ => {},
    }
}

pub proof fn lemma_vars_stable(
    b1: Seq<u8>,
    b2: Seq<u8>,
    p: int,
    version: NetCDFVersion,
    k: nat,
    acc: Seq<VarView>,
)
    requires
        is_prefix(b1, b2),
        0 <= p <= b1.len(),
    ensures
        !(spec_vars(b1, p, version, k, acc) is More) ==> spec_vars(b2, p, version, k, acc)
            == spec_vars(b1, p, version, k, acc),
        spec_vars(b1, p, version, k, acc) matches PStep::Done(n, _) ==> p <= n <= b1.len(),
    decreases k,
{
    if k > 0 {
        lemma_variable_stable(b1, b2, p, version);
        match spec_variable(b1, p, version) {
            PStep::Done(p1, v) => {
                lemma_vars_stable(b1, b2, p1, version, (k - 1) as nat, acc.push(v));
            },
            _ => {},
        }
    }
}

pub proof fn lemma_variable_list_stable(b1: Seq<u8>, b2: Seq<u8>, p: int, version: NetCDFVersion)
    requires
        is_prefix(b1, b2),
        0 <= p,
    ensures
        !(spec_variable_list(b1, p, version) is More) ==> spec_variable_list(b2, p, version)
            == spec_variable_list(b1, p, version),
        spec_variable_list(b1, p, version) matches PStep::Done(n, _) ==> p <= n <= b1.len(),
{
    lemma_non_neg_stable(b1, b2, p);
    match spec_non_neg(b1, p) {
        PStep::Done(p1, count) => {
            lemma_vars_stable(b1, b2, p1, version, count as nat, Seq::empty());
        },
        _ => {},
    }
}

pub proof fn lemma_dim_slot_stable(b1: Seq<u8>, b2: Seq<u8>, p: int)
    requires
        is_prefix(b1, b2),
        0 <= p,
    ensures
        !(spec_dim_slot(b1, p) is More) ==> spec_dim_slot(b2, p) == spec_dim_slot(b1, p),
        spec_dim_slot(b1, p) matches PStep::Done(n, _) ==> p <= n <= b1.len(),
{
    lemma_list_type_stable(b1, b2, p);
    match spec_list_type(b1, p) {
        PStep::Done(p1, _) => {
            lemma_dimension_list_stable(b1, b2, p1);
        },
        _ => {},
    }
}

pub proof fn lemma_var_slot_stable(b1: Seq<u8>, b2: Seq<u8>, p: int, version: NetCDFVersion)
    requires
        is_prefix(b1, b2),
        0 <= p,
    ensures
        !(spec_var_slot(b1, p, version) is More) ==> spec_var_slot(b2, p, version)
            == spec_var_slot(b1, p, version),
        spec_var_slot(b1, p, version) matches PStep::Done(n, _) ==> p <= n <= b1.len(),
{
    lemma_list_type_stable(b1, b2, p);
    match spec_list_type(b1, p) {
        PStep::Done(p1, _) => {
            lemma_variable_list_stable(b1, b2, p1, version);
        },
        _ => {},
    }
}

/// Once the header grammar has decided on a prefix of the stream, it
/// decides the same way on the whole stream.
pub proof fn lemma_header_stable(b1: Seq<u8>, b2: Seq<u8>)
    requires
        is_prefix(b1, b2),
    ensures
        !(spec_header(b1) is More) ==> spec_header(b2) == spec_header(b1),
{
    lemma_magic_stable(b1, b2, 0);
    match spec_magic(b1, 0) {
        PStep::Done(p1, version) => {
            lemma_number_of_records_stable(b1, b2, p1);
            match spec_number_of_records(b1, p1) {
                PStep::Done(p2, _) => {
                    lemma_dim_slot_stable(b1, b2, p2);
                    match spec_dim_slot(b1, p2) {
                        PStep::Done(p3, _) => {
                            lemma_var_attrs_stable(b1, b2, p3);
                            match spec_var_attrs(b1, p3) {
                                PStep::Done(p4, _) => {
                                    lemma_var_slot_stable(b1, b2, p4, version);
                                },
                                _ => {},
                            }
                        },
                        _ => {},
                    }
                },
                _ => {},
            }
        },
        _ => {},
    }
}

} // verus!
