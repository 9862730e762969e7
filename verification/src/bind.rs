//! The executable binder.
//!
//! Each function here is proved to return exactly what the corresponding
//! specification function in [`bindspec`](crate::bindspec) says: the same
//! bound record, the same found flag, the same first error.

use vstd::prelude::*;
use crate::bindspec::{
    agrees, field_bound, fields_bound, lemma_fields_bound_step, lemma_fields_bound_step_failed,
    lemma_nseq_found_witness, lemma_nseq_stop_at, lemma_prepend_assoc, lemma_scalar_bound_conforms,
    lemma_seq_stop_at, nested_attempts, nseq_bound, nseq_elem, nseq_found, nseq_items,
    prepend_bound, scalar_bound, scalar_decoded, seq_bound, seq_elem_outcome, seq_found,
    seq_items, BindOutcome, msg_not_integer, msg_out_of_range,
};
use crate::digits::{dec_digits, DigitContainer};
use crate::encoding::{canonical_encoding_name, label_to_encoding, opt_string_view};
use crate::env::{EnvData, EnvMap, EnvVal};
use crate::error::{result_view, ErrorV, FromEnvError};
use crate::names::{colon_sep, nseq_elem_prefix, seq_elem_name, us_sep};
use crate::numtext::{
    parse_i128, parse_i16, parse_i32, parse_i64, parse_i8, parse_u128, parse_u16, parse_u32,
    parse_u64, parse_u8, IntError,
};
use crate::schema::{field_view, fields_view, kind_view, FieldKind, FieldSchema, ScalarKind, Schema};
use crate::value::{
    default_record, default_scalar, lemma_default_record_conforms, record_conforms,
    record_default, record_view, records_view, scalar_conforms, scalar_default, scalar_view,
    scalars_view, value_conforms, value_view, values_view, Record, Scalar, Value, ValueV,
};

verus! {

broadcast use
    crate::schema::lemma_fields_view_len,
    crate::schema::lemma_fields_view_index,
    crate::value::lemma_values_view_len,
    crate::value::lemma_values_view_index,
    crate::value::lemma_records_view_len,
    crate::value::lemma_records_view_index,
    crate::value::lemma_default_record_len,
    crate::value::lemma_default_record_index,
;

/// Decodes text into a scalar of the same type as `cur`, as
/// [`scalar_decoded`] specifies: the value on success, the decoder's message
/// otherwise.
fn decode_scalar(cur: &Scalar, t: &String) -> (r: Result<Scalar, String>)
    ensures
        match (r, scalar_decoded(scalar_view(*cur), t@)) {
            (Ok(s), Ok(sv)) => scalar_view(s) == sv,
            (Err(m), Err(mv)) => m@ == mv,
            _ => false,
        },
{
    match cur {
        Scalar::U8(_) => match parse_u8(t) {
            Ok(v) => Ok(Scalar::U8(v)),
            Err(IntError::Malformed) => Err(not_integer_message()),
            Err(IntError::OutOfRange) => Err(out_of_range_message()),
        },
        Scalar::U16(_) => match parse_u16(t) {
            Ok(v) => Ok(Scalar::U16(v)),
            Err(IntError::Malformed) => Err(not_integer_message()),
            Err(IntError::OutOfRange) => Err(out_of_range_message()),
        },
        Scalar::U32(_) => match parse_u32(t) {
            Ok(v) => Ok(Scalar::U32(v)),
            Err(IntError::Malformed) => Err(not_integer_message()),
            Err(IntError::OutOfRange) => Err(out_of_range_message()),
        },
        Scalar::U64(_) => match parse_u64(t) {
            Ok(v) => Ok(Scalar::U64(v)),
            Err(IntError::Malformed) => Err(not_integer_message()),
            Err(IntError::OutOfRange) => Err(out_of_range_message()),
        },
        Scalar::U128(_) => match parse_u128(t) {
            Ok(v) => Ok(Scalar::U128(v)),
            Err(IntError::Malformed) => Err(not_integer_message()),
            Err(IntError::OutOfRange) => Err(out_of_range_message()),
        },
        Scalar::I8(_) => match parse_i8(t) {
            Ok(v) => Ok(Scalar::I8(v)),
            Err(IntError::Malformed) => Err(not_integer_message()),
            Err(IntError::OutOfRange) => Err(out_of_range_message()),
        },
        Scalar::I16(_) => match parse_i16(t) {
            Ok(v) => Ok(Scalar::I16(v)),
            Err(IntError::Malformed) => Err(not_integer_message()),
            Err(IntError::OutOfRange) => Err(out_of_range_message()),
        },
        Scalar::I32(_) => match parse_i32(t) {
            Ok(v) => Ok(Scalar::I32(v)),
            Err(IntError::Malformed) => Err(not_integer_message()),
            Err(IntError::OutOfRange) => Err(out_of_range_message()),
        },
        Scalar::I64(_) => match parse_i64(t) {
            Ok(v) => Ok(Scalar::I64(v)),
            Err(IntError::Malformed) => Err(not_integer_message()),
            Err(IntError::OutOfRange) => Err(out_of_range_message()),
        },
        Scalar::I128(_) => match parse_i128(t) {
            Ok(v) => Ok(Scalar::I128(v)),
            Err(IntError::Malformed) => Err(not_integer_message()),
            Err(IntError::OutOfRange) => Err(out_of_range_message()),
        },
        Scalar::Bool(_) => {
            let tr: String = "true".to_owned();
            let fa: String = "false".to_owned();
            if *t == tr {
                Ok(Scalar::Bool(true))
            } else if *t == fa {
                Ok(Scalar::Bool(false))
            } else {
                Err("expected true or false".to_owned())
            }
        },
        Scalar::Text(_) => Ok(Scalar::Text(t.clone())),
        Scalar::PathText(_) => Ok(Scalar::PathText(t.clone())),
        Scalar::Encoding(_) => match canonical_encoding_name(t) {
            Some(canonical) => {
                proof {
                    assert(opt_string_view(Some(canonical)) == label_to_encoding(t@));
                }
                Ok(Scalar::Encoding(canonical))
            },
            None => {
                proof {
                    assert(opt_string_view(None::<String>) == label_to_encoding(t@));
                }
                Err("Unrecognized encoding".to_owned())
            },
        },
    }
}

/// The malformed-integer message.
fn not_integer_message() -> (r: String)
    ensures
        r@ == msg_not_integer(),
{
    "not a decimal integer".to_owned()
}

/// The out-of-range-integer message.
fn out_of_range_message() -> (r: String)
    ensures
        r@ == msg_out_of_range(),
{
    "integer out of range for the field".to_owned()
}

/// Binds one scalar from the variable `name`, as [`scalar_bound`] specifies:
/// untouched and nothing found when the variable is absent, overwritten by
/// the decoded value when it decodes, the error otherwise.
pub fn bind_scalar(cur: &mut Scalar, env: &EnvMap, name: &String) -> (r: Result<
    bool,
    FromEnvError,
>)
    requires
        env.wf(),
    ensures
        agrees(
            scalar_view(*final(cur)),
            result_view(r),
            scalar_bound(scalar_view(*old(cur)), env@, name@),
        ),
{
    match env.get(name) {
        None => Ok(false),
        Some(v) => match v {
            EnvVal::Raw(raw) => Err(FromEnvError::NotUnicode(name.clone(), raw.clone())),
            EnvVal::Text(t) => match decode_scalar(cur, t) {
                Ok(s) => {
                    *cur = s;
                    Ok(true)
                },
                Err(m) => Err(FromEnvError::ParseError(name.clone(), m)),
            },
        },
    }
}

/// The colon separator, as a string.
fn colon_str() -> (r: &'static str)
    ensures
        r@ == colon_sep(),
{
    proof {
        reveal_strlit(":");
        assert(":"@ =~= colon_sep());
    }
    ":"
}

/// The double-underscore separator, as a string.
fn us_str() -> (r: &'static str)
    ensures
        r@ == us_sep(),
{
    proof {
        reveal_strlit("__");
        assert("__"@ =~= us_sep());
    }
    "__"
}

/// The digits of index zero, as a string.
fn zero_str() -> (r: &'static str)
    ensures
        r@ == dec_digits(0),
{
    proof {
        reveal_strlit("0");
        assert("0"@ =~= dec_digits(0));
    }
    "0"
}

/// Binds a plain sequence under the base name `base`, as [`seq_bound`]
/// specifies: indices are probed from zero, colon form before underscore
/// form, and the values found replace the items; the first unresolved index
/// ends the probe, at index zero leaving the field untouched.
fn bind_seq(k: &ScalarKind, items: &mut Vec<Scalar>, env: &EnvMap, base: &String) -> (r: Result<
    bool,
    FromEnvError,
>)
    requires
        env.wf(),
        forall|i: int|
            0 <= i < old(items)@.len() ==> scalar_conforms(scalar_view(old(items)@[i]), *k),
    ensures
        agrees(
            scalars_view(final(items)@),
            result_view(r),
            seq_bound(*k, scalars_view(old(items)@), env@, base@),
        ),
        forall|i: int|
            0 <= i < final(items)@.len() ==> scalar_conforms(scalar_view(final(items)@[i]), *k),
{
    let ghost bv = base@;
    let ghost em = env@;
    let mut out: Vec<Scalar> = Vec::new();
    let mut digits = DigitContainer::new();
    proof {
        env.lemma_dom_finite();
        assert(scalars_view(out@) =~= seq_items(*k, em, bv, 0));
    }
    loop
        invariant
            env.wf(),
            em == env@,
            bv == base@,
            *items == *old(items),
            forall|i: int|
                0 <= i < old(items)@.len() ==> scalar_conforms(scalar_view(old(items)@[i]), *k),
            digits.value() == if out@.len() == 0 {
                1nat
            } else {
                out@.len() as nat
            },
            forall|j: nat| j < out@.len() ==> #[trigger] seq_found(*k, em, bv, j),
            scalars_view(out@) == seq_items(*k, em, bv, out@.len() as nat),
            forall|j: int| 0 <= j < out@.len() ==> scalar_conforms(scalar_view(out@[j]), *k),
            em.dom().finite(),
            out@.len() <= em.dom().len(),
        decreases em.dom().len() + 1 - out@.len(),
    {
        let idx = out.len();
        let ds: String = if idx == 0 {
            zero_str().to_owned()
        } else {
            let mut d = String::new();
            digits.next(&mut d);
            d
        };
        proof {
            assert(ds@ == dec_digits(idx as nat));
        }
        let mut cn = base.clone();
        cn.append(colon_str());
        cn.append(ds.as_str());
        let mut un = base.clone();
        un.append(us_str());
        un.append(ds.as_str());
        proof {
            assert(cn@ == seq_elem_name(bv, colon_sep(), idx as nat));
            assert(un@ == seq_elem_name(bv, us_sep(), idx as nat));
        }
        let mut elem = scalar_default(k);
        let use_colon = env.get(&cn).is_some();
        let r = if use_colon {
            bind_scalar(&mut elem, env, &cn)
        } else {
            bind_scalar(&mut elem, env, &un)
        };
        proof {
            assert(agrees(
                scalar_view(elem),
                result_view(r),
                seq_elem_outcome(*k, em, bv, idx as nat),
            ));
        }
        match r {
            Err(e) => {
                proof {
                    assert(!seq_found(*k, em, bv, idx as nat));
                    lemma_seq_stop_at(*k, em, bv, idx as nat);
                }
                *items = out;
                return Err(e);
            },
            Ok(false) => {
                proof {
                    assert(!seq_found(*k, em, bv, idx as nat));
                    lemma_seq_stop_at(*k, em, bv, idx as nat);
                }
                if idx == 0 {
                    return Ok(false);
                }
                *items = out;
                return Ok(true);
            },
            Ok(true) => {
                proof {
                    assert(seq_found(*k, em, bv, idx as nat));
                    lemma_scalar_bound_conforms(
                        default_scalar(*k),
                        em,
                        if em.contains_key(seq_elem_name(bv, colon_sep(), idx as nat)) {
                            seq_elem_name(bv, colon_sep(), idx as nat)
                        } else {
                            seq_elem_name(bv, us_sep(), idx as nat)
                        },
                        *k,
                    );
                    let w = |j: int|
                        if em.contains_key(seq_elem_name(bv, colon_sep(), j as nat)) {
                            seq_elem_name(bv, colon_sep(), j as nat)
                        } else {
                            seq_elem_name(bv, us_sep(), j as nat)
                        };
                    assert forall|j: int| 0 <= j < idx + 1 implies em.dom().contains(
                        #[trigger] w(j),
                    ) by {
                        assert(seq_found(*k, em, bv, j as nat));
                    }
                    assert forall|i2: int, j2: int| 0 <= i2 < j2 < idx + 1 implies #[trigger] w(i2)
                        != #[trigger] w(j2) by {
                        if w(i2) == w(j2) {
                            crate::names::lemma_seq_elem_name_injective(
                                bv,
                                if em.contains_key(seq_elem_name(bv, colon_sep(), i2 as nat)) {
                                    colon_sep()
                                } else {
                                    us_sep()
                                },
                                if em.contains_key(seq_elem_name(bv, colon_sep(), j2 as nat)) {
                                    colon_sep()
                                } else {
                                    us_sep()
                                },
                                i2 as nat,
                                j2 as nat,
                            );
                        }
                    }
                    crate::names::lemma_distinct_names_bound(w, (idx + 1) as nat, em.dom());
                    assert(scalars_view(out@.push(elem)) =~= scalars_view(out@).push(
                        scalar_view(elem),
                    ));
                    assert(seq_items(*k, em, bv, (idx + 1) as nat) == seq_items(
                        *k,
                        em,
                        bv,
                        idx as nat,
                    ).push(seq_elem_outcome(*k, em, bv, idx as nat).value()));
                }
                out.push(elem);
            },
        }
    }
}

/// Binds every non-ignored field of a record under `prefix`, in declaration
/// order, as [`fields_bound`] specifies: found flags are or-ed, and the first
/// error aborts at once, leaving every later field untouched.
pub fn bind_fields(
    fs: &Vec<FieldSchema>,
    vals: &mut Vec<Value>,
    env: &EnvMap,
    prefix: &String,
) -> (r: Result<bool, FromEnvError>)
    requires
        env.wf(),
        record_conforms(values_view(old(vals)@), fields_view(fs@)),
    ensures
        agrees(
            values_view(final(vals)@),
            result_view(r),
            fields_bound(fields_view(fs@), values_view(old(vals)@), env@, prefix@),
        ),
        record_conforms(values_view(final(vals)@), fields_view(fs@)),
    decreases fs@, 0nat,
{
    let ghost fsv = fields_view(fs@);
    let ghost pre = values_view(old(vals)@);
    let ghost em = env@;
    let ghost pv = prefix@;
    let n = fs.len();
    proof {
        assert(vals@.len() == n);
        assert(fsv.subrange(0, n as int) =~= fsv);
        assert(values_view(vals@).subrange(0, n as int) =~= pre);
        let rest0 = fields_bound(
            fsv.subrange(0, n as int),
            values_view(vals@).subrange(0, n as int),
            em,
            pv,
        );
        assert(fields_bound(fsv, pre, em, pv) == prepend_bound(
            values_view(vals@).subrange(0, 0),
            false,
            rest0,
        )) by {
            match rest0 {
                BindOutcome::Done { value, .. } => {
                    assert(values_view(vals@).subrange(0, 0) + value =~= value);
                },
                BindOutcome::Failed { value, .. } => {
                    assert(values_view(vals@).subrange(0, 0) + value =~= value);
                },
            }
        }
    }
    let mut found = false;
    let mut k: usize = 0;
    while k < n
        invariant
            env.wf(),
            em == env@,
            pv == prefix@,
            fsv == fields_view(fs@),
            pre == values_view(old(vals)@),
            record_conforms(pre, fsv),
            n == fs@.len(),
            vals@.len() == n,
            k <= n,
            forall|j: int| k <= j < n ==> vals@[j] == old(vals)@[j],
            forall|j: int| 0 <= j < k ==> value_conforms(values_view(vals@)[j], fsv[j].kind),
            fields_bound(fsv, pre, em, pv) == prepend_bound(
                values_view(vals@).subrange(0, k as int),
                found,
                fields_bound(
                    fsv.subrange(k as int, n as int),
                    values_view(vals@).subrange(k as int, n as int),
                    em,
                    pv,
                ),
            ),
        decreases n - k,
    {
        let ghost prevw = values_view(vals@);
        let ghost tail_fs = fsv.subrange(k as int, n as int);
        let ghost tail_vs = prevw.subrange(k as int, n as int);
        proof {
            assert(fsv[k as int] == field_view(fs@[k as int]));
            assert(tail_fs[0] == fsv[k as int]);
            assert(tail_vs[0] == prevw[k as int]);
            assert(prevw[k as int] == value_view(vals@[k as int]));
            assert(value_conforms(prevw[k as int], fsv[k as int].kind)) by {
                if k < vals@.len() {
                    assert(vals@[k as int] == old(vals)@[k as int]);
                    assert(prevw[k as int] == pre[k as int]);
                }
            }
            assert(tail_fs.subrange(1, tail_fs.len() as int) =~= fsv.subrange(
                k as int + 1,
                n as int,
            ));
        }
        let fld = &fs[k];
        if fld.ignored {
            proof {
                let rest2 = fields_bound(
                    tail_fs.subrange(1, tail_fs.len() as int),
                    tail_vs.subrange(1, tail_vs.len() as int),
                    em,
                    pv,
                );
                lemma_fields_bound_step(tail_fs, tail_vs, em, pv, tail_vs[0], false);
                lemma_prepend_assoc(prevw.subrange(0, k as int), found, tail_vs[0], false, rest2);
                assert(prevw.subrange(0, k as int).push(tail_vs[0]) =~= prevw.subrange(
                    0,
                    k as int + 1,
                ));
                assert(tail_vs.subrange(1, tail_vs.len() as int) =~= prevw.subrange(
                    k as int + 1,
                    n as int,
                ));
                assert forall|j: int| 0 <= j < k + 1 implies value_conforms(
                    values_view(vals@)[j],
                    fsv[j].kind,
                ) by {
                    if j == k {
                        assert(values_view(vals@)[j] == pre[j]);
                    }
                }
            }
            k += 1;
        } else {
            let r = bind_field(fld, &mut vals[k], env, prefix);
            proof {
                assert(value_conforms(values_view(vals@)[k as int], fsv[k as int].kind));
            }
            match r {
                Err(e) => {
                    proof {
                        let hv = values_view(vals@)[k as int];
                        lemma_fields_bound_step_failed(tail_fs, tail_vs, em, pv, hv, e@);
                        assert(prevw.subrange(0, k as int) + tail_vs.update(0, hv) =~= values_view(
                            vals@,
                        ));
                        assert forall|j: int| 0 <= j < n implies value_conforms(
                            values_view(vals@)[j],
                            fsv[j].kind,
                        ) by {
                            if j > k {
                                assert(values_view(vals@)[j] == pre[j]);
                            } else if j < k {
                                assert(values_view(vals@)[j] == prevw[j]);
                            }
                        }
                    }
                    return Err(e);
                },
                Ok(fk) => {
                    proof {
                        let hv = values_view(vals@)[k as int];
                        let rest2 = fields_bound(
                            tail_fs.subrange(1, tail_fs.len() as int),
                            tail_vs.subrange(1, tail_vs.len() as int),
                            em,
                            pv,
                        );
                        lemma_fields_bound_step(tail_fs, tail_vs, em, pv, hv, fk);
                        lemma_prepend_assoc(prevw.subrange(0, k as int), found, hv, fk, rest2);
                        assert(prevw.subrange(0, k as int).push(hv) =~= values_view(
                            vals@,
                        ).subrange(0, k as int + 1));
                        assert(prevw.subrange(0, k as int) =~= values_view(vals@).subrange(
                            0,
                            k as int,
                        ));
                        assert(tail_vs.subrange(1, tail_vs.len() as int) =~= values_view(
                            vals@,
                        ).subrange(k as int + 1, n as int));
                        assert forall|j: int| 0 <= j < k + 1 implies value_conforms(
                            values_view(vals@)[j],
                            fsv[j].kind,
                        ) by {
                            if j < k {
                                assert(values_view(vals@)[j] == prevw[j]);
                            }
                        }
                    }
                    found = found || fk;
                    k += 1;
                },
            }
        }
    }
    proof {
        assert(fsv.subrange(n as int, n as int) =~= Seq::<crate::schema::FieldSchemaV>::empty());
        let emptyv = values_view(vals@).subrange(n as int, n as int);
        assert(fields_bound(fsv.subrange(n as int, n as int), emptyv, em, pv) == (
        BindOutcome::Done { value: emptyv, found: false }));
        assert(values_view(vals@).subrange(0, n as int) + emptyv =~= values_view(vals@));
    }
    Ok(found)
}

/// Binds one field under `prefix`, dispatching on its kind, as
/// [`field_bound`] specifies.
fn bind_field(f: &FieldSchema, val: &mut Value, env: &EnvMap, prefix: &String) -> (r: Result<
    bool,
    FromEnvError,
>)
    requires
        env.wf(),
        value_conforms(value_view(*old(val)), kind_view(f.kind)),
    ensures
        agrees(
            value_view(*final(val)),
            result_view(r),
            field_bound(field_view(*f), value_view(*old(val)), env@, prefix@),
        ),
        value_conforms(value_view(*final(val)), kind_view(f.kind)),
    decreases *f, 1nat,
{
    proof {
        reveal(field_bound);
        reveal(nseq_bound);
    }
    let mut name = prefix.clone();
    name.append(f.fragment.as_str());
    proof {
        assert(name@ == prefix@ + field_view(*f).fragment);
    }
    match (&f.kind, &mut *val) {
        (FieldKind::Scalar(_), Value::Scalar(cur)) => {
            let r = bind_scalar(cur, env, &name);
            r
        },
        (FieldKind::OptionalScalar(sk), Value::OptionalScalar(cur)) => {
            let mut fresh = scalar_default(sk);
            match bind_scalar(&mut fresh, env, &name) {
                Ok(true) => {
                    *cur = Some(fresh);
                    Ok(true)
                },
                Ok(false) => {
                    *cur = None;
                    Ok(false)
                },
                Err(e) => Err(e),
            }
        },
        (FieldKind::OptionalNested(sub), Value::OptionalNested(cur)) => {
            let mut fresh = record_default(sub);
            proof {
                lemma_default_record_conforms(fields_view(sub@));
            }
            match bind_nested(sub, &mut fresh, env, &name) {
                Ok(true) => {
                    *cur = Some(fresh);
                    Ok(true)
                },
                Ok(false) => {
                    *cur = None;
                    Ok(false)
                },
                Err(e) => Err(e),
            }
        },
        (FieldKind::Nested(sub), Value::Nested(rec)) => {
            let r = bind_nested(sub, rec, env, &name);
            r
        },
        (FieldKind::Sequence(sk), Value::Sequence(items)) => {
            proof {
                assert forall|i: int| 0 <= i < items@.len() implies scalar_conforms(
                    scalar_view(items@[i]),
                    *sk,
                ) by {
                    assert(scalars_view(items@)[i] == scalar_view(items@[i]));
                }
            }
            let r = bind_seq(sk, items, env, &name);
            r
        },
        (FieldKind::NestedSequence(sub), Value::NestedSequence(items)) => {
            proof {
                assert forall|i: int| 0 <= i < items@.len() implies record_conforms(
                    records_view(items@)[i],
                    fields_view(sub@),
                ) by {
                    assert(records_view(items@)[i] == record_view(items@[i]));
                }
            }
            let r = bind_nseq(sub, items, env, &name);
            r
        },
        _ => {
            proof {
                assert(false);
            }
            Ok(false)
        },
    }
}

/// Binds a nested record under the base name `base`, as [`nested_attempts`]
/// specifies: the colon-separator attempt runs first, the underscore attempt
/// runs on its result, and their found flags are or-ed.
fn bind_nested(fs: &Vec<FieldSchema>, rec: &mut Record, env: &EnvMap, base: &String) -> (r: Result<
    bool,
    FromEnvError,
>)
    requires
        env.wf(),
        record_conforms(record_view(*old(rec)), fields_view(fs@)),
    ensures
        agrees(
            record_view(*final(rec)),
            result_view(r),
            nested_attempts(fields_view(fs@), record_view(*old(rec)), env@, base@),
        ),
        record_conforms(record_view(*final(rec)), fields_view(fs@)),
    decreases fs@, 2nat,
{
    let mut cp = base.clone();
    cp.append(colon_str());
    match bind_fields(fs, &mut rec.values, env, &cp) {
        Err(e) => Err(e),
        Ok(f1) => {
            let mut up = base.clone();
            up.append(us_str());
            match bind_fields(fs, &mut rec.values, env, &up) {
                Err(e) => Err(e),
                Ok(f2) => Ok(f1 || f2),
            }
        },
    }
}

/// Binds a nested sequence under the base name `base`, as [`nseq_bound`]
/// specifies: a fresh default element is bound per index, colon form first
/// and underscore form only when the colon form found nothing; the elements
/// found replace the items, the first index where neither attempt finds
/// anything ends the probe with the speculative element rolled back, and a
/// failing element is left attached.
#[verifier::rlimit(100)]
#[verifier::spinoff_prover]
fn bind_nseq(fs: &Vec<FieldSchema>, items: &mut Vec<Record>, env: &EnvMap, base: &String) -> (r:
    Result<bool, FromEnvError>)
    requires
        env.wf(),
        forall|i: int|
            0 <= i < old(items)@.len() ==> record_conforms(
                records_view(old(items)@)[i],
                fields_view(fs@),
            ),
    ensures
        agrees(
            records_view(final(items)@),
            result_view(r),
            nseq_bound(fields_view(fs@), records_view(old(items)@), env@, base@),
        ),
        forall|i: int|
            0 <= i < final(items)@.len() ==> record_conforms(
                records_view(final(items)@)[i],
                fields_view(fs@),
            ),
    decreases fs@, 3nat,
{
    let ghost fsv = fields_view(fs@);
    let ghost bv = base@;
    let ghost em = env@;
    let mut out: Vec<Record> = Vec::new();
    let mut digits = DigitContainer::new();
    proof {
        env.lemma_dom_finite();
        assert(records_view(out@) =~= nseq_items(fsv, em, bv, 0));
    }
    loop
        invariant
            env.wf(),
            em == env@,
            bv == base@,
            fsv == fields_view(fs@),
            *items == *old(items),
            forall|i: int|
                0 <= i < old(items)@.len() ==> record_conforms(
                    records_view(old(items)@)[i],
                    fsv,
                ),
            digits.value() == if out@.len() == 0 {
                1nat
            } else {
                out@.len() as nat
            },
            forall|j: nat| j < out@.len() ==> #[trigger] nseq_found(fsv, em, bv, j),
            records_view(out@) == nseq_items(fsv, em, bv, out@.len() as nat),
            forall|j: int| 0 <= j < out@.len() ==> record_conforms(records_view(out@)[j], fsv),
            em.dom().finite(),
            out@.len() <= em.dom().len(),
        decreases em.dom().len() + 1 - out@.len(),
    {
        let idx = out.len();
        let ds: String = if idx == 0 {
            zero_str().to_owned()
        } else {
            let mut d = String::new();
            digits.next(&mut d);
            d
        };
        proof {
            assert(ds@ == dec_digits(idx as nat));
        }
        let mut cpfx = base.clone();
        cpfx.append(colon_str());
        cpfx.append(ds.as_str());
        cpfx.append(colon_str());
        let mut upfx = base.clone();
        upfx.append(us_str());
        upfx.append(ds.as_str());
        upfx.append(us_str());
        proof {
            assert(cpfx@ == nseq_elem_prefix(bv, colon_sep(), idx as nat));
            assert(upfx@ == nseq_elem_prefix(bv, us_sep(), idx as nat));
        }
        let mut elem = record_default(fs);
        proof {
            lemma_default_record_conforms(fsv);
            reveal(nseq_elem);
        }
        let r1 = bind_fields(fs, &mut elem.values, env, &cpfx);
        let (r, hit): (Result<bool, FromEnvError>, bool) = match r1 {
            Err(e) => (Err(e), false),
            Ok(true) => (Ok(true), true),
            Ok(false) => {
                match bind_fields(fs, &mut elem.values, env, &upfx) {
                    Err(e) => (Err(e), false),
                    Ok(f2) => (Ok(f2), f2),
                }
            },
        };
        proof {
            reveal(nseq_elem);
            assert(agrees(
                record_view(elem),
                result_view(r),
                nseq_elem(fsv, em, bv, idx as nat),
            ));
        }
        match r {
            Err(e) => {
                proof {
                    reveal(nseq_bound);
                    assert(!nseq_found(fsv, em, bv, idx as nat));
                    lemma_nseq_stop_at(fsv, em, bv, idx as nat);
                    assert(records_view(out@.push(elem)) =~= records_view(out@).push(
                        record_view(elem),
                    ));
                }
                out.push(elem);
                *items = out;
                return Err(e);
            },
            Ok(false) => {
                proof {
                    reveal(nseq_bound);
                    assert(!nseq_found(fsv, em, bv, idx as nat));
                    lemma_nseq_stop_at(fsv, em, bv, idx as nat);
                }
                if idx == 0 {
                    return Ok(false);
                }
                *items = out;
                return Ok(true);
            },
            Ok(true) => {
                proof {
                    assert(nseq_found(fsv, em, bv, idx as nat));
                    let w = |j: int|
                        choose|kk: Seq<char>|
                            #[trigger] em.contains_key(kk) && (nseq_elem_prefix(
                                bv,
                                colon_sep(),
                                j as nat,
                            ).is_prefix_of(kk) || nseq_elem_prefix(bv, us_sep(), j as nat).is_prefix_of(
                                kk,
                            ));
                    assert forall|j: int| 0 <= j < idx + 1 implies em.dom().contains(
                        #[trigger] w(j),
                    ) by {
                        assert(nseq_found(fsv, em, bv, j as nat));
                        lemma_nseq_found_witness(fsv, em, bv, j as nat);
                        let kk = w(j);
                        assert(em.contains_key(kk));
                    }
                    assert forall|i2: int, j2: int| 0 <= i2 < j2 < idx + 1 implies #[trigger] w(i2)
                        != #[trigger] w(j2) by {
                        if w(i2) == w(j2) {
                            assert(nseq_found(fsv, em, bv, i2 as nat));
                            assert(nseq_found(fsv, em, bv, j2 as nat));
                            lemma_nseq_found_witness(fsv, em, bv, i2 as nat);
                            lemma_nseq_found_witness(fsv, em, bv, j2 as nat);
                            let kk = w(i2);
                            if nseq_elem_prefix(bv, colon_sep(), i2 as nat).is_prefix_of(kk) {
                                if nseq_elem_prefix(bv, colon_sep(), j2 as nat).is_prefix_of(kk) {
                                    crate::names::lemma_nseq_prefix_exclusive(
                                        bv,
                                        colon_sep(),
                                        colon_sep(),
                                        i2 as nat,
                                        j2 as nat,
                                        kk,
                                    );
                                } else {
                                    crate::names::lemma_nseq_prefix_exclusive(
                                        bv,
                                        colon_sep(),
                                        us_sep(),
                                        i2 as nat,
                                        j2 as nat,
                                        kk,
                                    );
                                }
                            } else {
                                if nseq_elem_prefix(bv, colon_sep(), j2 as nat).is_prefix_of(kk) {
                                    crate::names::lemma_nseq_prefix_exclusive(
                                        bv,
                                        us_sep(),
                                        colon_sep(),
                                        i2 as nat,
                                        j2 as nat,
                                        kk,
                                    );
                                } else {
                                    crate::names::lemma_nseq_prefix_exclusive(
                                        bv,
                                        us_sep(),
                                        us_sep(),
                                        i2 as nat,
                                        j2 as nat,
                                        kk,
                                    );
                                }
                            }
                        }
                    }
                    crate::names::lemma_distinct_names_bound(w, (idx + 1) as nat, em.dom());
                    assert(records_view(out@.push(elem)) =~= records_view(out@).push(
                        record_view(elem),
                    ));
                    assert(nseq_items(fsv, em, bv, (idx + 1) as nat) == nseq_items(
                        fsv,
                        em,
                        bv,
                        idx as nat,
                    ).push(nseq_elem(fsv, em, bv, idx as nat).value()));
                }
                out.push(elem);
            },
        }
    }
}

/// Binds `record` against `env` under an explicit variable-name prefix, as
/// [`fields_bound`] specifies: every field whose variable is present is
/// overwritten, absent fields keep their values, and the first error aborts
/// the traversal and is returned verbatim.  The result says whether any
/// variable was consulted successfully.
pub fn bind_with_prefix(
    schema: &Schema,
    record: &mut Record,
    env: &EnvMap,
    prefix: &str,
) -> (r: Result<bool, FromEnvError>)
    requires
        env.wf(),
        record_conforms(record_view(*old(record)), fields_view(schema.fields@)),
    ensures
        agrees(
            record_view(*final(record)),
            result_view(r),
            fields_bound(
                fields_view(schema.fields@),
                record_view(*old(record)),
                env@,
                prefix@,
            ),
        ),
        record_conforms(record_view(*final(record)), fields_view(schema.fields@)),
{
    let p: String = prefix.to_owned();
    bind_fields(&schema.fields, &mut record.values, env, &p)
}

/// Binds `record` against `env` under the schema's own default prefix;
/// otherwise exactly [`bind_with_prefix`].
pub fn bind(schema: &Schema, record: &mut Record, env: &EnvMap) -> (r: Result<
    bool,
    FromEnvError,
>)
    requires
        env.wf(),
        record_conforms(record_view(*old(record)), fields_view(schema.fields@)),
    ensures
        agrees(
            record_view(*final(record)),
            result_view(r),
            fields_bound(
                fields_view(schema.fields@),
                record_view(*old(record)),
                env@,
                schema.prefix@,
            ),
        ),
        record_conforms(record_view(*final(record)), fields_view(schema.fields@)),
{
    bind_fields(&schema.fields, &mut record.values, env, &schema.prefix)
}

/// Builds the schema's default record and binds it against `env` under the
/// schema's default prefix: the bound record, or the first error.
pub fn from_defaults(schema: &Schema, env: &EnvMap) -> (r: Result<Record, FromEnvError>)
    requires
        env.wf(),
    ensures
        ({
            let b = fields_bound(
                fields_view(schema.fields@),
                default_record(fields_view(schema.fields@)),
                env@,
                schema.prefix@,
            );
            match r {
                Ok(rec) => b is Done && record_view(rec) == b.value(),
                Err(e) => b is Failed && (b matches BindOutcome::Failed { error, .. } && e@
                    == error),
            }
        }),
{
    let mut rec = record_default(&schema.fields);
    proof {
        lemma_default_record_conforms(fields_view(schema.fields@));
    }
    match bind(schema, &mut rec, env) {
        Ok(_) => Ok(rec),
        Err(e) => Err(e),
    }
}

/// Denotes a value that can be populated from environment variables.
///
/// `with_env` reads the variables that `var` names for the implementing type
/// and reports `Ok(true)` if at least one was found and used, `Ok(false)` if
/// all were absent, and the first error otherwise.  Each implementation pins
/// its exact behavior down with [`FromEnv::bind_ok`].
pub trait FromEnv: Sized {
    /// Whether the value is well formed for binding.
    spec fn wf(&self) -> bool;

    /// The relation the call must realize between the value before (`pre`)
    /// and after (`post`) the call, the environment, the variable name, and
    /// the result.
    spec fn bind_ok(
        pre: Self,
        post: Self,
        env: Map<Seq<char>, EnvData>,
        var: Seq<char>,
        r: Result<bool, ErrorV>,
    ) -> bool;

    /// Reads and parses this value's environment variables under `var`.
    /// Returns `Ok(true)` if a variable was found and used, `Ok(false)` if
    /// none was, and the first read or parse error otherwise.
    fn with_env(&mut self, env: &EnvMap, var: &str) -> (r: Result<bool, FromEnvError>)
        requires
            old(self).wf(),
            env.wf(),
        ensures
            final(self).wf(),
            Self::bind_ok(*old(self), *final(self), env@, var@, result_view(r));
}

impl FromEnv for Scalar {
    open spec fn wf(&self) -> bool {
        true
    }

    open spec fn bind_ok(
        pre: Self,
        post: Self,
        env: Map<Seq<char>, EnvData>,
        var: Seq<char>,
        r: Result<bool, ErrorV>,
    ) -> bool {
        agrees(scalar_view(post), r, scalar_bound(scalar_view(pre), env, var))
    }

    fn with_env(&mut self, env: &EnvMap, var: &str) -> (r: Result<bool, FromEnvError>) {
        let name: String = var.to_owned();
        bind_scalar(self, env, &name)
    }
}

/// A record together with its schema: the bindable form of a composite value.
#[derive(Debug)]
pub struct Bindable {
    /// The record's declared shape.
    pub schema: Schema,
    /// The record's data, conforming to the schema.
    pub record: Record,
}

impl Bindable {
    /// Populates the record from the environment under the schema's default
    /// prefix; otherwise exactly [`FromEnv::with_env`].
    pub fn load_environment(&mut self, env: &EnvMap) -> (r: Result<bool, FromEnvError>)
        requires
            old(self).wf(),
            env.wf(),
        ensures
            final(self).wf(),
            Self::bind_ok(
                *old(self),
                *final(self),
                env@,
                old(self).schema.prefix@,
                result_view(r),
            ),
    {
        bind_fields(&self.schema.fields, &mut self.record.values, env, &self.schema.prefix)
    }
}

impl FromEnv for Bindable {
    open spec fn wf(&self) -> bool {
        record_conforms(record_view(self.record), fields_view(self.schema.fields@))
    }

    open spec fn bind_ok(
        pre: Self,
        post: Self,
        env: Map<Seq<char>, EnvData>,
        var: Seq<char>,
        r: Result<bool, ErrorV>,
    ) -> bool {
        post.schema == pre.schema && agrees(
            record_view(post.record),
            r,
            fields_bound(fields_view(pre.schema.fields@), record_view(pre.record), env, var),
        )
    }

    fn with_env(&mut self, env: &EnvMap, var: &str) -> (r: Result<bool, FromEnvError>) {
        let p: String = var.to_owned();
        bind_fields(&self.schema.fields, &mut self.record.values, env, &p)
    }
}

} // verus!
