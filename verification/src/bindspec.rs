//! The binding semantics.
//!
//! These specification functions say exactly what binding a record against an
//! environment produces: for every field, in declaration order, the bound
//! value, the found flag, and the first error, if any.  The executable binder
//! in [`bind`](crate::bind) is proved to return precisely these results.
//!
//! The rules, field by field:
//! - a *scalar* reads `prefix + fragment`: absent leaves it unchanged, raw
//!   bytes or a failed decode abort, text overwrites it;
//! - an *optional* binds a fresh default inner value under the same names and
//!   becomes present exactly when something was found — absence clears any
//!   previous presence; on an error the field is left untouched;
//! - a *nested record* is bound twice, first under `prefix + fragment + ":"`,
//!   then under `prefix + fragment + "__"`; both attempts run, their found
//!   flags are or-ed, and the later attempt wins where both name one leaf;
//! - a *sequence* probes indices `0, 1, 2, ...` until the first index where
//!   no variable matches; the probed values replace the items, except that a
//!   miss at index zero leaves the field untouched with nothing found;
//! - a *nested sequence* binds a fresh default element per index, colon form
//!   first and the underscore form only when the colon form found nothing; a
//!   miss rolls the speculative element back and ends the probe, while a
//!   failing element is left attached;
//! - any error aborts the whole traversal at once, verbatim; fields bound
//!   before it keep their new values, fields after it are untouched.

use vstd::prelude::*;
use crate::digits::dec_digits;
use crate::encoding::label_to_encoding;
use crate::env::EnvData;
use crate::error::ErrorV;
use crate::names::{colon_sep, us_sep, seq_elem_name, nseq_elem_prefix};
use crate::numtext::text_int;
use crate::schema::{FieldKindV, FieldSchemaV, ScalarKind};
use crate::value::{ScalarV, ValueV, default_scalar, default_record};

verus! {

/// The environment as the binder sees it: a map from variable name to value.
pub type EnvModel = Map<Seq<char>, EnvData>;

/// What one binding step produces: the value afterwards and either the found
/// flag or the error that aborted the step.
pub enum BindOutcome<T> {
    /// The step finished; `found` says whether any variable was consulted
    /// successfully.
    Done {
        /// The value after the step.
        value: T,
        /// Whether any variable was consulted successfully.
        found: bool,
    },
    /// The step aborted; mutations made before the error stand.
    Failed {
        /// The value after the step.
        value: T,
        /// The error, propagated verbatim.
        error: ErrorV,
    },
}

impl<T> BindOutcome<T> {
    /// The value after the step, however it ended.
    pub open spec fn value(self) -> T {
        match self {
            BindOutcome::Done { value, .. } => value,
            BindOutcome::Failed { value, .. } => value,
        }
    }

    /// Whether the step finished with something found.
    pub open spec fn is_found(self) -> bool {
        self matches BindOutcome::Done { found: true, .. }
    }
}

/// Whether an exec result and final value realize a specified outcome.
pub open spec fn agrees<T>(post: T, r: Result<bool, ErrorV>, b: BindOutcome<T>) -> bool {
    match b {
        BindOutcome::Done { value, found } => post == value && r == Ok::<bool, ErrorV>(found),
        BindOutcome::Failed { value, error } => post == value && r == Err::<bool, ErrorV>(error),
    }
}

/// Message for integer text that is not an optionally signed digit run.
pub open spec fn msg_not_integer() -> Seq<char> {
    "not a decimal integer"@
}

/// Message for a well-formed integer outside the field's range.
pub open spec fn msg_out_of_range() -> Seq<char> {
    "integer out of range for the field"@
}

/// Message for boolean text other than `true` or `false`.
pub open spec fn msg_not_bool() -> Seq<char> {
    "expected true or false"@
}

/// Message for an unknown text-encoding label.
pub open spec fn msg_unrecognized_encoding() -> Seq<char> {
    "Unrecognized encoding"@
}

/// The text `true`.
pub open spec fn true_text() -> Seq<char> {
    "true"@
}

/// The text `false`.
pub open spec fn false_text() -> Seq<char> {
    "false"@
}

/// What decoding text `t` into a scalar of `pre`'s type yields: the decoded
/// scalar, or the decoder's message.
pub open spec fn scalar_decoded(pre: ScalarV, t: Seq<char>) -> Result<ScalarV, Seq<char>> {
    match pre {
        ScalarV::U8(_) => match text_int(t) {
            None => Err(msg_not_integer()),
            Some(v) => if 0 <= v <= u8::MAX {
                Ok(ScalarV::U8(v as u8))
            } else {
                Err(msg_out_of_range())
            },
        },
        ScalarV::U16(_) => match text_int(t) {
            None => Err(msg_not_integer()),
            Some(v) => if 0 <= v <= u16::MAX {
                Ok(ScalarV::U16(v as u16))
            } else {
                Err(msg_out_of_range())
            },
        },
        ScalarV::U32(_) => match text_int(t) {
            None => Err(msg_not_integer()),
            Some(v) => if 0 <= v <= u32::MAX {
                Ok(ScalarV::U32(v as u32))
            } else {
                Err(msg_out_of_range())
            },
        },
        ScalarV::U64(_) => match text_int(t) {
            None => Err(msg_not_integer()),
            Some(v) => if 0 <= v <= u64::MAX {
                Ok(ScalarV::U64(v as u64))
            } else {
                Err(msg_out_of_range())
            },
        },
        ScalarV::U128(_) => match text_int(t) {
            None => Err(msg_not_integer()),
            Some(v) => if 0 <= v <= u128::MAX {
                Ok(ScalarV::U128(v as u128))
            } else {
                Err(msg_out_of_range())
            },
        },
        ScalarV::I8(_) => match text_int(t) {
            None => Err(msg_not_integer()),
            Some(v) => if i8::MIN <= v <= i8::MAX {
                Ok(ScalarV::I8(v as i8))
            } else {
                Err(msg_out_of_range())
            },
        },
        ScalarV::I16(_) => match text_int(t) {
            None => Err(msg_not_integer()),
            Some(v) => if i16::MIN <= v <= i16::MAX {
                Ok(ScalarV::I16(v as i16))
            } else {
                Err(msg_out_of_range())
            },
        },
        ScalarV::I32(_) => match text_int(t) {
            None => Err(msg_not_integer()),
            Some(v) => if i32::MIN <= v <= i32::MAX {
                Ok(ScalarV::I32(v as i32))
            } else {
                Err(msg_out_of_range())
            },
        },
        ScalarV::I64(_) => match text_int(t) {
            None => Err(msg_not_integer()),
            Some(v) => if i64::MIN <= v <= i64::MAX {
                Ok(ScalarV::I64(v as i64))
            } else {
                Err(msg_out_of_range())
            },
        },
        ScalarV::I128(_) => match text_int(t) {
            None => Err(msg_not_integer()),
            Some(v) => if i128::MIN <= v <= i128::MAX {
                Ok(ScalarV::I128(v as i128))
            } else {
                Err(msg_out_of_range())
            },
        },
        ScalarV::Bool(_) => if t == true_text() {
            Ok(ScalarV::Bool(true))
        } else if t == false_text() {
            Ok(ScalarV::Bool(false))
        } else {
            Err(msg_not_bool())
        },
        ScalarV::Text(_) => Ok(ScalarV::Text(t)),
        ScalarV::PathText(_) => Ok(ScalarV::PathText(t)),
        ScalarV::Encoding(_) => match label_to_encoding(t) {
            Some(canonical) => Ok(ScalarV::Encoding(canonical)),
            None => Err(msg_unrecognized_encoding()),
        },
    }
}

/// What binding a scalar from variable `name` yields: untouched when the
/// variable is absent, an error on raw bytes or a failed decode, the decoded
/// value otherwise.
pub open spec fn scalar_bound(pre: ScalarV, env: EnvModel, name: Seq<char>) -> BindOutcome<
    ScalarV,
> {
    if !env.contains_key(name) {
        BindOutcome::Done { value: pre, found: false }
    } else {
        match env[name] {
            EnvData::Raw(raw) => BindOutcome::Failed {
                value: pre,
                error: ErrorV::NotUnicode { name, raw },
            },
            EnvData::Text(t) => match scalar_decoded(pre, t) {
                Ok(v) => BindOutcome::Done { value: v, found: true },
                Err(message) => BindOutcome::Failed {
                    value: pre,
                    error: ErrorV::Parse { name, message },
                },
            },
        }
    }
}

/// What probing index `i` of a plain sequence yields: the colon-form name is
/// consulted if present, else the underscore form; absence of both is the
/// probe's miss, surfacing as nothing found.
pub open spec fn seq_elem_outcome(k: ScalarKind, env: EnvModel, base: Seq<char>, i: nat)
    -> BindOutcome<ScalarV> {
    if env.contains_key(seq_elem_name(base, colon_sep(), i)) {
        scalar_bound(default_scalar(k), env, seq_elem_name(base, colon_sep(), i))
    } else {
        scalar_bound(default_scalar(k), env, seq_elem_name(base, us_sep(), i))
    }
}

/// Whether index `i` of a plain sequence resolves to a value.
pub open spec fn seq_found(k: ScalarKind, env: EnvModel, base: Seq<char>, i: nat) -> bool {
    seq_elem_outcome(k, env, base, i).is_found()
}

/// The first index that a probe of successive indices does not resolve; the
/// indices below it all resolve.
pub open spec fn probe_stop(hit: spec_fn(nat) -> bool) -> nat {
    choose|n: nat| !(#[trigger] hit(n)) && forall|j: nat| j < n ==> #[trigger] hit(j)
}

/// The stopping index is the one index that fails to resolve after a run of
/// resolved indices.
pub proof fn lemma_probe_stop(hit: spec_fn(nat) -> bool, m: nat)
    requires
        !hit(m),
        forall|j: nat| j < m ==> #[trigger] hit(j),
    ensures
        probe_stop(hit) == m,
{
    assert(exists|n: nat| !(#[trigger] hit(n)) && forall|j: nat| j < n ==> #[trigger] hit(j)) by {
        assert(!hit(m) && forall|j: nat| j < m ==> #[trigger] hit(j));
    }
    let s = probe_stop(hit);
    assert(!hit(s) && forall|j: nat| j < s ==> #[trigger] hit(j));
    if s < m {
        assert(hit(s));
    } else if m < s {
        assert(hit(m));
    }
}

/// The index at which the probe of a plain sequence ends.
pub open spec fn seq_stop(k: ScalarKind, env: EnvModel, base: Seq<char>) -> nat {
    probe_stop(|i: nat| seq_found(k, env, base, i))
}

/// The probe of a plain sequence ends at `m` when `m` is the first index
/// that does not resolve.
pub proof fn lemma_seq_stop_at(k: ScalarKind, env: EnvModel, base: Seq<char>, m: nat)
    requires
        !seq_found(k, env, base, m),
        forall|j: nat| j < m ==> #[trigger] seq_found(k, env, base, j),
    ensures
        seq_stop(k, env, base) == m,
{
    lemma_probe_stop(|i: nat| seq_found(k, env, base, i), m);
}

/// The first `n` probed values of a plain sequence.
pub open spec fn seq_items(k: ScalarKind, env: EnvModel, base: Seq<char>, n: nat) -> Seq<
    ScalarV,
>
    decreases n,
{
    if n == 0 {
        Seq::empty()
    } else {
        seq_items(k, env, base, (n - 1) as nat).push(
            seq_elem_outcome(k, env, base, (n - 1) as nat).value(),
        )
    }
}

/// What binding a plain sequence yields: the probed values replace the items;
/// a miss at index zero leaves the field untouched; a decode error keeps the
/// values probed before it and aborts.
pub open spec fn seq_bound(k: ScalarKind, pre: Seq<ScalarV>, env: EnvModel, base: Seq<char>)
    -> BindOutcome<Seq<ScalarV>> {
    let n = seq_stop(k, env, base);
    let items = seq_items(k, env, base, n);
    match seq_elem_outcome(k, env, base, n) {
        BindOutcome::Failed { value: _, error } => BindOutcome::Failed { value: items, error },
        BindOutcome::Done { .. } => if n == 0 {
            BindOutcome::Done { value: pre, found: false }
        } else {
            BindOutcome::Done { value: items, found: true }
        },
    }
}

/// An outcome of a record's tail with the already-bound head values put back
/// in front and the head's found flag or-ed in.
pub open spec fn prepend_bound(
    head: Seq<ValueV>,
    found: bool,
    rest: BindOutcome<Seq<ValueV>>,
) -> BindOutcome<Seq<ValueV>> {
    match rest {
        BindOutcome::Done { value, found: more } => BindOutcome::Done {
            value: head + value,
            found: found || more,
        },
        BindOutcome::Failed { value, error } => BindOutcome::Failed {
            value: head + value,
            error,
        },
    }
}

/// What binding the fields of a record yields, fields in declaration order:
/// ignored fields are skipped, found flags are or-ed, and the first error
/// aborts with every later field untouched.
pub open spec fn fields_bound(
    fs: Seq<FieldSchemaV>,
    pre: Seq<ValueV>,
    env: EnvModel,
    prefix: Seq<char>,
) -> BindOutcome<Seq<ValueV>>
    decreases fs, 0nat, 0nat,
{
    if fs.len() == 0 {
        BindOutcome::Done { value: pre, found: false }
    } else {
        let head = if fs[0].ignored {
            BindOutcome::Done { value: pre[0], found: false }
        } else {
            field_bound(fs[0], pre[0], env, prefix)
        };
        match head {
            BindOutcome::Failed { value, error } => BindOutcome::Failed {
                value: pre.update(0, value),
                error,
            },
            BindOutcome::Done { value, found } => match fields_bound(
                fs.subrange(1, fs.len() as int),
                pre.subrange(1, pre.len() as int),
                env,
                prefix,
            ) {
                BindOutcome::Failed { value: rest, error } => BindOutcome::Failed {
                    value: seq![value] + rest,
                    error,
                },
                BindOutcome::Done { value: rest, found: more } => BindOutcome::Done {
                    value: seq![value] + rest,
                    found: found || more,
                },
            },
        }
    }
}

/// What binding one field yields, by its kind.
#[verifier::opaque]
pub open spec fn field_bound(
    f: FieldSchemaV,
    pre: ValueV,
    env: EnvModel,
    prefix: Seq<char>,
) -> BindOutcome<ValueV>
    decreases f, 1nat, 0nat,
{
    let name = prefix + f.fragment;
    match f.kind {
        FieldKindV::Scalar(_) => match scalar_bound(pre->Scalar_0, env, name) {
            BindOutcome::Done { value, found } => BindOutcome::Done {
                value: ValueV::Scalar(value),
                found,
            },
            BindOutcome::Failed { value, error } => BindOutcome::Failed {
                value: ValueV::Scalar(value),
                error,
            },
        },
        FieldKindV::OptionalScalar(sk) => match scalar_bound(default_scalar(sk), env, name) {
            BindOutcome::Done { value, found } => BindOutcome::Done {
                value: ValueV::OptionalScalar(
                    if found {
                        Some(value)
                    } else {
                        None
                    },
                ),
                found,
            },
            BindOutcome::Failed { value: _, error } => BindOutcome::Failed { value: pre, error },
        },
        FieldKindV::OptionalNested(fs) => match nested_attempts(
            fs,
            default_record(fs),
            env,
            name,
        ) {
            BindOutcome::Done { value, found } => BindOutcome::Done {
                value: ValueV::OptionalNested(
                    if found {
                        Some(value)
                    } else {
                        None
                    },
                ),
                found,
            },
            BindOutcome::Failed { value: _, error } => BindOutcome::Failed { value: pre, error },
        },
        FieldKindV::Nested(fs) => match nested_attempts(fs, pre->Nested_0, env, name) {
            BindOutcome::Done { value, found } => BindOutcome::Done {
                value: ValueV::Nested(value),
                found,
            },
            BindOutcome::Failed { value, error } => BindOutcome::Failed {
                value: ValueV::Nested(value),
                error,
            },
        },
        FieldKindV::Sequence(sk) => match seq_bound(sk, pre->Sequence_0, env, name) {
            BindOutcome::Done { value, found } => BindOutcome::Done {
                value: ValueV::Sequence(value),
                found,
            },
            BindOutcome::Failed { value, error } => BindOutcome::Failed {
                value: ValueV::Sequence(value),
                error,
            },
        },
        FieldKindV::NestedSequence(fs) => match nseq_bound(
            fs,
            pre->NestedSequence_0,
            env,
            name,
        ) {
            BindOutcome::Done { value, found } => BindOutcome::Done {
                value: ValueV::NestedSequence(value),
                found,
            },
            BindOutcome::Failed { value, error } => BindOutcome::Failed {
                value: ValueV::NestedSequence(value),
                error,
            },
        },
    }
}

/// What binding a nested record yields: the colon-separator attempt, then the
/// underscore-separator attempt on its result — both always run, their found
/// flags are or-ed, and an error from either aborts.
pub open spec fn nested_attempts(
    fs: Seq<FieldSchemaV>,
    pre: Seq<ValueV>,
    env: EnvModel,
    base: Seq<char>,
) -> BindOutcome<Seq<ValueV>>
    decreases fs, 2nat, 0nat,
{
    match fields_bound(fs, pre, env, base + colon_sep()) {
        BindOutcome::Failed { value, error } => BindOutcome::Failed { value, error },
        BindOutcome::Done { value, found } => match fields_bound(fs, value, env, base + us_sep()) {
            BindOutcome::Failed { value: v2, error } => BindOutcome::Failed { value: v2, error },
            BindOutcome::Done { value: v2, found: f2 } => BindOutcome::Done {
                value: v2,
                found: found || f2,
            },
        },
    }
}

/// What binding element `i` of a nested sequence yields: a fresh default
/// record bound under the colon-form prefix, rebound under the underscore
/// form only when the first attempt found nothing.
#[verifier::opaque]
pub open spec fn nseq_elem(
    fs: Seq<FieldSchemaV>,
    env: EnvModel,
    base: Seq<char>,
    i: nat,
) -> BindOutcome<Seq<ValueV>>
    decreases fs, 3nat, 0nat,
{
    match fields_bound(fs, default_record(fs), env, nseq_elem_prefix(base, colon_sep(), i)) {
        BindOutcome::Failed { value, error } => BindOutcome::Failed { value, error },
        BindOutcome::Done { value, found } => if found {
            BindOutcome::Done { value, found }
        } else {
            fields_bound(fs, value, env, nseq_elem_prefix(base, us_sep(), i))
        },
    }
}

/// Whether index `i` of a nested sequence resolves to an element.
pub open spec fn nseq_found(fs: Seq<FieldSchemaV>, env: EnvModel, base: Seq<char>, i: nat) -> bool
    decreases fs, 4nat, 0nat,
{
    nseq_elem(fs, env, base, i).is_found()
}

/// Which indices of a nested sequence resolve, as a predicate on the index.
pub open spec fn nseq_hit(fs: Seq<FieldSchemaV>, env: EnvModel, base: Seq<char>) -> spec_fn(
    nat,
) -> bool
    decreases fs, 5nat, 0nat,
{
    |i: nat| nseq_found(fs, env, base, i)
}

/// The index at which the probe of a nested sequence ends.
pub open spec fn nseq_stop(fs: Seq<FieldSchemaV>, env: EnvModel, base: Seq<char>) -> nat
    decreases fs, 6nat, 0nat,
{
    probe_stop(nseq_hit(fs, env, base))
}

/// The first `n` probed elements of a nested sequence.
pub open spec fn nseq_items(
    fs: Seq<FieldSchemaV>,
    env: EnvModel,
    base: Seq<char>,
    n: nat,
) -> Seq<Seq<ValueV>>
    decreases fs, 7nat, n,
{
    if n == 0 {
        Seq::empty()
    } else {
        nseq_items(fs, env, base, (n - 1) as nat).push(
            nseq_elem(fs, env, base, (n - 1) as nat).value(),
        )
    }
}

/// What binding a nested sequence yields: the probed elements replace the
/// items; a miss at index zero leaves the field untouched; the probe's miss
/// rolls its speculative element back, but a failing element stays attached.
#[verifier::opaque]
pub open spec fn nseq_bound(
    fs: Seq<FieldSchemaV>,
    pre: Seq<Seq<ValueV>>,
    env: EnvModel,
    base: Seq<char>,
) -> BindOutcome<Seq<Seq<ValueV>>>
    decreases fs, 8nat, 0nat,
{
    let n = nseq_stop(fs, env, base);
    let items = nseq_items(fs, env, base, n);
    match nseq_elem(fs, env, base, n) {
        BindOutcome::Failed { value, error } => BindOutcome::Failed {
            value: items.push(value),
            error,
        },
        BindOutcome::Done { .. } => if n == 0 {
            BindOutcome::Done { value: pre, found: false }
        } else {
            BindOutcome::Done { value: items, found: true }
        },
    }
}

/// Unrolling a record binding one field forward when the first field's step
/// finished.
pub proof fn lemma_fields_bound_step(
    fs: Seq<FieldSchemaV>,
    pre: Seq<ValueV>,
    env: EnvModel,
    prefix: Seq<char>,
    head_value: ValueV,
    head_found: bool,
)
    requires
        fs.len() > 0,
        (if fs[0].ignored {
            BindOutcome::Done { value: pre[0], found: false }
        } else {
            field_bound(fs[0], pre[0], env, prefix)
        }) == (BindOutcome::Done { value: head_value, found: head_found }),
    ensures
        fields_bound(fs, pre, env, prefix) == prepend_bound(
            seq![head_value],
            head_found,
            fields_bound(
                fs.subrange(1, fs.len() as int),
                pre.subrange(1, pre.len() as int),
                env,
                prefix,
            ),
        ),
{
    reveal(field_bound);
}

/// Unrolling a record binding when the first field's step failed.
pub proof fn lemma_fields_bound_step_failed(
    fs: Seq<FieldSchemaV>,
    pre: Seq<ValueV>,
    env: EnvModel,
    prefix: Seq<char>,
    head_value: ValueV,
    error: ErrorV,
)
    requires
        fs.len() > 0,
        !fs[0].ignored,
        field_bound(fs[0], pre[0], env, prefix) == (BindOutcome::Failed {
            value: head_value,
            error,
        }),
    ensures
        fields_bound(fs, pre, env, prefix) == (BindOutcome::Failed {
            value: pre.update(0, head_value),
            error,
        }),
{
    reveal(field_bound);
}

/// Putting bound head values back in front composes.
pub proof fn lemma_prepend_assoc(
    head: Seq<ValueV>,
    found1: bool,
    v: ValueV,
    found2: bool,
    rest: BindOutcome<Seq<ValueV>>,
)
    ensures
        prepend_bound(head, found1, prepend_bound(seq![v], found2, rest)) == prepend_bound(
            head.push(v),
            found1 || found2,
            rest,
        ),
{
    match rest {
        BindOutcome::Done { value, .. } => {
            assert(head + (seq![v] + value) =~= head.push(v) + value);
        },
        BindOutcome::Failed { value, .. } => {
            assert(head + (seq![v] + value) =~= head.push(v) + value);
        },
    }
}

/// Decoding keeps the scalar's type: the bound value conforms to whatever
/// kind the previous value conformed to.
pub proof fn lemma_scalar_bound_conforms(
    pre: ScalarV,
    env: EnvModel,
    name: Seq<char>,
    k: ScalarKind,
)
    requires
        crate::value::scalar_conforms(pre, k),
    ensures
        crate::value::scalar_conforms(scalar_bound(pre, env, name).value(), k),
{
}

/// The probe of a nested sequence ends at `m` when `m` is the first index
/// that does not resolve.
pub proof fn lemma_nseq_stop_at(fs: Seq<FieldSchemaV>, env: EnvModel, base: Seq<char>, m: nat)
    requires
        !nseq_found(fs, env, base, m),
        forall|j: nat| j < m ==> #[trigger] nseq_found(fs, env, base, j),
    ensures
        nseq_stop(fs, env, base) == m,
{
    let hit = nseq_hit(fs, env, base);
    assert forall|j: nat| #[trigger] hit(j) == nseq_found(fs, env, base, j) by {}
    lemma_probe_stop(hit, m);
}

/// A plain-sequence probe that resolves index `i` names a variable in the
/// environment that extends the sequence's base name.
pub proof fn lemma_seq_found_witness(k: ScalarKind, env: EnvModel, base: Seq<char>, i: nat)
    requires
        seq_found(k, env, base, i),
    ensures
        exists|w: Seq<char>| #[trigger] env.contains_key(w) && base.is_prefix_of(w),
{
    let cn = seq_elem_name(base, colon_sep(), i);
    let un = seq_elem_name(base, us_sep(), i);
    if env.contains_key(cn) {
        crate::names::lemma_seq_elem_name_extends(base, colon_sep(), i);
        assert(env.contains_key(cn) && base.is_prefix_of(cn));
    } else {
        assert(env.contains_key(un));
        crate::names::lemma_seq_elem_name_extends(base, us_sep(), i);
        assert(env.contains_key(un) && base.is_prefix_of(un));
    }
}

/// A nested-sequence probe that resolves index `i` names a variable that
/// extends one of the index's element prefixes.
pub proof fn lemma_nseq_found_witness(
    fs: Seq<FieldSchemaV>,
    env: EnvModel,
    base: Seq<char>,
    i: nat,
)
    requires
        nseq_found(fs, env, base, i),
    ensures
        exists|w: Seq<char>|
            #[trigger] env.contains_key(w) && (nseq_elem_prefix(base, colon_sep(), i).is_prefix_of(
                w,
            ) || nseq_elem_prefix(base, us_sep(), i).is_prefix_of(w)),
    decreases fs, 9nat, 0nat,
{
    reveal(nseq_elem);
    let cp = nseq_elem_prefix(base, colon_sep(), i);
    let up = nseq_elem_prefix(base, us_sep(), i);
    let first = fields_bound(fs, default_record(fs), env, cp);
    if first.is_found() {
        lemma_fields_bound_witness(fs, default_record(fs), env, cp);
        let w = choose|w: Seq<char>| #[trigger] env.contains_key(w) && cp.is_prefix_of(w);
        assert(env.contains_key(w) && (cp.is_prefix_of(w) || up.is_prefix_of(w)));
    } else {
        match first {
            BindOutcome::Failed { .. } => {
                assert(false);
            },
            BindOutcome::Done { value, .. } => {
                lemma_fields_bound_witness(fs, value, env, up);
                let w = choose|w: Seq<char>| #[trigger] env.contains_key(w) && up.is_prefix_of(w);
                assert(env.contains_key(w) && (cp.is_prefix_of(w) || up.is_prefix_of(w)));
            },
        }
    }
}

/// A record traversal that found something consulted a variable, and every
/// name it consults extends the traversal's prefix.
pub proof fn lemma_fields_bound_witness(
    fs: Seq<FieldSchemaV>,
    pre: Seq<ValueV>,
    env: EnvModel,
    prefix: Seq<char>,
)
    requires
        fields_bound(fs, pre, env, prefix).is_found(),
    ensures
        exists|w: Seq<char>| #[trigger] env.contains_key(w) && prefix.is_prefix_of(w),
    decreases fs, 0nat, 0nat,
{
    reveal(field_bound);
    let head = if fs[0].ignored {
        BindOutcome::Done { value: pre[0], found: false }
    } else {
        field_bound(fs[0], pre[0], env, prefix)
    };
    match head {
        BindOutcome::Failed { .. } => {
            assert(false);
        },
        BindOutcome::Done { value, found } => {
            if found {
                lemma_field_bound_witness(fs[0], pre[0], env, prefix);
            } else {
                lemma_fields_bound_witness(
                    fs.subrange(1, fs.len() as int),
                    pre.subrange(1, pre.len() as int),
                    env,
                    prefix,
                );
            }
        },
    }
}

/// A field binding that found something consulted a variable extending the
/// record's prefix.
/// A plain-sequence binding that found something consulted a variable that
/// extends the sequence's base name.
pub proof fn lemma_seq_bound_witness(
    sk: ScalarKind,
    pre: Seq<ScalarV>,
    env: EnvModel,
    base: Seq<char>,
)
    requires
        seq_bound(sk, pre, env, base).is_found(),
    ensures
        exists|w: Seq<char>| #[trigger] env.contains_key(w) && base.is_prefix_of(w),
{
    if seq_found(sk, env, base, 0) {
        lemma_seq_found_witness(sk, env, base, 0);
    } else {
        lemma_seq_stop_at(sk, env, base, 0);
        assert(false);
    }
}

/// A nested-sequence binding that found something consulted a variable that
/// extends the sequence's base name.
/// A nested-sequence binding that found something resolved index zero.
pub proof fn lemma_nseq_bound_found_at_zero(
    fs: Seq<FieldSchemaV>,
    pre: Seq<Seq<ValueV>>,
    env: EnvModel,
    base: Seq<char>,
)
    requires
        nseq_bound(fs, pre, env, base).is_found(),
    ensures
        nseq_found(fs, env, base, 0),
{
    reveal(nseq_bound);
    if !nseq_found(fs, env, base, 0) {
        lemma_nseq_stop_at(fs, env, base, 0);
        assert(!nseq_bound(fs, pre, env, base).is_found());
    }
}

/// A nested-sequence binding that found something consulted a variable that
/// extends the sequence's base name.
pub proof fn lemma_nseq_bound_witness(
    fs: Seq<FieldSchemaV>,
    pre: Seq<Seq<ValueV>>,
    env: EnvModel,
    base: Seq<char>,
)
    requires
        nseq_bound(fs, pre, env, base).is_found(),
    ensures
        exists|w: Seq<char>| #[trigger] env.contains_key(w) && base.is_prefix_of(w),
    decreases fs, 11nat, 0nat,
{
    lemma_nseq_bound_found_at_zero(fs, pre, env, base);
    lemma_nseq_found_witness(fs, env, base, 0);
    let w = choose|w: Seq<char>|
        #[trigger] env.contains_key(w) && (nseq_elem_prefix(base, colon_sep(), 0).is_prefix_of(w)
            || nseq_elem_prefix(base, us_sep(), 0).is_prefix_of(w));
    if nseq_elem_prefix(base, colon_sep(), 0).is_prefix_of(w) {
        crate::names::lemma_nseq_elem_prefix_extends(base, colon_sep(), 0);
        crate::names::lemma_prefix_trans(base, nseq_elem_prefix(base, colon_sep(), 0), w);
    } else {
        crate::names::lemma_nseq_elem_prefix_extends(base, us_sep(), 0);
        crate::names::lemma_prefix_trans(base, nseq_elem_prefix(base, us_sep(), 0), w);
    }
    assert(env.contains_key(w) && base.is_prefix_of(w));
}

/// A field binding that found something consulted a variable extending the
/// record's prefix.
pub proof fn lemma_field_bound_witness(
    f: FieldSchemaV,
    pre: ValueV,
    env: EnvModel,
    prefix: Seq<char>,
)
    requires
        field_bound(f, pre, env, prefix).is_found(),
    ensures
        exists|w: Seq<char>| #[trigger] env.contains_key(w) && prefix.is_prefix_of(w),
    decreases f, 11nat, 0nat,
{
    reveal(field_bound);
    reveal(nseq_elem);
    reveal(nseq_bound);
    let name = prefix + f.fragment;
    crate::names::lemma_prefix_of_concat(prefix, f.fragment);
    let witness_under_name = exists|w: Seq<char>|
        #[trigger] env.contains_key(w) && name.is_prefix_of(w);
    match f.kind {
        FieldKindV::Scalar(_) => {
            assert(env.contains_key(name) && prefix.is_prefix_of(name));
        },
        FieldKindV::OptionalScalar(_) => {
            assert(env.contains_key(name) && prefix.is_prefix_of(name));
        },
        FieldKindV::OptionalNested(fs) => {
            lemma_nested_attempts_witness(fs, default_record(fs), env, name);
        },
        FieldKindV::Nested(fs) => {
            lemma_nested_attempts_witness(fs, pre->Nested_0, env, name);
        },
        FieldKindV::Sequence(sk) => {
            lemma_seq_bound_witness(sk, pre->Sequence_0, env, name);
        },
        FieldKindV::NestedSequence(fs) => {
            assert(nseq_bound(fs, pre->NestedSequence_0, env, name).is_found());
            lemma_nseq_bound_witness(fs, pre->NestedSequence_0, env, name);
        },
    }
    if witness_under_name {
        let w = choose|w: Seq<char>| #[trigger] env.contains_key(w) && name.is_prefix_of(w);
        crate::names::lemma_prefix_trans(prefix, name, w);
        assert(env.contains_key(w) && prefix.is_prefix_of(w));
    }
}

/// A pair of nested attempts that found something consulted a variable
/// extending the nested base name.
pub proof fn lemma_nested_attempts_witness(
    fs: Seq<FieldSchemaV>,
    pre: Seq<ValueV>,
    env: EnvModel,
    base: Seq<char>,
)
    requires
        nested_attempts(fs, pre, env, base).is_found(),
    ensures
        exists|w: Seq<char>| #[trigger] env.contains_key(w) && base.is_prefix_of(w),
    decreases fs, 2nat, 0nat,
{
    crate::names::lemma_prefix_of_concat(base, colon_sep());
    crate::names::lemma_prefix_of_concat(base, us_sep());
    match fields_bound(fs, pre, env, base + colon_sep()) {
        BindOutcome::Failed { .. } => {
            assert(false);
        },
        BindOutcome::Done { value, found } => {
            if found {
                lemma_fields_bound_witness(fs, pre, env, base + colon_sep());
                let w = choose|w: Seq<char>|
                    #[trigger] env.contains_key(w) && (base + colon_sep()).is_prefix_of(w);
                crate::names::lemma_prefix_trans(base, base + colon_sep(), w);
                assert(env.contains_key(w) && base.is_prefix_of(w));
            } else {
                lemma_fields_bound_witness(fs, value, env, base + us_sep());
                let w = choose|w: Seq<char>|
                    #[trigger] env.contains_key(w) && (base + us_sep()).is_prefix_of(w);
                crate::names::lemma_prefix_trans(base, base + us_sep(), w);
                assert(env.contains_key(w) && base.is_prefix_of(w));
            }
        },
    }
}

} // verus!
