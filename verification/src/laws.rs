//! Laws of the binding semantics.
//!
//! Each proof function here states a property of binding as a whole — over
//! every schema, record, environment, and prefix its hypotheses allow — and
//! Verus checks it against the specification functions that the executable
//! binder is proved to realize.

use vstd::prelude::*;
use crate::bindspec::{
    field_bound, fields_bound, lemma_nseq_stop_at, lemma_scalar_bound_conforms,
    lemma_seq_stop_at, nested_attempts, nseq_bound, nseq_elem, nseq_found, nseq_items,
    scalar_bound, scalar_decoded, seq_bound, seq_elem_outcome, seq_found, seq_items,
    BindOutcome, EnvModel,
};
use crate::names::{
    colon_sep, lemma_prefix_of_concat, lemma_prefix_trans, lemma_seq_elem_name_extends,
    nseq_elem_prefix, seq_elem_name, us_sep,
};
use crate::schema::{FieldKindV, FieldSchemaV, ScalarKind};
use crate::value::{default_record, default_scalar, default_value, scalar_conforms, ScalarV, ValueV};

verus! {

broadcast use
    crate::value::lemma_default_record_len,
    crate::value::lemma_default_record_index,
;

/// *Absence is a no-op.*  Binding a record in its default state against an
/// environment that holds none of the record's variables — no name extending
/// the prefix — finds nothing and leaves the record unchanged.
pub proof fn lemma_absence_no_op(fs: Seq<FieldSchemaV>, env: EnvModel, prefix: Seq<char>)
    requires
        forall|k: Seq<char>| env.dom().contains(k) ==> !(#[trigger] prefix.is_prefix_of(k)),
    ensures
        fields_bound(fs, default_record(fs), env, prefix) == (BindOutcome::Done {
            value: default_record(fs),
            found: false,
        }),
    decreases fs, 0nat,
{
    reveal(field_bound);
    reveal_with_fuel(fields_bound, 2);
    let pre = default_record(fs);
    if fs.len() == 0 {
        assert(pre.len() == 0);
    } else {
        lemma_absence_no_op_field(fs[0], env, prefix);
        assert(pre[0] == default_value(fs[0].kind));
        let head = if fs[0].ignored {
            BindOutcome::Done { value: pre[0], found: false }
        } else {
            field_bound(fs[0], pre[0], env, prefix)
        };
        assert(head == (BindOutcome::Done { value: pre[0], found: false }));
        let tfs = fs.subrange(1, fs.len() as int);
        let tvs = pre.subrange(1, pre.len() as int);
        assert(tvs =~= default_record(tfs)) by {
            assert forall|i: int| 0 <= i < tfs.len() implies tvs[i] == default_record(tfs)[i] by {
                assert(tvs[i] == pre[i + 1]);
                assert(pre[i + 1] == default_value(fs[i + 1].kind));
                assert(tfs[i] == fs[i + 1]);
                assert(default_record(tfs)[i] == default_value(tfs[i].kind));
            }
        }
        lemma_absence_no_op(tfs, env, prefix);
        assert(seq![pre[0]] + tvs =~= pre);
    }
}

/// One field of [`lemma_absence_no_op`]: a field in its default state, none
/// of whose variables are present, finds nothing and is unchanged.
pub proof fn lemma_absence_no_op_field(f: FieldSchemaV, env: EnvModel, prefix: Seq<char>)
    requires
        forall|k: Seq<char>| env.dom().contains(k) ==> !(#[trigger] prefix.is_prefix_of(k)),
    ensures
        f.ignored || field_bound(f, default_value(f.kind), env, prefix) == (BindOutcome::Done {
            value: default_value(f.kind),
            found: false,
        }),
    decreases f, 1nat,
{
    let pre = default_value(f.kind);
    if !f.ignored {
        reveal(field_bound);
        reveal(crate::bindspec::nseq_bound);
        let name = prefix + f.fragment;
        lemma_prefix_of_concat(prefix, f.fragment);
        assert(!env.contains_key(name)) by {
            if env.contains_key(name) {
                assert(env.dom().contains(name));
            }
        }
        match f.kind {
            FieldKindV::Scalar(_) => {},
            FieldKindV::OptionalScalar(_) => {},
            FieldKindV::OptionalNested(fs) => {
                lemma_absence_no_op_nested(fs, env, prefix, name);
            },
            FieldKindV::Nested(fs) => {
                assert(pre == ValueV::Nested(default_record(fs)));
                lemma_absence_no_op_nested(fs, env, prefix, name);
            },
            FieldKindV::Sequence(sk) => {
                let cn = seq_elem_name(name, colon_sep(), 0);
                let un = seq_elem_name(name, us_sep(), 0);
                assert(!env.contains_key(cn)) by {
                    lemma_seq_elem_name_extends(name, colon_sep(), 0);
                    if env.contains_key(cn) {
                        assert(env.dom().contains(cn));
                        lemma_prefix_trans(prefix, name, cn);
                    }
                }
                assert(!env.contains_key(un)) by {
                    lemma_seq_elem_name_extends(name, us_sep(), 0);
                    if env.contains_key(un) {
                        assert(env.dom().contains(un));
                        lemma_prefix_trans(prefix, name, un);
                    }
                }
                assert(seq_elem_outcome(sk, env, name, 0) == (BindOutcome::Done {
                    value: default_scalar(sk),
                    found: false,
                }));
                lemma_seq_stop_at(sk, env, name, 0);
            },
            FieldKindV::NestedSequence(fs) => {
                reveal(crate::bindspec::nseq_elem);
                let cp = nseq_elem_prefix(name, colon_sep(), 0);
                let up = nseq_elem_prefix(name, us_sep(), 0);
                assert forall|k: Seq<char>| env.dom().contains(k) implies !(#[trigger] cp.is_prefix_of(
                    k,
                )) by {
                    if cp.is_prefix_of(k) {
                        crate::names::lemma_nseq_elem_prefix_extends(name, colon_sep(), 0);
                        lemma_prefix_trans(name, cp, k);
                        lemma_prefix_trans(prefix, name, k);
                    }
                }
                assert forall|k: Seq<char>| env.dom().contains(k) implies !(#[trigger] up.is_prefix_of(
                    k,
                )) by {
                    if up.is_prefix_of(k) {
                        crate::names::lemma_nseq_elem_prefix_extends(name, us_sep(), 0);
                        lemma_prefix_trans(name, up, k);
                        lemma_prefix_trans(prefix, name, k);
                    }
                }
                lemma_absence_no_op(fs, env, cp);
                lemma_absence_no_op(fs, env, up);
                assert(nseq_elem(fs, env, name, 0) == (BindOutcome::Done {
                    value: default_record(fs),
                    found: false,
                }));
                lemma_nseq_stop_at(fs, env, name, 0);
            },
        }
    }
}

/// Both nested attempts of [`lemma_absence_no_op_field`] find nothing.
pub proof fn lemma_absence_no_op_nested(
    fs: Seq<FieldSchemaV>,
    env: EnvModel,
    prefix: Seq<char>,
    base: Seq<char>,
)
    requires
        prefix.is_prefix_of(base),
        forall|k: Seq<char>| env.dom().contains(k) ==> !(#[trigger] prefix.is_prefix_of(k)),
    ensures
        nested_attempts(fs, default_record(fs), env, base) == (BindOutcome::Done {
            value: default_record(fs),
            found: false,
        }),
    decreases fs, 2nat,
{
    assert forall|k: Seq<char>| env.dom().contains(k) implies !(#[trigger] (base
        + colon_sep()).is_prefix_of(k)) by {
        if (base + colon_sep()).is_prefix_of(k) {
            lemma_prefix_of_concat(base, colon_sep());
            lemma_prefix_trans(base, base + colon_sep(), k);
            lemma_prefix_trans(prefix, base, k);
        }
    }
    assert forall|k: Seq<char>| env.dom().contains(k) implies !(#[trigger] (base
        + us_sep()).is_prefix_of(k)) by {
        if (base + us_sep()).is_prefix_of(k) {
            lemma_prefix_of_concat(base, us_sep());
            lemma_prefix_trans(base, base + us_sep(), k);
            lemma_prefix_trans(prefix, base, k);
        }
    }
    assert forall|k: Seq<char>| env.dom().contains(k) implies !(#[trigger] base.is_prefix_of(
        k,
    )) by {
        if base.is_prefix_of(k) {
            lemma_prefix_trans(prefix, base, k);
        }
    }
    lemma_absence_no_op(fs, env, base + colon_sep());
    lemma_absence_no_op(fs, env, base + us_sep());
}

/// *Colon and underscore nesting are both applied.*  A nested record is bound
/// under the colon separator first and then under the underscore separator on
/// the colon attempt's result — so where both conventions name the same leaf,
/// the underscore value stands — and the found flags of the attempts are
/// or-ed.
pub proof fn lemma_nested_tries_both(
    fs: Seq<FieldSchemaV>,
    pre: Seq<ValueV>,
    env: EnvModel,
    base: Seq<char>,
)
    ensures
        nested_attempts(fs, pre, env, base) == (match fields_bound(fs, pre, env, base
            + colon_sep()) {
            BindOutcome::Failed { value, error } => BindOutcome::Failed { value, error },
            BindOutcome::Done { value, found } => match fields_bound(
                fs,
                value,
                env,
                base + us_sep(),
            ) {
                BindOutcome::Failed { value: v2, error } => BindOutcome::Failed {
                    value: v2,
                    error,
                },
                BindOutcome::Done { value: v2, found: f2 } => BindOutcome::Done {
                    value: v2,
                    found: found || f2,
                },
            },
        }),
{
}

/// The first `n` probed values of a plain sequence are `n` values.
pub proof fn lemma_seq_items_len(k: ScalarKind, env: EnvModel, base: Seq<char>, n: nat)
    ensures
        seq_items(k, env, base, n).len() == n,
    decreases n,
{
    if n > 0 {
        lemma_seq_items_len(k, env, base, (n - 1) as nat);
    }
}

/// The first `n` probed elements of a nested sequence are `n` elements.
pub proof fn lemma_nseq_items_len(fs: Seq<FieldSchemaV>, env: EnvModel, base: Seq<char>, n: nat)
    ensures
        nseq_items(fs, env, base, n).len() == n,
    decreases n,
{
    if n > 0 {
        lemma_nseq_items_len(fs, env, base, (n - 1) as nat);
    }
}

/// *Sequence gap truncation.*  When the indices below `n` all resolve and
/// index `n` does not, binding a plain sequence yields exactly the `n` values
/// probed before the gap — whatever is set at indices beyond the gap — and a
/// miss at index zero leaves the field untouched with nothing found.
pub proof fn lemma_sequence_gap(
    k: ScalarKind,
    pre: Seq<ScalarV>,
    env: EnvModel,
    base: Seq<char>,
    n: nat,
)
    requires
        forall|j: nat| j < n ==> #[trigger] seq_found(k, env, base, j),
        seq_elem_outcome(k, env, base, n) matches BindOutcome::Done { found: false, .. },
    ensures
        seq_bound(k, pre, env, base) == (if n == 0 {
            BindOutcome::Done { value: pre, found: false }
        } else {
            BindOutcome::Done { value: seq_items(k, env, base, n), found: true }
        }),
        seq_items(k, env, base, n).len() == n,
{
    lemma_seq_stop_at(k, env, base, n);
    lemma_seq_items_len(k, env, base, n);
}

/// *Nested-sequence rollback.*  When the indices below `n` all resolve and
/// index `n` does not, binding a nested sequence yields exactly the `n`
/// elements probed before the miss: the element speculatively built for index
/// `n` is rolled back, never left as a trailing empty entry, and a miss at
/// index zero leaves the field untouched with nothing found.
#[verifier::rlimit(100)]
#[verifier::spinoff_prover]
pub proof fn lemma_nested_sequence_rollback(
    fs: Seq<FieldSchemaV>,
    pre: Seq<Seq<ValueV>>,
    env: EnvModel,
    base: Seq<char>,
    n: nat,
)
    requires
        forall|j: nat| j < n ==> #[trigger] nseq_found(fs, env, base, j),
        nseq_elem(fs, env, base, n) matches BindOutcome::Done { found: false, .. },
    ensures
        nseq_bound(fs, pre, env, base) == (if n == 0 {
            BindOutcome::Done { value: pre, found: false }
        } else {
            BindOutcome::Done { value: nseq_items(fs, env, base, n), found: true }
        }),
        nseq_items(fs, env, base, n).len() == n,
{
    reveal(crate::bindspec::nseq_bound);
    lemma_nseq_stop_at(fs, env, base, n);
    lemma_nseq_items_len(fs, env, base, n);
}

/// *Optional clears on absence.*  An optional scalar field whose variable is
/// absent becomes absent, whatever it held before.
pub proof fn lemma_optional_scalar_clears(
    f: FieldSchemaV,
    pre: ValueV,
    env: EnvModel,
    prefix: Seq<char>,
    sk: ScalarKind,
)
    requires
        f.kind == FieldKindV::OptionalScalar(sk),
        !env.contains_key(prefix + f.fragment),
    ensures
        field_bound(f, pre, env, prefix) == (BindOutcome::Done {
            value: ValueV::OptionalScalar(None),
            found: false,
        }),
{
    reveal(field_bound);
}

/// *Optional clears on absence*, nested form: an optional nested record none
/// of whose variables are present becomes absent, whatever it held before.
pub proof fn lemma_optional_nested_clears(
    f: FieldSchemaV,
    pre: ValueV,
    env: EnvModel,
    prefix: Seq<char>,
    fs: Seq<FieldSchemaV>,
)
    requires
        f.kind == FieldKindV::OptionalNested(fs),
        forall|k: Seq<char>| env.dom().contains(k) ==> !(#[trigger] prefix.is_prefix_of(k)),
    ensures
        field_bound(f, pre, env, prefix) == (BindOutcome::Done {
            value: ValueV::OptionalNested(None),
            found: false,
        }),
{
    reveal(field_bound);
    let name = prefix + f.fragment;
    lemma_prefix_of_concat(prefix, f.fragment);
    lemma_absence_no_op_nested(fs, env, prefix, name);
}

/// Whether `v` equals `pre` everywhere after position `kx`.
pub open spec fn untouched_after(v: Seq<ValueV>, pre: Seq<ValueV>, kx: int) -> bool {
    forall|j: int| kx < j < pre.len() ==> v[j] == pre[j]
}

/// *Fail-fast.*  When binding a record fails, there is a failing position:
/// every field after it is left exactly as it was, because the error aborted
/// the traversal before they were consulted.
pub proof fn lemma_fail_fast(
    fs: Seq<FieldSchemaV>,
    pre: Seq<ValueV>,
    env: EnvModel,
    prefix: Seq<char>,
)
    requires
        pre.len() == fs.len(),
        fields_bound(fs, pre, env, prefix) is Failed,
    ensures
        fields_bound(fs, pre, env, prefix).value().len() == fs.len(),
        exists|kx: int|
            0 <= kx < fs.len() && #[trigger] untouched_after(
                fields_bound(fs, pre, env, prefix).value(),
                pre,
                kx,
            ),
    decreases fs, 0nat,
{
    reveal(field_bound);
    reveal_with_fuel(fields_bound, 2);
    let head = if fs[0].ignored {
        BindOutcome::Done { value: pre[0], found: false }
    } else {
        field_bound(fs[0], pre[0], env, prefix)
    };
    let v = fields_bound(fs, pre, env, prefix).value();
    match head {
        BindOutcome::Failed { value, .. } => {
            assert(v == pre.update(0, value));
            assert(untouched_after(v, pre, 0));
        },
        BindOutcome::Done { value, .. } => {
            let tfs = fs.subrange(1, fs.len() as int);
            let tvs = pre.subrange(1, pre.len() as int);
            assert(fields_bound(tfs, tvs, env, prefix) is Failed);
            lemma_fail_fast(tfs, tvs, env, prefix);
            let tv = fields_bound(tfs, tvs, env, prefix).value();
            let kt = choose|kx: int|
                0 <= kx < tfs.len() && #[trigger] untouched_after(tv, tvs, kx);
            assert(v == seq![value] + tv);
            assert(untouched_after(v, pre, kt + 1)) by {
                assert forall|j: int| kt + 1 < j < pre.len() implies v[j] == pre[j] by {
                    assert(v[j] == tv[j - 1]);
                    assert(tvs[j - 1] == pre[j]);
                }
            }
        },
    }
}

/// *Scalar override.*  A scalar field whose variable holds decodable text is
/// overwritten with exactly the decoded value, and the field counts as
/// found — whatever it held before.
pub proof fn lemma_scalar_override(
    f: FieldSchemaV,
    pre: ValueV,
    env: EnvModel,
    prefix: Seq<char>,
    t: Seq<char>,
    v: ScalarV,
)
    requires
        f.kind matches FieldKindV::Scalar(_),
        env.contains_key(prefix + f.fragment),
        env[prefix + f.fragment] == crate::env::EnvData::Text(t),
        scalar_decoded(pre->Scalar_0, t) == Ok::<ScalarV, Seq<char>>(v),
    ensures
        field_bound(f, pre, env, prefix) == (BindOutcome::Done {
            value: ValueV::Scalar(v),
            found: true,
        }),
{
    reveal(field_bound);
}

/// The kind a scalar value belongs to.
pub open spec fn scalar_kind_of(s: ScalarV) -> ScalarKind {
    match s {
        ScalarV::U8(_) => ScalarKind::U8,
        ScalarV::U16(_) => ScalarKind::U16,
        ScalarV::U32(_) => ScalarKind::U32,
        ScalarV::U64(_) => ScalarKind::U64,
        ScalarV::U128(_) => ScalarKind::U128,
        ScalarV::I8(_) => ScalarKind::I8,
        ScalarV::I16(_) => ScalarKind::I16,
        ScalarV::I32(_) => ScalarKind::I32,
        ScalarV::I64(_) => ScalarKind::I64,
        ScalarV::I128(_) => ScalarKind::I128,
        ScalarV::Bool(_) => ScalarKind::Bool,
        ScalarV::Text(_) => ScalarKind::Text,
        ScalarV::PathText(_) => ScalarKind::PathText,
        ScalarV::Encoding(_) => ScalarKind::Encoding,
    }
}

/// Decoding depends only on the scalar's kind, never on its current value.
pub proof fn lemma_scalar_decoded_same_kind(a: ScalarV, b: ScalarV, k: ScalarKind, t: Seq<char>)
    requires
        scalar_conforms(a, k),
        scalar_conforms(b, k),
    ensures
        scalar_decoded(a, t) == scalar_decoded(b, t),
{
}

/// *Idempotence at the leaves.*  Binding a scalar that was already bound from
/// the same unchanged environment yields the same value and the same found
/// flag again.
pub proof fn lemma_scalar_rebind(pre: ScalarV, env: EnvModel, name: Seq<char>)
    requires
        scalar_bound(pre, env, name) is Done,
    ensures
        scalar_bound(scalar_bound(pre, env, name).value(), env, name) == scalar_bound(
            pre,
            env,
            name,
        ),
{
    let v = scalar_bound(pre, env, name).value();
    lemma_scalar_bound_conforms(pre, env, name, scalar_kind_of(pre));
    if env.contains_key(name) {
        match env[name] {
            crate::env::EnvData::Text(t) => {
                lemma_scalar_decoded_same_kind(v, pre, scalar_kind_of(pre), t);
            },
            crate::env::EnvData::Raw(_) => {},
        }
    }
}

} // verus!
