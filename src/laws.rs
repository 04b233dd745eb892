//! What holds of every schema: encoding and decoding agree, sizes are exact,
//! and failures say where they happened.

use vstd::prelude::*;
use crate::codec::lemma_int_round_trip_codec;
use crate::ctx::Ctx;
use crate::engine::{
    base_of, dec_case, dec_data, dec_field, dec_fields, dec_kind, dec_tag, dec_whole, decoding,
    enc_data, enc_field, enc_fields, enc_kind, enc_tag, encoded_len, encoding, eval_id, field_ctx,
    first_case, id_ctx_of, lemma_dec_fields_err_extends, lemma_level_wf, schema_at, shape_ok,
    size_data, size_field, size_fields, size_kind, skipped, top_level, DataView,
};
use crate::error::{field_path, Error, Fault};
use crate::schema::{Case, Field, Schema};
use crate::value::{
    decodable, default_value, lemma_value_round_trip, lemma_value_size, Kind, Val,
};

verus! {

/// A value of kind `k` can be read back under `ctx`: a nested record
/// conforms to its dependency schema; a leaf value is one that its codec can
/// read back.
pub open spec fn kind_conforms(top: Schema, level: nat, k: Kind, ctx: Ctx, v: Val) -> bool
    decreases level, 0nat, 0nat,
{
    match k {
        Kind::Record(i) => match v {
            Val::Record(d) => i < level && conforms_at(top, i as nat, ctx, d),
            _ => false,
        },
        _ => v.fits() && decodable(k, ctx, v),
    }
}

/// A field's value can be read back: both directions agree on the field's
/// context and codec, a skipped field holds the value that decoding gives it,
/// and a present one conforms to its codec under that context.
pub open spec fn field_conforms(
    top: Schema,
    level: nat,
    f: Field,
    base: Ctx,
    caller: Ctx,
    prior: Seq<Val>,
    v: Val,
) -> bool
    decreases level, 1nat, 0nat,
{
    if !f.symmetric() {
        false
    } else if skipped(f.skip_if, prior) {
        v == default_value(f.decoder())
    } else {
        match field_ctx(f.ctx.enc_part(), base, caller, prior) {
            Ok(c) => kind_conforms(top, level, f.encoder(), c, v),
            Err(_) => true,
        }
    }
}

/// Each of the first `n` fields conforms, given the values before it.
pub open spec fn fields_conform(
    top: Schema,
    level: nat,
    fs: Seq<Field>,
    base: Ctx,
    caller: Ctx,
    vals: Seq<Val>,
    n: nat,
) -> bool
    decreases level, 2nat, n,
{
    if n == 0 {
        true
    } else {
        fields_conform(top, level, fs, base, caller, vals, (n - 1) as nat) && field_conforms(
            top,
            level,
            fs[n - 1],
            base,
            caller,
            vals.take(n - 1),
            vals[n - 1],
        )
    }
}

/// `d` conforms to the schema at `level` under the caller's context: it names
/// a case, both directions of the schema agree, every field conforms, and a
/// computed discriminant gives the case's own.
pub open spec fn conforms_at(top: Schema, level: nat, caller: Ctx, d: DataView) -> bool
    decreases level, 3nat, 0nat,
{
    let sc = schema_at(top, level);
    if !shape_ok(sc, d) || !sc.symmetric() {
        false
    } else {
        let case = sc.cases@[d.case as int];
        &&& fields_conform(
            top,
            level,
            case.fields@,
            base_of(sc.ctx_is.enc_part(), caller),
            caller,
            d.fields,
            d.fields.len(),
        )
        &&& (sc.union && sc.id_type is None) ==> (sc.id_expr.dec_part() is Some && eval_id(
            sc.id_expr.dec_part()->0,
            caller,
        ) == Some(case.id))
    }
}

/// `d` conforms to schema `sc` under the caller's context.
pub open spec fn conforms(sc: Schema, caller: Ctx, d: DataView) -> bool {
    conforms_at(sc, top_level(sc), caller, d)
}

proof fn lemma_kind_size(top: Schema, level: nat, k: Kind, ctx: Ctx, v: Val)
    requires
        top.wf(),
        level <= top_level(top),
        k.wf(),
        enc_kind(top, level, k, ctx, v) is Ok,
    ensures
        enc_kind(top, level, k, ctx, v)->Ok_0.len() == size_kind(top, level, k, v),
    decreases level, 0nat, 0nat,
{
    match k {
        Kind::Record(i) => {
            lemma_data_size(top, i as nat, ctx, v->Record_0);
        },
        _ => {
            lemma_value_size(k, ctx, v);
        },
    }
}

proof fn lemma_field_size(
    top: Schema,
    level: nat,
    f: Field,
    base: Ctx,
    caller: Ctx,
    prior: Seq<Val>,
    v: Val,
)
    requires
        top.wf(),
        level <= top_level(top),
        f.kinds_wf(),
        enc_field(top, level, f, base, caller, prior, v) is Ok,
    ensures
        enc_field(top, level, f, base, caller, prior, v)->Ok_0.len() == size_field(
            top,
            level,
            f,
            prior,
            v,
        ),
    decreases level, 1nat, 0nat,
{
    if !skipped(f.skip_if, prior) {
        let c = field_ctx(f.ctx.enc_part(), base, caller, prior)->Ok_0;
        lemma_kind_size(top, level, f.encoder(), c, v);
    }
}

proof fn lemma_fields_size(
    top: Schema,
    level: nat,
    fs: Seq<Field>,
    base: Ctx,
    caller: Ctx,
    vals: Seq<Val>,
    n: nat,
)
    requires
        top.wf(),
        level <= top_level(top),
        n <= fs.len(),
        n <= vals.len(),
        forall|j: int| 0 <= j < fs.len() ==> (#[trigger] fs[j]).kinds_wf(),
        enc_fields(top, level, fs, base, caller, vals, n) is Ok,
    ensures
        enc_fields(top, level, fs, base, caller, vals, n)->Ok_0.len() == size_fields(
            top,
            level,
            fs,
            vals,
            n,
        ),
    decreases level, 2nat, n,
{
    if n > 0 {
        lemma_fields_size(top, level, fs, base, caller, vals, (n - 1) as nat);
        lemma_field_size(top, level, fs[n - 1], base, caller, vals.take(n - 1), vals[n - 1]);
    }
}

proof fn lemma_data_size(top: Schema, level: nat, caller: Ctx, d: DataView)
    requires
        top.wf(),
        level <= top_level(top),
        enc_data(top, level, caller, d) is Ok,
    ensures
        enc_data(top, level, caller, d)->Ok_0.len() == size_data(top, level, d),
    decreases level, 3nat, 0nat,
{
    let sc = schema_at(top, level);
    lemma_level_wf(top, level);
    let case = sc.cases@[d.case as int];
    assert(case.wf(level));
    assert(forall|j: int|
        0 <= j < case.fields@.len() ==> (#[trigger] case.fields@[j]).wf(j as nat, level));
    lemma_fields_size(
        top,
        level,
        case.fields@,
        base_of(sc.ctx_is.enc_part(), caller),
        caller,
        d.fields,
        d.fields.len(),
    );
    if let Some(c) = sc.id_type {
        lemma_int_round_trip_codec(c, id_ctx_of(sc.id_ctx.enc_part()), case.id, seq![]);
    }
}

proof fn lemma_kind_round_trip(top: Schema, level: nat, k: Kind, ctx: Ctx, v: Val, rest: Seq<u8>)
    requires
        top.wf(),
        level <= top_level(top),
        k.wf(),
        kind_conforms(top, level, k, ctx, v),
        enc_kind(top, level, k, ctx, v) is Ok,
    ensures
        enc_kind(top, level, k, ctx, v)->Ok_0.len() == size_kind(top, level, k, v),
        dec_kind(top, level, k, ctx, enc_kind(top, level, k, ctx, v)->Ok_0 + rest) == Ok::<
            (Val, nat),
            Error,
        >((v, size_kind(top, level, k, v))),
    decreases level, 0nat, 0nat,
{
    match k {
        Kind::Record(i) => {
            lemma_data_round_trip(top, i as nat, ctx, v->Record_0, rest);
        },
        _ => {
            lemma_value_round_trip(k, ctx, v, rest);
        },
    }
}

proof fn lemma_field_round_trip(
    top: Schema,
    level: nat,
    f: Field,
    base: Ctx,
    caller: Ctx,
    prior: Seq<Val>,
    v: Val,
    rest: Seq<u8>,
)
    requires
        top.wf(),
        level <= top_level(top),
        f.kinds_wf(),
        field_conforms(top, level, f, base, caller, prior, v),
        enc_field(top, level, f, base, caller, prior, v) is Ok,
    ensures
        enc_field(top, level, f, base, caller, prior, v)->Ok_0.len() == size_field(
            top,
            level,
            f,
            prior,
            v,
        ),
        dec_field(
            top,
            level,
            f,
            base,
            caller,
            prior,
            enc_field(top, level, f, base, caller, prior, v)->Ok_0 + rest,
        ) == Ok::<(Val, nat), Error>((v, size_field(top, level, f, prior, v))),
    decreases level, 1nat, 0nat,
{
    if !skipped(f.skip_if, prior) {
        let c = field_ctx(f.ctx.enc_part(), base, caller, prior)->Ok_0;
        lemma_kind_round_trip(top, level, f.encoder(), c, v, rest);
    }
}

proof fn lemma_fields_round_trip(
    top: Schema,
    level: nat,
    fs: Seq<Field>,
    base: Ctx,
    caller: Ctx,
    vals: Seq<Val>,
    n: nat,
    rest: Seq<u8>,
)
    requires
        top.wf(),
        level <= top_level(top),
        n <= fs.len(),
        n <= vals.len(),
        forall|j: int| 0 <= j < fs.len() ==> (#[trigger] fs[j]).kinds_wf(),
        fields_conform(top, level, fs, base, caller, vals, n),
        enc_fields(top, level, fs, base, caller, vals, n) is Ok,
    ensures
        enc_fields(top, level, fs, base, caller, vals, n)->Ok_0.len() == size_fields(
            top,
            level,
            fs,
            vals,
            n,
        ),
        dec_fields(
            top,
            level,
            fs,
            base,
            caller,
            enc_fields(top, level, fs, base, caller, vals, n)->Ok_0 + rest,
            n,
        ) == Ok::<(Seq<Val>, nat), Error>(
            (vals.take(n as int), size_fields(top, level, fs, vals, n)),
        ),
    decreases level, 2nat, n,
{
    if n == 0 {
        assert(vals.take(0) =~= seq![]);
    } else {
        let m = (n - 1) as nat;
        let e = enc_fields(top, level, fs, base, caller, vals, m)->Ok_0;
        let prior = vals.take(m as int);
        let x = enc_field(top, level, fs[m as int], base, caller, prior, vals[m as int])->Ok_0;
        lemma_fields_round_trip(top, level, fs, base, caller, vals, m, x + rest);
        lemma_field_round_trip(top, level, fs[m as int], base, caller, prior, vals[m as int], rest);
        assert(e + x + rest =~= e + (x + rest));
        assert((e + x + rest).skip(e.len() as int) =~= x + rest);
        assert(prior.push(vals[m as int]) =~= vals.take(n as int));
    }
}

proof fn lemma_first_case_unique(cases: Seq<Case>, i: int, from: nat)
    requires
        0 <= from <= i < cases.len(),
        forall|a: int, b: int|
            0 <= a < b < cases.len() ==> #[trigger] cases[a].id != #[trigger] cases[b].id,
    ensures
        first_case(cases, cases[i].id, from) == Some(i as nat),
    decreases i - from,
{
    if from < i {
        assert(cases[from as int].id != cases[i].id);
        lemma_first_case_unique(cases, i, from + 1);
    }
}

proof fn lemma_first_case_none(cases: Seq<Case>, id: u64, from: nat)
    requires
        forall|a: int| 0 <= a < cases.len() ==> (#[trigger] cases[a]).id != id,
    ensures
        first_case(cases, id, from) is None,
    decreases cases.len() - from,
{
    if from < cases.len() {
        lemma_first_case_none(cases, id, from + 1);
    }
}

proof fn lemma_data_round_trip(top: Schema, level: nat, caller: Ctx, d: DataView, rest: Seq<u8>)
    requires
        top.wf(),
        level <= top_level(top),
        conforms_at(top, level, caller, d),
        enc_data(top, level, caller, d) is Ok,
    ensures
        enc_data(top, level, caller, d)->Ok_0.len() == size_data(top, level, d),
        dec_data(top, level, caller, enc_data(top, level, caller, d)->Ok_0 + rest) == Ok::<
            (DataView, nat),
            Error,
        >((d, size_data(top, level, d))),
    decreases level, 3nat, 0nat,
{
    let sc = schema_at(top, level);
    lemma_level_wf(top, level);
    let case = sc.cases@[d.case as int];
    let fs = case.fields@;
    let base = base_of(sc.ctx_is.enc_part(), caller);
    assert(case.wf(level));
    assert(forall|j: int| 0 <= j < fs.len() ==> (#[trigger] fs[j]).wf(j as nat, level));
    let t = enc_tag(sc, caller, case.id)->Ok_0;
    let b = enc_fields(top, level, fs, base, caller, d.fields, d.fields.len())->Ok_0;
    lemma_fields_round_trip(top, level, fs, base, caller, d.fields, d.fields.len(), rest);
    assert(d.fields.take(d.fields.len() as int) =~= d.fields);
    let s = t + b + rest;
    assert(s =~= t + (b + rest));
    if sc.union {
        match sc.id_type {
            Some(c) => {
                lemma_int_round_trip_codec(c, id_ctx_of(sc.id_ctx.enc_part()), case.id, b + rest);
                lemma_first_case_unique(sc.cases@, d.case as int, 0);
                assert(dec_tag(sc, caller, s) == Ok::<(u64, nat), Error>((case.id, c.width as nat)));
                assert(dec_case(sc, caller, s) == Ok::<(nat, nat), Error>((d.case, c.width as nat)));
            },
            None => {
                lemma_first_case_unique(sc.cases@, d.case as int, 0);
                assert(t =~= seq![]);
                assert(dec_case(sc, caller, s) == Ok::<(nat, nat), Error>((d.case, 0)));
            },
        }
        assert(s.skip(t.len() as int) =~= b + rest);
    } else {
        assert(t =~= seq![]);
        assert(d.case == 0);
        assert(s.skip(0) =~= b + rest);
    }
}

/// Size fidelity: whenever encoding succeeds, the number of bytes it writes
/// is exactly what sizing reports.
pub proof fn lemma_size_fidelity(sc: Schema, caller: Ctx, d: DataView)
    requires
        sc.wf(),
        encoding(sc, caller, d) is Ok,
    ensures
        encoding(sc, caller, d)->Ok_0.len() == encoded_len(sc, d),
{
    lemma_data_size(sc, top_level(sc), caller, d);
}

/// Round trip: a conforming value, once encoded, decodes to itself under the
/// same context, taking exactly the encoded bytes (as many as sizing reports)
/// and leaving whatever follows them untouched.
pub proof fn lemma_round_trip(sc: Schema, caller: Ctx, d: DataView, rest: Seq<u8>)
    requires
        sc.wf(),
        conforms(sc, caller, d),
        encoding(sc, caller, d) is Ok,
    ensures
        encoding(sc, caller, d)->Ok_0.len() == encoded_len(sc, d),
        decoding(sc, caller, encoding(sc, caller, d)->Ok_0 + rest) == Ok::<(DataView, nat), Error>(
            (d, encoded_len(sc, d)),
        ),
{
    lemma_data_round_trip(sc, top_level(sc), caller, d, rest);
}

/// Leftover detection: after a conforming value's bytes, any trailing bytes
/// make whole-buffer decoding fail with their count, while decoding the value
/// alone succeeds and leaves them unread.
pub proof fn lemma_leftover(sc: Schema, caller: Ctx, d: DataView, rest: Seq<u8>)
    requires
        sc.wf(),
        conforms(sc, caller, d),
        encoding(sc, caller, d) is Ok,
        0 < rest.len() <= usize::MAX,
    ensures
        decoding(sc, caller, encoding(sc, caller, d)->Ok_0 + rest) == Ok::<(DataView, nat), Error>(
            (d, encoding(sc, caller, d)->Ok_0.len()),
        ),
        dec_whole(sc, caller, encoding(sc, caller, d)->Ok_0 + rest) == Err::<DataView, Error>(
            Error::RemainingBytes(rest.len() as usize),
        ),
{
    lemma_round_trip(sc, caller, d, rest);
}

/// Tag mismatch: when the discriminant obtained matches no case, decoding
/// fails with an error that carries that discriminant.
pub proof fn lemma_unknown_tag(sc: Schema, caller: Ctx, s: Seq<u8>, t: u64, k: nat)
    requires
        sc.union,
        dec_tag(sc, caller, s) == Ok::<(u64, nat), Error>((t, k)),
        forall|i: int| 0 <= i < sc.cases@.len() ==> (#[trigger] sc.cases@[i]).id != t,
    ensures
        decoding(sc, caller, s) == Err::<(DataView, nat), Error>(Error::Other(Fault::UnknownId(t))),
{
    lemma_first_case_none(sc.cases@, t, 0);
}

/// Skip symmetry: a field whose condition holds writes no bytes whatever its
/// value, sizes to zero, and decodes without reading to its codec's default
/// value, so the value it held is not recovered.
pub proof fn lemma_skip(
    top: Schema,
    level: nat,
    f: Field,
    base: Ctx,
    caller: Ctx,
    prior: Seq<Val>,
    v: Val,
    s: Seq<u8>,
)
    requires
        skipped(f.skip_if, prior),
    ensures
        enc_field(top, level, f, base, caller, prior, v) == Ok::<Seq<u8>, Error>(seq![]),
        size_field(top, level, f, prior, v) == 0,
        dec_field(top, level, f, base, caller, prior, s) == Ok::<(Val, nat), Error>(
            (default_value(f.decoder()), 0),
        ),
{
}

/// Field path: when the fields before field `j` of a record decode and field
/// `j` does not, decoding the record fails with an error whose chain starts at
/// field `j`'s name.
pub proof fn lemma_field_path(sc: Schema, caller: Ctx, s: Seq<u8>, j: nat, prior: Seq<Val>, k: nat)
    requires
        !sc.union,
        sc.cases@.len() == 1,
        j < sc.cases@[0].fields@.len(),
        dec_fields(
            sc,
            top_level(sc),
            sc.cases@[0].fields@,
            base_of(sc.ctx_is.dec_part(), caller),
            caller,
            s,
            j,
        ) == Ok::<(Seq<Val>, nat), Error>((prior, k)),
        dec_field(
            sc,
            top_level(sc),
            sc.cases@[0].fields@[j as int],
            base_of(sc.ctx_is.dec_part(), caller),
            caller,
            prior,
            s.skip(k as int),
        ) is Err,
    ensures
        decoding(sc, caller, s) is Err,
        field_path(decoding(sc, caller, s)->Err_0).len() > 0,
        field_path(decoding(sc, caller, s)->Err_0)[0] == sc.cases@[0].fields@[j as int].label(),
{
    let l = top_level(sc);
    let fs = sc.cases@[0].fields@;
    let base = base_of(sc.ctx_is.dec_part(), caller);
    let e = dec_field(sc, l, fs[j as int], base, caller, prior, s.skip(k as int))->Err_0;
    assert(s.skip(0) =~= s);
    assert(dec_fields(sc, l, fs, base, caller, s, j + 1) == Err::<(Seq<Val>, nat), Error>(e));
    lemma_dec_fields_err_extends(sc, l, fs, base, caller, s, j + 1, fs.len(), e);
    assert(e matches Error::FieldError(name, _) && name == fs[j as int].label());
}

} // verus!
