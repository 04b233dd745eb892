//! The engine: encodes, decodes and sizes values of any schema by walking it.

use vstd::prelude::*;
use crate::codec::{
    add_clip, clip, dec_int, decode_int, enc_int, encode_int, missing_context,
};
use crate::ctx::Ctx;
use crate::error::{field_error, tag_error, Error, Fault};
use crate::schema::{Case, CtxExpr, Field, IdExpr, Schema, SkipIf};
use crate::value::{
    dec_value, decode_value, default_of, default_value, enc_value, encode_value, shape_mismatch,
    size_value, value_size, views, Kind, Val, Value,
};

verus! {

/// A value of a schema: which case it is (0 for a record) and its fields'
/// values in wire order.
#[derive(Debug, PartialEq, Eq)]
pub struct Data {
    pub case: usize,
    pub fields: Vec<Value>,
}

/// What a schema's value is, mathematically.
pub struct DataView {
    pub case: nat,
    pub fields: Seq<Val>,
}

impl Data {
    /// The value of a record.
    pub fn record(fields: Vec<Value>) -> (r: Data)
        ensures
            r.case == 0,
            r.fields == fields,
    {
        Data { case: 0, fields }
    }

    /// The value of case `case` of a union.
    pub fn case(case: usize, fields: Vec<Value>) -> (r: Data)
        ensures
            r.case == case,
            r.fields == fields,
    {
        Data { case, fields }
    }
}

impl View for Data {
    type V = DataView;

    open spec fn view(&self) -> DataView {
        DataView { case: self.case as nat, fields: views(self.fields@) }
    }
}

/// The empty context.
pub open spec fn unit_ctx() -> Ctx {
    Ctx { endian: None, len: None, id: None }
}

/// The context that a direction's container setting `a` gives, the caller's by default.
pub open spec fn base_of(a: Option<Ctx>, caller: Ctx) -> Ctx {
    match a {
        Some(c) => c,
        None => caller,
    }
}

/// The context that expression `e` gives, with the values of the earlier
/// fields at hand.
pub open spec fn eval_ctx(e: CtxExpr, caller: Ctx, prior: Seq<Val>) -> Result<Ctx, Error> {
    match e {
        CtxExpr::Caller => Ok(caller),
        CtxExpr::Fixed(c) => Ok(c),
        CtxExpr::LenOf { field, endian } => if field < prior.len() {
            match prior[field as int] {
                Val::Int(x) => if x <= usize::MAX {
                    Ok(Ctx { endian, len: Some(x as usize), id: None })
                } else {
                    Err(Error::Other(Fault::Overflow))
                },
                _ => Err(shape_mismatch()),
            }
        } else {
            Err(missing_context())
        },
        CtxExpr::IdOf { field } => if field < prior.len() {
            match prior[field as int] {
                Val::Int(x) => Ok(Ctx { endian: None, len: None, id: Some(x) }),
                _ => Err(shape_mismatch()),
            }
        } else {
            Err(missing_context())
        },
    }
}

/// The context of a field in one direction: its override, else the container's.
pub open spec fn field_ctx(o: Option<CtxExpr>, base: Ctx, caller: Ctx, prior: Seq<Val>) -> Result<Ctx, Error> {
    match o {
        None => Ok(base),
        Some(e) => eval_ctx(e, caller, prior),
    }
}

/// Whether a field with condition `s` is absent, given the earlier fields' values.
pub open spec fn skipped(s: Option<SkipIf>, prior: Seq<Val>) -> bool {
    match s {
        None => false,
        Some(p) => p.field < prior.len() && prior[p.field as int] == Val::Int(p.value),
    }
}

/// The schema at `level`: a dependency below the outermost schema's level,
/// the outermost schema itself at its level.
pub open spec fn schema_at(top: Schema, level: nat) -> Schema {
    if level < top.deps@.len() {
        top.deps@[level as int]
    } else {
        top
    }
}

/// The level of the outermost schema.
pub open spec fn top_level(top: Schema) -> nat {
    top.deps@.len()
}

/// The bytes that write `v` as kind `k` in a schema at `level`: a nested
/// record by its dependency schema, anything else by its leaf codec.
pub open spec fn enc_kind(top: Schema, level: nat, k: Kind, ctx: Ctx, v: Val) -> Result<Seq<u8>, Error>
    decreases level, 0nat, 0nat,
{
    match k {
        Kind::Record(i) => if i < level {
            match v {
                Val::Record(d) => enc_data(top, i as nat, ctx, d),
                _ => Err(shape_mismatch()),
            }
        } else {
            Err(shape_mismatch())
        },
        _ => enc_value(k, ctx, v),
    }
}

/// Reading a value of kind `k` in a schema at `level` from the front of `s`.
pub open spec fn dec_kind(top: Schema, level: nat, k: Kind, ctx: Ctx, s: Seq<u8>) -> Result<(Val, nat), Error>
    decreases level, 0nat, 0nat,
{
    match k {
        Kind::Record(i) => if i < level {
            match dec_data(top, i as nat, ctx, s) {
                Ok((d, n)) => Ok((Val::Record(d), n)),
                Err(e) => Err(e),
            }
        } else {
            Err(shape_mismatch())
        },
        _ => dec_value(k, ctx, s),
    }
}

/// The number of bytes that writing `v` as kind `k` takes in a schema at `level`.
pub open spec fn size_kind(top: Schema, level: nat, k: Kind, v: Val) -> nat
    decreases level, 0nat, 0nat,
{
    match k {
        Kind::Record(i) => if i < level {
            match v {
                Val::Record(d) => size_data(top, i as nat, d),
                _ => 0,
            }
        } else {
            0
        },
        _ => size_value(k, v),
    }
}

/// The bytes of field `f` holding `v`, after fields holding `prior`.
pub open spec fn enc_field(top: Schema, level: nat, f: Field, base: Ctx, caller: Ctx, prior: Seq<Val>, v: Val) -> Result<Seq<u8>, Error>
    decreases level, 1nat, 0nat,
{
    if skipped(f.skip_if, prior) {
        Ok(seq![])
    } else {
        match field_ctx(f.ctx.enc_part(), base, caller, prior) {
            Err(e) => Err(field_error(f.label(), e)),
            Ok(c) => match enc_kind(top, level, f.encoder(), c, v) {
                Err(e) => Err(field_error(f.label(), e)),
                Ok(b) => Ok(b),
            },
        }
    }
}

/// Reading field `f` from the front of `s`, after fields holding `prior`.
pub open spec fn dec_field(top: Schema, level: nat, f: Field, base: Ctx, caller: Ctx, prior: Seq<Val>, s: Seq<u8>) -> Result<(Val, nat), Error>
    decreases level, 1nat, 0nat,
{
    if skipped(f.skip_if, prior) {
        Ok((default_value(f.decoder()), 0))
    } else {
        match field_ctx(f.ctx.dec_part(), base, caller, prior) {
            Err(e) => Err(field_error(f.label(), e)),
            Ok(c) => match dec_kind(top, level, f.decoder(), c, s) {
                Err(e) => Err(field_error(f.label(), e)),
                Ok(r) => Ok(r),
            },
        }
    }
}

/// The number of bytes of field `f` holding `v`, after fields holding `prior`.
pub open spec fn size_field(top: Schema, level: nat, f: Field, prior: Seq<Val>, v: Val) -> nat
    decreases level, 1nat, 0nat,
{
    if skipped(f.skip_if, prior) {
        0
    } else {
        size_kind(top, level, f.encoder(), v)
    }
}

/// The bytes of the first `n` fields `fs` holding `vals`.
pub open spec fn enc_fields(top: Schema, level: nat, fs: Seq<Field>, base: Ctx, caller: Ctx, vals: Seq<Val>, n: nat) -> Result<Seq<u8>, Error>
    decreases level, 2nat, n,
{
    if n == 0 {
        Ok(seq![])
    } else {
        match enc_fields(top, level, fs, base, caller, vals, (n - 1) as nat) {
            Err(e) => Err(e),
            Ok(b) => match enc_field(top, level, fs[n - 1], base, caller, vals.take(n - 1), vals[n - 1]) {
                Err(e) => Err(e),
                Ok(x) => Ok(b + x),
            },
        }
    }
}

/// Reading the first `n` fields `fs` from the front of `s`.
pub open spec fn dec_fields(top: Schema, level: nat, fs: Seq<Field>, base: Ctx, caller: Ctx, s: Seq<u8>, n: nat) -> Result<(Seq<Val>, nat), Error>
    decreases level, 2nat, n,
{
    if n == 0 {
        Ok((seq![], 0))
    } else {
        match dec_fields(top, level, fs, base, caller, s, (n - 1) as nat) {
            Err(e) => Err(e),
            Ok((vals, k)) => match dec_field(top, level, fs[n - 1], base, caller, vals, s.skip(k as int)) {
                Err(e) => Err(e),
                Ok((v, m)) => Ok((vals.push(v), k + m)),
            },
        }
    }
}

/// The number of bytes of the first `n` fields `fs` holding `vals`.
pub open spec fn size_fields(top: Schema, level: nat, fs: Seq<Field>, vals: Seq<Val>, n: nat) -> nat
    decreases level, 2nat, n,
{
    if n == 0 {
        0
    } else {
        size_fields(top, level, fs, vals, (n - 1) as nat) + size_field(top, level, fs[n - 1], vals.take(n - 1), vals[n - 1])
    }
}

/// The discriminant that expression `e` gives under the caller's context.
pub open spec fn eval_id(e: IdExpr, caller: Ctx) -> Option<u64> {
    match e {
        IdExpr::FromCtx => caller.id,
        IdExpr::Const(k) => Some(k),
    }
}

/// The context of a stored discriminant in one direction.
pub open spec fn id_ctx_of(a: Option<Ctx>) -> Ctx {
    match a {
        Some(c) => c,
        None => unit_ctx(),
    }
}

/// The bytes that announce the case with discriminant `id`: the computed
/// discriminant, if declared, must agree with it; a stored discriminant is
/// then written.
pub open spec fn enc_tag(sc: Schema, caller: Ctx, id: u64) -> Result<Seq<u8>, Error> {
    let checked: Result<(), Error> = match sc.id_expr.enc_part() {
        None => Ok(()),
        Some(x) => match eval_id(x, caller) {
            None => Err(tag_error(missing_context())),
            Some(t) => if t == id {
                Ok(())
            } else {
                Err(tag_error(Error::Other(Fault::IdMismatch(t))))
            },
        },
    };
    match checked {
        Err(e) => Err(e),
        Ok(_) => match sc.id_type {
            None => Ok(seq![]),
            Some(c) => match enc_int(c, id_ctx_of(sc.id_ctx.enc_part()), id) {
                Err(e) => Err(tag_error(e)),
                Ok(b) => Ok(b),
            },
        },
    }
}

/// Obtaining a union's discriminant: read from the front of `s` when stored,
/// else computed from the caller's context.
pub open spec fn dec_tag(sc: Schema, caller: Ctx, s: Seq<u8>) -> Result<(u64, nat), Error> {
    match sc.id_type {
        Some(c) => match dec_int(c, id_ctx_of(sc.id_ctx.dec_part()), s) {
            Err(e) => Err(tag_error(e)),
            Ok(r) => Ok(r),
        },
        None => match sc.id_expr.dec_part() {
            None => Err(tag_error(missing_context())),
            Some(x) => match eval_id(x, caller) {
                None => Err(tag_error(missing_context())),
                Some(t) => Ok((t, 0)),
            },
        },
    }
}

/// The first case at or after `from` whose discriminant is `id`.
pub open spec fn first_case(cases: Seq<Case>, id: u64, from: nat) -> Option<nat>
    decreases cases.len() - from,
{
    if from >= cases.len() {
        None
    } else if cases[from as int].id == id {
        Some(from)
    } else {
        first_case(cases, id, from + 1)
    }
}

/// `d` names a case of `sc` and has one value per field of it.
pub open spec fn shape_ok(sc: Schema, d: DataView) -> bool {
    d.case < sc.cases@.len() && d.fields.len() == sc.cases@[d.case as int].fields@.len()
}

/// The bytes that write `d` by the schema at `level` under the caller's context.
pub open spec fn enc_data(top: Schema, level: nat, caller: Ctx, d: DataView) -> Result<Seq<u8>, Error>
    decreases level, 3nat, 0nat,
{
    let sc = schema_at(top, level);
    if !shape_ok(sc, d) {
        Err(shape_mismatch())
    } else {
        let case = sc.cases@[d.case as int];
        match enc_tag(sc, caller, case.id) {
            Err(e) => Err(e),
            Ok(t) => match enc_fields(
                top,
                level,
                case.fields@,
                base_of(sc.ctx_is.enc_part(), caller),
                caller,
                d.fields,
                d.fields.len(),
            ) {
                Err(e) => Err(e),
                Ok(b) => Ok(t + b),
            },
        }
    }
}

/// Which case to read, and the bytes that announcing it took.
pub open spec fn dec_case(sc: Schema, caller: Ctx, s: Seq<u8>) -> Result<(nat, nat), Error> {
    if !sc.union {
        Ok((0, 0))
    } else {
        match dec_tag(sc, caller, s) {
            Err(e) => Err(e),
            Ok((t, k)) => match first_case(sc.cases@, t, 0) {
                None => Err(Error::Other(Fault::UnknownId(t))),
                Some(i) => Ok((i, k)),
            },
        }
    }
}

/// Reading a value of the schema at `level` from the front of `s`: the value
/// and the number of bytes taken.
pub open spec fn dec_data(top: Schema, level: nat, caller: Ctx, s: Seq<u8>) -> Result<(DataView, nat), Error>
    decreases level, 3nat, 0nat,
{
    let sc = schema_at(top, level);
    match dec_case(sc, caller, s) {
        Err(e) => Err(e),
        Ok((i, k)) => {
            let fs = sc.cases@[i as int].fields@;
            match dec_fields(
                top,
                level,
                fs,
                base_of(sc.ctx_is.dec_part(), caller),
                caller,
                s.skip(k as int),
                fs.len(),
            ) {
                Err(e) => Err(e),
                Ok((vals, m)) => Ok((DataView { case: i, fields: vals }, k + m)),
            }
        },
    }
}

/// Bytes that a stored discriminant takes.
pub open spec fn tag_size(sc: Schema) -> nat {
    match sc.id_type {
        Some(c) => c.width as nat,
        None => 0,
    }
}

/// The number of bytes that writing `d` by the schema at `level` takes.
pub open spec fn size_data(top: Schema, level: nat, d: DataView) -> nat
    decreases level, 3nat, 0nat,
{
    let sc = schema_at(top, level);
    if !shape_ok(sc, d) {
        0
    } else {
        tag_size(sc) + size_fields(
            top,
            level,
            sc.cases@[d.case as int].fields@,
            d.fields,
            d.fields.len(),
        )
    }
}

/// The bytes that write `d` by schema `sc` under the caller's context.
pub open spec fn encoding(sc: Schema, caller: Ctx, d: DataView) -> Result<Seq<u8>, Error> {
    enc_data(sc, top_level(sc), caller, d)
}

/// Reading a value of schema `sc` from the front of `s`.
pub open spec fn decoding(sc: Schema, caller: Ctx, s: Seq<u8>) -> Result<(DataView, nat), Error> {
    dec_data(sc, top_level(sc), caller, s)
}

/// The number of bytes that writing `d` by schema `sc` takes.
pub open spec fn encoded_len(sc: Schema, d: DataView) -> nat {
    size_data(sc, top_level(sc), d)
}

/// Decoding the whole of `s`: a complete value that leaves no byte over.
pub open spec fn dec_whole(sc: Schema, caller: Ctx, s: Seq<u8>) -> Result<DataView, Error> {
    match decoding(sc, caller, s) {
        Err(e) => Err(e),
        Ok((d, n)) => if n == s.len() {
            Ok(d)
        } else {
            Err(Error::RemainingBytes((s.len() - n) as usize))
        },
    }
}

} // verus!

verus! {

pub proof fn lemma_fields_err_extends(
    top: Schema,
    level: nat,
    fs: Seq<Field>,
    base: Ctx,
    caller: Ctx,
    vals: Seq<Val>,
    i: nat,
    n: nat,
    e: Error,
)
    requires
        i <= n,
        enc_fields(top, level, fs, base, caller, vals, i) == Err::<Seq<u8>, Error>(e),
    ensures
        enc_fields(top, level, fs, base, caller, vals, n) == Err::<Seq<u8>, Error>(e),
    decreases n - i,
{
    if i < n {
        lemma_fields_err_extends(top, level, fs, base, caller, vals, i + 1, n, e);
    }
}

pub proof fn lemma_dec_fields_err_extends(
    top: Schema,
    level: nat,
    fs: Seq<Field>,
    base: Ctx,
    caller: Ctx,
    s: Seq<u8>,
    i: nat,
    n: nat,
    e: Error,
)
    requires
        i <= n,
        dec_fields(top, level, fs, base, caller, s, i) == Err::<(Seq<Val>, nat), Error>(e),
    ensures
        dec_fields(top, level, fs, base, caller, s, n) == Err::<(Seq<Val>, nat), Error>(e),
    decreases n - i,
{
    if i < n {
        lemma_dec_fields_err_extends(top, level, fs, base, caller, s, i + 1, n, e);
    }
}

/// Each level up to the outermost one holds a schema that is well formed there.
pub proof fn lemma_level_wf(top: Schema, level: nat)
    requires
        top.wf(),
        level <= top_level(top),
    ensures
        schema_at(top, level).wf_at(level),
{
    if level < top.deps@.len() {
        assert(top.deps@[level as int].wf_at(level));
    }
}

proof fn lemma_case_fields_wf(sc: Schema, level: nat, i: int)
    requires
        sc.wf_at(level),
        0 <= i < sc.cases@.len(),
    ensures
        forall|j: int|
            0 <= j < sc.cases@[i].fields@.len() ==> (#[trigger] sc.cases@[i].fields@[j]).wf(
                j as nat,
                level,
            ),
{
    assert(sc.cases@[i].wf(level));
}

fn label_of(f: &Field) -> (r: &'static str)
    ensures
        r == f.label(),
{
    match f.name {
        Some(n) => n,
        None => "_",
    }
}

/// The codec that writes field `f`.
pub fn encoder_of(f: &Field) -> (r: Kind)
    ensures
        r == f.encoder(),
{
    match (f.encode_with, f.with, f.via) {
        (Some(k), _, _) => k,
        (None, Some(k), _) => k,
        (None, None, Some(k)) => k,
        (None, None, None) => f.ty,
    }
}

/// The codec that reads field `f`.
pub fn decoder_of(f: &Field) -> (r: Kind)
    ensures
        r == f.decoder(),
{
    match (f.decode_with, f.with, f.via) {
        (Some(k), _, _) => k,
        (None, Some(k), _) => k,
        (None, None, Some(k)) => k,
        (None, None, None) => f.ty,
    }
}

fn eval_ctx_exec(e: CtxExpr, caller: Ctx, vals: &Vec<Value>, i: usize) -> (r: Result<Ctx, Error>)
    requires
        i <= vals@.len(),
    ensures
        r == eval_ctx(e, caller, views(vals@).take(i as int)),
{
    match e {
        CtxExpr::Caller => Ok(caller),
        CtxExpr::Fixed(c) => Ok(c),
        CtxExpr::LenOf { field, endian } => {
            if field < i {
                assert(views(vals@).take(i as int)[field as int] == vals@[field as int]@);
                match &vals[field] {
                    Value::Int(x) => {
                        if *x as usize as u64 == *x {
                            Ok(Ctx { endian, len: Some(*x as usize), id: None })
                        } else {
                            Err(Error::Other(Fault::Overflow))
                        }
                    },
                    _ => Err(Error::Other(Fault::ShapeMismatch)),
                }
            } else {
                Err(Error::Other(Fault::MissingContext))
            }
        },
        CtxExpr::IdOf { field } => {
            if field < i {
                assert(views(vals@).take(i as int)[field as int] == vals@[field as int]@);
                match &vals[field] {
                    Value::Int(x) => Ok(Ctx { endian: None, len: None, id: Some(*x) }),
                    _ => Err(Error::Other(Fault::ShapeMismatch)),
                }
            } else {
                Err(Error::Other(Fault::MissingContext))
            }
        },
    }
}

fn is_skipped(s: Option<SkipIf>, vals: &Vec<Value>, i: usize) -> (r: bool)
    requires
        i <= vals@.len(),
    ensures
        r == skipped(s, views(vals@).take(i as int)),
{
    match s {
        None => false,
        Some(p) => {
            if p.field < i {
                assert(views(vals@).take(i as int)[p.field as int] == vals@[p.field as int]@);
                match &vals[p.field] {
                    Value::Int(x) => *x == p.value,
                    _ => false,
                }
            } else {
                false
            }
        },
    }
}

/// The schema at `level` of the outermost schema `top`.
fn schema_at_exec(top: &Schema, level: usize) -> (r: &Schema)
    ensures
        *r == schema_at(*top, level as nat),
{
    if level < top.deps.len() {
        &top.deps[level]
    } else {
        top
    }
}

/// Writes `v` as kind `k` in the schema at `level`.
fn encode_kind(top: &Schema, level: usize, k: Kind, ctx: Ctx, v: &Value, out: &mut Vec<u8>) -> (r: Result<(), Error>)
    requires
        top.wf(),
        level <= top_level(*top),
        k.wf(),
    ensures
        match enc_kind(*top, level as nat, k, ctx, v@) {
            Ok(b) => r is Ok && final(out)@ == old(out)@ + b,
            Err(e) => r == Err::<(), Error>(e),
        },
    decreases level, 0nat, 0nat,
{
    match k {
        Kind::Record(i) => {
            if i < level {
                match v {
                    Value::Record(d) => encode_data(top, i, ctx, d, out),
                    _ => Err(Error::Other(Fault::ShapeMismatch)),
                }
            } else {
                Err(Error::Other(Fault::ShapeMismatch))
            }
        },
        _ => encode_value(k, ctx, v, out),
    }
}

/// Reads a value of kind `k` in the schema at `level` at `pos`.
fn decode_kind(top: &Schema, level: usize, k: Kind, ctx: Ctx, buf: &[u8], pos: usize) -> (r: Result<(Value, usize), Error>)
    requires
        top.wf(),
        level <= top_level(*top),
        k.wf(),
        pos <= buf@.len(),
    ensures
        match dec_kind(*top, level as nat, k, ctx, buf@.skip(pos as int)) {
            Ok((v, n)) => r matches Ok((x, q)) && x@ == v && q == pos + n,
            Err(e) => r == Err::<(Value, usize), Error>(e),
        },
        r matches Ok((_, q)) ==> pos <= q <= buf@.len(),
    decreases level, 0nat, 0nat,
{
    match k {
        Kind::Record(i) => {
            if i < level {
                match decode_data(top, i, ctx, buf, pos) {
                    Ok((d, q)) => Ok((Value::Record(d), q)),
                    Err(e) => Err(e),
                }
            } else {
                Err(Error::Other(Fault::ShapeMismatch))
            }
        },
        _ => decode_value(k, ctx, buf, pos),
    }
}

/// The number of bytes of `v` as kind `k` in the schema at `level`, saturating.
fn kind_size(top: &Schema, level: usize, k: Kind, ctx: Ctx, v: &Value) -> (r: usize)
    requires
        top.wf(),
        level <= top_level(*top),
        k.wf(),
    ensures
        r == clip(size_kind(*top, level as nat, k, v@)),
    decreases level, 0nat, 0nat,
{
    match k {
        Kind::Record(i) => {
            if i < level {
                match v {
                    Value::Record(d) => data_size(top, i, ctx, d),
                    _ => 0,
                }
            } else {
                0
            }
        },
        _ => value_size(k, ctx, v),
    }
}

/// Writes field `f` holding `vals[i]`, after the fields holding `vals[..i]`.
fn encode_field(
    top: &Schema,
    level: usize,
    f: &Field,
    base: Ctx,
    caller: Ctx,
    vals: &Vec<Value>,
    i: usize,
    out: &mut Vec<u8>,
) -> (r: Result<(), Error>)
    requires
        top.wf(),
        level <= top_level(*top),
        i < vals@.len(),
        f.kinds_wf(),
    ensures
        match enc_field(*top, level as nat, *f, base, caller, views(vals@).take(i as int), vals@[i as int]@) {
            Ok(b) => r is Ok && final(out)@ == old(out)@ + b,
            Err(e) => r == Err::<(), Error>(e),
        },
    decreases level, 1nat, 0nat,
{
    if is_skipped(f.skip_if, vals, i) {
        assert(out@ =~= old(out)@ + Seq::<u8>::empty());
        return Ok(());
    }
    let c = match f.ctx.encode() {
        None => Ok(base),
        Some(e) => eval_ctx_exec(*e, caller, vals, i),
    };
    match c {
        Err(e) => Err(Error::field(label_of(f), e)),
        Ok(c) => match encode_kind(top, level, encoder_of(f), c, &vals[i], out) {
            Err(e) => Err(Error::field(label_of(f), e)),
            Ok(()) => Ok(()),
        },
    }
}

/// Reads field `f` at `pos`, after the fields decoded into `got`.
fn decode_field(
    top: &Schema,
    level: usize,
    f: &Field,
    base: Ctx,
    caller: Ctx,
    got: &Vec<Value>,
    buf: &[u8],
    pos: usize,
) -> (r: Result<(Value, usize), Error>)
    requires
        top.wf(),
        level <= top_level(*top),
        f.kinds_wf(),
        pos <= buf@.len(),
    ensures
        match dec_field(*top, level as nat, *f, base, caller, views(got@), buf@.skip(pos as int)) {
            Ok((v, n)) => r matches Ok((x, q)) && x@ == v && q == pos + n,
            Err(e) => r == Err::<(Value, usize), Error>(e),
        },
        r matches Ok((_, q)) ==> pos <= q <= buf@.len(),
    decreases level, 1nat, 0nat,
{
    assert(views(got@).take(got@.len() as int) =~= views(got@));
    if is_skipped(f.skip_if, got, got.len()) {
        return Ok((default_of(decoder_of(f)), pos));
    }
    let c = match f.ctx.decode() {
        None => Ok(base),
        Some(e) => eval_ctx_exec(*e, caller, got, got.len()),
    };
    match c {
        Err(e) => Err(Error::field(label_of(f), e)),
        Ok(c) => match decode_kind(top, level, decoder_of(f), c, buf, pos) {
            Err(e) => Err(Error::field(label_of(f), e)),
            Ok(r) => Ok(r),
        },
    }
}

/// The number of bytes of field `f` holding `vals[i]`, saturating.
fn field_size(top: &Schema, level: usize, f: &Field, ctx: Ctx, vals: &Vec<Value>, i: usize) -> (r: usize)
    requires
        top.wf(),
        level <= top_level(*top),
        i < vals@.len(),
        f.kinds_wf(),
    ensures
        r == clip(size_field(*top, level as nat, *f, views(vals@).take(i as int), vals@[i as int]@)),
    decreases level, 1nat, 0nat,
{
    if is_skipped(f.skip_if, vals, i) {
        0
    } else {
        kind_size(top, level, encoder_of(f), ctx, &vals[i])
    }
}

/// Writes fields `fs` holding `vals`, in order.
fn encode_fields(
    top: &Schema,
    level: usize,
    fs: &Vec<Field>,
    base: Ctx,
    caller: Ctx,
    vals: &Vec<Value>,
    out: &mut Vec<u8>,
) -> (r: Result<(), Error>)
    requires
        top.wf(),
        level <= top_level(*top),
        vals@.len() == fs@.len(),
        forall|j: int| 0 <= j < fs@.len() ==> (#[trigger] fs@[j]).kinds_wf(),
    ensures
        match enc_fields(*top, level as nat, fs@, base, caller, views(vals@), fs@.len()) {
            Ok(b) => r is Ok && final(out)@ == old(out)@ + b,
            Err(e) => r == Err::<(), Error>(e),
        },
    decreases level, 2nat, 0nat,
{
    let ghost vs = views(vals@);
    let ghost t = *top;
    let mut i: usize = 0;
    while i < fs.len()
        invariant
            t == *top,
            top.wf(),
            level <= top_level(*top),
            i <= fs@.len(),
            vals@.len() == fs@.len(),
            vs == views(vals@),
            forall|j: int| 0 <= j < fs@.len() ==> (#[trigger] fs@[j]).kinds_wf(),
            enc_fields(t, level as nat, fs@, base, caller, vs, i as nat) is Ok,
            out@ == old(out)@ + enc_fields(t, level as nat, fs@, base, caller, vs, i as nat)->Ok_0,
        decreases fs@.len() - i,
    {
        assert(vs.take(i as int) =~= views(vals@).take(i as int));
        assert(vs[i as int] == vals@[i as int]@);
        match encode_field(top, level, &fs[i], base, caller, vals, i, out) {
            Err(e) => {
                proof {
                    lemma_fields_err_extends(t, level as nat, fs@, base, caller, vs, (i + 1) as nat, fs@.len(), e);
                }
                return Err(e);
            },
            Ok(()) => {},
        }
        i = i + 1;
        assert(out@ =~= old(out)@ + enc_fields(t, level as nat, fs@, base, caller, vs, i as nat)->Ok_0);
    }
    Ok(())
}

/// Reads fields `fs` at `pos`, in order.
fn decode_fields(
    top: &Schema,
    level: usize,
    fs: &Vec<Field>,
    base: Ctx,
    caller: Ctx,
    buf: &[u8],
    pos: usize,
) -> (r: Result<(Vec<Value>, usize), Error>)
    requires
        top.wf(),
        level <= top_level(*top),
        pos <= buf@.len(),
        forall|j: int| 0 <= j < fs@.len() ==> (#[trigger] fs@[j]).kinds_wf(),
    ensures
        match dec_fields(*top, level as nat, fs@, base, caller, buf@.skip(pos as int), fs@.len()) {
            Ok((vals, k)) => r matches Ok((v, q)) && views(v@) == vals && q == pos + k,
            Err(e) => r == Err::<(Vec<Value>, usize), Error>(e),
        },
        r matches Ok((_, q)) ==> pos <= q <= buf@.len(),
    decreases level, 2nat, 0nat,
{
    let ghost s = buf@.skip(pos as int);
    let ghost t = *top;
    let mut got: Vec<Value> = Vec::new();
    let mut q: usize = pos;
    let mut i: usize = 0;
    assert(views(got@) =~= seq![]);
    while i < fs.len()
        invariant
            t == *top,
            top.wf(),
            level <= top_level(*top),
            i <= fs@.len(),
            pos <= q <= buf@.len(),
            s == buf@.skip(pos as int),
            forall|j: int| 0 <= j < fs@.len() ==> (#[trigger] fs@[j]).kinds_wf(),
            dec_fields(t, level as nat, fs@, base, caller, s, i as nat) == Ok::<(Seq<Val>, nat), Error>(
                (views(got@), (q - pos) as nat),
            ),
        decreases fs@.len() - i,
    {
        assert(s.skip(q - pos) =~= buf@.skip(q as int));
        let res = decode_field(top, level, &fs[i], base, caller, &got, buf, q);
        match res {
            Err(e) => {
                proof {
                    lemma_dec_fields_err_extends(t, level as nat, fs@, base, caller, s, (i + 1) as nat, fs@.len(), e);
                }
                return Err(e);
            },
            Ok((x, q2)) => {
                let ghost before = got@;
                got.push(x);
                proof {
                    assert(views(got@) =~= views(before).push(x@));
                    assert(dec_field(t, level as nat, fs@[i as int], base, caller, views(before), s.skip(q - pos))
                        == Ok::<(Val, nat), Error>((x@, (q2 - q) as nat)));
                }
                q = q2;
            },
        }
        i = i + 1;
    }
    Ok((got, q))
}

/// The number of bytes of fields `fs` holding `vals`, saturating.
fn fields_size(top: &Schema, level: usize, fs: &Vec<Field>, ctx: Ctx, vals: &Vec<Value>) -> (r: usize)
    requires
        top.wf(),
        level <= top_level(*top),
        vals@.len() == fs@.len(),
        forall|j: int| 0 <= j < fs@.len() ==> (#[trigger] fs@[j]).kinds_wf(),
    ensures
        r == clip(size_fields(*top, level as nat, fs@, views(vals@), fs@.len())),
    decreases level, 2nat, 0nat,
{
    let ghost vs = views(vals@);
    let ghost t = *top;
    let mut total: usize = 0;
    let mut i: usize = 0;
    while i < fs.len()
        invariant
            t == *top,
            top.wf(),
            level <= top_level(*top),
            i <= fs@.len(),
            vals@.len() == fs@.len(),
            vs == views(vals@),
            forall|j: int| 0 <= j < fs@.len() ==> (#[trigger] fs@[j]).kinds_wf(),
            total == clip(size_fields(t, level as nat, fs@, vs, i as nat)),
        decreases fs@.len() - i,
    {
        assert(vs.take(i as int) =~= views(vals@).take(i as int));
        assert(vs[i as int] == vals@[i as int]@);
        let x = field_size(top, level, &fs[i], ctx, vals, i);
        proof {
            crate::codec::lemma_clip_add(
                size_fields(t, level as nat, fs@, vs, i as nat),
                size_field(t, level as nat, fs@[i as int], vs.take(i as int), vs[i as int]),
            );
        }
        total = add_clip(total, x);
        i = i + 1;
    }
    total
}

/// The position of the first case whose discriminant is `id`.
fn find_case(cases: &Vec<Case>, id: u64) -> (r: Option<usize>)
    ensures
        r matches Some(i) ==> first_case(cases@, id, 0) == Some(i as nat),
        r is None ==> first_case(cases@, id, 0) is None,
{
    let mut i: usize = 0;
    while i < cases.len()
        invariant
            i <= cases@.len(),
            first_case(cases@, id, 0) == first_case(cases@, id, i as nat),
        decreases cases@.len() - i,
    {
        if cases[i].id == id {
            return Some(i);
        }
        i = i + 1;
    }
    None
}

/// Writes `d` by the schema at `level` under the caller's context.
fn encode_data(top: &Schema, level: usize, caller: Ctx, d: &Data, out: &mut Vec<u8>) -> (r: Result<(), Error>)
    requires
        top.wf(),
        level <= top_level(*top),
    ensures
        match enc_data(*top, level as nat, caller, d@) {
            Ok(b) => r is Ok && final(out)@ == old(out)@ + b,
            Err(e) => r == Err::<(), Error>(e),
        },
    decreases level, 3nat, 0nat,
{
    let sc = schema_at_exec(top, level);
    proof {
        lemma_level_wf(*top, level as nat);
    }
    if d.case >= sc.cases.len() || d.fields.len() != sc.cases[d.case].fields.len() {
        return Err(Error::Other(Fault::ShapeMismatch));
    }
    let case = &sc.cases[d.case];
    proof {
        lemma_case_fields_wf(*sc, level as nat, d.case as int);
    }
    match sc.encode_tag(caller, case.id, out) {
        Err(e) => Err(e),
        Ok(()) => {
            let base = match sc.ctx_is.encode() {
                Some(c) => *c,
                None => caller,
            };
            let r = encode_fields(top, level, &case.fields, base, caller, &d.fields, out);
            assert(r is Ok ==> out@ =~= old(out)@ + enc_data(*top, level as nat, caller, d@)->Ok_0);
            r
        },
    }
}

/// Reads a value of the schema at `level` at `pos`.
fn decode_data(top: &Schema, level: usize, caller: Ctx, buf: &[u8], pos: usize) -> (r: Result<(Data, usize), Error>)
    requires
        top.wf(),
        level <= top_level(*top),
        pos <= buf@.len(),
    ensures
        match dec_data(*top, level as nat, caller, buf@.skip(pos as int)) {
            Ok((d, n)) => r matches Ok((x, q)) && x@ == d && q == pos + n,
            Err(e) => r == Err::<(Data, usize), Error>(e),
        },
        r matches Ok((_, q)) ==> pos <= q <= buf@.len(),
    decreases level, 3nat, 0nat,
{
    let sc = schema_at_exec(top, level);
    proof {
        lemma_level_wf(*top, level as nat);
    }
    match sc.decode_case(caller, buf, pos) {
        Err(e) => Err(e),
        Ok((i, q)) => {
            proof {
                if !sc.union {
                    assert(i == 0);
                } else {
                    lemma_first_case_bound(sc.cases@, buf@.skip(pos as int), *sc, caller, level as nat);
                }
            }
            let case = &sc.cases[i];
            proof {
                lemma_case_fields_wf(*sc, level as nat, i as int);
            }
            let base = match sc.ctx_is.decode() {
                Some(c) => *c,
                None => caller,
            };
            assert(buf@.skip(pos as int).skip(q - pos) =~= buf@.skip(q as int));
            match decode_fields(top, level, &case.fields, base, caller, buf, q) {
                Err(e) => Err(e),
                Ok((fields, q2)) => {
                    let d = Data { case: i, fields };
                    assert(d@ == DataView { case: i as nat, fields: views(d.fields@) });
                    Ok((d, q2))
                },
            }
        },
    }
}

/// The number of bytes of `d` by the schema at `level`, saturating.
fn data_size(top: &Schema, level: usize, ctx: Ctx, d: &Data) -> (r: usize)
    requires
        top.wf(),
        level <= top_level(*top),
    ensures
        r == clip(size_data(*top, level as nat, d@)),
    decreases level, 3nat, 0nat,
{
    let sc = schema_at_exec(top, level);
    proof {
        lemma_level_wf(*top, level as nat);
    }
    if d.case >= sc.cases.len() || d.fields.len() != sc.cases[d.case].fields.len() {
        return 0;
    }
    let case = &sc.cases[d.case];
    proof {
        lemma_case_fields_wf(*sc, level as nat, d.case as int);
    }
    let t: usize = match sc.id_type {
        Some(c) => c.width,
        None => 0,
    };
    let body = fields_size(top, level, &case.fields, ctx, &d.fields);
    proof {
        crate::codec::lemma_clip_add(
            tag_size(*sc),
            size_fields(*top, level as nat, case.fields@, d@.fields, d@.fields.len()),
        );
    }
    add_clip(t, body)
}

impl Schema {
    /// Writes the announcement of the case with discriminant `id`.
    fn encode_tag(&self, caller: Ctx, id: u64, out: &mut Vec<u8>) -> (r: Result<(), Error>)
        requires
            self.id_type matches Some(c) ==> c.wf(),
        ensures
            match enc_tag(*self, caller, id) {
                Ok(b) => r is Ok && final(out)@ == old(out)@ + b,
                Err(e) => r == Err::<(), Error>(e),
            },
    {
        match self.id_expr.encode() {
            None => {},
            Some(x) => {
                let t = match x {
                    IdExpr::FromCtx => caller.id,
                    IdExpr::Const(k) => Some(*k),
                };
                match t {
                    None => {
                        return Err(Error::tag(Error::Other(Fault::MissingContext)));
                    },
                    Some(t) => {
                        if t != id {
                            return Err(Error::tag(Error::Other(Fault::IdMismatch(t))));
                        }
                    },
                }
            },
        }
        match self.id_type {
            None => {
                assert(out@ =~= old(out)@ + Seq::<u8>::empty());
                Ok(())
            },
            Some(c) => {
                let ictx = match self.id_ctx.encode() {
                    Some(k) => *k,
                    None => Ctx::unit(),
                };
                match encode_int(c, ictx, id, out) {
                    Err(e) => Err(Error::tag(e)),
                    Ok(()) => Ok(()),
                }
            },
        }
    }

    /// Decides which case to read at `pos`; returns it and the position after
    /// its announcement.
    fn decode_case(&self, caller: Ctx, buf: &[u8], pos: usize) -> (r: Result<(usize, usize), Error>)
        requires
            pos <= buf@.len(),
            self.id_type matches Some(c) ==> c.wf(),
        ensures
            match dec_case(*self, caller, buf@.skip(pos as int)) {
                Ok((i, k)) => r matches Ok((i2, q)) && i2 == i && q == pos + k,
                Err(e) => r == Err::<(usize, usize), Error>(e),
            },
            r matches Ok((_, q)) ==> pos <= q <= buf@.len(),
    {
        if !self.union {
            return Ok((0, pos));
        }
        let found = match self.id_type {
            Some(c) => {
                let ictx = match self.id_ctx.decode() {
                    Some(k) => *k,
                    None => Ctx::unit(),
                };
                match decode_int(c, ictx, buf, pos) {
                    Err(e) => Err(Error::tag(e)),
                    Ok(r) => Ok(r),
                }
            },
            None => match self.id_expr.decode() {
                None => Err(Error::tag(Error::Other(Fault::MissingContext))),
                Some(x) => {
                    let t = match x {
                        IdExpr::FromCtx => caller.id,
                        IdExpr::Const(k) => Some(*k),
                    };
                    match t {
                        None => Err(Error::tag(Error::Other(Fault::MissingContext))),
                        Some(t) => Ok((t, pos)),
                    }
                },
            },
        };
        match found {
            Err(e) => Err(e),
            Ok((t, q)) => match find_case(&self.cases, t) {
                None => Err(Error::Other(Fault::UnknownId(t))),
                Some(i) => Ok((i, q)),
            },
        }
    }

    /// Writes `d` under the caller's context `ctx`.
    pub fn encode(&self, ctx: Ctx, d: &Data, out: &mut Vec<u8>) -> (r: Result<(), Error>)
        requires
            self.wf(),
        ensures
            match encoding(*self, ctx, d@) {
                Ok(b) => r is Ok && final(out)@ == old(out)@ + b,
                Err(e) => r == Err::<(), Error>(e),
            },
    {
        encode_data(self, self.deps.len(), ctx, d, out)
    }

    /// Reads a value at `pos` under the caller's context `ctx`; returns it and
    /// the position after it. Bytes after the value are left unread.
    pub fn decode(&self, ctx: Ctx, buf: &[u8], pos: usize) -> (r: Result<(Data, usize), Error>)
        requires
            self.wf(),
            pos <= buf@.len(),
        ensures
            match decoding(*self, ctx, buf@.skip(pos as int)) {
                Ok((d, n)) => r matches Ok((x, q)) && x@ == d && q == pos + n,
                Err(e) => r == Err::<(Data, usize), Error>(e),
            },
            r matches Ok((_, q)) ==> pos <= q <= buf@.len(),
    {
        decode_data(self, self.deps.len(), ctx, buf, pos)
    }

    /// The number of bytes that writing `d` takes, saturating.
    pub fn encoded_size(&self, ctx: Ctx, d: &Data) -> (r: usize)
        requires
            self.wf(),
        ensures
            r == clip(encoded_len(*self, d@)),
    {
        data_size(self, self.deps.len(), ctx, d)
    }
}

proof fn lemma_first_case_bound(cases: Seq<Case>, s: Seq<u8>, sc: Schema, caller: Ctx, level: nat)
    requires
        sc.cases@ == cases,
        dec_case(sc, caller, s) is Ok,
        sc.wf_at(level),
    ensures
        dec_case(sc, caller, s)->Ok_0.0 < cases.len(),
{
    if sc.union {
        let t = dec_tag(sc, caller, s)->Ok_0.0;
        lemma_first_case_in_range(cases, t, 0);
    }
}

proof fn lemma_first_case_in_range(cases: Seq<Case>, id: u64, from: nat)
    ensures
        first_case(cases, id, from) matches Some(i) ==> from <= i < cases.len() && cases[i as int].id
            == id,
    decreases cases.len() - from,
{
    if from < cases.len() && cases[from as int].id != id {
        lemma_first_case_in_range(cases, id, from + 1);
    }
}

/// Writes `d` by schema `sc` under context `ctx` into a new buffer.
pub fn to_bytes_with_context(sc: &Schema, d: &Data, ctx: Ctx) -> (r: Result<Vec<u8>, Error>)
    requires
        sc.wf(),
    ensures
        match encoding(*sc, ctx, d@) {
            Ok(b) => r matches Ok(v) && v@ == b,
            Err(e) => r == Err::<Vec<u8>, Error>(e),
        },
{
    let mut out: Vec<u8> = Vec::new();
    match sc.encode(ctx, d, &mut out) {
        Ok(()) => {
            assert(out@ =~= encoding(*sc, ctx, d@)->Ok_0);
            Ok(out)
        },
        Err(e) => Err(e),
    }
}

/// Writes `d` by schema `sc` under the empty context into a new buffer.
pub fn to_bytes(sc: &Schema, d: &Data) -> (r: Result<Vec<u8>, Error>)
    requires
        sc.wf(),
    ensures
        match encoding(*sc, unit_ctx(), d@) {
            Ok(b) => r matches Ok(v) && v@ == b,
            Err(e) => r == Err::<Vec<u8>, Error>(e),
        },
{
    to_bytes_with_context(sc, d, Ctx::unit())
}

/// Reads a value of schema `sc` under context `ctx` that must take all of
/// `buf`; bytes left over are an error.
pub fn from_bytes_with_context(sc: &Schema, buf: &[u8], ctx: Ctx) -> (r: Result<Data, Error>)
    requires
        sc.wf(),
    ensures
        match dec_whole(*sc, ctx, buf@) {
            Ok(d) => r matches Ok(x) && x@ == d,
            Err(e) => r == Err::<Data, Error>(e),
        },
{
    assert(buf@.skip(0) =~= buf@);
    match sc.decode(ctx, buf, 0) {
        Err(e) => Err(e),
        Ok((d, q)) => {
            if q == buf.len() {
                Ok(d)
            } else {
                Err(Error::RemainingBytes(buf.len() - q))
            }
        },
    }
}

/// Reads a value of schema `sc` under the empty context that must take all of `buf`.
pub fn from_bytes(sc: &Schema, buf: &[u8]) -> (r: Result<Data, Error>)
    requires
        sc.wf(),
    ensures
        match dec_whole(*sc, unit_ctx(), buf@) {
            Ok(d) => r matches Ok(x) && x@ == d,
            Err(e) => r == Err::<Data, Error>(e),
        },
{
    from_bytes_with_context(sc, buf, Ctx::unit())
}

} // verus!
