//! Field types and field values: the leaf codecs that a schema's fields use.

use vstd::prelude::*;
use vstd::utf8::encode_utf8;
use crate::codec::{
    clip, dec_int, decode_int, enc_int, encode_int, lemma_int_round_trip_codec, len_decodable,
    IntCodec, Prefix,
};
use crate::ctx::Ctx;
use crate::engine::{Data, DataView};
use crate::error::{Error, Fault};
use crate::util::utf8::{dec_text, enc_text, lemma_text_round_trip};
use crate::util::zero_one::{dec_bool, enc_bool, lemma_bool_round_trip};
use crate::util::{
    dec_frame, dec_seq, decode_frame, decode_seq, enc_frame, enc_seq, encode_frame, encode_seq,
    lemma_frame_round_trip, lemma_seq_round_trip, seq_size, sequence_size, utf8, zero_one,
};

verus! {

/// The wire type of a field: which codec writes and reads its value.
#[derive(Clone, Copy, Debug, PartialEq, Eq, Structural)]
pub enum Kind {
    /// An unsigned integer.
    Int(IntCodec),
    /// A boolean as one byte, 0 or 1.
    ZeroOne,
    /// A run of bytes.
    Bytes(Prefix),
    /// A string as UTF-8 bytes whose count the context carries.
    Utf8,
    /// A sequence of unsigned integers.
    Ints(Prefix, IntCodec),
    /// An optional integer: nothing when absent; always present once decoded.
    Maybe(IntCodec),
    /// A nested record or union: a value of the outermost schema's dependency
    /// at this position, written by that schema.
    Record(usize),
}

/// A field's value.
#[derive(Debug, PartialEq, Eq)]
pub enum Value {
    Int(u64),
    Bool(bool),
    Bytes(Vec<u8>),
    Text(String),
    Ints(Vec<u64>),
    Maybe(Option<u64>),
    /// A value of a nested schema.
    Record(Data),
}

/// What a field's value is, mathematically.
pub enum Val {
    Int(u64),
    Bool(bool),
    Bytes(Seq<u8>),
    Text(Seq<char>),
    Ints(Seq<u64>),
    Maybe(Option<u64>),
    Record(DataView),
}

/// What value `v` is, mathematically.
pub open spec fn value_view(v: Value) -> Val
    decreases v,
{
    match v {
        Value::Int(x) => Val::Int(x),
        Value::Bool(b) => Val::Bool(b),
        Value::Bytes(b) => Val::Bytes(b@),
        Value::Text(t) => Val::Text(t@),
        Value::Ints(xs) => Val::Ints(xs@),
        Value::Maybe(o) => Val::Maybe(o),
        Value::Record(d) => Val::Record(DataView { case: d.case as nat, fields: views(d.fields@) }),
    }
}

/// The mathematical values of a sequence of values.
pub open spec fn views(vs: Seq<Value>) -> Seq<Val>
    decreases vs,
{
    Seq::new(
        vs.len(),
        |i: int|
            if 0 <= i < vs.len() {
                value_view(vs[i])
            } else {
                Val::Int(0)
            },
    )
}

impl View for Value {
    type V = Val;

    open spec fn view(&self) -> Val {
        value_view(*self)
    }
}

impl Kind {
    pub open spec fn wf(self) -> bool {
        match self {
            Kind::Int(c) => c.wf(),
            Kind::ZeroOne => true,
            Kind::Bytes(p) => p.wf(),
            Kind::Utf8 => true,
            Kind::Ints(p, c) => p.wf() && c.wf(),
            Kind::Maybe(c) => c.wf(),
            Kind::Record(_) => true,
        }
    }
}

impl Val {
    /// Lengths that a `usize` can count.
    pub open spec fn fits(self) -> bool {
        match self {
            Val::Bytes(b) => b.len() <= usize::MAX,
            Val::Text(t) => encode_utf8(t).len() <= usize::MAX,
            Val::Ints(xs) => xs.len() <= usize::MAX,
            _ => true,
        }
    }
}

pub open spec fn shape_mismatch() -> Error {
    Error::Other(Fault::ShapeMismatch)
}

/// The bytes that write `v` as a value of kind `k` under `ctx`.
pub open spec fn enc_value(k: Kind, ctx: Ctx, v: Val) -> Result<Seq<u8>, Error> {
    match (k, v) {
        (Kind::Int(c), Val::Int(x)) => enc_int(c, ctx, x),
        (Kind::ZeroOne, Val::Bool(b)) => Ok(enc_bool(b)),
        (Kind::Bytes(p), Val::Bytes(b)) => enc_frame(p, ctx, b),
        (Kind::Utf8, Val::Text(t)) => enc_text(ctx, t),
        (Kind::Ints(p, c), Val::Ints(xs)) => enc_seq(p, c, ctx, xs),
        (Kind::Maybe(c), Val::Maybe(o)) => match o {
            None => Ok(seq![]),
            Some(x) => enc_int(c, ctx, x),
        },
        _ => Err(shape_mismatch()),
    }
}

/// Reading a value of kind `k` under `ctx` from the front of `s`: the value
/// and the number of bytes taken.
pub open spec fn dec_value(k: Kind, ctx: Ctx, s: Seq<u8>) -> Result<(Val, nat), Error> {
    match k {
        Kind::Int(c) => match dec_int(c, ctx, s) {
            Ok((x, n)) => Ok((Val::Int(x), n)),
            Err(e) => Err(e),
        },
        Kind::ZeroOne => match dec_bool(s) {
            Ok((b, n)) => Ok((Val::Bool(b), n)),
            Err(e) => Err(e),
        },
        Kind::Bytes(p) => match dec_frame(p, ctx, s) {
            Ok((b, n)) => Ok((Val::Bytes(b), n)),
            Err(e) => Err(e),
        },
        Kind::Utf8 => match dec_text(ctx, s) {
            Ok((t, n)) => Ok((Val::Text(t), n)),
            Err(e) => Err(e),
        },
        Kind::Ints(p, c) => match dec_seq(p, c, ctx, s) {
            Ok((xs, n)) => Ok((Val::Ints(xs), n)),
            Err(e) => Err(e),
        },
        Kind::Maybe(c) => match dec_int(c, ctx, s) {
            Ok((x, n)) => Ok((Val::Maybe(Some(x)), n)),
            Err(e) => Err(e),
        },
        Kind::Record(_) => Err(shape_mismatch()),
    }
}

/// The number of bytes that writing `v` as kind `k` takes.
pub open spec fn size_value(k: Kind, v: Val) -> nat {
    match (k, v) {
        (Kind::Int(c), Val::Int(_)) => c.width as nat,
        (Kind::ZeroOne, Val::Bool(_)) => 1,
        (Kind::Bytes(p), Val::Bytes(b)) => p.width() + b.len(),
        (Kind::Utf8, Val::Text(t)) => encode_utf8(t).len(),
        (Kind::Ints(p, c), Val::Ints(xs)) => seq_size(p, c, xs.len()),
        (Kind::Maybe(c), Val::Maybe(o)) => match o {
            None => 0,
            Some(_) => c.width as nat,
        },
        _ => 0,
    }
}

/// The value that a field of kind `k` takes when its bytes are skipped.
pub open spec fn default_value(k: Kind) -> Val {
    match k {
        Kind::Int(_) => Val::Int(0),
        Kind::ZeroOne => Val::Bool(false),
        Kind::Bytes(_) => Val::Bytes(seq![]),
        Kind::Utf8 => Val::Text(seq![]),
        Kind::Ints(_, _) => Val::Ints(seq![]),
        Kind::Maybe(_) => Val::Maybe(None),
        // A nested record has no default; validation refuses a schema that
        // could skip one, so this value is never produced.
        Kind::Record(_) => Val::Maybe(None),
    }
}

/// Whether decoding under `ctx` can give `v` back once it is written as kind
/// `k`: a sequence without a count prefix needs its length from the context,
/// and an absent optional integer leaves nothing to read.
pub open spec fn decodable(k: Kind, ctx: Ctx, v: Val) -> bool {
    match k {
        Kind::Bytes(p) => len_decodable(p, ctx),
        Kind::Utf8 => ctx.len is Some,
        Kind::Ints(p, _) => len_decodable(p, ctx),
        Kind::Maybe(_) => v matches Val::Maybe(Some(_)),
        _ => true,
    }
}

/// A value written as kind `k` reads back as itself and takes exactly
/// `size_value` bytes, whatever follows it.
pub proof fn lemma_value_round_trip(k: Kind, ctx: Ctx, v: Val, rest: Seq<u8>)
    requires
        k.wf(),
        v.fits(),
        decodable(k, ctx, v),
        enc_value(k, ctx, v) is Ok,
    ensures
        enc_value(k, ctx, v)->Ok_0.len() == size_value(k, v),
        dec_value(k, ctx, enc_value(k, ctx, v)->Ok_0 + rest) == Ok::<(Val, nat), Error>(
            (v, size_value(k, v)),
        ),
{
    match (k, v) {
        (Kind::Int(c), Val::Int(x)) => lemma_int_round_trip_codec(c, ctx, x, rest),
        (Kind::ZeroOne, Val::Bool(b)) => lemma_bool_round_trip(b, rest),
        (Kind::Bytes(p), Val::Bytes(b)) => lemma_frame_round_trip(p, ctx, b, rest),
        (Kind::Utf8, Val::Text(t)) => lemma_text_round_trip(ctx, t, rest),
        (Kind::Ints(p, c), Val::Ints(xs)) => lemma_seq_round_trip(p, c, ctx, xs, rest),
        (Kind::Maybe(c), Val::Maybe(o)) => lemma_int_round_trip_codec(c, ctx, o->0, rest),
        _ => {},
    }
}

/// A successful encoding takes exactly `size_value` bytes.
pub proof fn lemma_value_size(k: Kind, ctx: Ctx, v: Val)
    requires
        k.wf(),
        enc_value(k, ctx, v) is Ok,
    ensures
        enc_value(k, ctx, v)->Ok_0.len() == size_value(k, v),
{
    match (k, v) {
        (Kind::Int(c), Val::Int(x)) => lemma_int_round_trip_codec(c, ctx, x, seq![]),
        (Kind::ZeroOne, Val::Bool(b)) => lemma_bool_round_trip(b, seq![]),
        (Kind::Bytes(p), Val::Bytes(b)) => {
            crate::codec::lemma_len_size(p, ctx, b.len());
        },
        (Kind::Utf8, Val::Text(t)) => {},
        (Kind::Ints(p, c), Val::Ints(xs)) => {
            crate::util::lemma_seq_size(p, c, ctx, xs);
        },
        (Kind::Maybe(c), Val::Maybe(o)) => {
            if o is Some {
                lemma_int_round_trip_codec(c, ctx, o->0, seq![]);
            }
        },
        _ => {},
    }
}

/// Writes `v` as a value of kind `k` under `ctx`.
pub fn encode_value(k: Kind, ctx: Ctx, v: &Value, out: &mut Vec<u8>) -> (r: Result<(), Error>)
    requires
        k.wf(),
    ensures
        match enc_value(k, ctx, v@) {
            Ok(b) => r is Ok && final(out)@ == old(out)@ + b,
            Err(e) => r == Err::<(), Error>(e),
        },
{
    match (k, v) {
        (Kind::Int(c), Value::Int(x)) => encode_int(c, ctx, *x, out),
        (Kind::ZeroOne, Value::Bool(b)) => zero_one::encode(*b, ctx, out),
        (Kind::Bytes(p), Value::Bytes(b)) => encode_frame(p, ctx, b.as_slice(), out),
        (Kind::Utf8, Value::Text(t)) => utf8::encode(t.as_str(), ctx, out),
        (Kind::Ints(p, c), Value::Ints(xs)) => encode_seq(p, c, ctx, xs.as_slice(), out),
        (Kind::Maybe(c), Value::Maybe(o)) => match o {
            None => {
                assert(out@ =~= old(out)@ + Seq::<u8>::empty());
                Ok(())
            },
            Some(x) => encode_int(c, ctx, *x, out),
        },
        _ => Err(Error::Other(Fault::ShapeMismatch)),
    }
}

/// Reads a value of kind `k` under `ctx` at `pos`; returns it and the
/// position after it.
pub fn decode_value(k: Kind, ctx: Ctx, buf: &[u8], pos: usize) -> (r: Result<(Value, usize), Error>)
    requires
        k.wf(),
        pos <= buf@.len(),
    ensures
        match dec_value(k, ctx, buf@.skip(pos as int)) {
            Ok((v, n)) => r matches Ok((x, q)) && x@ == v && q == pos + n,
            Err(e) => r == Err::<(Value, usize), Error>(e),
        },
        r matches Ok((_, q)) ==> pos <= q <= buf@.len(),
{
    match k {
        Kind::Int(c) => match decode_int(c, ctx, buf, pos) {
            Ok((x, q)) => Ok((Value::Int(x), q)),
            Err(e) => Err(e),
        },
        Kind::ZeroOne => match zero_one::decode(ctx, buf, pos) {
            Ok((b, q)) => Ok((Value::Bool(b), q)),
            Err(e) => Err(e),
        },
        Kind::Bytes(p) => match decode_frame(p, ctx, buf, pos) {
            Ok((b, q)) => Ok((Value::Bytes(b), q)),
            Err(e) => Err(e),
        },
        Kind::Utf8 => match utf8::decode(ctx, buf, pos) {
            Ok((t, q)) => Ok((Value::Text(t), q)),
            Err(e) => Err(e),
        },
        Kind::Ints(p, c) => match decode_seq(p, c, ctx, buf, pos) {
            Ok((xs, q)) => Ok((Value::Ints(xs), q)),
            Err(e) => Err(e),
        },
        Kind::Maybe(c) => match decode_int(c, ctx, buf, pos) {
            Ok((x, q)) => Ok((Value::Maybe(Some(x)), q)),
            Err(e) => Err(e),
        },
        Kind::Record(_) => Err(Error::Other(Fault::ShapeMismatch)),
    }
}

/// The number of bytes that writing `v` as kind `k` takes, saturating.
pub fn value_size(k: Kind, ctx: Ctx, v: &Value) -> (r: usize)
    requires
        k.wf(),
    ensures
        r == clip(size_value(k, v@)),
{
    match (k, v) {
        (Kind::Int(c), Value::Int(_)) => c.width,
        (Kind::ZeroOne, Value::Bool(b)) => zero_one::encoded_size(*b, ctx),
        (Kind::Bytes(p), Value::Bytes(b)) => {
            let w: usize = match p {
                Prefix::NoPrefix => 0,
                Prefix::Int(pc) => pc.width,
            };
            crate::codec::add_clip(w, b.len())
        },
        (Kind::Utf8, Value::Text(t)) => utf8::encoded_size(t.as_str(), ctx),
        (Kind::Ints(p, c), Value::Ints(xs)) => sequence_size(p, c, xs.len()),
        (Kind::Maybe(c), Value::Maybe(o)) => match o {
            None => 0,
            Some(_) => c.width,
        },
        _ => 0,
    }
}

/// The value of a field of kind `k` whose bytes are skipped.
pub fn default_of(k: Kind) -> (r: Value)
    ensures
        r@ == default_value(k),
{
    match k {
        Kind::Int(_) => Value::Int(0),
        Kind::ZeroOne => Value::Bool(false),
        Kind::Bytes(_) => {
            let v: Vec<u8> = Vec::new();
            assert(v@ =~= seq![]);
            Value::Bytes(v)
        },
        Kind::Utf8 => {
            let t = String::new();
            assert(t@ =~= seq![]);
            Value::Text(t)
        },
        Kind::Ints(_, _) => {
            let v: Vec<u64> = Vec::new();
            assert(v@ =~= seq![]);
            Value::Ints(v)
        },
        Kind::Maybe(_) => Value::Maybe(None),
        Kind::Record(_) => Value::Maybe(None),
    }
}

/// A field codec that routes a value through an adapter kind: the value is
/// converted to the adapter's representation, which then does the writing,
/// reading and sizing.
#[derive(Clone, Copy, Debug, PartialEq, Eq, Structural)]
pub struct Via {
    pub adapter: Kind,
}

impl Via {
    pub fn encode(&self, v: &Value, ctx: Ctx, out: &mut Vec<u8>) -> (r: Result<(), Error>)
        requires
            self.adapter.wf(),
        ensures
            match enc_value(self.adapter, ctx, v@) {
                Ok(b) => r is Ok && final(out)@ == old(out)@ + b,
                Err(e) => r == Err::<(), Error>(e),
            },
    {
        encode_value(self.adapter, ctx, v, out)
    }

    pub fn decode(&self, ctx: Ctx, buf: &[u8], pos: usize) -> (r: Result<(Value, usize), Error>)
        requires
            self.adapter.wf(),
            pos <= buf@.len(),
        ensures
            match dec_value(self.adapter, ctx, buf@.skip(pos as int)) {
                Ok((v, n)) => r matches Ok((x, q)) && x@ == v && q == pos + n,
                Err(e) => r == Err::<(Value, usize), Error>(e),
            },
            r matches Ok((_, q)) ==> pos <= q <= buf@.len(),
    {
        decode_value(self.adapter, ctx, buf, pos)
    }

    pub fn encoded_size(&self, v: &Value, ctx: Ctx) -> (r: usize)
        requires
            self.adapter.wf(),
        ensures
            r == clip(size_value(self.adapter, v@)),
    {
        value_size(self.adapter, ctx, v)
    }
}

} // verus!
