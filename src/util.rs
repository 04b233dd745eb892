//! Adapter types: lossless wire representations of plain values.

use vstd::prelude::*;
use crate::codec::{
    add_clip, clip, lemma_clip_add, mul_clip, dec_int, dec_len, decode_int, decode_len, enc_int, enc_len, encode_int, encode_len,
    lemma_int_round_trip_codec, lemma_len_round_trip, len_decodable, unexpected_end, IntCodec,
    Prefix,
};
use crate::ctx::Ctx;
use crate::error::Error;

pub mod utf8;
pub mod zero_one;

verus! {

/// A run of bytes framed by prefix `p`: the count, then the bytes.
pub open spec fn enc_frame(p: Prefix, ctx: Ctx, b: Seq<u8>) -> Result<Seq<u8>, Error> {
    match enc_len(p, ctx, b.len()) {
        Err(e) => Err(e),
        Ok(h) => Ok(h + b),
    }
}

/// Reading a run of bytes framed by prefix `p` from the front of `s`.
pub open spec fn dec_frame(p: Prefix, ctx: Ctx, s: Seq<u8>) -> Result<(Seq<u8>, nat), Error> {
    match dec_len(p, ctx, s) {
        Err(e) => Err(e),
        Ok((n, k)) => if s.len() < k + n {
            Err(unexpected_end())
        } else {
            Ok((s.subrange(k as int, k + n), (k + n) as nat))
        },
    }
}

/// The integers `xs`, each written with codec `c`, one after another.
pub open spec fn enc_elems(c: IntCodec, ctx: Ctx, xs: Seq<u64>) -> Result<Seq<u8>, Error>
    decreases xs.len(),
{
    if xs.len() == 0 {
        Ok(seq![])
    } else {
        match enc_elems(c, ctx, xs.drop_last()) {
            Err(e) => Err(e),
            Ok(b) => match enc_int(c, ctx, xs.last()) {
                Err(e) => Err(e),
                Ok(x) => Ok(b + x),
            },
        }
    }
}

/// Reading `n` integers written with codec `c` from the front of `s`.
pub open spec fn dec_elems(c: IntCodec, ctx: Ctx, s: Seq<u8>, n: nat) -> Result<(Seq<u64>, nat), Error>
    decreases n,
{
    if n == 0 {
        Ok((seq![], 0))
    } else {
        match dec_elems(c, ctx, s, (n - 1) as nat) {
            Err(e) => Err(e),
            Ok((xs, k)) => match dec_int(c, ctx, s.skip(k as int)) {
                Err(e) => Err(e),
                Ok((x, m)) => Ok((xs.push(x), k + m)),
            },
        }
    }
}

/// A sequence of integers: the count under prefix `p`, then the elements.
pub open spec fn enc_seq(p: Prefix, c: IntCodec, ctx: Ctx, xs: Seq<u64>) -> Result<Seq<u8>, Error> {
    match enc_len(p, ctx, xs.len()) {
        Err(e) => Err(e),
        Ok(h) => match enc_elems(c, ctx, xs) {
            Err(e) => Err(e),
            Ok(b) => Ok(h + b),
        },
    }
}

/// Reading a sequence of integers from the front of `s`.
pub open spec fn dec_seq(p: Prefix, c: IntCodec, ctx: Ctx, s: Seq<u8>) -> Result<(Seq<u64>, nat), Error> {
    match dec_len(p, ctx, s) {
        Err(e) => Err(e),
        Ok((n, k)) => match dec_elems(c, ctx, s.skip(k as int), n as nat) {
            Err(e) => Err(e),
            Ok((xs, m)) => Ok((xs, k + m)),
        },
    }
}

pub proof fn lemma_frame_round_trip(p: Prefix, ctx: Ctx, b: Seq<u8>, rest: Seq<u8>)
    requires
        p.wf(),
        len_decodable(p, ctx),
        b.len() <= usize::MAX,
        enc_frame(p, ctx, b) is Ok,
    ensures
        enc_frame(p, ctx, b)->Ok_0.len() == p.width() + b.len(),
        dec_frame(p, ctx, enc_frame(p, ctx, b)->Ok_0 + rest) == Ok::<(Seq<u8>, nat), Error>(
            (b, p.width() + b.len()),
        ),
{
    let h = enc_len(p, ctx, b.len())->Ok_0;
    lemma_len_round_trip(p, ctx, b.len() as usize, b + rest);
    assert(h + b + rest =~= h + (b + rest));
    assert((h + b + rest).subrange(h.len() as int, (h.len() + b.len()) as int) =~= b);
}

proof fn lemma_elems_len(c: IntCodec, ctx: Ctx, xs: Seq<u64>)
    requires
        c.wf(),
        enc_elems(c, ctx, xs) is Ok,
    ensures
        enc_elems(c, ctx, xs)->Ok_0.len() == xs.len() * c.width,
    decreases xs.len(),
{
    if xs.len() > 0 {
        lemma_elems_len(c, ctx, xs.drop_last());
        lemma_int_round_trip_codec(c, ctx, xs.last(), seq![]);
        assert(xs.len() * c.width == (xs.len() - 1) * c.width + c.width) by (nonlinear_arith);
    }
}

pub proof fn lemma_seq_size(p: Prefix, c: IntCodec, ctx: Ctx, xs: Seq<u64>)
    requires
        p.wf(),
        c.wf(),
        enc_seq(p, c, ctx, xs) is Ok,
    ensures
        enc_seq(p, c, ctx, xs)->Ok_0.len() == seq_size(p, c, xs.len()),
{
    crate::codec::lemma_len_size(p, ctx, xs.len());
    lemma_elems_len(c, ctx, xs);
}

proof fn lemma_elems_round_trip(c: IntCodec, ctx: Ctx, xs: Seq<u64>, rest: Seq<u8>)
    requires
        c.wf(),
        enc_elems(c, ctx, xs) is Ok,
    ensures
        dec_elems(c, ctx, enc_elems(c, ctx, xs)->Ok_0 + rest, xs.len()) == Ok::<
            (Seq<u64>, nat),
            Error,
        >((xs, enc_elems(c, ctx, xs)->Ok_0.len())),
    decreases xs.len(),
{
    if xs.len() == 0 {
        assert(xs =~= seq![]);
    } else {
        let ys = xs.drop_last();
        let b = enc_elems(c, ctx, ys)->Ok_0;
        let x = enc_int(c, ctx, xs.last())->Ok_0;
        lemma_elems_round_trip(c, ctx, ys, x + rest);
        assert(b + x + rest =~= b + (x + rest));
        assert((b + x + rest).skip(b.len() as int) =~= x + rest);
        lemma_int_round_trip_codec(c, ctx, xs.last(), rest);
        assert(ys.push(xs.last()) =~= xs);
    }
}

pub proof fn lemma_seq_round_trip(p: Prefix, c: IntCodec, ctx: Ctx, xs: Seq<u64>, rest: Seq<u8>)
    requires
        p.wf(),
        c.wf(),
        len_decodable(p, ctx),
        xs.len() <= usize::MAX,
        enc_seq(p, c, ctx, xs) is Ok,
    ensures
        enc_seq(p, c, ctx, xs)->Ok_0.len() == p.width() + xs.len() * c.width,
        dec_seq(p, c, ctx, enc_seq(p, c, ctx, xs)->Ok_0 + rest) == Ok::<(Seq<u64>, nat), Error>(
            (xs, (p.width() + xs.len() * c.width) as nat),
        ),
{
    let h = enc_len(p, ctx, xs.len())->Ok_0;
    let b = enc_elems(c, ctx, xs)->Ok_0;
    lemma_len_round_trip(p, ctx, xs.len() as usize, b + rest);
    lemma_elems_len(c, ctx, xs);
    lemma_elems_round_trip(c, ctx, xs, rest);
    assert(h + b + rest =~= h + (b + rest));
    assert((h + b + rest).skip(h.len() as int) =~= b + rest);
}

proof fn lemma_elems_err_extends(c: IntCodec, ctx: Ctx, xs: Seq<u64>, i: int, e: Error)
    requires
        0 <= i <= xs.len(),
        enc_elems(c, ctx, xs.take(i)) == Err::<Seq<u8>, Error>(e),
    ensures
        enc_elems(c, ctx, xs) == Err::<Seq<u8>, Error>(e),
    decreases xs.len() - i,
{
    if i < xs.len() {
        let t = xs.take(i + 1);
        assert(t.drop_last() =~= xs.take(i));
        lemma_elems_err_extends(c, ctx, xs, i + 1, e);
    } else {
        assert(xs.take(i) =~= xs);
    }
}

proof fn lemma_dec_elems_err_extends(c: IntCodec, ctx: Ctx, s: Seq<u8>, i: nat, n: nat, e: Error)
    requires
        i <= n,
        dec_elems(c, ctx, s, i) == Err::<(Seq<u64>, nat), Error>(e),
    ensures
        dec_elems(c, ctx, s, n) == Err::<(Seq<u64>, nat), Error>(e),
    decreases n - i,
{
    if i < n {
        lemma_dec_elems_err_extends(c, ctx, s, i + 1, n, e);
    }
}

/// Copies `buf[from..to]` into a new vector.
fn copy_range(buf: &[u8], from: usize, to: usize) -> (r: Vec<u8>)
    requires
        from <= to <= buf@.len(),
    ensures
        r@ == buf@.subrange(from as int, to as int),
{
    let mut r: Vec<u8> = Vec::new();
    let mut i: usize = from;
    while i < to
        invariant
            from <= i <= to,
            to <= buf@.len(),
            r@ == buf@.subrange(from as int, i as int),
        decreases to - i,
    {
        r.push(buf[i]);
        i = i + 1;
        assert(r@ =~= buf@.subrange(from as int, i as int));
    }
    r
}

/// Appends all of `data` to `out`.
fn append_all(out: &mut Vec<u8>, data: &[u8])
    ensures
        final(out)@ == old(out)@ + data@,
{
    let mut i: usize = 0;
    while i < data.len()
        invariant
            i <= data@.len(),
            out@ == old(out)@ + data@.take(i as int),
        decreases data@.len() - i,
    {
        out.push(data[i]);
        i = i + 1;
        assert(out@ =~= old(out)@ + data@.take(i as int));
    }
    assert(data@.take(data@.len() as int) =~= data@);
}

/// Writes `data` framed by prefix `p`.
pub fn encode_frame(p: Prefix, ctx: Ctx, data: &[u8], out: &mut Vec<u8>) -> (r: Result<(), Error>)
    requires
        p.wf(),
    ensures
        match enc_frame(p, ctx, data@) {
            Ok(b) => r is Ok && final(out)@ == old(out)@ + b,
            Err(e) => r == Err::<(), Error>(e),
        },
{
    match encode_len(p, ctx, data.len(), out) {
        Err(e) => Err(e),
        Ok(()) => {
            append_all(out, data);
            assert(out@ =~= old(out)@ + enc_frame(p, ctx, data@)->Ok_0);
            Ok(())
        },
    }
}

/// Reads a run of bytes framed by prefix `p` at `pos`; returns it and the
/// position after it.
pub fn decode_frame(p: Prefix, ctx: Ctx, buf: &[u8], pos: usize) -> (r: Result<(Vec<u8>, usize), Error>)
    requires
        p.wf(),
        pos <= buf@.len(),
    ensures
        match dec_frame(p, ctx, buf@.skip(pos as int)) {
            Ok((b, k)) => r matches Ok((v, q)) && v@ == b && q == pos + k,
            Err(e) => r == Err::<(Vec<u8>, usize), Error>(e),
        },
        r matches Ok((_, q)) ==> pos <= q <= buf@.len(),
{
    match decode_len(p, ctx, buf, pos) {
        Err(e) => Err(e),
        Ok((n, q)) => {
            if buf.len() - q < n {
                Err(Error::Other(crate::error::Fault::UnexpectedEnd))
            } else {
                let v = copy_range(buf, q, q + n);
                assert(buf@.skip(pos as int).subrange(q - pos, q - pos + n) =~= buf@.subrange(
                    q as int,
                    q + n,
                ));
                Ok((v, q + n))
            }
        },
    }
}

/// Writes integers `xs` with codec `c`, one after another.
fn encode_elems(c: IntCodec, ctx: Ctx, xs: &[u64], out: &mut Vec<u8>) -> (r: Result<(), Error>)
    requires
        c.wf(),
    ensures
        match enc_elems(c, ctx, xs@) {
            Ok(b) => r is Ok && final(out)@ == old(out)@ + b,
            Err(e) => r == Err::<(), Error>(e),
        },
{
    let mut i: usize = 0;
    while i < xs.len()
        invariant
            c.wf(),
            i <= xs@.len(),
            enc_elems(c, ctx, xs@.take(i as int)) is Ok,
            out@ == old(out)@ + enc_elems(c, ctx, xs@.take(i as int))->Ok_0,
        decreases xs@.len() - i,
    {
        let ghost t = xs@.take(i as int + 1);
        proof {
            assert(t.drop_last() =~= xs@.take(i as int));
        }
        match encode_int(c, ctx, xs[i], out) {
            Err(e) => {
                proof {
                    lemma_elems_err_extends(c, ctx, xs@, i as int + 1, e);
                }
                return Err(e);
            },
            Ok(()) => {},
        }
        i = i + 1;
        assert(out@ =~= old(out)@ + enc_elems(c, ctx, xs@.take(i as int))->Ok_0);
    }
    assert(xs@.take(xs@.len() as int) =~= xs@);
    Ok(())
}

/// Reads `n` integers written with codec `c` at `pos`.
fn decode_elems(c: IntCodec, ctx: Ctx, buf: &[u8], pos: usize, n: usize) -> (r: Result<(Vec<u64>, usize), Error>)
    requires
        c.wf(),
        pos <= buf@.len(),
    ensures
        match dec_elems(c, ctx, buf@.skip(pos as int), n as nat) {
            Ok((xs, k)) => r matches Ok((v, q)) && v@ == xs && q == pos + k,
            Err(e) => r == Err::<(Vec<u64>, usize), Error>(e),
        },
        r matches Ok((_, q)) ==> pos <= q <= buf@.len(),
{
    let ghost s = buf@.skip(pos as int);
    let mut items: Vec<u64> = Vec::new();
    let mut q: usize = pos;
    let mut i: usize = 0;
    while i < n
        invariant
            c.wf(),
            i <= n,
            pos <= q <= buf@.len(),
            s == buf@.skip(pos as int),
            dec_elems(c, ctx, s, i as nat) == Ok::<(Seq<u64>, nat), Error>(
                (items@, (q - pos) as nat),
            ),
        decreases n - i,
    {
        assert(s.skip(q - pos) =~= buf@.skip(q as int));
        let res = decode_int(c, ctx, buf, q);
        match res {
            Err(e) => {
                proof {
                    lemma_dec_elems_err_extends(c, ctx, s, (i + 1) as nat, n as nat, e);
                }
                return Err(e);
            },
            Ok((x, q2)) => {
                let ghost old_items = items@;
                items.push(x);
                proof {
                    assert(dec_int(c, ctx, s.skip(q - pos)) == Ok::<(u64, nat), Error>(
                        (x, (q2 - q) as nat),
                    ));
                    assert(dec_elems(c, ctx, s, (i + 1) as nat) == Ok::<(Seq<u64>, nat), Error>(
                        (old_items.push(x), (q2 - pos) as nat),
                    ));
                }
                q = q2;
            },
        }
        i = i + 1;
    }
    Ok((items, q))
}

/// Writes integers `xs` with codec `c`, after their count under prefix `p`.
pub fn encode_seq(p: Prefix, c: IntCodec, ctx: Ctx, xs: &[u64], out: &mut Vec<u8>) -> (r: Result<(), Error>)
    requires
        p.wf(),
        c.wf(),
    ensures
        match enc_seq(p, c, ctx, xs@) {
            Ok(b) => r is Ok && final(out)@ == old(out)@ + b,
            Err(e) => r == Err::<(), Error>(e),
        },
{
    match encode_len(p, ctx, xs.len(), out) {
        Err(e) => Err(e),
        Ok(()) => {
            let r = encode_elems(c, ctx, xs, out);
            assert(r is Ok ==> out@ =~= old(out)@ + enc_seq(p, c, ctx, xs@)->Ok_0);
            r
        },
    }
}

/// Reads a sequence of integers at `pos`; returns it and the position after it.
pub fn decode_seq(p: Prefix, c: IntCodec, ctx: Ctx, buf: &[u8], pos: usize) -> (r: Result<(Vec<u64>, usize), Error>)
    requires
        p.wf(),
        c.wf(),
        pos <= buf@.len(),
    ensures
        match dec_seq(p, c, ctx, buf@.skip(pos as int)) {
            Ok((xs, k)) => r matches Ok((v, q)) && v@ == xs && q == pos + k,
            Err(e) => r == Err::<(Vec<u64>, usize), Error>(e),
        },
        r matches Ok((_, q)) ==> pos <= q <= buf@.len(),
{
    let first = decode_len(p, ctx, buf, pos);
    match first {
        Err(e) => Err(e),
        Ok((n, q)) => {
            assert(pos <= q <= buf@.len());
            assert(buf@.skip(pos as int).skip(q - pos) =~= buf@.skip(q as int));
            let r = decode_elems(c, ctx, buf, q, n);
            assert(dec_len(p, ctx, buf@.skip(pos as int)) == Ok::<(usize, nat), Error>(
                (n, (q - pos) as nat),
            ));
            r
        },
    }
}

} // verus!

verus! {

/// A boolean that travels as one byte, 0 or 1.
#[derive(Clone, Copy, Debug, PartialEq, Eq, Default)]
pub struct ZeroOne(pub bool);

impl ZeroOne {
    pub fn encode(&self, ctx: Ctx, out: &mut Vec<u8>) -> (r: Result<(), Error>)
        ensures
            r is Ok,
            final(out)@ == old(out)@ + zero_one::enc_bool(self.0),
    {
        zero_one::encode(self.0, ctx, out)
    }

    pub fn decode(ctx: Ctx, buf: &[u8], pos: usize) -> (r: Result<(ZeroOne, usize), Error>)
        requires
            pos <= buf@.len(),
        ensures
            match zero_one::dec_bool(buf@.skip(pos as int)) {
                Ok((b, k)) => r matches Ok((v, q)) && v.0 == b && q == pos + k,
                Err(e) => r == Err::<(ZeroOne, usize), Error>(e),
            },
    {
        match zero_one::decode(ctx, buf, pos) {
            Ok((b, q)) => Ok((ZeroOne(b), q)),
            Err(e) => Err(e),
        }
    }

    pub fn encoded_size(&self, ctx: Ctx) -> (r: usize)
        ensures
            r == 1,
    {
        zero_one::encoded_size(self.0, ctx)
    }
}

/// A string that travels as its UTF-8 bytes, their count carried by the context.
#[derive(Clone, Debug, PartialEq, Eq, Default)]
pub struct Utf8(pub String);

impl Utf8 {
    pub fn encode(&self, ctx: Ctx, out: &mut Vec<u8>) -> (r: Result<(), Error>)
        ensures
            match utf8::enc_text(ctx, self.0@) {
                Ok(b) => r is Ok && final(out)@ == old(out)@ + b,
                Err(e) => r == Err::<(), Error>(e),
            },
    {
        utf8::encode(self.0.as_str(), ctx, out)
    }

    pub fn decode(ctx: Ctx, buf: &[u8], pos: usize) -> (r: Result<(Utf8, usize), Error>)
        requires
            pos <= buf@.len(),
        ensures
            match utf8::dec_text(ctx, buf@.skip(pos as int)) {
                Ok((t, k)) => r matches Ok((v, q)) && v.0@ == t && q == pos + k,
                Err(e) => r == Err::<(Utf8, usize), Error>(e),
            },
    {
        match utf8::decode(ctx, buf, pos) {
            Ok((s, q)) => Ok((Utf8(s), q)),
            Err(e) => Err(e),
        }
    }

    pub fn encoded_size(&self, ctx: Ctx) -> (r: usize)
        ensures
            r == vstd::utf8::encode_utf8(self.0@).len(),
    {
        utf8::encoded_size(self.0.as_str(), ctx)
    }
}

/// A run of bytes, framed on the wire by a count prefix or by the context's length.
#[derive(Clone, Debug, PartialEq, Eq, Default)]
pub struct Bytes {
    data: Vec<u8>,
}

impl View for Bytes {
    type V = Seq<u8>;

    closed spec fn view(&self) -> Seq<u8> {
        self.data@
    }
}

impl Bytes {
    pub fn new(vec: Vec<u8>) -> (r: Bytes)
        ensures
            r@ == vec@,
    {
        Bytes { data: vec }
    }

    pub fn as_bytes(&self) -> (r: &[u8])
        ensures
            r@ == self@,
    {
        self.data.as_slice()
    }

    pub fn into_vec(self) -> (r: Vec<u8>)
        ensures
            r@ == self@,
    {
        self.data
    }

    /// Writes the count under prefix `p`, then the bytes.
    pub fn encode(&self, p: Prefix, ctx: Ctx, out: &mut Vec<u8>) -> (r: Result<(), Error>)
        requires
            p.wf(),
        ensures
            match enc_frame(p, ctx, self@) {
                Ok(b) => r is Ok && final(out)@ == old(out)@ + b,
                Err(e) => r == Err::<(), Error>(e),
            },
    {
        encode_frame(p, ctx, self.data.as_slice(), out)
    }

    /// Reads a count under prefix `p` at `pos`, then that many bytes.
    pub fn decode(p: Prefix, ctx: Ctx, buf: &[u8], pos: usize) -> (r: Result<(Bytes, usize), Error>)
        requires
            p.wf(),
            pos <= buf@.len(),
        ensures
            match dec_frame(p, ctx, buf@.skip(pos as int)) {
                Ok((b, k)) => r matches Ok((v, q)) && v@ == b && q == pos + k,
                Err(e) => r == Err::<(Bytes, usize), Error>(e),
            },
    {
        match decode_frame(p, ctx, buf, pos) {
            Ok((data, q)) => Ok((Bytes { data }, q)),
            Err(e) => Err(e),
        }
    }

    /// The prefix's width plus the number of bytes, saturating.
    pub fn encoded_size(&self, p: Prefix, _ctx: Ctx) -> (r: usize)
        requires
            p.wf(),
        ensures
            r == clip((p.width() + self@.len()) as nat),
    {
        let w: usize = match p {
            Prefix::NoPrefix => 0,
            Prefix::Int(c) => c.width,
        };
        add_clip(w, self.data.len())
    }
}

/// A sequence of integers, framed on the wire by a count prefix or by the
/// context's length.
#[derive(Clone, Debug, PartialEq, Eq, Default)]
pub struct PrefixVec {
    items: Vec<u64>,
}

impl View for PrefixVec {
    type V = Seq<u64>;

    closed spec fn view(&self) -> Seq<u64> {
        self.items@
    }
}

/// The size of a sequence of `n` integers of layout `c` under prefix `p`.
pub open spec fn seq_size(p: Prefix, c: IntCodec, n: nat) -> nat {
    (p.width() + n * c.width) as nat
}

/// `seq_size`, saturating at `usize::MAX`.
pub fn sequence_size(p: Prefix, c: IntCodec, n: usize) -> (r: usize)
    requires
        p.wf(),
    ensures
        r == clip(seq_size(p, c, n as nat)),
{
    let w: usize = match p {
        Prefix::NoPrefix => 0,
        Prefix::Int(pc) => pc.width,
    };
    let body = mul_clip(n, c.width);
    proof {
        lemma_clip_add(w as nat, (n * c.width) as nat);
    }
    add_clip(w, body)
}

impl PrefixVec {
    pub fn new(vec: Vec<u64>) -> (r: PrefixVec)
        ensures
            r@ == vec@,
    {
        PrefixVec { items: vec }
    }

    pub fn as_slice(&self) -> (r: &[u64])
        ensures
            r@ == self@,
    {
        self.items.as_slice()
    }

    pub fn into_vec(self) -> (r: Vec<u64>)
        ensures
            r@ == self@,
    {
        self.items
    }

    /// Writes the count under prefix `p`, then each element with codec `c`.
    pub fn encode(&self, p: Prefix, c: IntCodec, ctx: Ctx, out: &mut Vec<u8>) -> (r: Result<(), Error>)
        requires
            p.wf(),
            c.wf(),
        ensures
            match enc_seq(p, c, ctx, self@) {
                Ok(b) => r is Ok && final(out)@ == old(out)@ + b,
                Err(e) => r == Err::<(), Error>(e),
            },
    {
        encode_seq(p, c, ctx, self.items.as_slice(), out)
    }

    /// Reads a count under prefix `p` at `pos`, then that many elements.
    pub fn decode(p: Prefix, c: IntCodec, ctx: Ctx, buf: &[u8], pos: usize) -> (r: Result<(PrefixVec, usize), Error>)
        requires
            p.wf(),
            c.wf(),
            pos <= buf@.len(),
        ensures
            match dec_seq(p, c, ctx, buf@.skip(pos as int)) {
                Ok((xs, k)) => r matches Ok((v, q)) && v@ == xs && q == pos + k,
                Err(e) => r == Err::<(PrefixVec, usize), Error>(e),
            },
    {
        match decode_seq(p, c, ctx, buf, pos) {
            Ok((items, q)) => Ok((PrefixVec { items }, q)),
            Err(e) => Err(e),
        }
    }

    /// The prefix's width plus the elements' widths, saturating.
    pub fn encoded_size(&self, p: Prefix, c: IntCodec, _ctx: Ctx) -> (r: usize)
        requires
            p.wf(),
        ensures
            r == clip(seq_size(p, c, self@.len())),
    {
        sequence_size(p, c, self.items.len())
    }
}

} // verus!
