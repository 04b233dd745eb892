use vstd::prelude::*;
use crate::ctx::{Ctx, Endian};
use crate::error::{Error, Fault};
use crate::scalar::{
    fits_width, get_uint, int_bytes, int_value, lemma_int_bytes_len, lemma_int_round_trip,
    pow256, put_uint,
};

verus! {

/// How an unsigned integer is laid out: its width in bytes and, unless the
/// context supplies it, its byte order.
#[derive(Clone, Copy, Debug, PartialEq, Eq, Structural)]
pub struct IntCodec {
    /// 1, 2, 4 or 8.
    pub width: usize,
    /// A fixed byte order; `None` takes the byte order from the context.
    pub endian: Option<Endian>,
}

/// How a sequence states its element count.
#[derive(Clone, Copy, Debug, PartialEq, Eq, Structural)]
pub enum Prefix {
    /// No count on the wire: the context carries it.
    NoPrefix,
    /// The count is written first, as an integer of this layout.
    Int(IntCodec),
}

impl IntCodec {
    pub open spec fn wf(self) -> bool {
        self.width == 1 || self.width == 2 || self.width == 4 || self.width == 8
    }

    /// The byte order that this codec uses under `ctx`; a single byte needs none.
    pub open spec fn order(self, ctx: Ctx) -> Option<Endian> {
        if self.width == 1 {
            Some(Endian::Big)
        } else if self.endian is Some {
            self.endian
        } else {
            ctx.endian
        }
    }

    /// An integer of `width` bytes that takes its byte order from the context.
    pub fn native(width: usize) -> (r: IntCodec)
        ensures
            r == (IntCodec { width, endian: None }),
    {
        IntCodec { width, endian: None }
    }

    /// An integer of `width` bytes, little-endian whatever the context says.
    pub fn little(width: usize) -> (r: IntCodec)
        ensures
            r == (IntCodec { width, endian: Some(Endian::Little) }),
    {
        IntCodec { width, endian: Some(Endian::Little) }
    }

    /// An integer of `width` bytes, big-endian whatever the context says.
    pub fn big(width: usize) -> (r: IntCodec)
        ensures
            r == (IntCodec { width, endian: Some(Endian::Big) }),
    {
        IntCodec { width, endian: Some(Endian::Big) }
    }
}

impl Prefix {
    pub open spec fn wf(self) -> bool {
        match self {
            Prefix::NoPrefix => true,
            Prefix::Int(c) => c.wf(),
        }
    }

    /// Bytes that the count takes on the wire.
    pub open spec fn width(self) -> nat {
        match self {
            Prefix::NoPrefix => 0,
            Prefix::Int(c) => c.width as nat,
        }
    }
}

/// `n` where it fits in `usize`, else `usize::MAX`.
pub open spec fn clip(n: nat) -> usize {
    if n <= usize::MAX {
        n as usize
    } else {
        usize::MAX
    }
}

/// `a + b`, saturating at `usize::MAX`.
pub fn add_clip(a: usize, b: usize) -> (r: usize)
    ensures
        r == clip((a + b) as nat),
{
    a.saturating_add(b)
}

/// `a * b`, saturating at `usize::MAX`.
pub fn mul_clip(a: usize, b: usize) -> (r: usize)
    ensures
        r == clip((a * b) as nat),
{
    match a.checked_mul(b) {
        Some(m) => m,
        None => usize::MAX,
    }
}

pub proof fn lemma_clip_add(a: nat, b: nat)
    ensures
        clip((clip(a) + clip(b)) as nat) == clip(a + b),
{
}

pub open spec fn missing_context() -> Error {
    Error::Other(Fault::MissingContext)
}

pub open spec fn unexpected_end() -> Error {
    Error::Other(Fault::UnexpectedEnd)
}

/// The bytes that write `v` with codec `c` under `ctx`.
pub open spec fn enc_int(c: IntCodec, ctx: Ctx, v: u64) -> Result<Seq<u8>, Error> {
    match c.order(ctx) {
        None => Err(missing_context()),
        Some(e) => if v < pow256(c.width as nat) {
            Ok(int_bytes(v as nat, c.width as nat, e))
        } else {
            Err(Error::Other(Fault::Overflow))
        },
    }
}

/// Reading an integer with codec `c` under `ctx` from the front of `s`:
/// the value and the number of bytes taken.
pub open spec fn dec_int(c: IntCodec, ctx: Ctx, s: Seq<u8>) -> Result<(u64, nat), Error> {
    match c.order(ctx) {
        None => Err(missing_context()),
        Some(e) => if s.len() < c.width {
            Err(unexpected_end())
        } else {
            Ok((int_value(s.take(c.width as int), e) as u64, c.width as nat))
        },
    }
}

/// The bytes that state element count `n` under prefix `p`.
pub open spec fn enc_len(p: Prefix, ctx: Ctx, n: nat) -> Result<Seq<u8>, Error> {
    match p {
        Prefix::NoPrefix => match ctx.len {
            None => Ok(seq![]),
            Some(l) => if l == n {
                Ok(seq![])
            } else {
                Err(Error::UnexpectedLength { expected: l, received: n as usize })
            },
        },
        Prefix::Int(c) => if n <= u64::MAX {
            enc_int(c, ctx, n as u64)
        } else {
            Err(Error::Other(Fault::Overflow))
        },
    }
}

/// Reading an element count under prefix `p` from the front of `s`:
/// the count and the number of bytes taken.
pub open spec fn dec_len(p: Prefix, ctx: Ctx, s: Seq<u8>) -> Result<(usize, nat), Error> {
    match p {
        Prefix::NoPrefix => match ctx.len {
            None => Err(missing_context()),
            Some(l) => Ok((l, 0)),
        },
        Prefix::Int(c) => match dec_int(c, ctx, s) {
            Err(e) => Err(e),
            Ok((v, k)) => if v <= usize::MAX {
                Ok((v as usize, k))
            } else {
                Err(Error::Other(Fault::Overflow))
            },
        },
    }
}

/// Whether decoding can recover a count of `n` under prefix `p` and `ctx`.
pub open spec fn len_decodable(p: Prefix, ctx: Ctx) -> bool {
    p is NoPrefix ==> ctx.len is Some
}

pub proof fn lemma_int_round_trip_codec(c: IntCodec, ctx: Ctx, v: u64, rest: Seq<u8>)
    requires
        c.wf(),
        enc_int(c, ctx, v) is Ok,
    ensures
        enc_int(c, ctx, v)->Ok_0.len() == c.width,
        dec_int(c, ctx, enc_int(c, ctx, v)->Ok_0 + rest) == Ok::<(u64, nat), Error>(
            (v, c.width as nat),
        ),
{
    let e = c.order(ctx)->0;
    let b = int_bytes(v as nat, c.width as nat, e);
    lemma_int_bytes_len(v as nat, c.width as nat, e);
    lemma_int_round_trip(v as nat, c.width as nat, e);
    assert((b + rest).take(c.width as int) =~= b);
}

pub proof fn lemma_len_round_trip(p: Prefix, ctx: Ctx, n: usize, rest: Seq<u8>)
    requires
        p.wf(),
        len_decodable(p, ctx),
        enc_len(p, ctx, n as nat) is Ok,
    ensures
        enc_len(p, ctx, n as nat)->Ok_0.len() == p.width(),
        dec_len(p, ctx, enc_len(p, ctx, n as nat)->Ok_0 + rest) == Ok::<(usize, nat), Error>(
            (n, p.width()),
        ),
{
    match p {
        Prefix::NoPrefix => {},
        Prefix::Int(c) => {
            lemma_int_round_trip_codec(c, ctx, n as u64, rest);
        },
    }
}

pub proof fn lemma_len_size(p: Prefix, ctx: Ctx, n: nat)
    requires
        p.wf(),
        enc_len(p, ctx, n) is Ok,
    ensures
        enc_len(p, ctx, n)->Ok_0.len() == p.width(),
{
    if let Prefix::Int(c) = p {
        lemma_int_round_trip_codec(c, ctx, n as u64, seq![]);
    }
}

/// Writes `v` with codec `c` under `ctx`.
pub fn encode_int(c: IntCodec, ctx: Ctx, v: u64, out: &mut Vec<u8>) -> (r: Result<(), Error>)
    requires
        c.wf(),
    ensures
        match enc_int(c, ctx, v) {
            Ok(b) => r is Ok && final(out)@ == old(out)@ + b,
            Err(e) => r == Err::<(), Error>(e) && final(out)@ == old(out)@,
        },
{
    let order = if c.width == 1 {
        Some(Endian::Big)
    } else if c.endian.is_some() {
        c.endian
    } else {
        ctx.endian
    };
    match order {
        None => Err(Error::Other(Fault::MissingContext)),
        Some(e) => {
            if fits_width(v, c.width) {
                put_uint(out, v, c.width, e);
                Ok(())
            } else {
                Err(Error::Other(Fault::Overflow))
            }
        },
    }
}

/// Reads an integer with codec `c` under `ctx` at `pos`; returns it and the
/// position after it.
pub fn decode_int(c: IntCodec, ctx: Ctx, buf: &[u8], pos: usize) -> (r: Result<(u64, usize), Error>)
    requires
        c.wf(),
        pos <= buf@.len(),
    ensures
        match dec_int(c, ctx, buf@.skip(pos as int)) {
            Ok((v, k)) => r matches Ok((v2, q)) && v2 == v && q == pos + k,
            Err(e) => r == Err::<(u64, usize), Error>(e),
        },
        r matches Ok((_, q)) ==> pos <= q <= buf@.len(),
{
    let order = if c.width == 1 {
        Some(Endian::Big)
    } else if c.endian.is_some() {
        c.endian
    } else {
        ctx.endian
    };
    match order {
        None => Err(Error::Other(Fault::MissingContext)),
        Some(e) => {
            if buf.len() - pos < c.width {
                Err(Error::Other(Fault::UnexpectedEnd))
            } else {
                let v = get_uint(buf, pos, c.width, e);
                assert(buf@.skip(pos as int).take(c.width as int) =~= buf@.subrange(
                    pos as int,
                    pos + c.width,
                ));
                Ok((v, pos + c.width))
            }
        },
    }
}

/// Writes the element count `n` under prefix `p`.
pub fn encode_len(p: Prefix, ctx: Ctx, n: usize, out: &mut Vec<u8>) -> (r: Result<(), Error>)
    requires
        p.wf(),
    ensures
        match enc_len(p, ctx, n as nat) {
            Ok(b) => r is Ok && final(out)@ == old(out)@ + b,
            Err(e) => r == Err::<(), Error>(e) && final(out)@ == old(out)@,
        },
{
    match p {
        Prefix::NoPrefix => match ctx.len {
            None => {
                assert(out@ =~= out@ + Seq::<u8>::empty());
                Ok(())
            },
            Some(l) => {
                if l == n {
                    assert(out@ =~= out@ + Seq::<u8>::empty());
                    Ok(())
                } else {
                    Err(Error::UnexpectedLength { expected: l, received: n })
                }
            },
        },
        Prefix::Int(c) => {
            if n as u64 as usize == n {
                encode_int(c, ctx, n as u64, out)
            } else {
                Err(Error::Other(Fault::Overflow))
            }
        },
    }
}

/// Reads an element count under prefix `p` at `pos`; returns it and the
/// position after it.
pub fn decode_len(p: Prefix, ctx: Ctx, buf: &[u8], pos: usize) -> (r: Result<(usize, usize), Error>)
    requires
        p.wf(),
        pos <= buf@.len(),
    ensures
        match dec_len(p, ctx, buf@.skip(pos as int)) {
            Ok((n, k)) => r matches Ok((n2, q)) && n2 == n && q == pos + k,
            Err(e) => r == Err::<(usize, usize), Error>(e),
        },
        r matches Ok((_, q)) ==> pos <= q <= buf@.len(),
{
    match p {
        Prefix::NoPrefix => match ctx.len {
            None => Err(Error::Other(Fault::MissingContext)),
            Some(l) => Ok((l, pos)),
        },
        Prefix::Int(c) => match decode_int(c, ctx, buf, pos) {
            Err(e) => Err(e),
            Ok((v, q)) => {
                if v as usize as u64 == v {
                    Ok((v as usize, q))
                } else {
                    Err(Error::Other(Fault::Overflow))
                }
            },
        },
    }
}

} // verus!
