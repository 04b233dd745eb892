//! Booleans as a single byte: 0 for false, 1 for true.

use vstd::prelude::*;
use crate::codec::unexpected_end;
use crate::ctx::Ctx;
use crate::error::{Error, Fault};

verus! {

/// The byte that writes `b`.
pub open spec fn enc_bool(b: bool) -> Seq<u8> {
    seq![if b { 1u8 } else { 0u8 }]
}

/// Reading a boolean byte from the front of `s`.
pub open spec fn dec_bool(s: Seq<u8>) -> Result<(bool, nat), Error> {
    if s.len() == 0 {
        Err(unexpected_end())
    } else if s[0] == 0 {
        Ok((false, 1))
    } else if s[0] == 1 {
        Ok((true, 1))
    } else {
        Err(Error::Other(Fault::NotZeroOne(s[0])))
    }
}

/// Writes `b` as one byte; the context is not consulted.
pub fn encode(b: bool, _ctx: Ctx, out: &mut Vec<u8>) -> (r: Result<(), Error>)
    ensures
        r is Ok,
        final(out)@ == old(out)@ + enc_bool(b),
{
    let byte: u8 = if b {
        1
    } else {
        0
    };
    out.push(byte);
    assert(out@ =~= old(out)@ + enc_bool(b));
    Ok(())
}

/// Reads a boolean byte at `pos`; any byte but 0 and 1 is refused.
pub fn decode(_ctx: Ctx, buf: &[u8], pos: usize) -> (r: Result<(bool, usize), Error>)
    requires
        pos <= buf@.len(),
    ensures
        match dec_bool(buf@.skip(pos as int)) {
            Ok((b, k)) => r matches Ok((b2, q)) && b2 == b && q == pos + k,
            Err(e) => r == Err::<(bool, usize), Error>(e),
        },
        r matches Ok((_, q)) ==> pos <= q <= buf@.len(),
{
    if pos >= buf.len() {
        return Err(Error::Other(Fault::UnexpectedEnd));
    }
    let byte = buf[pos];
    if byte == 0 {
        Ok((false, pos + 1))
    } else if byte == 1 {
        Ok((true, pos + 1))
    } else {
        Err(Error::Other(Fault::NotZeroOne(byte)))
    }
}

/// A boolean always takes one byte.
pub fn encoded_size(_b: bool, _ctx: Ctx) -> (r: usize)
    ensures
        r == 1,
{
    1
}

pub proof fn lemma_bool_round_trip(b: bool, rest: Seq<u8>)
    ensures
        enc_bool(b).len() == 1,
        dec_bool(enc_bool(b) + rest) == Ok::<(bool, nat), Error>((b, 1)),
{
    assert((enc_bool(b) + rest)[0] == enc_bool(b)[0]);
}

} // verus!
