//! Strings as a run of UTF-8 bytes whose length the context carries.

use vstd::prelude::*;
use vstd::utf8::{decode_utf8, encode_utf8, encode_utf8_decode_utf8, encode_utf8_valid_utf8, valid_utf8};
use crate::codec::{len_decodable, Prefix};
use crate::ctx::Ctx;
use crate::error::{Error, Fault};
use crate::util::{dec_frame, decode_frame, enc_frame, encode_frame, lemma_frame_round_trip};

verus! {

/// The bytes that write the characters `t`.
pub open spec fn enc_text(ctx: Ctx, t: Seq<char>) -> Result<Seq<u8>, Error> {
    enc_frame(Prefix::NoPrefix, ctx, encode_utf8(t))
}

/// Reading a string from the front of `s`: as many bytes as the context's
/// length says, which must be well-formed UTF-8.
pub open spec fn dec_text(ctx: Ctx, s: Seq<u8>) -> Result<(Seq<char>, nat), Error> {
    match dec_frame(Prefix::NoPrefix, ctx, s) {
        Err(e) => Err(e),
        Ok((b, k)) => if valid_utf8(b) {
            Ok((decode_utf8(b), k))
        } else {
            Err(Error::Other(Fault::InvalidUtf8))
        },
    }
}

/// Relies on std::str::from_utf8: it accepts exactly the well-formed UTF-8
/// byte strings, and returns the characters that they encode.
#[verifier::external_body]
fn text_of_bytes(b: &[u8]) -> (r: Option<String>)
    ensures
        r is Some <==> valid_utf8(b@),
        r matches Some(s) ==> s@ == decode_utf8(b@),
{
    match std::str::from_utf8(b) {
        Ok(s) => Some(s.to_owned()),
        Err(_) => None,
    }
}

/// Writes the UTF-8 bytes of `s`; a length in the context must match theirs.
pub fn encode(s: &str, ctx: Ctx, out: &mut Vec<u8>) -> (r: Result<(), Error>)
    ensures
        match enc_text(ctx, s@) {
            Ok(b) => r is Ok && final(out)@ == old(out)@ + b,
            Err(e) => r == Err::<(), Error>(e),
        },
{
    encode_frame(Prefix::NoPrefix, ctx, s.as_bytes(), out)
}

/// Reads as many bytes as the context's length says at `pos`, as a string.
pub fn decode(ctx: Ctx, buf: &[u8], pos: usize) -> (r: Result<(String, usize), Error>)
    requires
        pos <= buf@.len(),
    ensures
        match dec_text(ctx, buf@.skip(pos as int)) {
            Ok((t, k)) => r matches Ok((v, q)) && v@ == t && q == pos + k,
            Err(e) => r == Err::<(String, usize), Error>(e),
        },
        r matches Ok((_, q)) ==> pos <= q <= buf@.len(),
{
    match decode_frame(Prefix::NoPrefix, ctx, buf, pos) {
        Err(e) => Err(e),
        Ok((bytes, q)) => match text_of_bytes(bytes.as_slice()) {
            Some(text) => Ok((text, q)),
            None => Err(Error::Other(Fault::InvalidUtf8)),
        },
    }
}

/// The number of UTF-8 bytes of `s`.
pub fn encoded_size(s: &str, _ctx: Ctx) -> (r: usize)
    ensures
        r == encode_utf8(s@).len(),
{
    s.as_bytes().len()
}

pub proof fn lemma_text_round_trip(ctx: Ctx, t: Seq<char>, rest: Seq<u8>)
    requires
        ctx.len is Some,
        encode_utf8(t).len() <= usize::MAX,
        enc_text(ctx, t) is Ok,
    ensures
        enc_text(ctx, t)->Ok_0.len() == encode_utf8(t).len(),
        dec_text(ctx, enc_text(ctx, t)->Ok_0 + rest) == Ok::<(Seq<char>, nat), Error>(
            (t, encode_utf8(t).len()),
        ),
{
    assert(len_decodable(Prefix::NoPrefix, ctx));
    lemma_frame_round_trip(Prefix::NoPrefix, ctx, encode_utf8(t), rest);
    encode_utf8_valid_utf8(t);
    encode_utf8_decode_utf8(t);
}

} // verus!
