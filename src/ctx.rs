use vstd::prelude::*;

verus! {

/// Byte order of a multi-byte integer on the wire.
#[derive(Clone, Copy, Debug, PartialEq, Eq, Structural)]
pub enum Endian {
    Little,
    Big,
}

/// Layout information handed to a codec next to the value itself.
///
/// A context may carry several pieces at once (an element count together with
/// a byte order): this is how contexts compose.
#[derive(Clone, Copy, Debug, PartialEq, Eq, Structural)]
pub struct Ctx {
    /// Byte order for integers whose codec does not fix one.
    pub endian: Option<Endian>,
    /// Element count for sequences that carry no length prefix.
    pub len: Option<usize>,
    /// Externally supplied discriminant of a tagged union.
    pub id: Option<u64>,
}

impl Ctx {
    /// The empty context: no layout information at all.
    pub fn unit() -> (r: Ctx)
        ensures
            r == (Ctx { endian: None, len: None, id: None }),
    {
        Ctx { endian: None, len: None, id: None }
    }

    /// A context that carries only a byte order.
    pub fn endian(e: Endian) -> (r: Ctx)
        ensures
            r == (Ctx { endian: Some(e), len: None, id: None }),
    {
        Ctx { endian: Some(e), len: None, id: None }
    }

    /// A context that carries only an element count.
    pub fn len(n: usize) -> (r: Ctx)
        ensures
            r == (Ctx { endian: None, len: Some(n), id: None }),
    {
        Ctx { endian: None, len: Some(n), id: None }
    }

    /// A context that carries only an externally supplied discriminant.
    pub fn id(t: u64) -> (r: Ctx)
        ensures
            r == (Ctx { endian: None, len: None, id: Some(t) }),
    {
        Ctx { endian: None, len: None, id: Some(t) }
    }

    /// This context with its element count replaced.
    pub fn with_len(self, n: usize) -> (r: Ctx)
        ensures
            r == (Ctx { len: Some(n), ..self }),
    {
        Ctx { len: Some(n), ..self }
    }

    /// This context with its byte order replaced.
    pub fn with_endian(self, e: Endian) -> (r: Ctx)
        ensures
            r == (Ctx { endian: Some(e), ..self }),
    {
        Ctx { endian: Some(e), ..self }
    }
}

} // verus!
