use vstd::prelude::*;

verus! {

/// A cause that did not originate in this library's framing: short input,
/// a failed integer conversion, a value that a leaf encoding rejects.
#[derive(Clone, Copy, Debug, PartialEq, Eq, Structural)]
pub enum Fault {
    /// The input ended before a complete value was read.
    UnexpectedEnd,
    /// A number does not fit in the integer type that must hold it.
    Overflow,
    /// A boolean byte that is neither 0 nor 1.
    NotZeroOne(u8),
    /// Bytes that are not well-formed UTF-8.
    InvalidUtf8,
    /// A discriminant that matches no case of the union; carries the raw value.
    UnknownId(u64),
    /// The externally supplied discriminant disagrees with the case being encoded.
    IdMismatch(u64),
    /// A codec needs a piece of context (byte order, element count, discriminant)
    /// that the context in force does not carry.
    MissingContext,
    /// The value does not have the shape that the schema declares for it.
    ShapeMismatch,
}

/// Encoding and decoding errors.
#[derive(Debug, PartialEq, Eq)]
pub enum Error {
    /// Encoding or decoding a union's discriminant failed.
    TagError(Box<Error>),
    /// Encoding or decoding the named field failed.
    FieldError(&'static str, Box<Error>),
    /// A complete value was read and this many bytes were left over.
    RemainingBytes(usize),
    /// A sequence's length disagrees with the length that the context requires.
    UnexpectedLength { expected: usize, received: usize },
    /// A free-form message.
    Custom(String),
    /// A wrapped foreign cause.
    Other(Fault),
}

/// The error that labels `inner` as a failure of field `name`.
pub open spec fn field_error(name: &'static str, inner: Error) -> Error {
    Error::FieldError(name, Box::new(inner))
}

/// The error that labels `inner` as a failure at a union's discriminant.
pub open spec fn tag_error(inner: Error) -> Error {
    Error::TagError(Box::new(inner))
}

/// The field names that an error's chain passes through, outermost first.
pub open spec fn field_path(e: Error) -> Seq<&'static str>
    decreases e,
{
    match e {
        Error::FieldError(name, inner) => seq![name] + field_path(*inner),
        Error::TagError(inner) => field_path(*inner),
        _ => seq![],
    }
}

/// The innermost cause of an error chain.
pub open spec fn root_cause(e: Error) -> Error
    decreases e,
{
    match e {
        Error::FieldError(_, inner) => root_cause(*inner),
        Error::TagError(inner) => root_cause(*inner),
        _ => e,
    }
}

impl Error {
    /// A free-form error carrying `message`.
    pub fn new(message: &str) -> (r: Error)
        ensures
            r matches Error::Custom(m) && m@ == message@,
    {
        Error::Custom(message.to_owned())
    }

    /// Wraps a foreign cause.
    pub fn wrap(cause: Fault) -> (r: Error)
        ensures
            r == Error::Other(cause),
    {
        Error::Other(cause)
    }

    /// Labels `inner` as a failure of field `name`, keeping it as the cause.
    pub fn field(name: &'static str, inner: Error) -> (r: Error)
        ensures
            r == field_error(name, inner),
    {
        Error::FieldError(name, Box::new(inner))
    }

    /// Labels `inner` as a failure at a union's discriminant, keeping it as the cause.
    pub fn tag(inner: Error) -> (r: Error)
        ensures
            r == tag_error(inner),
    {
        Error::TagError(Box::new(inner))
    }

    /// The field names along this error's chain, outermost first.
    pub fn path(&self) -> (r: Vec<&'static str>)
        ensures
            r@ == field_path(*self),
        decreases *self,
    {
        match self {
            Error::FieldError(name, inner) => {
                let rest = inner.path();
                let mut r: Vec<&'static str> = Vec::new();
                r.push(*name);
                let mut i: usize = 0;
                while i < rest.len()
                    invariant
                        i <= rest@.len(),
                        r@ == seq![*name] + rest@.take(i as int),
                    decreases rest@.len() - i,
                {
                    r.push(rest[i]);
                    i = i + 1;
                    assert(r@ =~= seq![*name] + rest@.take(i as int));
                }
                assert(rest@.take(rest@.len() as int) =~= rest@);
                r
            },
            Error::TagError(inner) => inner.path(),
            _ => Vec::new(),
        }
    }

    /// The innermost cause of this error's chain.
    pub fn root(&self) -> (r: &Error)
        ensures
            *r == root_cause(*self),
        decreases *self,
    {
        match self {
            Error::FieldError(_, inner) => inner.root(),
            Error::TagError(inner) => inner.root(),
            _ => self,
        }
    }
}

} // verus!
