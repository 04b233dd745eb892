//! Schemas: the declarative description of a record or tagged union from
//! which the engine derives encoding, decoding and sizing.

use vstd::prelude::*;
use crate::codec::IntCodec;
use crate::ctx::{Ctx, Endian};
use crate::scalar::pow256;
use crate::value::Kind;

verus! {

/// A setting that may be given once for both directions, or separately for
/// encoding and for decoding.
#[derive(Clone, Copy, Debug, PartialEq, Eq)]
pub enum Asym<T> {
    Single(T),
    Multi { encode: Option<T>, decode: Option<T> },
}

impl<T> Asym<T> {
    /// The setting in force when encoding.
    pub open spec fn enc_part(self) -> Option<T> {
        match self {
            Asym::Single(v) => Some(v),
            Asym::Multi { encode, .. } => encode,
        }
    }

    /// The setting in force when decoding.
    pub open spec fn dec_part(self) -> Option<T> {
        match self {
            Asym::Single(v) => Some(v),
            Asym::Multi { decode, .. } => decode,
        }
    }

    /// Neither direction has a setting.
    pub fn none() -> (r: Asym<T>)
        ensures
            r.enc_part() is None,
            r.dec_part() is None,
    {
        Asym::Multi { encode: None, decode: None }
    }

    /// Whether either direction has a setting.
    pub fn is_some(&self) -> (r: bool)
        ensures
            r == (self.enc_part() is Some || self.dec_part() is Some),
    {
        match self {
            Asym::Single(_) => true,
            Asym::Multi { encode, decode } => encode.is_some() || decode.is_some(),
        }
    }

    /// Whether neither direction has a setting.
    pub fn is_none(&self) -> (r: bool)
        ensures
            r == (self.enc_part() is None && self.dec_part() is None),
    {
        !self.is_some()
    }

    /// The setting in force when encoding.
    pub fn encode(&self) -> (r: Option<&T>)
        ensures
            r matches Some(v) ==> self.enc_part() == Some(*v),
            r is None ==> self.enc_part() is None,
    {
        match self {
            Asym::Single(v) => Some(v),
            Asym::Multi { encode, .. } => encode.as_ref(),
        }
    }

    /// The setting in force when decoding.
    pub fn decode(&self) -> (r: Option<&T>)
        ensures
            r matches Some(v) ==> self.dec_part() == Some(*v),
            r is None ==> self.dec_part() is None,
    {
        match self {
            Asym::Single(v) => Some(v),
            Asym::Multi { decode, .. } => decode.as_ref(),
        }
    }
}

/// An expression for a field's context.
#[derive(Clone, Copy, Debug, PartialEq, Eq, Structural)]
pub enum CtxExpr {
    /// The context that the caller passed, whatever the container declares.
    Caller,
    /// A fixed context value.
    Fixed(Ctx),
    /// An element count taken from an earlier integer field, with a byte order
    /// if one is given.
    LenOf { field: usize, endian: Option<Endian> },
    /// A discriminant taken from an earlier integer field, for a nested union
    /// whose discriminant its enclosing record holds.
    IdOf { field: usize },
}

/// A condition on earlier fields under which a field is absent from the wire.
#[derive(Clone, Copy, Debug, PartialEq, Eq, Structural)]
pub struct SkipIf {
    /// The earlier integer field that is tested.
    pub field: usize,
    /// The field is skipped when that field holds this value.
    pub value: u64,
}

/// An expression for a union's discriminant, evaluated over the caller's context.
#[derive(Clone, Copy, Debug, PartialEq, Eq, Structural)]
pub enum IdExpr {
    /// The discriminant that the caller's context carries.
    FromCtx,
    /// A constant.
    Const(u64),
}

/// One field of a record or of a union's case.
#[derive(Clone, Copy, Debug, PartialEq, Eq)]
pub struct Field {
    /// The field's name; positional fields have none.
    pub name: Option<&'static str>,
    /// The field's own type, whose codec is the default.
    pub ty: Kind,
    /// A context override; a direction without one uses the container's.
    pub ctx: Asym<CtxExpr>,
    /// A codec that replaces the type's own in both directions.
    pub with: Option<Kind>,
    /// A codec that replaces the type's own when encoding and sizing.
    pub encode_with: Option<Kind>,
    /// A codec that replaces the type's own when decoding.
    pub decode_with: Option<Kind>,
    /// An adapter type through which the value travels.
    pub via: Option<Kind>,
    /// A condition on earlier fields under which this one is absent.
    pub skip_if: Option<SkipIf>,
}

/// A case of a union (or the one case of a record): its literal discriminant
/// and its fields in wire order.
#[derive(Clone, Debug, PartialEq, Eq)]
pub struct Case {
    pub name: &'static str,
    pub id: u64,
    pub fields: Vec<Field>,
}

/// A record or tagged union and how it travels.
#[derive(Debug, PartialEq, Eq)]
pub struct Schema {
    pub name: &'static str,
    /// A tagged union; otherwise a record with exactly one case.
    pub union: bool,
    /// A fixed container context; a direction without one uses the caller's.
    pub ctx_is: Asym<Ctx>,
    /// The layout of a discriminant stored on the wire.
    pub id_type: Option<IntCodec>,
    /// The context under which the stored discriminant is written and read.
    pub id_ctx: Asym<Ctx>,
    /// A computed discriminant: checked when encoding, used when decoding.
    pub id_expr: Asym<IdExpr>,
    pub cases: Vec<Case>,
    /// The schemas that `Kind::Record` fields nest, by position. Only the
    /// outermost schema's list is consulted; a dependency's fields nest only
    /// dependencies that come before it.
    pub deps: Vec<Schema>,
}

/// Why a schema is refused.
#[derive(Clone, Copy, Debug, PartialEq, Eq, Structural)]
pub enum SchemaError {
    /// A record declares a computed discriminant.
    IdExprOnRecord,
    /// A record declares a stored discriminant.
    IdTypeOnRecord,
    /// A union declares neither a stored discriminant nor a computed one for decoding.
    MissingId,
    /// A union declares both a computed discriminant for decoding and a stored one.
    ConflictingId,
    /// A record does not have exactly one case.
    RecordShape,
    /// Two cases share a discriminant.
    DuplicateId(u64),
    /// A case's discriminant does not fit the stored discriminant's layout.
    IdTooWide(u64),
    /// A field declares a combined codec and a separate encode or decode codec.
    ConflictingCodecs(usize, usize),
    /// A codec of a field has an integer width other than 1, 2, 4 or 8.
    BadWidth(usize, usize),
    /// A field's context or skip condition refers to a field that is not earlier.
    ForwardReference(usize, usize),
    /// A field nests a dependency that is not available at its level.
    UnknownDependency(usize, usize),
    /// A field that may be skipped nests a record, which has no default value.
    NoDefault(usize, usize),
}

impl Field {
    /// The codec that writes this field: a separate encode codec, else the
    /// combined one, else the adapter, else the type's own.
    pub open spec fn encoder(self) -> Kind {
        if self.encode_with is Some {
            self.encode_with->0
        } else if self.with is Some {
            self.with->0
        } else if self.via is Some {
            self.via->0
        } else {
            self.ty
        }
    }

    /// The codec that reads this field, by the same precedence.
    pub open spec fn decoder(self) -> Kind {
        if self.decode_with is Some {
            self.decode_with->0
        } else if self.with is Some {
            self.with->0
        } else if self.via is Some {
            self.via->0
        } else {
            self.ty
        }
    }

    /// The name that errors carry for this field.
    pub open spec fn label(self) -> &'static str {
        match self.name {
            Some(n) => n,
            None => "_",
        }
    }

    pub open spec fn kinds_wf(self) -> bool {
        &&& self.ty.wf()
        &&& (self.with matches Some(k) ==> k.wf())
        &&& (self.encode_with matches Some(k) ==> k.wf())
        &&& (self.decode_with matches Some(k) ==> k.wf())
        &&& (self.via matches Some(k) ==> k.wf())
    }

    pub open spec fn codecs_exclusive(self) -> bool {
        self.with is Some ==> (self.encode_with is None && self.decode_with is None)
    }

    /// References go only to fields before position `index`.
    pub open spec fn refs_earlier(self, index: nat) -> bool {
        &&& ctx_refs_earlier(self.ctx.enc_part(), index)
        &&& ctx_refs_earlier(self.ctx.dec_part(), index)
        &&& (self.skip_if matches Some(s) ==> s.field < index)
    }

    /// Nested records refer only to dependencies before `level`.
    pub open spec fn kinds_below(self, level: nat) -> bool {
        &&& kind_below(self.ty, level)
        &&& (self.with matches Some(k) ==> kind_below(k, level))
        &&& (self.encode_with matches Some(k) ==> kind_below(k, level))
        &&& (self.decode_with matches Some(k) ==> kind_below(k, level))
        &&& (self.via matches Some(k) ==> kind_below(k, level))
    }

    /// A field that may be skipped decodes to a kind that has a default value.
    pub open spec fn skip_has_default(self) -> bool {
        self.skip_if is Some ==> !(self.decoder() is Record)
    }

    pub open spec fn wf(self, index: nat, level: nat) -> bool {
        &&& self.kinds_wf()
        &&& self.codecs_exclusive()
        &&& self.refs_earlier(index)
        &&& self.kinds_below(level)
        &&& self.skip_has_default()
    }

    /// Both directions use the same context and the same codec.
    pub open spec fn symmetric(self) -> bool {
        self.ctx.enc_part() == self.ctx.dec_part() && self.encoder() == self.decoder()
    }
}

/// A context expression refers only to fields before position `index`.
pub open spec fn ctx_refs_earlier(e: Option<CtxExpr>, index: nat) -> bool {
    match e {
        Some(CtxExpr::LenOf { field, .. }) => field < index,
        Some(CtxExpr::IdOf { field }) => field < index,
        _ => true,
    }
}

/// A nested record refers only to a dependency before `level`.
pub open spec fn kind_below(k: Kind, level: nat) -> bool {
    k matches Kind::Record(i) ==> i < level
}

impl Case {
    pub open spec fn wf(self, level: nat) -> bool {
        forall|j: int|
            0 <= j < self.fields@.len() ==> (#[trigger] self.fields@[j]).wf(j as nat, level)
    }
}

impl Schema {
    pub open spec fn tag_wf(self) -> bool {
        &&& (!self.union ==> self.id_expr.enc_part() is None && self.id_expr.dec_part() is None)
        &&& (!self.union ==> self.id_type is None)
        &&& (self.union ==> self.id_type is Some || self.id_expr.dec_part() is Some)
        &&& (self.id_type is Some ==> self.id_expr.dec_part() is None)
        &&& (!self.union ==> self.cases@.len() == 1)
    }

    pub open spec fn ids_wf(self) -> bool {
        &&& (self.union ==> forall|i: int, j: int|
            0 <= i < j < self.cases@.len() ==> #[trigger] self.cases@[i].id != #[trigger] self.cases@[j].id)
        &&& (self.id_type matches Some(c) ==> c.wf() && forall|i: int|
            0 <= i < self.cases@.len() ==> (#[trigger] self.cases@[i]).id < pow256(c.width as nat))
    }

    /// The schema is well formed on its own, its fields nesting only
    /// dependencies before `level`.
    pub open spec fn wf_at(self, level: nat) -> bool {
        &&& self.tag_wf()
        &&& self.ids_wf()
        &&& forall|i: int| 0 <= i < self.cases@.len() ==> (#[trigger] self.cases@[i]).wf(level)
    }

    /// The schema and each of its dependencies are well formed: the schema
    /// is one that validation accepts.
    pub open spec fn wf(self) -> bool {
        &&& self.wf_at(self.deps@.len())
        &&& forall|l: int| 0 <= l < self.deps@.len() ==> (#[trigger] self.deps@[l]).wf_at(l as nat)
    }

    /// Both directions use the same container context, the same context for a
    /// stored discriminant, and the same fields' contexts and codecs.
    pub open spec fn symmetric(self) -> bool {
        &&& self.ctx_is.enc_part() == self.ctx_is.dec_part()
        &&& self.id_ctx.enc_part() == self.id_ctx.dec_part()
        &&& forall|i: int, j: int|
            0 <= i < self.cases@.len() && 0 <= j < self.cases@[i].fields@.len()
                ==> (#[trigger] self.cases@[i].fields@[j]).symmetric()
    }
}

} // verus!

verus! {

fn width_ok(c: IntCodec) -> (r: bool)
    ensures
        r == c.wf(),
{
    c.width == 1 || c.width == 2 || c.width == 4 || c.width == 8
}

fn kind_ok(k: Kind) -> (r: bool)
    ensures
        r == k.wf(),
{
    match k {
        Kind::Int(c) => width_ok(c),
        Kind::ZeroOne => true,
        Kind::Bytes(p) => match p {
            crate::codec::Prefix::NoPrefix => true,
            crate::codec::Prefix::Int(c) => width_ok(c),
        },
        Kind::Utf8 => true,
        Kind::Ints(p, c) => {
            let pw = match p {
                crate::codec::Prefix::NoPrefix => true,
                crate::codec::Prefix::Int(pc) => width_ok(pc),
            };
            pw && width_ok(c)
        },
        Kind::Maybe(c) => width_ok(c),
        Kind::Record(_) => true,
    }
}

fn opt_kind_ok(k: Option<Kind>) -> (r: bool)
    ensures
        r == (k matches Some(x) ==> x.wf()),
{
    match k {
        None => true,
        Some(x) => kind_ok(x),
    }
}

fn ctx_ref_ok(e: Option<&CtxExpr>, index: usize) -> (r: bool)
    ensures
        r == ctx_refs_earlier(
            match e {
                Some(x) => Some(*x),
                None => None,
            },
            index as nat,
        ),
{
    match e {
        Some(CtxExpr::LenOf { field, .. }) => *field < index,
        Some(CtxExpr::IdOf { field }) => *field < index,
        _ => true,
    }
}

fn kind_below_ok(k: Kind, level: usize) -> (r: bool)
    ensures
        r == kind_below(k, level as nat),
{
    match k {
        Kind::Record(i) => i < level,
        _ => true,
    }
}

fn opt_kind_below_ok(k: Option<Kind>, level: usize) -> (r: bool)
    ensures
        r == (k matches Some(x) ==> kind_below(x, level as nat)),
{
    match k {
        None => true,
        Some(x) => kind_below_ok(x, level),
    }
}

impl Field {
    /// Checks this field, at position `index` of case `case` of a schema at
    /// `level`: a combined codec excludes separate ones, every codec has a
    /// valid integer width, contexts and skip conditions refer only to earlier
    /// fields, nested records only to dependencies before `level`, and a field
    /// that may be skipped does not nest a record.
    pub fn check(&self, case: usize, index: usize, level: usize) -> (r: Result<(), SchemaError>)
        ensures
            r is Ok <==> self.wf(index as nat, level as nat),
            r matches Err(e) ==> (e is ConflictingCodecs || e is BadWidth || e is ForwardReference
                || e is UnknownDependency || e is NoDefault),
            r == Err::<(), SchemaError>(SchemaError::ConflictingCodecs(case, index)) <==> !self.codecs_exclusive(),
            r == Err::<(), SchemaError>(SchemaError::BadWidth(case, index)) <==> (self.codecs_exclusive() && !self.kinds_wf()),
            r == Err::<(), SchemaError>(SchemaError::ForwardReference(case, index)) <==> (self.codecs_exclusive() && self.kinds_wf() && !self.refs_earlier(index as nat)),
    {
        if self.with.is_some() && (self.encode_with.is_some() || self.decode_with.is_some()) {
            return Err(SchemaError::ConflictingCodecs(case, index));
        }
        if !(kind_ok(self.ty) && opt_kind_ok(self.with) && opt_kind_ok(self.encode_with)
            && opt_kind_ok(self.decode_with) && opt_kind_ok(self.via)) {
            return Err(SchemaError::BadWidth(case, index));
        }
        let skip_ok = match self.skip_if {
            None => true,
            Some(s) => s.field < index,
        };
        if !(ctx_ref_ok(self.ctx.encode(), index) && ctx_ref_ok(self.ctx.decode(), index) && skip_ok) {
            return Err(SchemaError::ForwardReference(case, index));
        }
        if !(kind_below_ok(self.ty, level) && opt_kind_below_ok(self.with, level)
            && opt_kind_below_ok(self.encode_with, level) && opt_kind_below_ok(
            self.decode_with,
            level,
        ) && opt_kind_below_ok(self.via, level)) {
            return Err(SchemaError::UnknownDependency(case, index));
        }
        if self.skip_if.is_some() {
            if let Kind::Record(_) = crate::engine::decoder_of(self) {
                return Err(SchemaError::NoDefault(case, index));
            }
        }
        Ok(())
    }
}

impl Case {
    /// Checks each field of this case, which is case `case` of a schema at `level`.
    pub fn check(&self, case: usize, level: usize) -> (r: Result<(), SchemaError>)
        ensures
            r is Ok <==> self.wf(level as nat),
            r matches Err(e) ==> (e is ConflictingCodecs || e is BadWidth || e is ForwardReference
                || e is UnknownDependency || e is NoDefault),
    {
        let mut j: usize = 0;
        while j < self.fields.len()
            invariant
                j <= self.fields@.len(),
                forall|k: int| 0 <= k < j ==> (#[trigger] self.fields@[k]).wf(k as nat, level as nat),
            decreases self.fields@.len() - j,
        {
            match self.fields[j].check(case, j, level) {
                Err(e) => {
                    return Err(e);
                },
                Ok(()) => {},
            }
            j = j + 1;
        }
        Ok(())
    }
}

impl Schema {
    /// Checks this schema on its own, as one at `level`: a record declares no
    /// discriminant and has one case; a union declares a computed or a stored
    /// discriminant, not both for decoding; cases have distinct discriminants
    /// that fit a stored one's layout; and every field is well formed.
    pub fn validate_at(&self, level: usize) -> (r: Result<(), SchemaError>)
        ensures
            r is Ok <==> self.wf_at(level as nat),
            r == Err::<(), SchemaError>(SchemaError::IdExprOnRecord) <==> (!self.union
                && (self.id_expr.enc_part() is Some || self.id_expr.dec_part() is Some)),
            r == Err::<(), SchemaError>(SchemaError::IdTypeOnRecord) <==> (!self.union
                && self.id_expr.enc_part() is None && self.id_expr.dec_part() is None
                && self.id_type is Some),
            r == Err::<(), SchemaError>(SchemaError::MissingId) <==> (self.union
                && self.id_expr.dec_part() is None && self.id_type is None),
            r matches Err(SchemaError::DuplicateId(t)) ==> exists|i: int, j: int|
                0 <= i < j < self.cases@.len() && #[trigger] self.cases@[i].id == t
                    && #[trigger] self.cases@[j].id == t,
    {
        if !self.union && self.id_expr.is_some() {
            return Err(SchemaError::IdExprOnRecord);
        }
        if !self.union && self.id_type.is_some() {
            return Err(SchemaError::IdTypeOnRecord);
        }
        if self.union && self.id_expr.decode().is_none() && self.id_type.is_none() {
            return Err(SchemaError::MissingId);
        }
        if self.id_type.is_some() && self.id_expr.decode().is_some() {
            return Err(SchemaError::ConflictingId);
        }
        if !self.union && self.cases.len() != 1 {
            return Err(SchemaError::RecordShape);
        }
        let n = self.cases.len();
        if self.union {
            let mut i: usize = 0;
            while i < n
                invariant
                    n == self.cases@.len(),
                    i <= n,
                    self.tag_wf(),
                    forall|a: int, b: int|
                        0 <= a < b < n && a < i ==> #[trigger] self.cases@[a].id
                            != #[trigger] self.cases@[b].id,
                decreases n - i,
            {
                let mut j: usize = i + 1;
                while j < n
                    invariant
                        n == self.cases@.len(),
                        i < n,
                        self.tag_wf(),
                        i + 1 <= j <= n,
                        forall|a: int, b: int|
                            0 <= a < b < n && a < i ==> #[trigger] self.cases@[a].id
                                != #[trigger] self.cases@[b].id,
                        forall|b: int| i < b < j ==> self.cases@[i as int].id != #[trigger] self.cases@[b].id,
                    decreases n - j,
                {
                    if self.cases[i].id == self.cases[j].id {
                        return Err(SchemaError::DuplicateId(self.cases[i].id));
                    }
                    j = j + 1;
                }
                i = i + 1;
            }
        }
        match self.id_type {
            None => {},
            Some(c) => {
                if !width_ok(c) {
                    return Err(SchemaError::BadWidth(0, 0));
                }
                let mut i: usize = 0;
                while i < n
                    invariant
                        n == self.cases@.len(),
                        i <= n,
                        c.wf(),
                        self.tag_wf(),
                        self.id_type == Some(c),
                        self.union ==> forall|a: int, b: int|
                            0 <= a < b < self.cases@.len() ==> #[trigger] self.cases@[a].id
                                != #[trigger] self.cases@[b].id,
                        forall|a: int| 0 <= a < i ==> (#[trigger] self.cases@[a]).id < crate::scalar::pow256(c.width as nat),
                    decreases n - i,
                {
                    if !crate::scalar::fits_width(self.cases[i].id, c.width) {
                        return Err(SchemaError::IdTooWide(self.cases[i].id));
                    }
                    i = i + 1;
                }
            },
        }
        let mut i: usize = 0;
        while i < n
            invariant
                n == self.cases@.len(),
                i <= n,
                self.tag_wf(),
                self.ids_wf(),
                forall|a: int| 0 <= a < i ==> (#[trigger] self.cases@[a]).wf(level as nat),
            decreases n - i,
        {
            match self.cases[i].check(i, level) {
                Err(e) => {
                    return Err(e);
                },
                Ok(()) => {},
            }
            i = i + 1;
        }
        Ok(())
    }

    /// Checks this schema, then each of its dependencies: the schema is
    /// accepted exactly when it and they are well formed.
    pub fn validate(&self) -> (r: Result<(), SchemaError>)
        ensures
            r is Ok <==> self.wf(),
            (!self.union && (self.id_expr.enc_part() is Some || self.id_expr.dec_part() is Some))
                ==> r == Err::<(), SchemaError>(SchemaError::IdExprOnRecord),
            (self.union && self.id_expr.dec_part() is None && self.id_type is None) ==> r == Err::<
                (),
                SchemaError,
            >(SchemaError::MissingId),
    {
        match self.validate_at(self.deps.len()) {
            Err(e) => {
                return Err(e);
            },
            Ok(()) => {},
        }
        let mut l: usize = 0;
        while l < self.deps.len()
            invariant
                l <= self.deps@.len(),
                self.wf_at(self.deps@.len()),
                forall|k: int| 0 <= k < l ==> (#[trigger] self.deps@[k]).wf_at(k as nat),
            decreases self.deps@.len() - l,
        {
            match self.deps[l].validate_at(l) {
                Err(e) => {
                    return Err(e);
                },
                Ok(()) => {},
            }
            l = l + 1;
        }
        Ok(())
    }
}

} // verus!

verus! {

impl Field {
    /// A positional field of type `ty`, with no overrides.
    pub fn new(ty: Kind) -> (r: Field)
        ensures
            r == (Field {
                name: None,
                ty,
                ctx: Asym::Multi { encode: None, decode: None },
                with: None,
                encode_with: None,
                decode_with: None,
                via: None,
                skip_if: None,
            }),
    {
        Field {
            name: None,
            ty,
            ctx: Asym::Multi { encode: None, decode: None },
            with: None,
            encode_with: None,
            decode_with: None,
            via: None,
            skip_if: None,
        }
    }

    /// A field called `name` of type `ty`, with no overrides.
    pub fn named(name: &'static str, ty: Kind) -> (r: Field)
        ensures
            r.name == Some(name),
            r.ty == ty,
            r.ctx.enc_part() is None && r.ctx.dec_part() is None,
            r.with is None && r.encode_with is None && r.decode_with is None,
            r.via is None && r.skip_if is None,
    {
        Field { name: Some(name), ..Field::new(ty) }
    }

    /// This field with context `e` in both directions.
    pub fn ctx(self, e: CtxExpr) -> (r: Field)
        ensures
            r == (Field { ctx: Asym::Single(e), ..self }),
    {
        Field { ctx: Asym::Single(e), ..self }
    }

    /// This field with separate contexts for encoding and decoding.
    pub fn ctx_split(self, encode: Option<CtxExpr>, decode: Option<CtxExpr>) -> (r: Field)
        ensures
            r == (Field { ctx: Asym::Multi { encode, decode }, ..self }),
    {
        Field { ctx: Asym::Multi { encode, decode }, ..self }
    }

    /// This field with codec `k` in place of its type's own.
    pub fn with(self, k: Kind) -> (r: Field)
        ensures
            r == (Field { with: Some(k), ..self }),
    {
        Field { with: Some(k), ..self }
    }

    /// This field with separate codecs for encoding and decoding.
    pub fn with_separate(self, encode: Kind, decode: Kind) -> (r: Field)
        ensures
            r == (Field { encode_with: Some(encode), decode_with: Some(decode), ..self }),
    {
        Field { encode_with: Some(encode), decode_with: Some(decode), ..self }
    }

    /// This field travelling through adapter `k`.
    pub fn via(self, k: Kind) -> (r: Field)
        ensures
            r == (Field { via: Some(k), ..self }),
    {
        Field { via: Some(k), ..self }
    }

    /// This field absent whenever earlier integer field `field` holds `value`.
    pub fn skip_if(self, field: usize, value: u64) -> (r: Field)
        ensures
            r == (Field { skip_if: Some(SkipIf { field, value }), ..self }),
    {
        Field { skip_if: Some(SkipIf { field, value }), ..self }
    }
}

impl Case {
    pub fn new(name: &'static str, id: u64, fields: Vec<Field>) -> (r: Case)
        ensures
            r == (Case { name, id, fields }),
    {
        Case { name, id, fields }
    }
}

impl Schema {
    /// A record with `fields`, with no container context and no discriminant.
    pub fn record(name: &'static str, fields: Vec<Field>) -> (r: Schema)
        ensures
            !r.union,
            r.name == name,
            r.cases@ == seq![Case { name, id: 0, fields }],
            r.ctx_is.enc_part() is None && r.ctx_is.dec_part() is None,
            r.id_type is None,
            r.id_ctx.enc_part() is None && r.id_ctx.dec_part() is None,
            r.id_expr.enc_part() is None && r.id_expr.dec_part() is None,
            r.deps@.len() == 0,
    {
        let mut cases: Vec<Case> = Vec::new();
        cases.push(Case { name, id: 0, fields });
        assert(cases@ =~= seq![Case { name, id: 0, fields }]);
        Schema {
            name,
            union: false,
            ctx_is: Asym::none(),
            id_type: None,
            id_ctx: Asym::none(),
            id_expr: Asym::none(),
            cases,
            deps: Vec::new(),
        }
    }

    /// A union of `cases`, with no container context and no discriminant yet.
    pub fn union(name: &'static str, cases: Vec<Case>) -> (r: Schema)
        ensures
            r.union,
            r.name == name,
            r.cases == cases,
            r.ctx_is.enc_part() is None && r.ctx_is.dec_part() is None,
            r.id_type is None,
            r.id_ctx.enc_part() is None && r.id_ctx.dec_part() is None,
            r.id_expr.enc_part() is None && r.id_expr.dec_part() is None,
            r.deps@.len() == 0,
    {
        Schema {
            name,
            union: true,
            ctx_is: Asym::none(),
            id_type: None,
            id_ctx: Asym::none(),
            id_expr: Asym::none(),
            cases,
            deps: Vec::new(),
        }
    }

    /// This schema with fixed container context `c` in both directions.
    pub fn ctx_is(self, c: Ctx) -> (r: Schema)
        ensures
            r == (Schema { ctx_is: Asym::Single(c), ..self }),
    {
        Schema { ctx_is: Asym::Single(c), ..self }
    }

    /// This schema with a stored discriminant of layout `codec`, written and
    /// read under `ctx`.
    pub fn id_type(self, codec: IntCodec, ctx: Ctx) -> (r: Schema)
        ensures
            r == (Schema { id_type: Some(codec), id_ctx: Asym::Single(ctx), ..self }),
    {
        Schema { id_type: Some(codec), id_ctx: Asym::Single(ctx), ..self }
    }

    /// This schema with `dep` added as its next dependency.
    pub fn dep(self, dep: Schema) -> (r: Schema)
        ensures
            r.deps@ == self.deps@.push(dep),
            r == (Schema { deps: r.deps, ..self }),
    {
        let mut s = self;
        s.deps.push(dep);
        s
    }

    /// This schema with computed discriminant `e` in both directions.
    pub fn id_expr(self, e: IdExpr) -> (r: Schema)
        ensures
            r == (Schema { id_expr: Asym::Single(e), ..self }),
    {
        Schema { id_expr: Asym::Single(e), ..self }
    }
}

} // verus!
