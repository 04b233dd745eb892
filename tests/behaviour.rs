use declio::util::{utf8, zero_one};
use declio::{
    from_bytes, from_bytes_with_context, to_bytes, to_bytes_with_context, Asym, Bytes, Case, Ctx,
    CtxExpr, Data, Endian, Error, Fault, Field, IdExpr, IntCodec, Kind, Prefix, PrefixVec,
    Schema, SchemaError, Utf8, Value, Via, ZeroOne,
};

fn u8_kind() -> Kind {
    Kind::Int(IntCodec::native(1))
}

fn be_u32() -> Kind {
    Kind::Int(IntCodec::big(4))
}

fn record_a() -> Schema {
    Schema::record(
        "Foo",
        vec![Field::named("x", u8_kind()), Field::named("y", be_u32())],
    )
}

fn union_b() -> Schema {
    Schema::union(
        "Enum",
        vec![
            Case::new("Unit", 0, vec![]),
            Case::new("Tuple", 1, vec![Field::new(u8_kind()), Field::new(be_u32())]),
        ],
    )
    .id_type(IntCodec::native(1), Ctx::unit())
}

fn text_schema() -> Schema {
    Schema::record(
        "Text",
        vec![
            Field::named("len", Kind::Int(IntCodec::native(4))).ctx(CtxExpr::Fixed(Ctx::endian(Endian::Big))),
            Field::named("value", Kind::Utf8).ctx(CtxExpr::LenOf { field: 0, endian: None }),
        ],
    )
}

fn flag_schema() -> Schema {
    Schema::record(
        "Foo",
        vec![Field::named("x", u8_kind()), Field::named("y", Kind::ZeroOne)],
    )
}

#[test]
fn scenario_record() {
    let sc = record_a();
    assert_eq!(sc.validate(), Ok(()));
    let val = Data::record(vec![Value::Int(0xab), Value::Int(0xdeadbeef)]);
    let bytes = to_bytes(&sc, &val).unwrap();
    assert_eq!(bytes, vec![0xab, 0xde, 0xad, 0xbe, 0xef]);
    assert_eq!(from_bytes(&sc, &bytes).unwrap(), val);
}

#[test]
fn scenario_union() {
    let sc = union_b();
    assert_eq!(sc.validate(), Ok(()));
    let unit = Data::case(0, vec![]);
    assert_eq!(to_bytes(&sc, &unit).unwrap(), vec![0x00]);
    let tuple = Data::case(1, vec![Value::Int(0xab), Value::Int(0xdeadbeef)]);
    let bytes = to_bytes(&sc, &tuple).unwrap();
    assert_eq!(bytes, vec![0x01, 0xab, 0xde, 0xad, 0xbe, 0xef]);
    assert_eq!(from_bytes(&sc, &bytes).unwrap(), tuple);
    assert_eq!(from_bytes(&sc, &[0x00]).unwrap(), unit);
}

#[test]
fn round_trip_text_with_length_from_sibling() {
    let sc = text_schema();
    assert_eq!(sc.validate(), Ok(()));
    let val = Data::record(vec![Value::Int(11), Value::Text(String::from("Hello World"))]);
    let bytes = to_bytes(&sc, &val).unwrap();
    assert_eq!(bytes, b"\x00\x00\x00\x0bHello World".to_vec());
    assert_eq!(sc.encoded_size(Ctx::unit(), &val), bytes.len());
    assert_eq!(from_bytes(&sc, &bytes).unwrap(), val);
}

#[test]
fn text_length_disagreeing_with_sibling_fails() {
    let sc = text_schema();
    let val = Data::record(vec![Value::Int(3), Value::Text(String::from("Hello"))]);
    assert_eq!(
        to_bytes(&sc, &val),
        Err(Error::FieldError(
            "value",
            Box::new(Error::UnexpectedLength { expected: 3, received: 5 })
        ))
    );
}

#[test]
fn invalid_utf8_is_refused() {
    let sc = text_schema();
    let err = from_bytes(&sc, &[0, 0, 0, 2, 0xff, 0xfe]).unwrap_err();
    assert_eq!(err, Error::FieldError("value", Box::new(Error::Other(Fault::InvalidUtf8))));
}

#[test]
fn size_equals_encoded_length() {
    let sc = union_b();
    for val in [
        Data::case(0, vec![]),
        Data::case(1, vec![Value::Int(1), Value::Int(2)]),
    ] {
        let bytes = to_bytes(&sc, &val).unwrap();
        assert_eq!(sc.encoded_size(Ctx::unit(), &val), bytes.len());
    }
}

#[test]
fn leftover_bytes_fail_whole_buffer_decode() {
    let sc = record_a();
    let val = Data::record(vec![Value::Int(0xab), Value::Int(0xdeadbeef)]);
    let buf = [0xab, 0xde, 0xad, 0xbe, 0xef, 0x11, 0x22];
    assert_eq!(from_bytes(&sc, &buf), Err(Error::RemainingBytes(2)));
    assert_eq!(sc.decode(Ctx::unit(), &buf, 0), Ok((val, 5)));
}

#[test]
fn unknown_tag_carries_its_value() {
    let sc = union_b();
    assert_eq!(
        from_bytes(&sc, &[0x07, 0xab]),
        Err(Error::Other(Fault::UnknownId(7)))
    );
}

#[test]
fn short_tag_is_a_tag_error() {
    let sc = union_b();
    assert_eq!(
        from_bytes(&sc, &[]),
        Err(Error::TagError(Box::new(Error::Other(Fault::UnexpectedEnd))))
    );
}

#[test]
fn skipped_value_is_dropped() {
    let sc = Schema::record(
        "SkipIf",
        vec![
            Field::named("x", u8_kind()),
            Field::named("y", Kind::Maybe(IntCodec::big(4))).skip_if(0, 8),
        ],
    );
    let val = Data::record(vec![Value::Int(8), Value::Maybe(Some(5))]);
    let bytes = to_bytes(&sc, &val).unwrap();
    assert_eq!(bytes, vec![0x08]);
    assert_eq!(sc.encoded_size(Ctx::unit(), &val), 1);
    assert_eq!(
        from_bytes(&sc, &bytes).unwrap(),
        Data::record(vec![Value::Int(8), Value::Maybe(None)])
    );
}

#[test]
fn error_names_the_failing_field() {
    let sc = flag_schema();
    let err = from_bytes(&sc, &[0x01, 0x02]).unwrap_err();
    assert_eq!(err.path(), vec!["y"]);
    assert_eq!(*err.root(), Error::Other(Fault::NotZeroOne(2)));
    assert_eq!(
        err,
        Error::FieldError("y", Box::new(Error::Other(Fault::NotZeroOne(2))))
    );
}

#[test]
fn unnamed_field_uses_placeholder() {
    let sc = Schema::record("T", vec![Field::new(u8_kind()), Field::new(be_u32())]);
    let err = from_bytes(&sc, &[0x01, 0x02]).unwrap_err();
    assert_eq!(err.path(), vec!["_"]);
    assert_eq!(*err.root(), Error::Other(Fault::UnexpectedEnd));
}

#[test]
fn missing_byte_order_fails() {
    let sc = Schema::record("T", vec![Field::named("y", Kind::Int(IntCodec::native(4)))]);
    let val = Data::record(vec![Value::Int(1)]);
    assert_eq!(
        to_bytes(&sc, &val),
        Err(Error::FieldError("y", Box::new(Error::Other(Fault::MissingContext))))
    );
    let ok = to_bytes_with_context(&sc, &val, Ctx::endian(Endian::Little)).unwrap();
    assert_eq!(ok, vec![1, 0, 0, 0]);
}

#[test]
fn too_wide_value_is_an_overflow() {
    let sc = record_a();
    let val = Data::record(vec![Value::Int(0x1ff), Value::Int(0)]);
    assert_eq!(
        to_bytes(&sc, &val),
        Err(Error::FieldError("x", Box::new(Error::Other(Fault::Overflow))))
    );
}

#[test]
fn wrong_value_shape_is_refused() {
    let sc = record_a();
    let val = Data::record(vec![Value::Bool(true), Value::Int(0)]);
    assert_eq!(
        to_bytes(&sc, &val),
        Err(Error::FieldError("x", Box::new(Error::Other(Fault::ShapeMismatch))))
    );
    let short = Data::record(vec![Value::Int(1)]);
    assert_eq!(to_bytes(&sc, &short), Err(Error::Other(Fault::ShapeMismatch)));
}

#[test]
fn computed_id_must_agree_with_case() {
    let sc = Schema::union(
        "IdExpr",
        vec![Case::new("Bar", 1, vec![]), Case::new("Baz", 2, vec![])],
    )
    .id_expr(IdExpr::FromCtx);
    assert_eq!(
        to_bytes_with_context(&sc, &Data::case(0, vec![]), Ctx::id(2)),
        Err(Error::TagError(Box::new(Error::Other(Fault::IdMismatch(2)))))
    );
    assert_eq!(
        from_bytes_with_context(&sc, &[], Ctx::id(1)).unwrap(),
        Data::case(0, vec![])
    );
    assert_eq!(
        from_bytes(&sc, &[]),
        Err(Error::TagError(Box::new(Error::Other(Fault::MissingContext))))
    );
}

#[test]
fn split_field_context() {
    let sc = Schema::record(
        "Split",
        vec![Field::named("y", Kind::Int(IntCodec::native(2))).ctx_split(
            Some(CtxExpr::Fixed(Ctx::endian(Endian::Big))),
            Some(CtxExpr::Fixed(Ctx::endian(Endian::Little))),
        )],
    );
    let bytes = to_bytes(&sc, &Data::record(vec![Value::Int(0x0102)])).unwrap();
    assert_eq!(bytes, vec![0x01, 0x02]);
    assert_eq!(
        from_bytes(&sc, &bytes).unwrap(),
        Data::record(vec![Value::Int(0x0201)])
    );
}

#[test]
fn eight_byte_integers() {
    let sc = Schema::record("W", vec![Field::named("v", Kind::Int(IntCodec::little(8)))]);
    let val = Data::record(vec![Value::Int(0x0102030405060708)]);
    let bytes = to_bytes(&sc, &val).unwrap();
    assert_eq!(bytes, vec![8, 7, 6, 5, 4, 3, 2, 1]);
    assert_eq!(from_bytes(&sc, &bytes).unwrap(), val);
}

#[test]
fn validation_errors() {
    let rec = || Schema::record("R", vec![]);
    assert_eq!(
        rec().id_expr(IdExpr::FromCtx).validate(),
        Err(SchemaError::IdExprOnRecord)
    );
    assert_eq!(
        rec().id_type(IntCodec::native(1), Ctx::unit()).validate(),
        Err(SchemaError::IdTypeOnRecord)
    );
    let uni = || Schema::union("U", vec![Case::new("A", 1, vec![]), Case::new("B", 1, vec![])]);
    assert_eq!(uni().validate(), Err(SchemaError::MissingId));
    assert_eq!(
        uni()
            .id_type(IntCodec::native(1), Ctx::unit())
            .id_expr(IdExpr::Const(1))
            .validate(),
        Err(SchemaError::ConflictingId)
    );
    assert_eq!(
        uni().id_type(IntCodec::native(1), Ctx::unit()).validate(),
        Err(SchemaError::DuplicateId(1))
    );
    let wide = Schema::union("U", vec![Case::new("A", 300, vec![])])
        .id_type(IntCodec::native(1), Ctx::unit());
    assert_eq!(wide.validate(), Err(SchemaError::IdTooWide(300)));
    let mut two = Schema::record("R", vec![]);
    two.cases.push(Case::new("R", 0, vec![]));
    assert_eq!(two.validate(), Err(SchemaError::RecordShape));
    let both = Schema::record(
        "R",
        vec![Field::named("a", u8_kind())
            .with(u8_kind())
            .with_separate(u8_kind(), u8_kind())],
    );
    assert_eq!(both.validate(), Err(SchemaError::ConflictingCodecs(0, 0)));
    let bad = Schema::record("R", vec![Field::named("a", Kind::Int(IntCodec::native(3)))]);
    assert_eq!(bad.validate(), Err(SchemaError::BadWidth(0, 0)));
    let fwd = Schema::record(
        "R",
        vec![Field::named("a", u8_kind()), Field::named("b", u8_kind()).skip_if(1, 0)],
    );
    assert_eq!(fwd.validate(), Err(SchemaError::ForwardReference(0, 1)));
}

#[test]
fn error_constructors() {
    assert_eq!(Error::new("boom"), Error::Custom(String::from("boom")));
    assert_eq!(Error::wrap(Fault::Overflow), Error::Other(Fault::Overflow));
    let e = Error::field("outer", Error::field("inner", Error::RemainingBytes(3)));
    assert_eq!(e.path(), vec!["outer", "inner"]);
    assert_eq!(*e.root(), Error::RemainingBytes(3));
    assert_eq!(Error::tag(Error::new("x")).path(), Vec::<&str>::new());
}

#[test]
fn zero_one_adapter() {
    let mut out = Vec::new();
    zero_one::encode(true, Ctx::unit(), &mut out).unwrap();
    ZeroOne(false).encode(Ctx::unit(), &mut out).unwrap();
    assert_eq!(out, vec![1, 0]);
    assert_eq!(zero_one::decode(Ctx::unit(), &out, 0), Ok((true, 1)));
    assert_eq!(ZeroOne::decode(Ctx::unit(), &out, 1), Ok((ZeroOne(false), 2)));
    assert_eq!(
        zero_one::decode(Ctx::unit(), &[7], 0),
        Err(Error::Other(Fault::NotZeroOne(7)))
    );
    assert_eq!(zero_one::encoded_size(true, Ctx::unit()), 1);
    assert_eq!(ZeroOne(true).encoded_size(Ctx::unit()), 1);
}

#[test]
fn utf8_adapter() {
    let mut out = Vec::new();
    utf8::encode("héllo", Ctx::unit(), &mut out).unwrap();
    assert_eq!(out, "héllo".as_bytes().to_vec());
    assert_eq!(utf8::encoded_size("héllo", Ctx::unit()), 6);
    assert_eq!(
        utf8::decode(Ctx::len(6), &out, 0),
        Ok((String::from("héllo"), 6))
    );
    assert_eq!(
        utf8::decode(Ctx::unit(), &out, 0),
        Err(Error::Other(Fault::MissingContext))
    );
    assert_eq!(
        utf8::decode(Ctx::len(7), &out, 0),
        Err(Error::Other(Fault::UnexpectedEnd))
    );
    let t = Utf8(String::from("ab"));
    let mut buf = Vec::new();
    t.encode(Ctx::len(2), &mut buf).unwrap();
    assert_eq!(Utf8::decode(Ctx::len(2), &buf, 0), Ok((Utf8(String::from("ab")), 2)));
    assert_eq!(t.encoded_size(Ctx::unit()), 2);
}

#[test]
fn bytes_adapter() {
    let b = Bytes::new(vec![9, 8, 7]);
    assert_eq!(b.as_bytes(), &[9, 8, 7]);
    let prefix = Prefix::Int(IntCodec::big(2));
    let mut out = Vec::new();
    b.encode(prefix, Ctx::unit(), &mut out).unwrap();
    assert_eq!(out, vec![0, 3, 9, 8, 7]);
    assert_eq!(b.encoded_size(prefix, Ctx::unit()), 5);
    let (back, q) = Bytes::decode(prefix, Ctx::unit(), &out, 0).unwrap();
    assert_eq!(q, 5);
    assert_eq!(back.into_vec(), vec![9, 8, 7]);
    assert_eq!(
        b.encode(Prefix::NoPrefix, Ctx::len(2), &mut Vec::new()),
        Err(Error::UnexpectedLength { expected: 2, received: 3 })
    );
}

#[test]
fn prefix_vec_adapter() {
    let v = PrefixVec::new(vec![1, 0x0203]);
    let prefix = Prefix::Int(IntCodec::native(1));
    let elem = IntCodec::little(2);
    let mut out = Vec::new();
    v.encode(prefix, elem, Ctx::unit(), &mut out).unwrap();
    assert_eq!(out, vec![2, 1, 0, 3, 2]);
    assert_eq!(v.encoded_size(prefix, elem, Ctx::unit()), 5);
    let (back, q) = PrefixVec::decode(prefix, elem, Ctx::unit(), &out, 0).unwrap();
    assert_eq!(q, 5);
    assert_eq!(back.as_slice(), &[1, 0x0203]);
    assert_eq!(back.into_vec(), vec![1, 0x0203]);
    assert_eq!(
        PrefixVec::decode(prefix, elem, Ctx::unit(), &[3, 1, 0], 0),
        Err(Error::Other(Fault::UnexpectedEnd))
    );
}

#[test]
fn via_adapter() {
    let via = Via { adapter: Kind::Bytes(Prefix::Int(IntCodec::native(1))) };
    let v = Value::Bytes(vec![5, 6]);
    let mut out = Vec::new();
    via.encode(&v, Ctx::unit(), &mut out).unwrap();
    assert_eq!(out, vec![2, 5, 6]);
    assert_eq!(via.encoded_size(&v, Ctx::unit()), 3);
    assert_eq!(via.decode(Ctx::unit(), &out, 0), Ok((v, 3)));
}

#[test]
fn asym_settings() {
    let single: Asym<u8> = Asym::Single(4);
    assert!(single.is_some());
    assert_eq!(single.encode(), Some(&4));
    assert_eq!(single.decode(), Some(&4));
    let only_decode: Asym<u8> = Asym::Multi { encode: None, decode: Some(2) };
    assert!(only_decode.is_some());
    assert_eq!(only_decode.encode(), None);
    assert_eq!(only_decode.decode(), Some(&2));
    let none: Asym<u8> = Asym::none();
    assert!(none.is_none());
}

fn inner_union() -> Schema {
    Schema::union(
        "Body",
        vec![
            Case::new("Short", 1, vec![Field::named("b", u8_kind())]),
            Case::new("Long", 2, vec![Field::named("w", be_u32())]),
        ],
    )
    .id_expr(IdExpr::FromCtx)
}

fn outer_with_tag() -> Schema {
    Schema::record(
        "Outer",
        vec![
            Field::named("kind", u8_kind()),
            Field::named("body", Kind::Record(0)).ctx(CtxExpr::IdOf { field: 0 }),
        ],
    )
    .dep(inner_union())
}

#[test]
fn nested_union_takes_tag_from_enclosing_record() {
    let sc = outer_with_tag();
    assert_eq!(sc.validate(), Ok(()));
    let val = Data::record(vec![
        Value::Int(2),
        Value::Record(Data::case(1, vec![Value::Int(0xdeadbeef)])),
    ]);
    let bytes = to_bytes(&sc, &val).unwrap();
    assert_eq!(bytes, vec![0x02, 0xde, 0xad, 0xbe, 0xef]);
    assert_eq!(sc.encoded_size(Ctx::unit(), &val), 5);
    assert_eq!(from_bytes(&sc, &bytes).unwrap(), val);
    let short = Data::record(vec![
        Value::Int(1),
        Value::Record(Data::case(0, vec![Value::Int(0x7f)])),
    ]);
    assert_eq!(to_bytes(&sc, &short).unwrap(), vec![0x01, 0x7f]);
}

#[test]
fn nested_tag_disagreeing_with_case_fails() {
    let sc = outer_with_tag();
    let val = Data::record(vec![
        Value::Int(1),
        Value::Record(Data::case(1, vec![Value::Int(5)])),
    ]);
    assert_eq!(
        to_bytes(&sc, &val),
        Err(Error::FieldError(
            "body",
            Box::new(Error::TagError(Box::new(Error::Other(Fault::IdMismatch(1)))))
        ))
    );
    assert_eq!(
        from_bytes(&sc, &[0x09]),
        Err(Error::FieldError("body", Box::new(Error::Other(Fault::UnknownId(9)))))
    );
}

#[test]
fn nested_record_with_container_context() {
    let inner = Schema::record(
        "FieldCtx",
        vec![
            Field::named("x", Kind::Int(IntCodec::native(4))),
            Field::named("y", Kind::Ints(Prefix::NoPrefix, IntCodec::native(4)))
                .ctx(CtxExpr::Fixed(Ctx::len(1).with_endian(Endian::Little))),
        ],
    )
    .ctx_is(Ctx::endian(Endian::Little));
    let sc = Schema::record("FieldCtx2", vec![Field::named("a", Kind::Record(0))]).dep(inner);
    assert_eq!(sc.validate(), Ok(()));
    let val = Data::record(vec![Value::Record(Data::record(vec![
        Value::Int(1),
        Value::Ints(vec![0xdeadbeef]),
    ]))]);
    let bytes = to_bytes(&sc, &val).unwrap();
    assert_eq!(bytes, vec![0x1, 0x0, 0x0, 0x0, 0xef, 0xbe, 0xad, 0xde]);
    assert_eq!(from_bytes(&sc, &bytes).unwrap(), val);
}

#[test]
fn nested_error_path() {
    let sc = Schema::record(
        "Outer",
        vec![Field::named("inner", Kind::Record(0))],
    )
    .dep(flag_schema());
    let err = from_bytes(&sc, &[0x01, 0x05]).unwrap_err();
    assert_eq!(err.path(), vec!["inner", "y"]);
    assert_eq!(*err.root(), Error::Other(Fault::NotZeroOne(5)));
}

#[test]
fn nesting_validation_errors() {
    let missing = Schema::record("R", vec![Field::named("a", Kind::Record(0))]);
    assert_eq!(missing.validate(), Err(SchemaError::UnknownDependency(0, 0)));
    let self_ref = Schema::record("R", vec![Field::named("a", Kind::Record(0))])
        .dep(Schema::record("D", vec![Field::named("b", Kind::Record(0))]));
    assert_eq!(self_ref.validate(), Err(SchemaError::UnknownDependency(0, 0)));
    let skip = Schema::record(
        "R",
        vec![Field::named("x", u8_kind()), Field::named("a", Kind::Record(0)).skip_if(0, 1)],
    )
    .dep(Schema::record("D", vec![]));
    assert_eq!(skip.validate(), Err(SchemaError::NoDefault(0, 1)));
}
