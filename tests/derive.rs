use declio::{
    from_bytes, from_bytes_with_context, to_bytes, to_bytes_with_context, Case, Ctx, CtxExpr,
    Data, Endian, Field, IdExpr, IntCodec, Kind, Prefix, Schema, Value,
};

fn u8_kind() -> Kind {
    Kind::Int(IntCodec::native(1))
}

fn u32_kind() -> Kind {
    Kind::Int(IntCodec::native(4))
}

fn be_u32() -> Kind {
    Kind::Int(IntCodec::big(4))
}

fn le_u32() -> Kind {
    Kind::Int(IntCodec::little(4))
}

fn test_encode(sc: &Schema, val: &Data, expected: &[u8], ctx: Ctx) {
    let output = to_bytes_with_context(sc, val, ctx).unwrap();
    assert_eq!(output, expected);
}

fn test_decode(sc: &Schema, input: &[u8], expected: &Data, ctx: Ctx) {
    let output = from_bytes_with_context(sc, input, ctx).unwrap();
    assert_eq!(output, *expected);
}

fn test_bidir(sc: &Schema, val: &Data, bytes: &[u8]) {
    test_bidir_ctx(sc, val, bytes, Ctx::unit());
}

fn test_bidir_ctx(sc: &Schema, val: &Data, bytes: &[u8], ctx: Ctx) {
    assert!(sc.validate().is_ok());
    test_encode(sc, val, bytes, ctx);
    test_decode(sc, bytes, val, ctx);
}

fn unit_struct_schema() -> Schema {
    Schema::record("UnitStruct", vec![])
}

fn tuple_struct_schema() -> Schema {
    Schema::record("TupleStruct", vec![Field::new(u8_kind()), Field::new(be_u32())])
}

fn struct_schema() -> Schema {
    Schema::record(
        "Struct",
        vec![Field::named("x", u8_kind()), Field::named("y", be_u32())],
    )
}

fn enum_schema() -> Schema {
    Schema::union(
        "Enum",
        vec![
            Case::new("Unit", 0, vec![]),
            Case::new("Tuple", 1, vec![Field::new(u8_kind()), Field::new(be_u32())]),
            Case::new(
                "Struct",
                2,
                vec![Field::named("x", u8_kind()), Field::named("y", be_u32())],
            ),
        ],
    )
    .id_type(IntCodec::native(1), Ctx::unit())
}

fn with_schema() -> Schema {
    Schema::record("With", vec![Field::named("y", u32_kind()).with(le_u32())])
}

fn via_schema() -> Schema {
    Schema::record(
        "Via",
        vec![
            Field::named("x", Kind::Ints(Prefix::NoPrefix, IntCodec::native(4)))
                .via(Kind::Ints(Prefix::Int(IntCodec::native(1)), IntCodec::native(4))),
            Field::named("y", Kind::Bytes(Prefix::NoPrefix))
                .via(Kind::Bytes(Prefix::Int(IntCodec::native(2)))),
        ],
    )
    .ctx_is(Ctx::endian(Endian::Little))
}

fn with_separate_schema() -> Schema {
    Schema::record(
        "WithSeparate",
        vec![Field::named("y", u32_kind()).with_separate(le_u32(), le_u32())],
    )
}

fn field_ctx_schema() -> Schema {
    Schema::record(
        "FieldCtx",
        vec![
            Field::named("x", u32_kind()),
            Field::named("y", Kind::Ints(Prefix::NoPrefix, IntCodec::native(4)))
                .ctx(CtxExpr::Fixed(Ctx::len(1).with_endian(Endian::Little))),
        ],
    )
    .ctx_is(Ctx::endian(Endian::Little))
}

fn container_ctx_schema() -> Schema {
    Schema::record(
        "ContainerCtx",
        vec![Field::named("y", u32_kind()).ctx(CtxExpr::Caller)],
    )
}

fn id_ctx_schema() -> Schema {
    Schema::union("IdCtx", vec![Case::new("Bar", 1, vec![])])
        .id_type(IntCodec::native(2), Ctx::endian(Endian::Little))
}

fn id_expr_schema() -> Schema {
    Schema::union(
        "IdExpr",
        vec![Case::new("Bar", 1, vec![]), Case::new("Baz", 2, vec![])],
    )
    .id_expr(IdExpr::FromCtx)
}

fn skip_if_schema() -> Schema {
    Schema::record(
        "SkipIf",
        vec![
            Field::named("x", u8_kind()),
            Field::named("y", Kind::Maybe(IntCodec::big(4))).skip_if(0, 8),
        ],
    )
}

#[test]
fn unit_struct() {
    let sc = unit_struct_schema();
    test_bidir(&sc, &Data::record(vec![]), &[]);

    assert_eq!(sc.encoded_size(Ctx::unit(), &Data::record(vec![])), 0)
}

#[test]
fn tuple_struct() {
    let sc = tuple_struct_schema();
    let val = Data::record(vec![Value::Int(0xab), Value::Int(0xdeadbeef)]);
    assert_eq!(sc.encoded_size(Ctx::unit(), &val), 5);
    test_bidir(&sc, &val, &[0xab, 0xde, 0xad, 0xbe, 0xef]);
}

#[test]
fn struct_encode() {
    let sc = struct_schema();
    let val = Data::record(vec![Value::Int(0xab), Value::Int(0xdeadbeef)]);
    assert_eq!(sc.encoded_size(Ctx::unit(), &val), 5);
    test_bidir(&sc, &val, &[0xab, 0xde, 0xad, 0xbe, 0xef]);
}

#[test]
fn unit_enum() {
    let sc = enum_schema();
    test_bidir(&sc, &Data::case(0, vec![]), &[0x00]);
    assert_eq!(sc.encoded_size(Ctx::unit(), &Data::case(0, vec![])), 1);
}

#[test]
fn tuple_enum() {
    let sc = enum_schema();
    let val = Data::case(1, vec![Value::Int(0xab), Value::Int(0xdeadbeef)]);
    assert_eq!(sc.encoded_size(Ctx::unit(), &val), 6);
    test_bidir(&sc, &val, &[0x01, 0xab, 0xde, 0xad, 0xbe, 0xef]);
}

#[test]
fn struct_enum() {
    let sc = enum_schema();
    let val = Data::case(2, vec![Value::Int(0xab), Value::Int(0xdeadbeef)]);
    assert_eq!(sc.encoded_size(Ctx::unit(), &val), 6);
    test_bidir(&sc, &val, &[0x02, 0xab, 0xde, 0xad, 0xbe, 0xef]);
}

#[test]
fn with() {
    let sc = with_schema();
    let val = Data::record(vec![Value::Int(0xdeadbeef)]);
    assert_eq!(sc.encoded_size(Ctx::unit(), &val), 4);
    test_bidir(&sc, &val, &[0xef, 0xbe, 0xad, 0xde]);
}

#[test]
fn with_separate() {
    let sc = with_separate_schema();
    test_bidir(
        &sc,
        &Data::record(vec![Value::Int(0xdeadbeef)]),
        &[0xef, 0xbe, 0xad, 0xde],
    );
}

#[test]
fn field_ctx() {
    let sc = field_ctx_schema();
    let val = Data::record(vec![Value::Int(1), Value::Ints(vec![0xdeadbeef])]);
    let ctx = Ctx::len(1).with_endian(Endian::Little);
    assert_eq!(sc.encoded_size(Ctx::len(1).with_endian(Endian::Little), &val), 8);
    let r = to_bytes_with_context(&sc, &val, ctx).unwrap();

    assert_eq!(r, vec![0x1, 0x0, 0x0, 0x0, 0xef, 0xbe, 0xad, 0xde])
}

#[test]
fn container_ctx() {
    test_bidir_ctx(
        &container_ctx_schema(),
        &Data::record(vec![Value::Int(0xdeadbeef)]),
        &[0xef, 0xbe, 0xad, 0xde],
        Ctx::endian(Endian::Little),
    );
}

#[test]
fn id_ctx() {
    test_bidir(&id_ctx_schema(), &Data::case(0, vec![]), &[0x01, 0x00]);
}

#[test]
fn id_expr() {
    test_bidir_ctx(&id_expr_schema(), &Data::case(1, vec![]), &[], Ctx::id(2));
}

#[test]
fn skip_if() {
    let sc = skip_if_schema();
    let none = Data::record(vec![Value::Int(8), Value::Maybe(None)]);
    test_bidir(&sc, &none, &[0x08]);
    assert_eq!(sc.encoded_size(Ctx::unit(), &none), 1);

    let some = Data::record(vec![Value::Int(7), Value::Maybe(Some(2))]);
    assert_eq!(sc.encoded_size(Ctx::unit(), &some), 5);
    test_bidir(&sc, &some, &[0x07, 0x00, 0x00, 0x00, 0x02]);
}

#[test]
fn via() {
    let sc = via_schema();
    let val = Data::record(vec![Value::Ints(vec![1]), Value::Bytes(vec![2])]);
    assert_eq!(sc.encoded_size(Ctx::unit(), &val), 8);
    let r = to_bytes_with_context(&sc, &val, Ctx::unit()).unwrap();

    assert_eq!(r, vec![0x1, 0x1, 0x0, 0x0, 0x0, 0x1, 0x0, 0x2])
}

#[test]
fn via_decodes_back() {
    let sc = via_schema();
    let val = Data::record(vec![Value::Ints(vec![1]), Value::Bytes(vec![2])]);
    let r = to_bytes(&sc, &val).unwrap();
    assert_eq!(from_bytes(&sc, &r).unwrap(), val);
}
