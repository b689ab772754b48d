use grpc_graphql_gateway::descriptor::{
    DescriptorSet, EnumDesc, EnumValueDesc, ExtensionSet, FieldDesc, FieldKind, FieldOptions,
    MessageDesc,
};
use grpc_graphql_gateway::error::Error;
use grpc_graphql_gateway::marshal::{
    apply_response_pluck, build_request_message, dynamic_message_to_value, graphql_input_to_prost,
    map_key_to_string, object_to_message, prost_value_to_graphql, single_input_to_prost,
    upload_marker_to_bytes,
};
use grpc_graphql_gateway::value::{DynMessage, GqlNumber, GqlValue, MapKey, ProtoValue, Real};

fn field(name: &str, kind: FieldKind) -> FieldDesc {
    FieldDesc { name: name.to_string(), kind, is_list: false, options: None }
}

fn set() -> DescriptorSet {
    DescriptorSet {
        messages: vec![
            MessageDesc {
                full_name: "demo.Thing".to_string(),
                fields: vec![
                    field("id", FieldKind::Int64),
                    field("count", FieldKind::Uint32),
                    field("label", FieldKind::String),
                    field("blob", FieldKind::Bytes),
                    field("color", FieldKind::Enum(0)),
                    FieldDesc { name: "tags".to_string(), kind: FieldKind::String, is_list: true, options: None },
                    field("child", FieldKind::Message(1)),
                    FieldDesc {
                        name: "secret".to_string(),
                        kind: FieldKind::String,
                        is_list: false,
                        options: Some(FieldOptions {
                            name: String::new(),
                            required: false,
                            omit: true,
                            external: false,
                            requires: String::new(),
                            provides: String::new(),
                        }),
                    },
                ],
                entity: None,
            },
            MessageDesc {
                full_name: "demo.Child".to_string(),
                fields: vec![
                    FieldDesc {
                        name: "flag".to_string(),
                        kind: FieldKind::Bool,
                        is_list: false,
                        options: Some(FieldOptions {
                            name: "isOn".to_string(),
                            required: true,
                            omit: false,
                            external: false,
                            requires: String::new(),
                            provides: String::new(),
                        }),
                    },
                ],
                entity: None,
            },
        ],
        enums: vec![EnumDesc {
            full_name: "demo.Color".to_string(),
            values: vec![
                EnumValueDesc { name: "RED".to_string(), number: 0 },
                EnumValueDesc { name: "BLUE".to_string(), number: 2 },
            ],
        }],
        services: vec![],
        extensions: ExtensionSet { schema: true, service: true, field: true, entity: false },
    }
}

fn s(v: &str) -> GqlValue {
    GqlValue::String(v.to_string())
}

fn is_invalid<T>(r: &Result<T, Error>) -> bool {
    matches!(r, Err(Error::InvalidRequest(_)))
}

#[test]
fn int64_accepts_max_as_string() {
    let d = set();
    let r = single_input_to_prost(&d, FieldKind::Int64, &s("9223372036854775807"), &vec![]);
    assert!(matches!(r, Ok(ProtoValue::I64(9223372036854775807))));
}

#[test]
fn int64_rejects_non_number() {
    let d = set();
    let r = single_input_to_prost(&d, FieldKind::Int64, &s("not-a-number"), &vec![]);
    assert!(is_invalid(&r));
    assert_eq!(r.err().unwrap().code(), "INVALID_REQUEST");
}

#[test]
fn int64_accepts_negative_and_number() {
    let d = set();
    assert!(matches!(single_input_to_prost(&d, FieldKind::Sint64, &s("-9223372036854775808"), &vec![]), Ok(ProtoValue::I64(i64::MIN))));
    assert!(matches!(single_input_to_prost(&d, FieldKind::Int64, &GqlValue::Number(GqlNumber::NegInt(-5)), &vec![]), Ok(ProtoValue::I64(-5))));
    assert!(is_invalid(&single_input_to_prost(&d, FieldKind::Int64, &s("9223372036854775808"), &vec![])));
}

#[test]
fn uint64_rejects_minus_sign() {
    let d = set();
    assert!(matches!(single_input_to_prost(&d, FieldKind::Uint64, &s("18446744073709551615"), &vec![]), Ok(ProtoValue::U64(u64::MAX))));
    assert!(is_invalid(&single_input_to_prost(&d, FieldKind::Uint64, &s("-0"), &vec![])));
    assert!(matches!(single_input_to_prost(&d, FieldKind::Fixed64, &s("+7"), &vec![]), Ok(ProtoValue::U64(7))));
}

#[test]
fn int32_wraps_like_a_cast() {
    let d = set();
    let r = single_input_to_prost(&d, FieldKind::Int32, &GqlValue::Number(GqlNumber::PosInt(4294967297)), &vec![]);
    assert!(matches!(r, Ok(ProtoValue::I32(1))));
    let r = single_input_to_prost(&d, FieldKind::Uint32, &GqlValue::Number(GqlNumber::PosInt(4294967296 + 9)), &vec![]);
    assert!(matches!(r, Ok(ProtoValue::U32(9))));
}

#[test]
fn upload_marker_resolves_first_upload() {
    let uploads = vec![b"hello world!".to_vec()];
    let r = upload_marker_to_bytes(&uploads, "#__graphql_file__:0");
    assert_eq!(r.ok().unwrap(), Some(b"hello world!".to_vec()));
    let d = set();
    let v = single_input_to_prost(&d, FieldKind::Bytes, &s("#__graphql_file__:0"), &uploads);
    match v {
        Ok(ProtoValue::Bytes(b)) => assert_eq!(b.len(), 12),
        _ => panic!("expected bytes"),
    }
}

#[test]
fn upload_marker_out_of_range_is_internal() {
    let uploads = vec![b"x".to_vec()];
    let r = upload_marker_to_bytes(&uploads, "#__graphql_file__:99");
    assert!(matches!(r, Err(Error::Internal(_))));
    let d = set();
    let v = single_input_to_prost(&d, FieldKind::Bytes, &s("#__graphql_file__:99"), &uploads);
    assert_eq!(v.err().unwrap().code(), "INTERNAL_ERROR");
    assert!(matches!(upload_marker_to_bytes(&uploads, "#__graphql_file__:x"), Err(Error::Internal(_))));
}

#[test]
fn non_marker_is_not_an_upload() {
    assert_eq!(upload_marker_to_bytes(&vec![], "aGVsbG8=").ok().unwrap(), None);
}

#[test]
fn bytes_accept_base64_and_binary() {
    let d = set();
    match single_input_to_prost(&d, FieldKind::Bytes, &s("aGVsbG8="), &vec![]) {
        Ok(ProtoValue::Bytes(b)) => assert_eq!(b, b"hello".to_vec()),
        _ => panic!("expected bytes"),
    }
    assert!(is_invalid(&single_input_to_prost(&d, FieldKind::Bytes, &s("!!"), &vec![])));
    assert!(matches!(single_input_to_prost(&d, FieldKind::Bytes, &GqlValue::Binary(vec![1, 2]), &vec![]), Ok(ProtoValue::Bytes(_))));
}

#[test]
fn bytes_output_as_base64() {
    let d = set();
    let g = prost_value_to_graphql(&d, &ProtoValue::Bytes(b"hello".to_vec()), Some(FieldKind::Bytes));
    assert!(matches!(g, GqlValue::String(ref t) if t == "aGVsbG8="));
}

#[test]
fn sixty_four_bit_output_as_string() {
    let d = set();
    assert!(matches!(prost_value_to_graphql(&d, &ProtoValue::I64(-42), None), GqlValue::String(ref t) if t == "-42"));
    assert!(matches!(prost_value_to_graphql(&d, &ProtoValue::U64(u64::MAX), None), GqlValue::String(ref t) if t == "18446744073709551615"));
    assert!(matches!(prost_value_to_graphql(&d, &ProtoValue::U32(7), None), GqlValue::Number(GqlNumber::PosInt(7))));
    assert!(matches!(prost_value_to_graphql(&d, &ProtoValue::I32(-7), None), GqlValue::Number(GqlNumber::NegInt(-7))));
}

#[test]
fn enums_by_name_both_ways() {
    let d = set();
    assert!(matches!(prost_value_to_graphql(&d, &ProtoValue::EnumNumber(2), Some(FieldKind::Enum(0))), GqlValue::Enum(ref n) if n == "BLUE"));
    assert!(matches!(prost_value_to_graphql(&d, &ProtoValue::EnumNumber(5), Some(FieldKind::Enum(0))), GqlValue::Number(GqlNumber::PosInt(5))));
    assert!(matches!(single_input_to_prost(&d, FieldKind::Enum(0), &GqlValue::Enum("BLUE".to_string()), &vec![]), Ok(ProtoValue::EnumNumber(2))));
    assert!(matches!(single_input_to_prost(&d, FieldKind::Enum(0), &s("RED"), &vec![]), Ok(ProtoValue::EnumNumber(0))));
    assert!(is_invalid(&single_input_to_prost(&d, FieldKind::Enum(0), &s("GREEN"), &vec![])));
}

#[test]
fn map_keys_as_text() {
    assert_eq!(map_key_to_string(&MapKey::Bool(true)), "true");
    assert_eq!(map_key_to_string(&MapKey::I32(-3)), "-3");
    assert_eq!(map_key_to_string(&MapKey::U64(0)), "0");
    assert_eq!(map_key_to_string(&MapKey::String("k".to_string())), "k");
}

#[test]
fn lists_need_repeated_fields() {
    let d = set();
    let tags = &d.messages[0].fields[5];
    let ok = graphql_input_to_prost(&d, tags, &GqlValue::List(vec![s("a"), s("b")]), &vec![]);
    match ok {
        Ok(ProtoValue::List(items)) => assert_eq!(items.len(), 2),
        _ => panic!("expected a list"),
    }
    assert!(is_invalid(&graphql_input_to_prost(&d, tags, &s("a"), &vec![])));
    assert!(is_invalid(&graphql_input_to_prost(&d, tags, &GqlValue::List(vec![s("a"), GqlValue::Boolean(true)]), &vec![])));
}

#[test]
fn object_to_message_reads_fields_by_graphql_name() {
    let d = set();
    let obj = vec![
        ("label".to_string(), s("x")),
        ("child".to_string(), GqlValue::Object(vec![("isOn".to_string(), GqlValue::Boolean(true))])),
        ("secret".to_string(), s("ignored")),
    ];
    let m = object_to_message(&d, 0, &obj, &vec![]).ok().expect("converts");
    assert_eq!(m.message, 0);
    assert_eq!(m.fields.len(), 8);
    assert!(m.fields[0].is_none());
    assert!(matches!(&m.fields[2], Some(ProtoValue::String(t)) if t == "x"));
    match &m.fields[6] {
        Some(ProtoValue::Message(c)) => assert!(matches!(c.fields[0], Some(ProtoValue::Bool(true)))),
        _ => panic!("expected a child message"),
    }
    assert!(m.fields[7].is_none());
}

#[test]
fn round_trip_of_a_message() {
    let d = DescriptorSet {
        messages: vec![MessageDesc {
            full_name: "demo.Small".to_string(),
            fields: vec![field("id", FieldKind::Int64), field("blob", FieldKind::Bytes), field("n", FieldKind::Uint32)],
            entity: None,
        }],
        enums: vec![],
        services: vec![],
        extensions: ExtensionSet { schema: true, service: true, field: true, entity: false },
    };
    let m = DynMessage {
        message: 0,
        fields: vec![Some(ProtoValue::I64(-12)), Some(ProtoValue::Bytes(vec![0, 255, 7])), Some(ProtoValue::U32(9))],
    };
    let g = dynamic_message_to_value(&d, &m);
    let obj = match g {
        GqlValue::Object(o) => o,
        _ => panic!("expected an object"),
    };
    let back = object_to_message(&d, 0, &obj, &vec![]).ok().expect("reads back");
    assert!(matches!(back.fields[0], Some(ProtoValue::I64(-12))));
    assert!(matches!(&back.fields[1], Some(ProtoValue::Bytes(b)) if *b == vec![0, 255, 7]));
    assert!(matches!(back.fields[2], Some(ProtoValue::U32(9))));
}

#[test]
fn message_output_skips_omitted_fields() {
    let d = set();
    let m = DynMessage { message: 1, fields: vec![Some(ProtoValue::Bool(false))] };
    match dynamic_message_to_value(&d, &m) {
        GqlValue::Object(o) => {
            assert_eq!(o.len(), 1);
            assert_eq!(o[0].0, "isOn");
        }
        _ => panic!("expected an object"),
    }
}

#[test]
fn pluck_takes_the_named_field() {
    let d = set();
    let m = DynMessage { message: 1, fields: vec![Some(ProtoValue::Bool(true))] };
    let g = apply_response_pluck(&d, &m, &Some("flag".to_string()));
    assert!(matches!(g, GqlValue::Boolean(true)));
    let whole = apply_response_pluck(&d, &m, &Some("nope".to_string()));
    assert!(matches!(whole, GqlValue::Object(_)));
}

#[test]
fn request_from_wrapper_argument() {
    let d = set();
    let args = vec![("input".to_string(), GqlValue::Object(vec![("isOn".to_string(), GqlValue::Boolean(true))]))];
    let m = build_request_message(&d, 1, &args, &Some("input".to_string()), &vec![]).ok().expect("builds");
    assert!(matches!(m.fields[0], Some(ProtoValue::Bool(true))));
    assert!(is_invalid(&build_request_message(&d, 1, &args, &Some("other".to_string()), &vec![])));
    let flat = vec![("input".to_string(), s("x"))];
    assert!(is_invalid(&build_request_message(&d, 1, &flat, &Some("input".to_string()), &vec![])));
}

#[test]
fn float_inputs_keep_their_number() {
    let d = set();
    assert!(matches!(single_input_to_prost(&d, FieldKind::Double, &GqlValue::Number(GqlNumber::PosInt(3)), &vec![]), Ok(ProtoValue::F64(Real::FromUInt(3)))));
    assert!(is_invalid(&single_input_to_prost(&d, FieldKind::Float, &s("1.5"), &vec![])));
}
