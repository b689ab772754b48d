//! Conversion between protobuf dynamic values and GraphQL values, in both
//! directions, and response plucking.
use vstd::prelude::*;
use base64::Engine;
use crate::descriptor::{
    field_is_omitted, gql_name, graphql_field_name, is_omitted, DescriptorSet, EnumValueDesc,
    FieldDesc, FieldKind,
};
use crate::text::{
    bool_text, chars_of, decimal_of, lemma_parse_signed_decimal, format_bool, format_i64, format_u64, parse_i64_spec,
    parse_i64, parse_u64, parse_u64_spec, parse_usize, parse_usize_spec, signed_decimal, string_of,
};
use crate::error::Error;
use crate::schema::{field_index, find_field_by_name};
use crate::federation::{entry_value, lemma_entry_value_prefix};
use vstd::string::StringExecFns;
use crate::value::{
    gv, gv_list, gv_obj, kv, lemma_gv_list, lemma_gv_obj, pv_opts, lemma_pv_list, lemma_pv_map, lemma_pv_opts, pv, pv_list, pv_map, DynMessage, GVal, GqlNumber, GqlValue,
    KeyVal, MapKey, MsgVal, PVal, ProtoValue, Real,
};

verus! {

/// The standard padded base64 text of some bytes.
pub uninterp spec fn base64_encode_of(b: Seq<u8>) -> Seq<char>;

/// The bytes that standard base64 text decodes to, or `None` when it is not
/// valid base64.
pub uninterp spec fn base64_decode_of(s: Seq<char>) -> Option<Seq<u8>>;

/// The characters of standard padded base64: `A`-`Z`, `a`-`z`, `0`-`9`,
/// `+`, `/` and the padding `=`.
pub open spec fn is_base64_char(c: char) -> bool {
    ('A' <= c && c <= 'Z') || ('a' <= c && c <= 'z') || ('0' <= c && c <= '9') || c == '+' || c == '/' || c == '='
}

/// Relies on `base64::engine::general_purpose::STANDARD.encode`: standard
/// alphabet, padded; its output decodes back to the input.
#[verifier::external_body]
fn base64_encode(b: &Vec<u8>) -> (r: String)
    ensures
        r@ == base64_encode_of(b@),
        base64_decode_of(r@) == Some(b@),
        forall|i: int| 0 <= i < r@.len() ==> is_base64_char(#[trigger] r@[i]),
{
    base64::engine::general_purpose::STANDARD.encode(b)
}

/// Relies on `base64::engine::general_purpose::STANDARD.decode`.
#[verifier::external_body]
fn base64_decode(s: &str) -> (r: Option<Vec<u8>>)
    ensures
        match r {
            Some(b) => base64_decode_of(s@) == Some(b@),
            None => base64_decode_of(s@) is None,
        },
{
    base64::engine::general_purpose::STANDARD.decode(s).ok()
}

/// The JSON number of an integer.
pub open spec fn int_number(i: int) -> GqlNumber {
    if i < 0 {
        GqlNumber::NegInt(i as i64)
    } else {
        GqlNumber::PosInt(i as u64)
    }
}

/// The name of the first value of `vals` numbered `n`.
pub open spec fn enum_name_in(vals: Seq<EnumValueDesc>, n: i32) -> Option<Seq<char>>
    decreases vals.len(),
{
    if vals.len() == 0 {
        None
    } else {
        match enum_name_in(vals.drop_last(), n) {
            Some(x) => Some(x),
            None => if vals.last().number == n { Some(vals.last().name@) } else { None },
        }
    }
}

/// The number of the first value of `vals` named `name`.
pub open spec fn enum_number_in(vals: Seq<EnumValueDesc>, name: Seq<char>) -> Option<i32>
    decreases vals.len(),
{
    if vals.len() == 0 {
        None
    } else {
        match enum_number_in(vals.drop_last(), name) {
            Some(x) => Some(x),
            None => if vals.last().name@ == name { Some(vals.last().number) } else { None },
        }
    }
}

/// The textual form of a map key.
pub open spec fn key_text(k: KeyVal) -> Seq<char> {
    match k {
        KeyVal::Bool(b) => bool_text(b),
        KeyVal::I32(v) => signed_decimal(v as int),
        KeyVal::I64(v) => signed_decimal(v as int),
        KeyVal::U32(v) => decimal_of(v as nat),
        KeyVal::U64(v) => decimal_of(v as nat),
        KeyVal::String(s) => s,
    }
}

/// The GraphQL value of an enum number: the value's name when the field's
/// enum type knows the number, else the number itself.
pub open spec fn enum_to_gql(d: DescriptorSet, kind: Option<FieldKind>, n: i32) -> GVal {
    match kind {
        Some(FieldKind::Enum(e)) => if e < d.enums@.len() {
            match enum_name_in(d.enums@[e as int].values@, n) {
                Some(nm) => GVal::Enum(nm),
                None => GVal::Number(int_number(n as int)),
            }
        } else {
            GVal::Number(int_number(n as int))
        },
        _ => GVal::Number(int_number(n as int)),
    }
}

/// The GraphQL value of a protobuf value read from a field of kind `kind`.
pub open spec fn to_gql(d: DescriptorSet, kind: Option<FieldKind>, v: PVal) -> GVal
    decreases v, 0nat,
{
    match v {
        PVal::Bool(b) => GVal::Boolean(b),
        PVal::I32(x) => GVal::Number(int_number(x as int)),
        PVal::I64(x) => GVal::String(signed_decimal(x as int)),
        PVal::U32(x) => GVal::Number(GqlNumber::PosInt(x as u64)),
        PVal::U64(x) => GVal::String(decimal_of(x as nat)),
        PVal::F32(r) => GVal::Number(GqlNumber::Float(r)),
        PVal::F64(r) => GVal::Number(GqlNumber::Float(r)),
        PVal::String(s) => GVal::String(s),
        PVal::Bytes(b) => GVal::String(base64_encode_of(b)),
        PVal::EnumNumber(n) => enum_to_gql(d, kind, n),
        PVal::Message(m) => msg_to_gql(d, m),
        PVal::List(vs) => GVal::List(list_to_gql(d, kind, vs)),
        PVal::MapValue(es) => GVal::Object(map_to_gql(d, kind, es)),
    }
}

pub open spec fn list_to_gql(d: DescriptorSet, kind: Option<FieldKind>, vs: Seq<PVal>) -> Seq<GVal>
    decreases vs, vs.len(),
{
    if vs.len() == 0 {
        seq![]
    } else {
        list_to_gql(d, kind, vs.subrange(0, vs.len() - 1)).push(to_gql(d, kind, vs[vs.len() - 1]))
    }
}

pub open spec fn map_to_gql(d: DescriptorSet, kind: Option<FieldKind>, es: Seq<(KeyVal, PVal)>) -> Seq<(Seq<char>, GVal)>
    decreases es, es.len(),
{
    if es.len() == 0 {
        seq![]
    } else {
        map_to_gql(d, kind, es.subrange(0, es.len() - 1)).push(
            (key_text(es[es.len() - 1].0), to_gql(d, kind, es[es.len() - 1].1)),
        )
    }
}

/// The GraphQL object of a message: one entry per non-omitted field of its
/// type, in declaration order, under the field's GraphQL name.
pub open spec fn msg_to_gql(d: DescriptorSet, m: MsgVal) -> GVal
    decreases m, 0nat,
{
    if m.message < d.messages@.len() {
        let fs = d.messages@[m.message as int].fields@;
        GVal::Object(fields_to_gql(d, fs, m.fields, fs.len()))
    } else {
        GVal::Object(seq![])
    }
}

/// The entries of the first `n` fields of `fs`, given the message's values.
pub open spec fn fields_to_gql(d: DescriptorSet, fs: Seq<FieldDesc>, vals: Seq<Option<PVal>>, n: nat) -> Seq<(Seq<char>, GVal)>
    decreases vals, n,
{
    if n == 0 || n > fs.len() {
        seq![]
    } else {
        let prev = fields_to_gql(d, fs, vals, (n - 1) as nat);
        let f = fs[n - 1];
        if is_omitted(f) {
            prev
        } else {
            let v = if n - 1 < vals.len() {
                match vals[n - 1] {
                    Some(x) => to_gql(d, Some(f.kind), x),
                    None => GVal::Null,
                }
            } else {
                GVal::Null
            };
            prev.push((gql_name(f), v))
        }
    }
}

/// The textual form of a map key.
pub fn map_key_to_string(key: &MapKey) -> (r: String)
    ensures
        r@ == key_text(kv(*key)),
{
    match key {
        MapKey::Bool(b) => format_bool(*b),
        MapKey::I32(v) => format_i64(*v as i64),
        MapKey::I64(v) => format_i64(*v),
        MapKey::U32(v) => format_u64(*v as u64),
        MapKey::U64(v) => format_u64(*v),
        MapKey::String(s) => s.clone(),
    }
}

fn int_number_of(i: i64) -> (r: GqlNumber)
    ensures
        r == int_number(i as int),
{
    if i < 0 {
        GqlNumber::NegInt(i)
    } else {
        GqlNumber::PosInt(i as u64)
    }
}

fn enum_value_to_graphql(d: &DescriptorSet, kind: Option<FieldKind>, n: i32) -> (r: GqlValue)
    ensures
        r@ == enum_to_gql(*d, kind, n),
{
    if let Some(FieldKind::Enum(e)) = kind {
        if e < d.enums.len() {
            let vals = &d.enums[e].values;
            assert(vals@ == d.enums@[e as int].values@);
            let mut i: usize = 0;
            while i < vals.len()
                invariant
                    i <= vals@.len(),
                    kind == Some(FieldKind::Enum(e)),
                    e < d.enums@.len(),
                    vals@ == d.enums@[e as int].values@,
                    enum_name_in(vals@.subrange(0, i as int), n) is None,
                decreases vals@.len() - i,
            {
                assert(vals@.subrange(0, i + 1).drop_last() =~= vals@.subrange(0, i as int));
                if vals[i].number == n {
                    proof {
                        assert(vals@.subrange(0, i + 1).last() == vals@[i as int]);
                        assert(enum_name_in(vals@.subrange(0, i + 1), n) == Some(vals@[i as int].name@));
                        lemma_enum_name_prefix(vals@, i + 1, n);
                    }
                    return GqlValue::Enum(vals[i].name.clone());
                }
                i = i + 1;
            }
            assert(vals@.subrange(0, i as int) =~= vals@);
        }
    }
    GqlValue::Number(int_number_of(n as i64))
}

proof fn lemma_enum_name_prefix(vals: Seq<EnumValueDesc>, k: int, n: i32)
    requires
        0 <= k <= vals.len(),
        enum_name_in(vals.subrange(0, k), n) is Some,
    ensures
        enum_name_in(vals, n) == enum_name_in(vals.subrange(0, k), n),
    decreases vals.len() - k,
{
    if k < vals.len() {
        assert(vals.subrange(0, k + 1).drop_last() =~= vals.subrange(0, k));
        lemma_enum_name_prefix(vals, k + 1, n);
    } else {
        assert(vals.subrange(0, k) =~= vals);
    }
}

/// Converts a protobuf value read from a field of kind `kind` to GraphQL.
pub fn prost_value_to_graphql(d: &DescriptorSet, value: &ProtoValue, kind: Option<FieldKind>) -> (r: GqlValue)
    ensures
        r@ == to_gql(*d, kind, value@),
    decreases value,
{
    match value {
        ProtoValue::Bool(b) => GqlValue::Boolean(*b),
        ProtoValue::I32(x) => GqlValue::Number(int_number_of(*x as i64)),
        ProtoValue::I64(x) => GqlValue::String(format_i64(*x)),
        ProtoValue::U32(x) => GqlValue::Number(GqlNumber::PosInt(*x as u64)),
        ProtoValue::U64(x) => GqlValue::String(format_u64(*x)),
        ProtoValue::F32(r) => GqlValue::Number(GqlNumber::Float(*r)),
        ProtoValue::F64(r) => GqlValue::Number(GqlNumber::Float(*r)),
        ProtoValue::String(s) => GqlValue::String(s.clone()),
        ProtoValue::Bytes(b) => GqlValue::String(base64_encode(b)),
        ProtoValue::EnumNumber(n) => enum_value_to_graphql(d, kind, *n),
        ProtoValue::Message(m) => dynamic_message_to_value(d, m),
        ProtoValue::List(vs) => GqlValue::List(list_to_graphql(d, vs, kind)),
        ProtoValue::MapValue(es) => GqlValue::Object(map_to_graphql(d, es, kind)),
    }
}

fn list_to_graphql(d: &DescriptorSet, vs: &Vec<ProtoValue>, kind: Option<FieldKind>) -> (r: Vec<GqlValue>)
    ensures
        gv_list(r@) == list_to_gql(*d, kind, pv_list(vs@)),
    decreases vs,
{
    let mut out: Vec<GqlValue> = Vec::new();
    let mut i: usize = 0;
    while i < vs.len()
        invariant
            i <= vs@.len(),
            gv_list(out@) == list_to_gql(*d, kind, pv_list(vs@.subrange(0, i as int))),
        decreases vs@.len() - i,
    {
        proof {
            assert(decreases_to!(*vs => vs@[i as int]));
        }
        let g = prost_value_to_graphql(d, &vs[i], kind);
        proof {
            lemma_pv_list(vs@.subrange(0, i as int));
            lemma_pv_list(vs@.subrange(0, i + 1));
            let pre = pv_list(vs@.subrange(0, i as int));
            let nxt = pv_list(vs@.subrange(0, i + 1));
            assert(nxt.subrange(0, i as int) =~= pre);
            assert(nxt[i as int] == pv(vs@[i as int]));
            assert(vs@.subrange(0, i + 1).subrange(0, i as int) =~= vs@.subrange(0, i as int));
            assert(out@.push(g).subrange(0, out@.len() as int) =~= out@);
        }
        out.push(g);
        i = i + 1;
    }
    assert(vs@.subrange(0, i as int) =~= vs@);
    out
}

fn map_to_graphql(d: &DescriptorSet, es: &Vec<(MapKey, ProtoValue)>, kind: Option<FieldKind>) -> (r: Vec<(String, GqlValue)>)
    ensures
        gv_obj(r@) == map_to_gql(*d, kind, pv_map(es@)),
    decreases es,
{
    let mut out: Vec<(String, GqlValue)> = Vec::new();
    let mut i: usize = 0;
    while i < es.len()
        invariant
            i <= es@.len(),
            gv_obj(out@) == map_to_gql(*d, kind, pv_map(es@.subrange(0, i as int))),
        decreases es@.len() - i,
    {
        let k = map_key_to_string(&es[i].0);
        proof {
            assert(decreases_to!(*es => es@[i as int]));
            assert(decreases_to!(es@[i as int] => es@[i as int].1));
        }
        let g = prost_value_to_graphql(d, &es[i].1, kind);
        proof {
            lemma_pv_map(es@.subrange(0, i as int));
            lemma_pv_map(es@.subrange(0, i + 1));
            let pre = pv_map(es@.subrange(0, i as int));
            let nxt = pv_map(es@.subrange(0, i + 1));
            assert(nxt.subrange(0, i as int) =~= pre);
            assert(es@.subrange(0, i + 1).subrange(0, i as int) =~= es@.subrange(0, i as int));
            assert(out@.push((k, g)).subrange(0, out@.len() as int) =~= out@);
        }
        out.push((k, g));
        i = i + 1;
    }
    assert(es@.subrange(0, i as int) =~= es@);
    out
}

/// Converts a message to its GraphQL object.
pub fn dynamic_message_to_value(d: &DescriptorSet, m: &DynMessage) -> (r: GqlValue)
    ensures
        r@ == msg_to_gql(*d, m@),
    decreases m,
{
    if m.message >= d.messages.len() {
        assert(gv_obj(Seq::<(String, GqlValue)>::empty()) =~= Seq::<(Seq<char>, GVal)>::empty());
        return GqlValue::Object(Vec::new());
    }
    let fs = &d.messages[m.message].fields;
    let mut out: Vec<(String, GqlValue)> = Vec::new();
    let mut i: usize = 0;
    proof {
        lemma_pv_opts(m.fields@);
    }
    while i < fs.len()
        invariant
            i <= fs@.len(),
            fs@ == d.messages@[m.message as int].fields@,
            gv_obj(out@) == fields_to_gql(*d, fs@, m@.fields, i as nat),
            m@.fields.len() == m.fields@.len(),
            forall|j: int| 0 <= j < m.fields@.len() ==> #[trigger] m@.fields[j] == match m.fields@[j] {
                Some(x) => Some(pv(x)),
                None => None,
            },
        decreases fs@.len() - i,
    {
        if !field_is_omitted(&fs[i]) {
            let v = if i < m.fields.len() {
                match &m.fields[i] {
                    Some(x) => prost_value_to_graphql(d, x, Some(fs[i].kind)),
                    None => GqlValue::Null,
                }
            } else {
                GqlValue::Null
            };
            let name = graphql_field_name(&fs[i]);
            proof {
                assert(out@.push((name, v)).subrange(0, out@.len() as int) =~= out@);
            }
            out.push((name, v));
        }
        i = i + 1;
    }
    GqlValue::Object(out)
}

/// Why a GraphQL input could not be converted: a malformed value, or an
/// upload reference that does not resolve.
pub enum InErr {
    Invalid,
    Upload,
}

/// The marker that stands for an uploaded file: this text, then its index.
pub open spec fn upload_prefix() -> Seq<char> {
    "#__graphql_file__:"@
}

/// What an upload marker refers to: `None` when `s` is no marker; else the
/// upload's bytes, or `None` when the index does not parse or is out of range.
pub open spec fn upload_ref(s: Seq<char>, ups: Seq<Seq<u8>>) -> Option<Option<Seq<u8>>> {
    let p = upload_prefix();
    if s.len() >= p.len() && s.subrange(0, p.len() as int) == p {
        match parse_usize_spec(s.subrange(p.len() as int, s.len() as int)) {
            Some(i) => if i < ups.len() { Some(Some(ups[i as int])) } else { Some(None) },
            None => Some(None),
        }
    } else {
        None
    }
}

/// `v` wrapped into the range of `i32`.
pub open spec fn wrap_i32(v: int) -> i32 {
    ((v + 2147483648) % 4294967296 - 2147483648) as i32
}

/// `v` wrapped into the range of `u32`.
pub open spec fn wrap_u32(v: int) -> u32 {
    (v % 4294967296) as u32
}

/// A JSON number as an `i64`, when it is an integer in range.
pub open spec fn number_as_i64(n: GqlNumber) -> Option<i64> {
    match n {
        GqlNumber::PosInt(u) => if u <= i64::MAX { Some(u as i64) } else { None },
        GqlNumber::NegInt(i) => Some(i),
        GqlNumber::Float(_) => None,
    }
}

/// A JSON number as a `u64`, when it is a non-negative integer.
pub open spec fn number_as_u64(n: GqlNumber) -> Option<u64> {
    match n {
        GqlNumber::PosInt(u) => Some(u),
        _ => None,
    }
}

/// A JSON number as a real.
pub open spec fn number_as_real(n: GqlNumber) -> Real {
    match n {
        GqlNumber::PosInt(u) => Real::FromUInt(u),
        GqlNumber::NegInt(i) => Real::FromInt(i),
        GqlNumber::Float(r) => r,
    }
}

/// The protobuf value of a GraphQL input for one element of kind `kind`.
pub open spec fn from_gql_single(d: DescriptorSet, kind: FieldKind, g: GVal, ups: Seq<Seq<u8>>) -> Result<PVal, InErr>
    decreases g, 0nat, 0nat,
{
    match kind {
        FieldKind::Bool => match g {
            GVal::Boolean(b) => Ok(PVal::Bool(b)),
            _ => Err(InErr::Invalid),
        },
        FieldKind::String => match g {
            GVal::String(s) => Ok(PVal::String(s)),
            _ => Err(InErr::Invalid),
        },
        FieldKind::Bytes => match g {
            GVal::String(s) => match upload_ref(s, ups) {
                Some(Some(b)) => Ok(PVal::Bytes(b)),
                Some(None) => Err(InErr::Upload),
                None => match base64_decode_of(s) {
                    Some(b) => Ok(PVal::Bytes(b)),
                    None => Err(InErr::Invalid),
                },
            },
            GVal::Binary(b) => Ok(PVal::Bytes(b)),
            _ => Err(InErr::Invalid),
        },
        FieldKind::Float | FieldKind::Double => match g {
            GVal::Number(n) => Ok(PVal::F64(number_as_real(n))),
            _ => Err(InErr::Invalid),
        },
        FieldKind::Int32 | FieldKind::Sint32 | FieldKind::Sfixed32 => match g {
            GVal::Number(n) => match number_as_i64(n) {
                Some(v) => Ok(PVal::I32(wrap_i32(v as int))),
                None => Err(InErr::Invalid),
            },
            _ => Err(InErr::Invalid),
        },
        FieldKind::Uint32 | FieldKind::Fixed32 => match g {
            GVal::Number(n) => match number_as_u64(n) {
                Some(v) => Ok(PVal::U32(wrap_u32(v as int))),
                None => Err(InErr::Invalid),
            },
            _ => Err(InErr::Invalid),
        },
        FieldKind::Int64 | FieldKind::Sint64 | FieldKind::Sfixed64 => match g {
            GVal::String(s) => match parse_i64_spec(s) {
                Some(v) => Ok(PVal::I64(v)),
                None => Err(InErr::Invalid),
            },
            GVal::Number(n) => match number_as_i64(n) {
                Some(v) => Ok(PVal::I64(v)),
                None => Err(InErr::Invalid),
            },
            _ => Err(InErr::Invalid),
        },
        FieldKind::Uint64 | FieldKind::Fixed64 => match g {
            GVal::String(s) => match parse_u64_spec(s) {
                Some(v) => Ok(PVal::U64(v)),
                None => Err(InErr::Invalid),
            },
            GVal::Number(n) => match number_as_u64(n) {
                Some(v) => Ok(PVal::U64(v)),
                None => Err(InErr::Invalid),
            },
            _ => Err(InErr::Invalid),
        },
        FieldKind::Enum(e) => {
            let name = match g {
                GVal::Enum(nm) => Some(nm),
                GVal::String(nm) => Some(nm),
                _ => None,
            };
            match name {
                Some(nm) => if e < d.enums@.len() {
                    match enum_number_in(d.enums@[e as int].values@, nm) {
                        Some(num) => Ok(PVal::EnumNumber(num)),
                        None => Err(InErr::Invalid),
                    }
                } else {
                    Err(InErr::Invalid)
                },
                None => Err(InErr::Invalid),
            }
        },
        FieldKind::Message(m) => match g {
            GVal::Object(es) => match obj_to_msg(d, m as nat, es, ups) {
                Ok(mv) => Ok(PVal::Message(mv)),
                Err(x) => Err(x),
            },
            _ => Err(InErr::Invalid),
        },
    }
}

/// The protobuf value of a GraphQL input for field `f`: a list element by
/// element when the field is repeated.
pub open spec fn from_gql_field(d: DescriptorSet, f: FieldDesc, g: GVal, ups: Seq<Seq<u8>>) -> Result<PVal, InErr>
    decreases g, 1nat, 0nat,
{
    if f.is_list {
        match g {
            GVal::List(gs) => match list_from_gql(d, f.kind, gs, ups, gs.len()) {
                Ok(vs) => Ok(PVal::List(vs)),
                Err(x) => Err(x),
            },
            _ => Err(InErr::Invalid),
        }
    } else {
        from_gql_single(d, f.kind, g, ups)
    }
}

/// The first `n` elements of a GraphQL list, converted; the first failure wins.
pub open spec fn list_from_gql(d: DescriptorSet, kind: FieldKind, gs: Seq<GVal>, ups: Seq<Seq<u8>>, n: nat) -> Result<Seq<PVal>, InErr>
    decreases gs, 0nat, n,
{
    if n == 0 || n > gs.len() {
        Ok(seq![])
    } else {
        match list_from_gql(d, kind, gs, ups, (n - 1) as nat) {
            Ok(prev) => match from_gql_single(d, kind, gs[n - 1], ups) {
                Ok(v) => Ok(prev.push(v)),
                Err(x) => Err(x),
            },
            Err(x) => Err(x),
        }
    }
}

/// Among the first `j` entries of `es`, the first named like field `f`,
/// converted for `f`.
pub open spec fn lookup_from_gql(d: DescriptorSet, f: FieldDesc, es: Seq<(Seq<char>, GVal)>, ups: Seq<Seq<u8>>, j: nat) -> Option<Result<PVal, InErr>>
    decreases es, 0nat, j,
{
    if j == 0 || j > es.len() {
        None
    } else {
        match lookup_from_gql(d, f, es, ups, (j - 1) as nat) {
            Some(x) => Some(x),
            None => if es[j - 1].0 == gql_name(f) {
                Some(from_gql_field(d, f, es[j - 1].1, ups))
            } else {
                None
            },
        }
    }
}

/// The values of the first `n` fields of `fs` read from a GraphQL object:
/// omitted fields and fields absent from the object stay unset.
pub open spec fn fields_from_gql(d: DescriptorSet, fs: Seq<FieldDesc>, es: Seq<(Seq<char>, GVal)>, ups: Seq<Seq<u8>>, n: nat) -> Result<Seq<Option<PVal>>, InErr>
    decreases es, 1nat, n,
{
    if n == 0 || n > fs.len() {
        Ok(seq![])
    } else {
        match fields_from_gql(d, fs, es, ups, (n - 1) as nat) {
            Ok(prev) => {
                let f = fs[n - 1];
                if is_omitted(f) {
                    Ok(prev.push(None))
                } else {
                    match lookup_from_gql(d, f, es, ups, es.len()) {
                        None => Ok(prev.push(None)),
                        Some(Ok(v)) => Ok(prev.push(Some(v))),
                        Some(Err(x)) => Err(x),
                    }
                }
            },
            Err(x) => Err(x),
        }
    }
}

/// The message of type `m` built from a GraphQL object.
pub open spec fn obj_to_msg(d: DescriptorSet, m: nat, es: Seq<(Seq<char>, GVal)>, ups: Seq<Seq<u8>>) -> Result<MsgVal, InErr>
    decreases es, 2nat, 0nat,
{
    if m < d.messages@.len() {
        let fs = d.messages@[m as int].fields@;
        match fields_from_gql(d, fs, es, ups, fs.len()) {
            Ok(vals) => Ok(MsgVal { message: m, fields: vals }),
            Err(x) => Err(x),
        }
    } else {
        Err(InErr::Invalid)
    }
}

/// The views of the uploads of a request.
pub open spec fn uploads_view(ups: Seq<Vec<u8>>) -> Seq<Seq<u8>> {
    ups.map_values(|u: Vec<u8>| u@)
}

/// An executable error agrees with the kind of failure the contract names.
pub open spec fn error_is(e: Error, x: InErr) -> bool {
    match x {
        InErr::Invalid => e is InvalidRequest,
        InErr::Upload => e is Internal,
    }
}

pub open spec fn value_result_is(r: Result<ProtoValue, Error>, s: Result<PVal, InErr>) -> bool {
    match (r, s) {
        (Ok(v), Ok(p)) => pv(v) == p,
        (Err(e), Err(x)) => error_is(e, x),
        _ => false,
    }
}

fn invalid(msg: &str) -> (r: Error)
    ensures
        r is InvalidRequest,
{
    Error::InvalidRequest(String::from_str(msg))
}

/// Resolves an upload marker `#__graphql_file__:<index>` to the bytes of
/// that upload. `Ok(None)` when `marker` is no marker; `Internal` when the
/// index does not parse or names no upload.
pub fn upload_marker_to_bytes(uploads: &Vec<Vec<u8>>, marker: &str) -> (r: Result<Option<Vec<u8>>, Error>)
    ensures
        match upload_ref(marker@, uploads_view(uploads@)) {
            None => r == Ok::<Option<Vec<u8>>, Error>(None),
            Some(Some(b)) => r is Ok && r->Ok_0 is Some && r->Ok_0->Some_0@ == b,
            Some(None) => r is Err && r->Err_0 is Internal,
        },
{
    let cs = chars_of(marker);
    let p = chars_of("#__graphql_file__:");
    proof {
        reveal_strlit("#__graphql_file__:");
    }
    assert(p@ == upload_prefix());
    if cs.len() < p.len() {
        return Ok(None);
    }
    let mut i: usize = 0;
    while i < p.len()
        invariant
            i <= p@.len(),
            p@.len() <= cs@.len(),
            cs@ == marker@,
            p@ == upload_prefix(),
            forall|k: int| 0 <= k < i ==> cs@[k] == p@[k],
        decreases p@.len() - i,
    {
        if cs[i] != p[i] {
            assert(cs@.subrange(0, p@.len() as int)[i as int] != p@[i as int]);
            return Ok(None);
        }
        i = i + 1;
    }
    assert(cs@.subrange(0, p@.len() as int) =~= p@);
    let mut rest: Vec<char> = Vec::new();
    let mut j: usize = p.len();
    while j < cs.len()
        invariant
            p@.len() <= j <= cs@.len(),
            rest@ == cs@.subrange(p@.len() as int, j as int),
        decreases cs@.len() - j,
    {
        rest.push(cs[j]);
        j = j + 1;
        assert(rest@ =~= cs@.subrange(p@.len() as int, j as int));
    }
    let rest_str = string_of(&rest);
    match parse_usize(rest_str.as_str()) {
        Some(idx) => {
            if idx < uploads.len() {
                Ok(Some(uploads[idx].clone()))
            } else {
                Err(Error::Internal(String::from_str("upload index not found")))
            }
        },
        None => Err(Error::Internal(String::from_str("invalid upload reference"))),
    }
}

fn wrap_to_i32(v: i64) -> (r: i32)
    ensures
        r == wrap_i32(v as int),
{
    let w: u128 = (v as i128 + 9223372036854775808 + 2147483648) as u128;
    let m: u128 = w % 4294967296;
    proof {
        vstd::arithmetic::div_mod::lemma_mod_multiples_vanish(
            2147483648,
            v as int + 2147483648,
            4294967296,
        );
        assert(4294967296 * 2147483648 + (v as int + 2147483648) == w as int);
    }
    (m as i64 - 2147483648) as i32
}

fn wrap_to_u32(v: u64) -> (r: u32)
    ensures
        r == wrap_u32(v as int),
{
    (v % 4294967296) as u32
}

fn number_to_i64(n: GqlNumber) -> (r: Option<i64>)
    ensures
        r == number_as_i64(n),
{
    match n {
        GqlNumber::PosInt(u) => if u <= 9223372036854775807 { Some(u as i64) } else { None },
        GqlNumber::NegInt(i) => Some(i),
        GqlNumber::Float(_) => None,
    }
}

fn number_to_u64(n: GqlNumber) -> (r: Option<u64>)
    ensures
        r == number_as_u64(n),
{
    match n {
        GqlNumber::PosInt(u) => Some(u),
        _ => None,
    }
}

fn number_to_real(n: GqlNumber) -> (r: Real)
    ensures
        r == number_as_real(n),
{
    match n {
        GqlNumber::PosInt(u) => Real::FromUInt(u),
        GqlNumber::NegInt(i) => Real::FromInt(i),
        GqlNumber::Float(r) => r,
    }
}

fn enum_number_by_name(vals: &Vec<EnumValueDesc>, name: &String) -> (r: Option<i32>)
    ensures
        r == enum_number_in(vals@, name@),
{
    let mut i: usize = 0;
    while i < vals.len()
        invariant
            i <= vals@.len(),
            enum_number_in(vals@.subrange(0, i as int), name@) is None,
        decreases vals@.len() - i,
    {
        assert(vals@.subrange(0, i + 1).drop_last() =~= vals@.subrange(0, i as int));
        if vals[i].name == *name {
            proof {
                assert(vals@.subrange(0, i + 1).last() == vals@[i as int]);
                lemma_enum_number_prefix(vals@, i + 1, name@);
            }
            return Some(vals[i].number);
        }
        i = i + 1;
    }
    assert(vals@.subrange(0, i as int) =~= vals@);
    None
}

proof fn lemma_enum_number_prefix(vals: Seq<EnumValueDesc>, k: int, name: Seq<char>)
    requires
        0 <= k <= vals.len(),
        enum_number_in(vals.subrange(0, k), name) is Some,
    ensures
        enum_number_in(vals, name) == enum_number_in(vals.subrange(0, k), name),
    decreases vals.len() - k,
{
    if k < vals.len() {
        assert(vals.subrange(0, k + 1).drop_last() =~= vals.subrange(0, k));
        lemma_enum_number_prefix(vals, k + 1, name);
    } else {
        assert(vals.subrange(0, k) =~= vals);
    }
}

/// Converts a GraphQL input for one element of kind `kind` to protobuf.
pub fn single_input_to_prost(d: &DescriptorSet, kind: FieldKind, value: &GqlValue, uploads: &Vec<Vec<u8>>) -> (r: Result<ProtoValue, Error>)
    ensures
        value_result_is(r, from_gql_single(*d, kind, value@, uploads_view(uploads@))),
    decreases value, 0nat,
{
    match kind {
        FieldKind::Bool => match value {
            GqlValue::Boolean(b) => Ok(ProtoValue::Bool(*b)),
            _ => Err(invalid("expected boolean")),
        },
        FieldKind::String => match value {
            GqlValue::String(s) => Ok(ProtoValue::String(s.clone())),
            _ => Err(invalid("expected string")),
        },
        FieldKind::Bytes => match value {
            GqlValue::String(s) => {
                match upload_marker_to_bytes(uploads, s.as_str()) {
                    Err(e) => Err(e),
                    Ok(Some(b)) => Ok(ProtoValue::Bytes(b)),
                    Ok(None) => match base64_decode(s.as_str()) {
                        Some(b) => Ok(ProtoValue::Bytes(b)),
                        None => Err(invalid("invalid base64")),
                    },
                }
            },
            GqlValue::Binary(b) => Ok(ProtoValue::Bytes(b.clone())),
            _ => Err(invalid("expected upload or base64 string")),
        },
        FieldKind::Float | FieldKind::Double => match value {
            GqlValue::Number(n) => Ok(ProtoValue::F64(number_to_real(*n))),
            _ => Err(invalid("expected float")),
        },
        FieldKind::Int32 | FieldKind::Sint32 | FieldKind::Sfixed32 => match value {
            GqlValue::Number(n) => match number_to_i64(*n) {
                Some(v) => Ok(ProtoValue::I32(wrap_to_i32(v))),
                None => Err(invalid("expected int")),
            },
            _ => Err(invalid("expected int")),
        },
        FieldKind::Uint32 | FieldKind::Fixed32 => match value {
            GqlValue::Number(n) => match number_to_u64(*n) {
                Some(v) => Ok(ProtoValue::U32(wrap_to_u32(v))),
                None => Err(invalid("expected unsigned int")),
            },
            _ => Err(invalid("expected unsigned int")),
        },
        FieldKind::Int64 | FieldKind::Sint64 | FieldKind::Sfixed64 => match value {
            GqlValue::String(s) => match parse_i64(s.as_str()) {
                Some(v) => Ok(ProtoValue::I64(v)),
                None => Err(invalid("invalid i64")),
            },
            GqlValue::Number(n) => match number_to_i64(*n) {
                Some(v) => Ok(ProtoValue::I64(v)),
                None => Err(invalid("expected 64-bit int")),
            },
            _ => Err(invalid("expected 64-bit int (as string)")),
        },
        FieldKind::Uint64 | FieldKind::Fixed64 => match value {
            GqlValue::String(s) => match parse_u64(s.as_str()) {
                Some(v) => Ok(ProtoValue::U64(v)),
                None => Err(invalid("invalid u64")),
            },
            GqlValue::Number(n) => match number_to_u64(*n) {
                Some(v) => Ok(ProtoValue::U64(v)),
                None => Err(invalid("expected 64-bit uint")),
            },
            _ => Err(invalid("expected 64-bit uint (as string)")),
        },
        FieldKind::Enum(e) => {
            let name = match value {
                GqlValue::Enum(nm) => Some(nm),
                GqlValue::String(nm) => Some(nm),
                _ => None,
            };
            match name {
                Some(nm) => {
                    if e < d.enums.len() {
                        match enum_number_by_name(&d.enums[e].values, nm) {
                            Some(num) => Ok(ProtoValue::EnumNumber(num)),
                            None => Err(invalid("invalid enum value")),
                        }
                    } else {
                        Err(invalid("invalid enum value"))
                    }
                },
                None => Err(invalid("expected enum value")),
            }
        },
        FieldKind::Message(m) => match value {
            GqlValue::Object(obj) => match object_to_message(d, m, obj, uploads) {
                Ok(msg) => Ok(ProtoValue::Message(msg)),
                Err(e) => Err(e),
            },
            _ => Err(invalid("expected object")),
        },
    }
}

/// Converts a GraphQL input for field `field` to protobuf; a repeated field
/// takes a list, converted element by element.
pub fn graphql_input_to_prost(d: &DescriptorSet, field: &FieldDesc, value: &GqlValue, uploads: &Vec<Vec<u8>>) -> (r: Result<ProtoValue, Error>)
    ensures
        value_result_is(r, from_gql_field(*d, *field, value@, uploads_view(uploads@))),
    decreases value, 1nat,
{
    if field.is_list {
        match value {
            GqlValue::List(list) => match {
                proof {
                    lemma_gv_list(list@);
                }
                list_input_to_prost(d, field.kind, list, uploads)
            } {
                Ok(items) => Ok(ProtoValue::List(items)),
                Err(e) => Err(e),
            },
            _ => Err(invalid("expected list")),
        }
    } else {
        single_input_to_prost(d, field.kind, value, uploads)
    }
}

fn list_input_to_prost(d: &DescriptorSet, kind: FieldKind, list: &Vec<GqlValue>, uploads: &Vec<Vec<u8>>) -> (r: Result<Vec<ProtoValue>, Error>)
    ensures
        match (r, list_from_gql(*d, kind, gv_list(list@), uploads_view(uploads@), list@.len() as nat)) {
            (Ok(items), Ok(vs)) => pv_list(items@) == vs,
            (Err(e), Err(x)) => error_is(e, x),
            _ => false,
        },
    decreases list, 0nat,
{
    let ghost gs = gv_list(list@);
    let ghost ups = uploads_view(uploads@);
    proof {
        lemma_gv_list(list@);
    }
    let mut items: Vec<ProtoValue> = Vec::new();
    let mut i: usize = 0;
    while i < list.len()
        invariant
            i <= list@.len(),
            gs == gv_list(list@),
            gs.len() == list@.len(),
            forall|k: int| 0 <= k < list@.len() ==> #[trigger] gs[k] == gv(list@[k]),
            ups == uploads_view(uploads@),
            list_from_gql(*d, kind, gs, ups, i as nat) == Ok::<Seq<PVal>, InErr>(pv_list(items@)),
        decreases list@.len() - i,
    {
        proof {
            assert(decreases_to!(*list => list@[i as int]));
        }
        let r = single_input_to_prost(d, kind, &list[i], uploads);
        match r {
            Ok(v) => {
                proof {
                    assert(items@.push(v).subrange(0, items@.len() as int) =~= items@);
                }
                items.push(v);
                i = i + 1;
            },
            Err(e) => {
                proof {
                    lemma_list_from_err(*d, kind, gs, ups, (i + 1) as nat, list@.len() as nat);
                }
                return Err(e);
            },
        }
    }
    Ok(items)
}

proof fn lemma_list_from_err(d: DescriptorSet, kind: FieldKind, gs: Seq<GVal>, ups: Seq<Seq<u8>>, k: nat, n: nat)
    requires
        k <= n <= gs.len(),
        list_from_gql(d, kind, gs, ups, k) is Err,
    ensures
        list_from_gql(d, kind, gs, ups, n) == list_from_gql(d, kind, gs, ups, k),
    decreases n - k,
{
    if k < n {
        lemma_list_from_err(d, kind, gs, ups, k, (n - 1) as nat);
    }
}

/// Builds a message of type `m` from a GraphQL object: each non-omitted
/// field takes the entry under its GraphQL name; absent fields stay unset.
pub fn object_to_message(d: &DescriptorSet, m: usize, values: &Vec<(String, GqlValue)>, uploads: &Vec<Vec<u8>>) -> (r: Result<DynMessage, Error>)
    ensures
        match (r, obj_to_msg(*d, m as nat, gv_obj(values@), uploads_view(uploads@))) {
            (Ok(msg), Ok(mv)) => msg@ == mv,
            (Err(e), Err(x)) => error_is(e, x),
            _ => false,
        },
    decreases values, 0nat,
{
    if m >= d.messages.len() {
        return Err(invalid("unknown message type"));
    }
    let fs = &d.messages[m].fields;
    let ghost es = gv_obj(values@);
    let ghost ups = uploads_view(uploads@);
    proof {
        lemma_gv_obj(values@);
    }
    let mut out: Vec<Option<ProtoValue>> = Vec::new();
    let mut i: usize = 0;
    while i < fs.len()
        invariant
            i <= fs@.len(),
            m < d.messages@.len(),
            fs@ == d.messages@[m as int].fields@,
            es == gv_obj(values@),
            es.len() == values@.len(),
            forall|k: int| 0 <= k < values@.len() ==> #[trigger] es[k] == (values@[k].0@, gv(values@[k].1)),
            ups == uploads_view(uploads@),
            fields_from_gql(*d, fs@, es, ups, i as nat) == Ok::<Seq<Option<PVal>>, InErr>(pv_opts(out@)),
        decreases fs@.len() - i,
    {
        let f = &fs[i];
        if field_is_omitted(f) {
            proof {
                assert(out@.push(None).subrange(0, out@.len() as int) =~= out@);
            }
            out.push(None);
        } else {
            let name = graphql_field_name(f);
            let hit = find_entry(values, &name);
            proof {
                lemma_lookup_none(*d, *f, es, ups, match hit { Some(j) => j as nat, None => es.len() });
            }
            if let Some(j) = hit {
                proof {
                    assert(decreases_to!(*values => values@[j as int]));
                    assert(decreases_to!(values@[j as int] => values@[j as int].1));
                    lemma_lookup_prefix(*d, *f, es, ups, (j + 1) as nat);
                }
                let conv = graphql_input_to_prost(d, f, &values[j].1, uploads);
                match conv {
                    Ok(v) => {
                        proof {
                            assert(out@.push(Some(v)).subrange(0, out@.len() as int) =~= out@);
                        }
                        out.push(Some(v));
                    },
                    Err(e) => {
                        proof {
                            lemma_fields_from_err(*d, fs@, es, ups, (i + 1) as nat, fs@.len() as nat);
                        }
                        return Err(e);
                    },
                }
            } else {
                proof {
                    assert(out@.push(None).subrange(0, out@.len() as int) =~= out@);
                }
                out.push(None);
            }
        }
        i = i + 1;
    }
    Ok(DynMessage { message: m, fields: out })
}

pub(crate) fn find_entry(values: &Vec<(String, GqlValue)>, name: &String) -> (r: Option<usize>)
    ensures
        match r {
            Some(j) => j < values@.len() && values@[j as int].0@ == name@ && forall|k: int|
                0 <= k < j ==> #[trigger] values@[k].0@ != name@,
            None => forall|k: int| 0 <= k < values@.len() ==> #[trigger] values@[k].0@ != name@,
        },
{
    let mut j: usize = 0;
    while j < values.len()
        invariant
            j <= values@.len(),
            forall|k: int| 0 <= k < j ==> #[trigger] values@[k].0@ != name@,
        decreases values@.len() - j,
    {
        if values[j].0 == *name {
            return Some(j);
        }
        j = j + 1;
    }
    None
}

pub(crate) proof fn lemma_lookup_none(d: DescriptorSet, f: FieldDesc, es: Seq<(Seq<char>, GVal)>, ups: Seq<Seq<u8>>, j: nat)
    requires
        j <= es.len(),
        forall|k: int| 0 <= k < j ==> #[trigger] es[k].0 != gql_name(f),
    ensures
        lookup_from_gql(d, f, es, ups, j) is None,
    decreases j,
{
    if j > 0 {
        lemma_lookup_none(d, f, es, ups, (j - 1) as nat);
    }
}

proof fn lemma_lookup_prefix(d: DescriptorSet, f: FieldDesc, es: Seq<(Seq<char>, GVal)>, ups: Seq<Seq<u8>>, k: nat)
    requires
        k <= es.len(),
        lookup_from_gql(d, f, es, ups, k) is Some,
    ensures
        lookup_from_gql(d, f, es, ups, es.len()) == lookup_from_gql(d, f, es, ups, k),
    decreases es.len() - k,
{
    if k < es.len() {
        lemma_lookup_prefix(d, f, es, ups, k + 1);
    }
}

proof fn lemma_fields_from_err(d: DescriptorSet, fs: Seq<FieldDesc>, es: Seq<(Seq<char>, GVal)>, ups: Seq<Seq<u8>>, k: nat, n: nat)
    requires
        k <= n <= fs.len(),
        fields_from_gql(d, fs, es, ups, k) is Err,
    ensures
        fields_from_gql(d, fs, es, ups, n) == fields_from_gql(d, fs, es, ups, k),
    decreases n - k,
{
    if k < n {
        lemma_fields_from_err(d, fs, es, ups, k, (n - 1) as nat);
    }
}

/// The result of a call: the plucked field's value when the pluck names a
/// field of the reply's type, else the whole reply as an object.
pub open spec fn pluck_result(d: DescriptorSet, m: MsgVal, pluck: Option<Seq<char>>) -> GVal {
    match pluck {
        Some(p) => if m.message < d.messages@.len() {
            let fs = d.messages@[m.message as int].fields@;
            match field_index(fs, p, fs.len()) {
                Some(i) => if i < m.fields.len() {
                    match m.fields[i as int] {
                        Some(v) => to_gql(d, Some(fs[i as int].kind), v),
                        None => GVal::Null,
                    }
                } else {
                    GVal::Null
                },
                None => msg_to_gql(d, m),
            }
        } else {
            msg_to_gql(d, m)
        },
        None => msg_to_gql(d, m),
    }
}

/// Shapes a reply: the field that `pluck` names, or the whole message.
pub fn apply_response_pluck(d: &DescriptorSet, response: &DynMessage, pluck: &Option<String>) -> (r: GqlValue)
    ensures
        gv(r) == pluck_result(*d, response@, match pluck { Some(p) => Some(p@), None => None }),
{
    if let Some(p) = pluck {
        if response.message < d.messages.len() {
            let fs = &d.messages[response.message].fields;
            if let Some(i) = find_field_by_name(fs, p) {
                proof {
                    lemma_pv_opts(response.fields@);
                }
                if i < response.fields.len() {
                    return match &response.fields[i] {
                        Some(v) => prost_value_to_graphql(d, v, Some(fs[i].kind)),
                        None => GqlValue::Null,
                    };
                } else {
                    return GqlValue::Null;
                }
            }
        }
    }
    dynamic_message_to_value(d, response)
}

/// The request of a call, built from the field's arguments: from the
/// wrapper argument's object when a wrapper is configured, else from the
/// arguments themselves, each read under its field's GraphQL name.
pub open spec fn request_spec(d: DescriptorSet, input: nat, args: Seq<(Seq<char>, GVal)>, wrapper: Option<Seq<char>>, ups: Seq<Seq<u8>>) -> Result<MsgVal, InErr> {
    match wrapper {
        Some(w) => match entry_value(args, w, args.len()) {
            Some(GVal::Object(es)) => obj_to_msg(d, input, es, ups),
            _ => Err(InErr::Invalid),
        },
        None => obj_to_msg(d, input, args, ups),
    }
}

/// Builds the request message of a call from the field's arguments.
pub fn build_request_message(d: &DescriptorSet, input: usize, args: &Vec<(String, GqlValue)>, wrapper: &Option<String>, uploads: &Vec<Vec<u8>>) -> (r: Result<DynMessage, Error>)
    ensures
        match (r, request_spec(*d, input as nat, gv_obj(args@), match wrapper { Some(w) => Some(w@), None => None }, uploads_view(uploads@))) {
            (Ok(msg), Ok(mv)) => msg@ == mv,
            (Err(e), Err(x)) => error_is(e, x),
            _ => false,
        },
{
    match wrapper {
        None => object_to_message(d, input, args, uploads),
        Some(w) => {
            let ghost es = gv_obj(args@);
            proof {
                lemma_gv_obj(args@);
            }
            match find_entry(args, w) {
                None => {
                    proof {
                        lemma_entry_none(es, w@, es.len());
                    }
                    Err(invalid("missing wrapper argument"))
                },
                Some(j) => {
                    proof {
                        lemma_entry_none(es, w@, j as nat);
                        assert(entry_value(es, w@, (j + 1) as nat) == Some(gv(args@[j as int].1)));
                        lemma_entry_value_prefix(es, w@, (j + 1) as nat);
                    }
                    match &args[j].1 {
                        GqlValue::Object(obj) => object_to_message(d, input, obj, uploads),
                        _ => Err(invalid("wrapper argument must be an object")),
                    }
                },
            }
        },
    }
}

proof fn lemma_entry_none(es: Seq<(Seq<char>, GVal)>, key: Seq<char>, j: nat)
    requires
        j <= es.len(),
        forall|k: int| 0 <= k < j ==> #[trigger] es[k].0 != key,
    ensures
        entry_value(es, key, j) is None,
    decreases j,
{
    if j > 0 {
        lemma_entry_none(es, key, (j - 1) as nat);
    }
}

/// The base64 text of `b` is made of base64 characters and decodes to `b`,
/// as every call of the encoder guarantees for the bytes it encodes.
pub open spec fn base64_reads_back(b: Seq<u8>) -> bool {
    &&& base64_decode_of(base64_encode_of(b)) == Some(b)
    &&& forall|i: int| 0 <= i < base64_encode_of(b).len() ==> is_base64_char(#[trigger] base64_encode_of(b)[i])
}

/// The GraphQL names of the fields are pairwise distinct.
pub open spec fn names_distinct(fs: Seq<FieldDesc>) -> bool {
    forall|i: int, j: int| 0 <= i < j < fs.len() ==> gql_name(#[trigger] fs[i]) != gql_name(#[trigger] fs[j])
}

/// A value of kind `kind` whose conversion to GraphQL can be read back:
/// every kind but `float` and maps, an enum number that has a name which
/// names it back, and messages that round-trip themselves.
pub open spec fn rt_single(d: DescriptorSet, kind: FieldKind, v: PVal) -> bool
    decreases v, 0nat,
{
    match v {
        PVal::Bool(_) => kind == FieldKind::Bool,
        PVal::String(_) => kind == FieldKind::String,
        PVal::Bytes(b) => kind == FieldKind::Bytes && base64_reads_back(b),
        PVal::I32(_) => kind == FieldKind::Int32 || kind == FieldKind::Sint32 || kind == FieldKind::Sfixed32,
        PVal::U32(_) => kind == FieldKind::Uint32 || kind == FieldKind::Fixed32,
        PVal::I64(_) => kind == FieldKind::Int64 || kind == FieldKind::Sint64 || kind == FieldKind::Sfixed64,
        PVal::U64(_) => kind == FieldKind::Uint64 || kind == FieldKind::Fixed64,
        PVal::F64(_) => kind == FieldKind::Double,
        PVal::EnumNumber(n) => match kind {
            FieldKind::Enum(e) => e < d.enums@.len() && match enum_name_in(d.enums@[e as int].values@, n) {
                Some(nm) => enum_number_in(d.enums@[e as int].values@, nm) == Some(n),
                None => false,
            },
            _ => false,
        },
        PVal::Message(m) => kind == FieldKind::Message(m.message as usize) && m.message <= usize::MAX && rt_msg(d, m),
        _ => false,
    }
}

/// A value of field `f` that round-trips: a list of such elements when the
/// field is repeated.
pub open spec fn rt_field(d: DescriptorSet, f: FieldDesc, v: PVal) -> bool
    decreases v, 1nat,
{
    if f.is_list {
        match v {
            PVal::List(vs) => rt_list(d, f.kind, vs, vs.len()),
            _ => false,
        }
    } else {
        rt_single(d, f.kind, v)
    }
}

pub open spec fn rt_list(d: DescriptorSet, kind: FieldKind, vs: Seq<PVal>, n: nat) -> bool
    decreases vs, n,
{
    if n == 0 || n > vs.len() {
        true
    } else {
        rt_list(d, kind, vs, (n - 1) as nat) && rt_single(d, kind, vs[n - 1])
    }
}

/// The first `n` fields are kept in GraphQL, set, and round-trip.
pub open spec fn rt_fields(d: DescriptorSet, fs: Seq<FieldDesc>, vals: Seq<Option<PVal>>, n: nat) -> bool
    decreases vals, n,
{
    if n == 0 {
        true
    } else if n > fs.len() || n > vals.len() {
        false
    } else {
        &&& rt_fields(d, fs, vals, (n - 1) as nat)
        &&& !is_omitted(fs[n - 1])
        &&& vals[n - 1] is Some
        &&& rt_field(d, fs[n - 1], vals[n - 1]->0)
    }
}

/// A message whose every field is set, kept in GraphQL under a name of its
/// own, and holds a value that round-trips.
pub open spec fn rt_msg(d: DescriptorSet, m: MsgVal) -> bool
    decreases m, 0nat,
{
    m.message < d.messages@.len() && {
        let fs = d.messages@[m.message as int].fields@;
        &&& m.fields.len() == fs.len()
        &&& names_distinct(fs)
        &&& rt_fields(d, fs, m.fields, fs.len())
    }
}

proof fn lemma_rt_fields_index(d: DescriptorSet, fs: Seq<FieldDesc>, vals: Seq<Option<PVal>>, n: nat)
    requires
        rt_fields(d, fs, vals, n),
    ensures
        n <= fs.len() && n <= vals.len(),
        forall|i: int| 0 <= i < n ==> !is_omitted(#[trigger] fs[i]) && vals[i] is Some && rt_field(d, fs[i], vals[i]->0),
        forall|k: nat| k <= n ==> #[trigger] rt_fields(d, fs, vals, k),
        fields_to_gql(d, fs, vals, n).len() == n,
        forall|i: int| 0 <= i < n ==> #[trigger] fields_to_gql(d, fs, vals, n)[i] == (gql_name(fs[i]), to_gql(d, Some(fs[i].kind), vals[i]->0)),
    decreases n,
{
    if n > 0 {
        lemma_rt_fields_index(d, fs, vals, (n - 1) as nat);
        assert forall|k: nat| k <= n implies #[trigger] rt_fields(d, fs, vals, k) by {
            if k < n {
                assert(rt_fields(d, fs, vals, k));
            }
        }
    }
}

proof fn lemma_list_to_gql(d: DescriptorSet, kind: Option<FieldKind>, vs: Seq<PVal>)
    ensures
        list_to_gql(d, kind, vs).len() == vs.len(),
        forall|i: int| 0 <= i < vs.len() ==> #[trigger] list_to_gql(d, kind, vs)[i] == to_gql(d, kind, vs[i]),
    decreases vs.len(),
{
    if vs.len() > 0 {
        lemma_list_to_gql(d, kind, vs.subrange(0, vs.len() - 1));
    }
}

proof fn lemma_wrap_identity(x: i32, y: u32)
    ensures
        wrap_i32(x as int) == x,
        wrap_u32(y as int) == y,
{
    assert((x as int + 2147483648) % 4294967296 == x as int + 2147483648);
    assert((y as int) % 4294967296 == y as int);
}

proof fn lemma_no_upload_marker(s: Seq<char>, ups: Seq<Seq<u8>>)
    requires
        forall|i: int| 0 <= i < s.len() ==> is_base64_char(#[trigger] s[i]),
    ensures
        upload_ref(s, ups) is None,
{
    reveal_strlit("#__graphql_file__:");
    let p = upload_prefix();
    if s.len() >= p.len() && s.subrange(0, p.len() as int) == p {
        assert(s.subrange(0, p.len() as int)[0] == s[0]);
        assert(p[0] == '#');
    }
}

proof fn lemma_rt_single(d: DescriptorSet, kind: FieldKind, v: PVal, ups: Seq<Seq<u8>>)
    requires
        rt_single(d, kind, v),
    ensures
        from_gql_single(d, kind, to_gql(d, Some(kind), v), ups) == Ok::<PVal, InErr>(v),
    decreases v, 0nat,
{
    match v {
        PVal::I32(x) => {
            lemma_wrap_identity(x, 0);
        },
        PVal::U32(y) => {
            lemma_wrap_identity(0, y);
        },
        PVal::I64(x) => {
            lemma_parse_signed_decimal(x as int);
        },
        PVal::U64(x) => {
            lemma_parse_signed_decimal(x as int);
        },
        PVal::Bytes(b) => {
            lemma_no_upload_marker(base64_encode_of(b), ups);
        },
        PVal::Message(m) => {
            lemma_rt_msg(d, m, ups);
        },
        _ => {},
    }
}

proof fn lemma_rt_field(d: DescriptorSet, f: FieldDesc, v: PVal, ups: Seq<Seq<u8>>)
    requires
        rt_field(d, f, v),
    ensures
        from_gql_field(d, f, to_gql(d, Some(f.kind), v), ups) == Ok::<PVal, InErr>(v),
    decreases v, 1nat,
{
    if f.is_list {
        match v {
            PVal::List(vs) => {
                lemma_list_to_gql(d, Some(f.kind), vs);
                lemma_rt_list(d, f.kind, vs, ups, vs.len());
                assert(vs.subrange(0, vs.len() as int) =~= vs);
            },
            _ => {},
        }
    } else {
        lemma_rt_single(d, f.kind, v, ups);
    }
}

proof fn lemma_rt_list(d: DescriptorSet, kind: FieldKind, vs: Seq<PVal>, ups: Seq<Seq<u8>>, n: nat)
    requires
        rt_list(d, kind, vs, vs.len()),
        n <= vs.len(),
    ensures
        list_from_gql(d, kind, list_to_gql(d, Some(kind), vs), ups, n) == Ok::<Seq<PVal>, InErr>(vs.subrange(0, n as int)),
    decreases vs, n,
{
    lemma_list_to_gql(d, Some(kind), vs);
    if n > 0 {
        lemma_rt_list_index(d, kind, vs, vs.len(), n - 1);
        lemma_rt_list(d, kind, vs, ups, (n - 1) as nat);
        lemma_rt_single(d, kind, vs[n - 1], ups);
        assert(vs.subrange(0, n - 1).push(vs[n - 1]) =~= vs.subrange(0, n as int));
    } else {
        assert(vs.subrange(0, 0) =~= Seq::<PVal>::empty());
    }
}

proof fn lemma_rt_list_index(d: DescriptorSet, kind: FieldKind, vs: Seq<PVal>, n: nat, i: int)
    requires
        rt_list(d, kind, vs, n),
        0 <= i < n <= vs.len(),
    ensures
        rt_single(d, kind, vs[i]),
    decreases n,
{
    if i < n - 1 {
        lemma_rt_list_index(d, kind, vs, (n - 1) as nat, i);
    }
}

proof fn lemma_rt_fields(d: DescriptorSet, fs: Seq<FieldDesc>, vals: Seq<Option<PVal>>, ups: Seq<Seq<u8>>, n: nat)
    requires
        rt_fields(d, fs, vals, fs.len()),
        vals.len() == fs.len(),
        names_distinct(fs),
        n <= fs.len(),
    ensures
        fields_from_gql(d, fs, fields_to_gql(d, fs, vals, fs.len()), ups, n) == Ok::<Seq<Option<PVal>>, InErr>(vals.subrange(0, n as int)),
    decreases vals, n,
{
    let es = fields_to_gql(d, fs, vals, fs.len());
    lemma_rt_fields_index(d, fs, vals, fs.len());
    if n > 0 {
        lemma_rt_fields(d, fs, vals, ups, (n - 1) as nat);
        let f = fs[n - 1];
        assert forall|k: int| 0 <= k < n - 1 implies #[trigger] es[k].0 != gql_name(f) by {
            assert(gql_name(fs[k]) != gql_name(fs[n - 1]));
        }
        lemma_lookup_none(d, f, es, ups, (n - 1) as nat);
        assert(lookup_from_gql(d, f, es, ups, n) == Some(from_gql_field(d, f, es[n - 1].1, ups)));
        lemma_lookup_prefix(d, f, es, ups, n);
        lemma_rt_field(d, f, vals[n - 1]->0, ups);
        assert(vals.subrange(0, n - 1).push(vals[n - 1]) =~= vals.subrange(0, n as int));
    } else {
        assert(vals.subrange(0, 0) =~= Seq::<Option<PVal>>::empty());
    }
}

proof fn lemma_rt_msg(d: DescriptorSet, m: MsgVal, ups: Seq<Seq<u8>>)
    requires
        rt_msg(d, m),
    ensures
        msg_to_gql(d, m) is Object,
        obj_to_msg(d, m.message, msg_to_gql(d, m)->Object_0, ups) == Ok::<MsgVal, InErr>(m),
    decreases m, 0nat,
{
    let fs = d.messages@[m.message as int].fields@;
    lemma_rt_fields(d, fs, m.fields, ups, fs.len());
    assert(m.fields.subrange(0, fs.len() as int) =~= m.fields);
}

/// Converting a message to GraphQL and reading the result back as the same
/// message type gives the message again, for messages whose fields are all
/// set, kept, distinctly named, and of kinds that round-trip.
pub proof fn lemma_round_trip(d: DescriptorSet, m: MsgVal, ups: Seq<Seq<u8>>)
    requires
        rt_msg(d, m),
        m.message <= usize::MAX,
    ensures
        from_gql_single(d, FieldKind::Message(m.message as usize), msg_to_gql(d, m), ups) == Ok::<PVal, InErr>(PVal::Message(m)),
{
    lemma_rt_msg(d, m, ups);
}

} // verus!
