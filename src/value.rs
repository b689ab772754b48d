//! The two value worlds the gateway bridges: GraphQL values and protobuf
//! dynamic values, each with its mathematical view.
use vstd::prelude::*;

verus! {

/// A real number as the library carries it. The library does no floating
/// point: it keeps the IEEE bits, or the integer that is to be widened.
#[derive(PartialEq, Eq, Structural, Clone, Copy)]
pub enum Real {
    /// The bits of an `f64`.
    Bits64(u64),
    /// The bits of an `f32`.
    Bits32(u32),
    /// A signed integer, to be read as the nearest `f64`.
    FromInt(i64),
    /// An unsigned integer, to be read as the nearest `f64`.
    FromUInt(u64),
}

/// A JSON number: a non-negative integer, a negative integer, or a real.
#[derive(PartialEq, Eq, Structural, Clone, Copy)]
pub enum GqlNumber {
    PosInt(u64),
    NegInt(i64),
    Float(Real),
}

/// A GraphQL value.
pub enum GqlValue {
    Null,
    Number(GqlNumber),
    String(String),
    Boolean(bool),
    Binary(Vec<u8>),
    Enum(String),
    List(Vec<GqlValue>),
    Object(Vec<(String, GqlValue)>),
}

/// The key of a protobuf map entry.
pub enum MapKey {
    Bool(bool),
    I32(i32),
    I64(i64),
    U32(u32),
    U64(u64),
    String(String),
}

/// A protobuf dynamic value.
pub enum ProtoValue {
    Bool(bool),
    I32(i32),
    I64(i64),
    U32(u32),
    U64(u64),
    F32(Real),
    F64(Real),
    String(String),
    Bytes(Vec<u8>),
    EnumNumber(i32),
    Message(DynMessage),
    List(Vec<ProtoValue>),
    MapValue(Vec<(MapKey, ProtoValue)>),
}

/// A dynamic message: the index of its type in the descriptor set, and for
/// each field of that type, in order, its value when set.
pub struct DynMessage {
    pub message: usize,
    pub fields: Vec<Option<ProtoValue>>,
}

/// View of a GraphQL value.
pub enum GVal {
    Null,
    Number(GqlNumber),
    String(Seq<char>),
    Boolean(bool),
    Binary(Seq<u8>),
    Enum(Seq<char>),
    List(Seq<GVal>),
    Object(Seq<(Seq<char>, GVal)>),
}

/// View of a map key.
pub enum KeyVal {
    Bool(bool),
    I32(i32),
    I64(i64),
    U32(u32),
    U64(u64),
    String(Seq<char>),
}

/// View of a protobuf value.
pub enum PVal {
    Bool(bool),
    I32(i32),
    I64(i64),
    U32(u32),
    U64(u64),
    F32(Real),
    F64(Real),
    String(Seq<char>),
    Bytes(Seq<u8>),
    EnumNumber(i32),
    Message(MsgVal),
    List(Seq<PVal>),
    MapValue(Seq<(KeyVal, PVal)>),
}

/// View of a dynamic message.
pub struct MsgVal {
    pub message: nat,
    pub fields: Seq<Option<PVal>>,
}

pub open spec fn gv(v: GqlValue) -> GVal
    decreases v, 0nat,
{
    match v {
        GqlValue::Null => GVal::Null,
        GqlValue::Number(n) => GVal::Number(n),
        GqlValue::String(s) => GVal::String(s@),
        GqlValue::Boolean(b) => GVal::Boolean(b),
        GqlValue::Binary(b) => GVal::Binary(b@),
        GqlValue::Enum(s) => GVal::Enum(s@),
        GqlValue::List(l) => GVal::List(gv_list(l@)),
        GqlValue::Object(o) => GVal::Object(gv_obj(o@)),
    }
}

pub open spec fn gv_list(s: Seq<GqlValue>) -> Seq<GVal>
    decreases s, s.len(),
{
    if s.len() == 0 {
        seq![]
    } else {
        gv_list(s.subrange(0, s.len() - 1)).push(gv(s[s.len() - 1]))
    }
}

pub open spec fn gv_obj(s: Seq<(String, GqlValue)>) -> Seq<(Seq<char>, GVal)>
    decreases s, s.len(),
{
    if s.len() == 0 {
        seq![]
    } else {
        gv_obj(s.subrange(0, s.len() - 1)).push((s[s.len() - 1].0@, gv(s[s.len() - 1].1)))
    }
}

impl View for GqlValue {
    type V = GVal;

    open spec fn view(&self) -> GVal {
        gv(*self)
    }
}

pub open spec fn kv(k: MapKey) -> KeyVal {
    match k {
        MapKey::Bool(b) => KeyVal::Bool(b),
        MapKey::I32(v) => KeyVal::I32(v),
        MapKey::I64(v) => KeyVal::I64(v),
        MapKey::U32(v) => KeyVal::U32(v),
        MapKey::U64(v) => KeyVal::U64(v),
        MapKey::String(s) => KeyVal::String(s@),
    }
}

pub open spec fn pv(v: ProtoValue) -> PVal
    decreases v, 0nat,
{
    match v {
        ProtoValue::Bool(b) => PVal::Bool(b),
        ProtoValue::I32(x) => PVal::I32(x),
        ProtoValue::I64(x) => PVal::I64(x),
        ProtoValue::U32(x) => PVal::U32(x),
        ProtoValue::U64(x) => PVal::U64(x),
        ProtoValue::F32(r) => PVal::F32(r),
        ProtoValue::F64(r) => PVal::F64(r),
        ProtoValue::String(s) => PVal::String(s@),
        ProtoValue::Bytes(b) => PVal::Bytes(b@),
        ProtoValue::EnumNumber(n) => PVal::EnumNumber(n),
        ProtoValue::Message(m) => PVal::Message(MsgVal { message: m.message as nat, fields: pv_opts(m.fields@) }),
        ProtoValue::List(l) => PVal::List(pv_list(l@)),
        ProtoValue::MapValue(es) => PVal::MapValue(pv_map(es@)),
    }
}

pub open spec fn pv_opts(s: Seq<Option<ProtoValue>>) -> Seq<Option<PVal>>
    decreases s, s.len(),
{
    if s.len() == 0 {
        seq![]
    } else {
        pv_opts(s.subrange(0, s.len() - 1)).push(
            match s[s.len() - 1] {
                Some(x) => Some(pv(x)),
                None => None,
            },
        )
    }
}

pub open spec fn pv_list(s: Seq<ProtoValue>) -> Seq<PVal>
    decreases s, s.len(),
{
    if s.len() == 0 {
        seq![]
    } else {
        pv_list(s.subrange(0, s.len() - 1)).push(pv(s[s.len() - 1]))
    }
}

pub open spec fn pv_map(s: Seq<(MapKey, ProtoValue)>) -> Seq<(KeyVal, PVal)>
    decreases s, s.len(),
{
    if s.len() == 0 {
        seq![]
    } else {
        pv_map(s.subrange(0, s.len() - 1)).push((kv(s[s.len() - 1].0), pv(s[s.len() - 1].1)))
    }
}

impl View for ProtoValue {
    type V = PVal;

    open spec fn view(&self) -> PVal {
        pv(*self)
    }
}

impl View for DynMessage {
    type V = MsgVal;

    open spec fn view(&self) -> MsgVal {
        MsgVal { message: self.message as nat, fields: pv_opts(self.fields@) }
    }
}

pub proof fn lemma_gv_list(s: Seq<GqlValue>)
    ensures
        gv_list(s).len() == s.len(),
        forall|i: int| 0 <= i < s.len() ==> #[trigger] gv_list(s)[i] == gv(s[i]),
    decreases s.len(),
{
    if s.len() > 0 {
        lemma_gv_list(s.subrange(0, s.len() - 1));
    }
}

pub proof fn lemma_gv_obj(s: Seq<(String, GqlValue)>)
    ensures
        gv_obj(s).len() == s.len(),
        forall|i: int| 0 <= i < s.len() ==> #[trigger] gv_obj(s)[i] == (s[i].0@, gv(s[i].1)),
    decreases s.len(),
{
    if s.len() > 0 {
        lemma_gv_obj(s.subrange(0, s.len() - 1));
    }
}

pub proof fn lemma_pv_list(s: Seq<ProtoValue>)
    ensures
        pv_list(s).len() == s.len(),
        forall|i: int| 0 <= i < s.len() ==> #[trigger] pv_list(s)[i] == pv(s[i]),
    decreases s.len(),
{
    if s.len() > 0 {
        lemma_pv_list(s.subrange(0, s.len() - 1));
    }
}

pub proof fn lemma_pv_map(s: Seq<(MapKey, ProtoValue)>)
    ensures
        pv_map(s).len() == s.len(),
        forall|i: int| 0 <= i < s.len() ==> #[trigger] pv_map(s)[i] == (kv(s[i].0), pv(s[i].1)),
    decreases s.len(),
{
    if s.len() > 0 {
        lemma_pv_map(s.subrange(0, s.len() - 1));
    }
}

pub proof fn lemma_pv_opts(s: Seq<Option<ProtoValue>>)
    ensures
        pv_opts(s).len() == s.len(),
        forall|i: int| 0 <= i < s.len() ==> #[trigger] pv_opts(s)[i] == match s[i] {
            Some(x) => Some(pv(x)),
            None => None,
        },
    decreases s.len(),
{
    if s.len() > 0 {
        lemma_pv_opts(s.subrange(0, s.len() - 1));
    }
}

/// A copy of a GraphQL value.
pub fn clone_value(v: &GqlValue) -> (r: GqlValue)
    ensures
        gv(r) == gv(*v),
    decreases v, 1nat,
{
    match v {
        GqlValue::Null => GqlValue::Null,
        GqlValue::Number(n) => GqlValue::Number(*n),
        GqlValue::String(s) => GqlValue::String(s.clone()),
        GqlValue::Boolean(b) => GqlValue::Boolean(*b),
        GqlValue::Binary(b) => GqlValue::Binary(b.clone()),
        GqlValue::Enum(s) => GqlValue::Enum(s.clone()),
        GqlValue::List(l) => GqlValue::List(clone_list(l)),
        GqlValue::Object(o) => GqlValue::Object(clone_entries(o)),
    }
}

fn clone_list(l: &Vec<GqlValue>) -> (r: Vec<GqlValue>)
    ensures
        gv_list(r@) == gv_list(l@),
    decreases l, 0nat,
{
    let mut out: Vec<GqlValue> = Vec::new();
    let mut i: usize = 0;
    while i < l.len()
        invariant
            i <= l@.len(),
            gv_list(out@) == gv_list(l@.subrange(0, i as int)),
        decreases l@.len() - i,
    {
        proof {
            assert(decreases_to!(*l => l@[i as int]));
        }
        let v = clone_value(&l[i]);
        proof {
            assert(out@.push(v).subrange(0, out@.len() as int) =~= out@);
            assert(l@.subrange(0, i + 1).subrange(0, i as int) =~= l@.subrange(0, i as int));
        }
        out.push(v);
        i = i + 1;
    }
    assert(l@.subrange(0, i as int) =~= l@);
    out
}

/// A copy of the entries of an object.
pub fn clone_entries(es: &Vec<(String, GqlValue)>) -> (r: Vec<(String, GqlValue)>)
    ensures
        gv_obj(r@) == gv_obj(es@),
    decreases es, 0nat,
{
    let mut out: Vec<(String, GqlValue)> = Vec::new();
    let mut i: usize = 0;
    while i < es.len()
        invariant
            i <= es@.len(),
            gv_obj(out@) == gv_obj(es@.subrange(0, i as int)),
        decreases es@.len() - i,
    {
        proof {
            assert(decreases_to!(*es => es@[i as int]));
            assert(decreases_to!(es@[i as int] => es@[i as int].1));
        }
        let v = clone_value(&es[i].1);
        let k = es[i].0.clone();
        proof {
            assert(out@.push((k, v)).subrange(0, out@.len() as int) =~= out@);
            assert(es@.subrange(0, i + 1).subrange(0, i as int) =~= es@.subrange(0, i as int));
        }
        out.push((k, v));
        i = i + 1;
    }
    assert(es@.subrange(0, i as int) =~= es@);
    out
}

} // verus!
