//! The descriptor model: services, methods, messages and enums of a decoded
//! file-descriptor set, with the `graphql.*` annotations attached to them.
use vstd::prelude::*;

verus! {

/// The protobuf kind of a field. `Enum` and `Message` hold the index of the
/// referenced type in `DescriptorSet::enums` / `DescriptorSet::messages`.
#[derive(PartialEq, Eq, Structural, Clone, Copy)]
pub enum FieldKind {
    Bool,
    String,
    Bytes,
    Float,
    Double,
    Int32,
    Sint32,
    Sfixed32,
    Uint32,
    Fixed32,
    Int64,
    Sint64,
    Sfixed64,
    Uint64,
    Fixed64,
    Enum(usize),
    Message(usize),
}

/// `graphql.field` on a message field.
#[derive(Clone)]
pub struct FieldOptions {
    pub name: String,
    pub required: bool,
    pub omit: bool,
    pub external: bool,
    pub requires: String,
    pub provides: String,
}

/// One field of a message.
#[derive(Clone)]
pub struct FieldDesc {
    pub name: String,
    pub kind: FieldKind,
    pub is_list: bool,
    pub options: Option<FieldOptions>,
}

/// `graphql.entity` on a message.
#[derive(Clone)]
pub struct EntityOptions {
    pub keys: Vec<String>,
    pub extend: bool,
    pub resolvable: bool,
}

/// A message type.
#[derive(Clone)]
pub struct MessageDesc {
    pub full_name: String,
    pub fields: Vec<FieldDesc>,
    pub entity: Option<EntityOptions>,
}

/// One value of an enum type.
#[derive(Clone)]
pub struct EnumValueDesc {
    pub name: String,
    pub number: i32,
}

/// An enum type.
#[derive(Clone)]
pub struct EnumDesc {
    pub full_name: String,
    pub values: Vec<EnumValueDesc>,
}

/// The operation a method is exposed as.
#[derive(PartialEq, Eq, Structural, Clone, Copy)]
pub enum GraphqlType {
    Query,
    Mutation,
    Subscription,
    Resolver,
}

/// `graphql.schema.request`.
#[derive(Clone)]
pub struct RequestOptions {
    pub name: String,
}

/// `graphql.schema.response`.
#[derive(Clone)]
pub struct ResponseOptions {
    pub required: bool,
    pub pluck: String,
}

/// `graphql.schema` on a method.
#[derive(Clone)]
pub struct SchemaOptions {
    pub name: String,
    pub graphql_type: GraphqlType,
    pub request: Option<RequestOptions>,
    pub response: Option<ResponseOptions>,
}

/// A method of a service; `input` and `output` index `DescriptorSet::messages`.
#[derive(Clone)]
pub struct MethodDesc {
    pub name: String,
    pub input: usize,
    pub output: usize,
    pub schema: Option<SchemaOptions>,
}

/// `graphql.service` on a service.
#[derive(Clone)]
pub struct ServiceOptions {
    pub host: String,
    pub insecure: bool,
}

/// A service.
#[derive(Clone)]
pub struct ServiceDesc {
    pub full_name: String,
    pub options: Option<ServiceOptions>,
    pub methods: Vec<MethodDesc>,
}

/// Which of the annotation extensions the descriptor set declares.
#[derive(Clone)]
pub struct ExtensionSet {
    pub schema: bool,
    pub service: bool,
    pub field: bool,
    pub entity: bool,
}

/// A decoded file-descriptor set.
#[derive(Clone)]
pub struct DescriptorSet {
    pub messages: Vec<MessageDesc>,
    pub enums: Vec<EnumDesc>,
    pub services: Vec<ServiceDesc>,
    pub extensions: ExtensionSet,
}

impl FieldKind {
    /// Every type index the kind holds is in range.
    pub open spec fn refs_ok(&self, n_messages: nat, n_enums: nat) -> bool {
        match *self {
            FieldKind::Enum(e) => e < n_enums,
            FieldKind::Message(m) => m < n_messages,
            _ => true,
        }
    }
}

impl DescriptorSet {
    /// Every index in the set refers to a type that exists.
    pub open spec fn wf(&self) -> bool {
        &&& forall|m: int, f: int|
            0 <= m < self.messages@.len() && 0 <= f < self.messages@[m].fields@.len()
                ==> (#[trigger] self.messages@[m].fields@[f]).kind.refs_ok(
                self.messages@.len(),
                self.enums@.len(),
            )
        &&& forall|s: int, k: int|
            0 <= s < self.services@.len() && 0 <= k < self.services@[s].methods@.len() ==> {
                let md = #[trigger] self.services@[s].methods@[k];
                md.input < self.messages@.len() && md.output < self.messages@.len()
            }
    }

    pub open spec fn field(&self, m: int, f: int) -> FieldDesc {
        self.messages@[m].fields@[f]
    }
}

/// The GraphQL name of a field: its `graphql.field.name` when non-empty,
/// else its protobuf name verbatim.
pub open spec fn gql_name(f: FieldDesc) -> Seq<char> {
    match f.options {
        Some(o) => if o.name@.len() > 0 { o.name@ } else { f.name@ },
        None => f.name@,
    }
}

pub open spec fn is_omitted(f: FieldDesc) -> bool {
    match f.options {
        Some(o) => o.omit,
        None => false,
    }
}

pub open spec fn is_required(f: FieldDesc) -> bool {
    match f.options {
        Some(o) => o.required,
        None => false,
    }
}

pub open spec fn is_external(f: FieldDesc) -> bool {
    match f.options {
        Some(o) => o.external,
        None => false,
    }
}

/// The `@requires` field set of a field, when set and non-empty.
pub open spec fn requires_of(f: FieldDesc) -> Option<Seq<char>> {
    match f.options {
        Some(o) => if o.requires@.len() > 0 { Some(o.requires@) } else { None },
        None => None,
    }
}

/// The `@provides` field set of a field, when set and non-empty.
pub open spec fn provides_of(f: FieldDesc) -> Option<Seq<char>> {
    match f.options {
        Some(o) => if o.provides@.len() > 0 { Some(o.provides@) } else { None },
        None => None,
    }
}

/// The GraphQL name of a field.
pub fn graphql_field_name(field: &FieldDesc) -> (r: String)
    ensures
        r@ == gql_name(*field),
{
    match &field.options {
        Some(o) => if !o.name.as_str().is_empty() { o.name.clone() } else { field.name.clone() },
        None => field.name.clone(),
    }
}

/// Whether the field is left out of the GraphQL schema.
pub fn field_is_omitted(field: &FieldDesc) -> (r: bool)
    ensures
        r == is_omitted(*field),
{
    match &field.options {
        Some(o) => o.omit,
        None => false,
    }
}

/// Whether the field is non-null in the GraphQL schema.
pub fn field_is_required(field: &FieldDesc) -> (r: bool)
    ensures
        r == is_required(*field),
{
    match &field.options {
        Some(o) => o.required,
        None => false,
    }
}

/// Whether the field carries `@external`.
pub fn field_is_external(field: &FieldDesc) -> (r: bool)
    ensures
        r == is_external(*field),
{
    match &field.options {
        Some(o) => o.external,
        None => false,
    }
}

/// The `@requires` field set of the field, if any.
pub fn field_requires(field: &FieldDesc) -> (r: Option<String>)
    ensures
        match r {
            Some(s) => requires_of(*field) == Some(s@),
            None => requires_of(*field) is None,
        },
{
    match &field.options {
        Some(o) => if !o.requires.as_str().is_empty() { Some(o.requires.clone()) } else { None },
        None => None,
    }
}

/// The `@provides` field set of the field, if any.
pub fn field_provides(field: &FieldDesc) -> (r: Option<String>)
    ensures
        match r {
            Some(s) => provides_of(*field) == Some(s@),
            None => provides_of(*field) is None,
        },
{
    match &field.options {
        Some(o) => if !o.provides.as_str().is_empty() { Some(o.provides.clone()) } else { None },
        None => None,
    }
}

} // verus!
