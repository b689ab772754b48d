//! The type registry: a memoised factory that turns protobuf messages and
//! enums into GraphQL object, input-object and enum types.
use vstd::prelude::*;
use vstd::string::StringExecFns;
use crate::descriptor::{
    field_is_external, field_is_omitted, field_is_required, field_provides, field_requires,
    gql_name, graphql_field_name, is_external, is_omitted, is_required, provides_of, requires_of,
    DescriptorSet, FieldDesc, FieldKind,
};
use crate::text::{mangle, mangle_name};

verus! {

/// A reference to a GraphQL type.
pub enum TypeRef {
    Named(String),
    NonNull(Box<TypeRef>),
    List(Box<TypeRef>),
}

/// View of a type reference.
pub enum TRef {
    Named(Seq<char>),
    NonNull(Box<TRef>),
    List(Box<TRef>),
}

pub open spec fn tref(t: TypeRef) -> TRef
    decreases t,
{
    match t {
        TypeRef::Named(s) => TRef::Named(s@),
        TypeRef::NonNull(b) => TRef::NonNull(Box::new(tref(*b))),
        TypeRef::List(b) => TRef::List(Box::new(tref(*b))),
    }
}

impl View for TypeRef {
    type V = TRef;

    open spec fn view(&self) -> TRef {
        tref(*self)
    }
}

/// A directive applied to a type or field, with string arguments.
pub struct Directive {
    pub name: String,
    pub args: Vec<(String, String)>,
}

/// View of a directive: its name and its arguments.
pub open spec fn dir_view(x: Directive) -> (Seq<char>, Seq<(Seq<char>, Seq<char>)>) {
    (x.name@, x.args@.map_values(|a: (String, String)| (a.0@, a.1@)))
}

pub open spec fn dirs_view(s: Seq<Directive>) -> Seq<(Seq<char>, Seq<(Seq<char>, Seq<char>)>)> {
    s.map_values(|x: Directive| dir_view(x))
}

/// A field of an output object; `source` is the index of the message field
/// it reads.
pub struct ObjectField {
    pub name: String,
    pub ty: TypeRef,
    pub source: usize,
    pub directives: Vec<Directive>,
}

/// An output object type. `keys` holds the federation key field sets with
/// whether this service resolves the entity by them.
pub struct ObjectDef {
    pub name: String,
    pub fields: Vec<ObjectField>,
    pub keys: Vec<(String, bool)>,
    pub extends: bool,
    pub directives: Vec<Directive>,
}

/// A field of an input object.
pub struct InputField {
    pub name: String,
    pub ty: TypeRef,
}

/// An input object type.
pub struct InputObjectDef {
    pub name: String,
    pub fields: Vec<InputField>,
}

/// An enum type.
pub struct EnumDef {
    pub name: String,
    pub items: Vec<String>,
}

/// The types made so far, each kind keyed by type name.
pub struct TypeRegistry {
    pub objects: Vec<ObjectDef>,
    pub input_objects: Vec<InputObjectDef>,
    pub enums: Vec<EnumDef>,
}

/// The GraphQL type name of a protobuf type: its full name with `.` as `_`.
pub open spec fn gql_type_name(full_name: Seq<char>) -> Seq<char> {
    mangle(full_name)
}

pub open spec fn message_type_name(d: DescriptorSet, m: int) -> Seq<char> {
    gql_type_name(d.messages@[m].full_name@)
}

pub open spec fn enum_type_name(d: DescriptorSet, e: int) -> Seq<char> {
    gql_type_name(d.enums@[e].full_name@)
}

/// The named GraphQL type for an element of kind `kind`.
pub open spec fn base_type_name(d: DescriptorSet, kind: FieldKind, is_input: bool) -> Seq<char> {
    match kind {
        FieldKind::Bool => "Boolean"@,
        FieldKind::String => "String"@,
        FieldKind::Bytes => if is_input { "Upload"@ } else { "String"@ },
        FieldKind::Float | FieldKind::Double => "Float"@,
        FieldKind::Int32 | FieldKind::Sint32 | FieldKind::Sfixed32 | FieldKind::Uint32
        | FieldKind::Fixed32 => "Int"@,
        FieldKind::Int64 | FieldKind::Sint64 | FieldKind::Sfixed64 | FieldKind::Uint64
        | FieldKind::Fixed64 => "String"@,
        FieldKind::Enum(e) => enum_type_name(d, e as int),
        FieldKind::Message(m) => message_type_name(d, m as int),
    }
}

/// The GraphQL type of a field: the named type, non-null when required, in
/// a list when the field is repeated.
pub open spec fn field_type(d: DescriptorSet, f: FieldDesc, required: bool, is_input: bool) -> TRef {
    let base = TRef::Named(base_type_name(d, f.kind, is_input));
    let b = if required { TRef::NonNull(Box::new(base)) } else { base };
    if f.is_list { TRef::List(Box::new(b)) } else { b }
}

/// The federation directives of an output field.
pub open spec fn field_directives_spec(f: FieldDesc) -> Seq<(Seq<char>, Seq<(Seq<char>, Seq<char>)>)> {
    let a: Seq<(Seq<char>, Seq<(Seq<char>, Seq<char>)>)> = if is_external(f) {
        seq![("external"@, seq![])]
    } else {
        seq![]
    };
    let b = match requires_of(f) {
        Some(r) => a.push(("requires"@, seq![("fields"@, r)])),
        None => a,
    };
    match provides_of(f) {
        Some(p) => b.push(("provides"@, seq![("fields"@, p)])),
        None => b,
    }
}

/// The object fields of the first `n` fields of `fs`: one per non-omitted
/// field, with its GraphQL name, output type, source index and directives.
pub open spec fn object_fields_ok(d: DescriptorSet, fs: Seq<FieldDesc>, n: nat, out: Seq<ObjectField>) -> bool
    decreases n,
{
    if n == 0 || n > fs.len() {
        out.len() == 0
    } else {
        let f = fs[n - 1];
        if is_omitted(f) {
            object_fields_ok(d, fs, (n - 1) as nat, out)
        } else {
            &&& out.len() > 0
            &&& object_fields_ok(d, fs, (n - 1) as nat, out.drop_last())
            &&& out.last().name@ == gql_name(f)
            &&& out.last().ty@ == field_type(d, f, is_required(f), false)
            &&& out.last().source == n - 1
            &&& dirs_view(out.last().directives@) == field_directives_spec(f)
        }
    }
}

/// The input fields of the first `n` fields of `fs`.
pub open spec fn input_fields_ok(d: DescriptorSet, fs: Seq<FieldDesc>, n: nat, out: Seq<InputField>) -> bool
    decreases n,
{
    if n == 0 || n > fs.len() {
        out.len() == 0
    } else {
        let f = fs[n - 1];
        if is_omitted(f) {
            input_fields_ok(d, fs, (n - 1) as nat, out)
        } else {
            &&& out.len() > 0
            &&& input_fields_ok(d, fs, (n - 1) as nat, out.drop_last())
            &&& out.last().name@ == gql_name(f)
            &&& out.last().ty@ == field_type(d, f, is_required(f), true)
        }
    }
}

impl TypeRegistry {
    pub open spec fn has_object(&self, name: Seq<char>) -> bool {
        exists|i: int| 0 <= i < self.objects@.len() && #[trigger] self.objects@[i].name@ == name
    }

    pub open spec fn has_input(&self, name: Seq<char>) -> bool {
        exists|i: int| 0 <= i < self.input_objects@.len() && #[trigger] self.input_objects@[i].name@ == name
    }

    pub open spec fn has_enum(&self, name: Seq<char>) -> bool {
        exists|i: int| 0 <= i < self.enums@.len() && #[trigger] self.enums@[i].name@ == name
    }

    /// Each kind of type holds at most one entry per name.
    pub open spec fn wf(&self) -> bool {
        &&& forall|i: int, j: int|
            0 <= i < j < self.objects@.len() ==> #[trigger] self.objects@[i].name@ != #[trigger] self.objects@[j].name@
        &&& forall|i: int, j: int|
            0 <= i < j < self.input_objects@.len() ==> #[trigger] self.input_objects@[i].name@ != #[trigger] self.input_objects@[j].name@
        &&& forall|i: int, j: int|
            0 <= i < j < self.enums@.len() ==> #[trigger] self.enums@[i].name@ != #[trigger] self.enums@[j].name@
    }

    /// `later` keeps every entry of `self`, in place, and may add more.
    pub open spec fn extended_by(&self, later: TypeRegistry) -> bool {
        &&& self.objects@.len() <= later.objects@.len()
        &&& later.objects@.subrange(0, self.objects@.len() as int) == self.objects@
        &&& self.input_objects@.len() <= later.input_objects@.len()
        &&& later.input_objects@.subrange(0, self.input_objects@.len() as int) == self.input_objects@
        &&& self.enums@.len() <= later.enums@.len()
        &&& later.enums@.subrange(0, self.enums@.len() as int) == self.enums@
    }
}

/// How many messages of `d` among the first `k` have no object type yet.
pub open spec fn missing_objects(d: DescriptorSet, reg: TypeRegistry, k: nat) -> nat
    decreases k,
{
    if k == 0 || k > d.messages@.len() {
        0
    } else {
        missing_objects(d, reg, (k - 1) as nat) + if reg.has_object(message_type_name(d, k - 1)) { 0nat } else { 1nat }
    }
}

/// How many messages of `d` among the first `k` have no input type yet.
pub open spec fn missing_inputs(d: DescriptorSet, reg: TypeRegistry, k: nat) -> nat
    decreases k,
{
    if k == 0 || k > d.messages@.len() {
        0
    } else {
        missing_inputs(d, reg, (k - 1) as nat) + if reg.has_input(message_type_name(d, k - 1)) { 0nat } else { 1nat }
    }
}

pub open spec fn missing(d: DescriptorSet, reg: TypeRegistry, is_input: bool) -> nat {
    if is_input {
        missing_inputs(d, reg, d.messages@.len())
    } else {
        missing_objects(d, reg, d.messages@.len())
    }
}

pub(crate) proof fn lemma_extended_keeps_names(r1: TypeRegistry, r2: TypeRegistry)
    requires
        r1.extended_by(r2),
    ensures
        forall|n: Seq<char>| r1.has_object(n) ==> #[trigger] r2.has_object(n),
        forall|n: Seq<char>| r1.has_input(n) ==> #[trigger] r2.has_input(n),
        forall|n: Seq<char>| r1.has_enum(n) ==> #[trigger] r2.has_enum(n),
{
    assert forall|n: Seq<char>| r1.has_object(n) implies #[trigger] r2.has_object(n) by {
        let i = choose|i: int| 0 <= i < r1.objects@.len() && #[trigger] r1.objects@[i].name@ == n;
        assert(r2.objects@.subrange(0, r1.objects@.len() as int)[i] == r2.objects@[i]);
    }
    assert forall|n: Seq<char>| r1.has_input(n) implies #[trigger] r2.has_input(n) by {
        let i = choose|i: int| 0 <= i < r1.input_objects@.len() && #[trigger] r1.input_objects@[i].name@ == n;
        assert(r2.input_objects@.subrange(0, r1.input_objects@.len() as int)[i] == r2.input_objects@[i]);
    }
    assert forall|n: Seq<char>| r1.has_enum(n) implies #[trigger] r2.has_enum(n) by {
        let i = choose|i: int| 0 <= i < r1.enums@.len() && #[trigger] r1.enums@[i].name@ == n;
        assert(r2.enums@.subrange(0, r1.enums@.len() as int)[i] == r2.enums@[i]);
    }
}

proof fn lemma_missing_mono(d: DescriptorSet, r1: TypeRegistry, r2: TypeRegistry, k: nat, m: int, is_input: bool)
    requires
        forall|n: Seq<char>| r1.has_object(n) ==> #[trigger] r2.has_object(n),
        forall|n: Seq<char>| r1.has_input(n) ==> #[trigger] r2.has_input(n),
    ensures
        !is_input ==> missing_objects(d, r2, k) <= missing_objects(d, r1, k),
        is_input ==> missing_inputs(d, r2, k) <= missing_inputs(d, r1, k),
        !is_input && 0 <= m < k && k <= d.messages@.len() && !r1.has_object(message_type_name(d, m))
            && r2.has_object(message_type_name(d, m)) ==> missing_objects(d, r2, k) < missing_objects(d, r1, k),
        is_input && 0 <= m < k && k <= d.messages@.len() && !r1.has_input(message_type_name(d, m))
            && r2.has_input(message_type_name(d, m)) ==> missing_inputs(d, r2, k) < missing_inputs(d, r1, k),
    decreases k,
{
    if k > 0 {
        lemma_missing_mono(d, r1, r2, (k - 1) as nat, m, is_input);
    }
}

pub(crate) proof fn lemma_extended_trans(r1: TypeRegistry, r2: TypeRegistry, r3: TypeRegistry)
    requires
        r1.extended_by(r2),
        r2.extended_by(r3),
    ensures
        r1.extended_by(r3),
{
    assert(r3.objects@.subrange(0, r1.objects@.len() as int) =~= r2.objects@.subrange(0, r1.objects@.len() as int));
    assert(r3.input_objects@.subrange(0, r1.input_objects@.len() as int) =~= r2.input_objects@.subrange(0, r1.input_objects@.len() as int));
    assert(r3.enums@.subrange(0, r1.enums@.len() as int) =~= r2.enums@.subrange(0, r1.enums@.len() as int));
}

fn scalar(name: &str) -> (r: TypeRef)
    ensures
        r@ == TRef::Named(name@),
{
    TypeRef::Named(String::from_str(name))
}

/// The directives of an output field: `@external`, `@requires(fields:)` and
/// `@provides(fields:)` as its options set them.
fn field_directives(f: &FieldDesc) -> (r: Vec<Directive>)
    ensures
        dirs_view(r@) == field_directives_spec(*f),
{
    let mut out: Vec<Directive> = Vec::new();
    if field_is_external(f) {
        out.push(Directive { name: String::from_str("external"), args: Vec::new() });
    }
    assert(dirs_view(out@) =~~= (if is_external(*f) { seq![("external"@, Seq::<(Seq<char>, Seq<char>)>::empty())] } else { seq![] }));
    let ghost a = dirs_view(out@);
    if let Some(r) = field_requires(f) {
        let mut args: Vec<(String, String)> = Vec::new();
        args.push((String::from_str("fields"), r));
        out.push(Directive { name: String::from_str("requires"), args });
        assert(dirs_view(out@) =~~= a.push(("requires"@, seq![("fields"@, requires_of(*f)->Some_0)])));
    }
    let ghost b = dirs_view(out@);
    if let Some(p) = field_provides(f) {
        let mut args: Vec<(String, String)> = Vec::new();
        args.push((String::from_str("fields"), p));
        out.push(Directive { name: String::from_str("provides"), args });
        assert(dirs_view(out@) =~~= b.push(("provides"@, seq![("fields"@, provides_of(*f)->Some_0)])));
    }
    out
}

impl TypeRegistry {
    /// An empty registry.
    pub fn new() -> (r: TypeRegistry)
        ensures
            r.wf(),
            r.objects@.len() == 0 && r.input_objects@.len() == 0 && r.enums@.len() == 0,
    {
        TypeRegistry { objects: Vec::new(), input_objects: Vec::new(), enums: Vec::new() }
    }

    /// The GraphQL type name of message `m`.
    pub fn type_name_for_message(d: &DescriptorSet, m: usize) -> (r: String)
        requires
            m < d.messages@.len(),
        ensures
            r@ == message_type_name(*d, m as int),
    {
        mangle_name(d.messages[m].full_name.as_str())
    }

    /// The GraphQL type name of enum `e`.
    pub fn type_name_for_enum(d: &DescriptorSet, e: usize) -> (r: String)
        requires
            e < d.enums@.len(),
        ensures
            r@ == enum_type_name(*d, e as int),
    {
        mangle_name(d.enums[e].full_name.as_str())
    }

    /// Whether an object type of this name exists.
    pub fn contains_object(&self, name: &String) -> (r: bool)
        ensures
            r == self.has_object(name@),
    {
        let mut i: usize = 0;
        while i < self.objects.len()
            invariant
                i <= self.objects@.len(),
                forall|k: int| 0 <= k < i ==> #[trigger] self.objects@[k].name@ != name@,
            decreases self.objects@.len() - i,
        {
            if self.objects[i].name == *name {
                return true;
            }
            i = i + 1;
        }
        false
    }

    /// Whether an input object type of this name exists.
    pub fn contains_input(&self, name: &String) -> (r: bool)
        ensures
            r == self.has_input(name@),
    {
        let mut i: usize = 0;
        while i < self.input_objects.len()
            invariant
                i <= self.input_objects@.len(),
                forall|k: int| 0 <= k < i ==> #[trigger] self.input_objects@[k].name@ != name@,
            decreases self.input_objects@.len() - i,
        {
            if self.input_objects[i].name == *name {
                return true;
            }
            i = i + 1;
        }
        false
    }

    /// Whether an enum type of this name exists.
    pub fn contains_enum(&self, name: &String) -> (r: bool)
        ensures
            r == self.has_enum(name@),
    {
        let mut i: usize = 0;
        while i < self.enums.len()
            invariant
                i <= self.enums@.len(),
                forall|k: int| 0 <= k < i ==> #[trigger] self.enums@[k].name@ != name@,
            decreases self.enums@.len() - i,
        {
            if self.enums[i].name == *name {
                return true;
            }
            i = i + 1;
        }
        false
    }

    /// The enum type of enum `e`, made on first use with one item per value
    /// name.
    pub fn ensure_enum(&mut self, d: &DescriptorSet, e: usize) -> (r: TypeRef)
        requires
            old(self).wf(),
            e < d.enums@.len(),
        ensures
            final(self).wf(),
            old(self).extended_by(*final(self)),
            r@ == TRef::Named(enum_type_name(*d, e as int)),
            final(self).has_enum(enum_type_name(*d, e as int)),
            final(self).objects == old(self).objects,
            final(self).input_objects == old(self).input_objects,
            old(self).has_enum(enum_type_name(*d, e as int)) ==> *final(self) == *old(self),
            !old(self).has_enum(enum_type_name(*d, e as int)) ==> {
                let en = final(self).enums@[old(self).enums@.len() as int];
                &&& final(self).enums@.len() == old(self).enums@.len() + 1
                &&& en.items@.len() == d.enums@[e as int].values@.len()
                &&& forall|k: int| 0 <= k < en.items@.len() ==> #[trigger] en.items@[k]@ == d.enums@[e as int].values@[k].name@
            },
    {
        let name = Self::type_name_for_enum(d, e);
        if !self.contains_enum(&name) {
            let vals = &d.enums[e].values;
            let mut items: Vec<String> = Vec::new();
            let mut i: usize = 0;
            while i < vals.len()
                invariant
                    i <= vals@.len(),
                    items@.len() == i,
                    forall|k: int| 0 <= k < i ==> #[trigger] items@[k]@ == vals@[k].name@,
                decreases vals@.len() - i,
            {
                items.push(vals[i].name.clone());
                i = i + 1;
            }
            let ghost pre = *self;
            self.enums.push(EnumDef { name: name.clone(), items });
            proof {
                assert(self.enums@.subrange(0, pre.enums@.len() as int) =~= pre.enums@);
                assert(self.objects@.subrange(0, pre.objects@.len() as int) =~= pre.objects@);
                assert(self.input_objects@.subrange(0, pre.input_objects@.len() as int) =~= pre.input_objects@);
                assert(self.enums@[pre.enums@.len() as int].name@ == name@);
                assert forall|i: int, j: int| 0 <= i < j < self.enums@.len() implies #[trigger] self.enums@[i].name@ != #[trigger] self.enums@[j].name@ by {
                    if j == pre.enums@.len() {
                        assert(pre.enums@[i].name@ != name@);
                    } else {
                        assert(pre.enums@[i] == self.enums@[i] && pre.enums@[j] == self.enums@[j]);
                    }
                }
            }
        } else {
            proof {
                assert(self.enums@.subrange(0, self.enums@.len() as int) =~= self.enums@);
                assert(self.objects@.subrange(0, self.objects@.len() as int) =~= self.objects@);
                assert(self.input_objects@.subrange(0, self.input_objects@.len() as int) =~= self.input_objects@);
            }
        }
        TypeRef::Named(name)
    }

    /// The output object type of message `m`. On first use it is registered
    /// before its fields are walked, so that recursive messages end on the
    /// cached entry; later uses return the same reference and change nothing.
    pub fn ensure_object(&mut self, d: &DescriptorSet, m: usize) -> (r: TypeRef)
        requires
            old(self).wf(),
            d.wf(),
            m < d.messages@.len(),
        ensures
            final(self).wf(),
            old(self).extended_by(*final(self)),
            r@ == TRef::Named(message_type_name(*d, m as int)),
            final(self).has_object(message_type_name(*d, m as int)),
            old(self).has_object(message_type_name(*d, m as int)) ==> *final(self) == *old(self),
            !old(self).has_object(message_type_name(*d, m as int)) ==> {
                let o = final(self).objects@[old(self).objects@.len() as int];
                let fs = d.messages@[m as int].fields@;
                &&& final(self).objects@.len() > old(self).objects@.len()
                &&& o.name@ == message_type_name(*d, m as int)
                &&& object_fields_ok(*d, fs, fs.len(), o.fields@)
                &&& o.keys@.len() == 0
                &&& !o.extends
                &&& o.directives@.len() == 0
            },
        decreases missing(*d, *old(self), false), 0nat,
    {
        let name = Self::type_name_for_message(d, m);
        if self.contains_object(&name) {
            proof {
                assert(self.enums@.subrange(0, self.enums@.len() as int) =~= self.enums@);
                assert(self.objects@.subrange(0, self.objects@.len() as int) =~= self.objects@);
                assert(self.input_objects@.subrange(0, self.input_objects@.len() as int) =~= self.input_objects@);
            }
            return TypeRef::Named(name);
        }
        let ghost start = *self;
        let pl = self.objects.len();
        self.objects.push(
            ObjectDef { name: name.clone(), fields: Vec::new(), keys: Vec::new(), extends: false, directives: Vec::new() },
        );
        let ghost placed = *self;
        proof {
            assert(self.enums@.subrange(0, start.enums@.len() as int) =~= start.enums@);
            assert(self.objects@.subrange(0, start.objects@.len() as int) =~= start.objects@);
            assert(self.input_objects@.subrange(0, start.input_objects@.len() as int) =~= start.input_objects@);
            assert(self.objects@[pl as int].name@ == name@);
            assert forall|i: int, j: int| 0 <= i < j < self.objects@.len() implies #[trigger] self.objects@[i].name@ != #[trigger] self.objects@[j].name@ by {
                if j == pl {
                    assert(start.objects@[i].name@ != name@);
                } else {
                    assert(start.objects@[i] == self.objects@[i] && start.objects@[j] == self.objects@[j]);
                }
            }
            assert(self.has_object(name@));
            lemma_extended_keeps_names(start, placed);
            lemma_missing_mono(*d, start, placed, d.messages@.len() as nat, m as int, false);
            assert(placed.objects@.subrange(0, placed.objects@.len() as int) =~= placed.objects@);
            assert(placed.input_objects@.subrange(0, placed.input_objects@.len() as int) =~= placed.input_objects@);
            assert(placed.enums@.subrange(0, placed.enums@.len() as int) =~= placed.enums@);
        }
        let fs = &d.messages[m].fields;
        let mut fields: Vec<ObjectField> = Vec::new();
        let mut i: usize = 0;
        while i < fs.len()
            invariant
                d.wf(),
                m < d.messages@.len(),
                fs@ == d.messages@[m as int].fields@,
                i <= fs@.len(),
                self.wf(),
                placed.extended_by(*self),
                pl == start.objects@.len(),
                placed.objects@.len() == pl + 1,
                placed.objects@[pl as int].name@ == name@,
                name@ == message_type_name(*d, m as int),
                start.extended_by(placed),
                start == *old(self),
                missing(*d, placed, false) < missing(*d, start, false),
                object_fields_ok(*d, fs@, i as nat, fields@),
            decreases fs@.len() - i,
        {
            let f = &fs[i];
            proof {
                assert(d.messages@[m as int].fields@[i as int] == *f);
                lemma_extended_keeps_names(placed, *self);
                lemma_missing_mono(*d, placed, *self, d.messages@.len() as nat, m as int, false);
            }
            if !field_is_omitted(f) {
                let fname = graphql_field_name(f);
                let required = field_is_required(f);
                let ghost before = *self;
                let ty = self.type_for_field(d, f, required, false);
                proof {
                    lemma_extended_trans(placed, before, *self);
                }
                let directives = field_directives(f);
                let of = ObjectField { name: fname, ty, source: i, directives };
                proof {
                    assert(fields@.push(of).drop_last() =~= fields@);
                }
                fields.push(of);
            }
            i = i + 1;
        }
        let ghost before_set = *self;
        proof {
            assert(self.objects@.subrange(0, pl + 1)[pl as int] == self.objects@[pl as int]);
        }
        self.objects.set(pl, ObjectDef { name: name.clone(), fields, keys: Vec::new(), extends: false, directives: Vec::new() });
        proof {
            assert(self.objects@.subrange(0, pl as int) =~= before_set.objects@.subrange(0, pl as int));
            assert(before_set.objects@.subrange(0, pl as int) =~= placed.objects@.subrange(0, pl as int));
            assert(self.objects@.subrange(0, start.objects@.len() as int) =~= start.objects@);
            assert(self.input_objects@.subrange(0, start.input_objects@.len() as int) =~= placed.input_objects@.subrange(0, start.input_objects@.len() as int));
            assert(self.enums@.subrange(0, start.enums@.len() as int) =~= placed.enums@.subrange(0, start.enums@.len() as int));
            assert forall|a: int, b: int| 0 <= a < b < self.objects@.len() implies #[trigger] self.objects@[a].name@ != #[trigger] self.objects@[b].name@ by {
                assert(before_set.objects@[a].name@ != before_set.objects@[b].name@);
            }
            assert(self.has_object(name@)) by {
                assert(self.objects@[pl as int].name@ == name@);
            }
        }
        TypeRef::Named(name)
    }

    /// The input object type of message `m`, made on first use: one field
    /// per non-omitted message field, with input-side types.
    pub fn ensure_input_object(&mut self, d: &DescriptorSet, m: usize) -> (r: TypeRef)
        requires
            old(self).wf(),
            d.wf(),
            m < d.messages@.len(),
        ensures
            final(self).wf(),
            old(self).extended_by(*final(self)),
            r@ == TRef::Named(message_type_name(*d, m as int)),
            final(self).has_input(message_type_name(*d, m as int)),
            old(self).has_input(message_type_name(*d, m as int)) ==> *final(self) == *old(self),
            !old(self).has_input(message_type_name(*d, m as int)) ==> {
                let o = final(self).input_objects@[old(self).input_objects@.len() as int];
                let fs = d.messages@[m as int].fields@;
                &&& final(self).input_objects@.len() > old(self).input_objects@.len()
                &&& o.name@ == message_type_name(*d, m as int)
                &&& input_fields_ok(*d, fs, fs.len(), o.fields@)
            },
        decreases missing(*d, *old(self), true), 0nat,
    {
        let name = Self::type_name_for_message(d, m);
        if self.contains_input(&name) {
            proof {
                assert(self.enums@.subrange(0, self.enums@.len() as int) =~= self.enums@);
                assert(self.objects@.subrange(0, self.objects@.len() as int) =~= self.objects@);
                assert(self.input_objects@.subrange(0, self.input_objects@.len() as int) =~= self.input_objects@);
            }
            return TypeRef::Named(name);
        }
        let ghost start = *self;
        let pl = self.input_objects.len();
        self.input_objects.push(InputObjectDef { name: name.clone(), fields: Vec::new() });
        let ghost placed = *self;
        proof {
            assert(self.enums@.subrange(0, start.enums@.len() as int) =~= start.enums@);
            assert(self.objects@.subrange(0, start.objects@.len() as int) =~= start.objects@);
            assert(self.input_objects@.subrange(0, start.input_objects@.len() as int) =~= start.input_objects@);
            assert(self.input_objects@[pl as int].name@ == name@);
            assert forall|i: int, j: int| 0 <= i < j < self.input_objects@.len() implies #[trigger] self.input_objects@[i].name@ != #[trigger] self.input_objects@[j].name@ by {
                if j == pl {
                    assert(start.input_objects@[i].name@ != name@);
                } else {
                    assert(start.input_objects@[i] == self.input_objects@[i] && start.input_objects@[j] == self.input_objects@[j]);
                }
            }
            assert(self.has_input(name@));
            lemma_extended_keeps_names(start, placed);
            lemma_missing_mono(*d, start, placed, d.messages@.len() as nat, m as int, true);
            assert(placed.objects@.subrange(0, placed.objects@.len() as int) =~= placed.objects@);
            assert(placed.input_objects@.subrange(0, placed.input_objects@.len() as int) =~= placed.input_objects@);
            assert(placed.enums@.subrange(0, placed.enums@.len() as int) =~= placed.enums@);
        }
        let fs = &d.messages[m].fields;
        let mut fields: Vec<InputField> = Vec::new();
        let mut i: usize = 0;
        while i < fs.len()
            invariant
                d.wf(),
                m < d.messages@.len(),
                fs@ == d.messages@[m as int].fields@,
                i <= fs@.len(),
                self.wf(),
                placed.extended_by(*self),
                pl == start.input_objects@.len(),
                placed.input_objects@.len() == pl + 1,
                placed.input_objects@[pl as int].name@ == name@,
                name@ == message_type_name(*d, m as int),
                start.extended_by(placed),
                start == *old(self),
                missing(*d, placed, true) < missing(*d, start, true),
                input_fields_ok(*d, fs@, i as nat, fields@),
            decreases fs@.len() - i,
        {
            let f = &fs[i];
            proof {
                assert(d.messages@[m as int].fields@[i as int] == *f);
                lemma_extended_keeps_names(placed, *self);
                lemma_missing_mono(*d, placed, *self, d.messages@.len() as nat, m as int, true);
            }
            if !field_is_omitted(f) {
                let fname = graphql_field_name(f);
                let required = field_is_required(f);
                let ghost before = *self;
                let ty = self.type_for_field(d, f, required, true);
                proof {
                    lemma_extended_trans(placed, before, *self);
                }
                let inf = InputField { name: fname, ty };
                proof {
                    assert(fields@.push(inf).drop_last() =~= fields@);
                }
                fields.push(inf);
            }
            i = i + 1;
        }
        let ghost before_set = *self;
        self.input_objects.set(pl, InputObjectDef { name: name.clone(), fields });
        proof {
            assert(self.input_objects@.subrange(0, pl as int) =~= before_set.input_objects@.subrange(0, pl as int));
            assert(before_set.input_objects@.subrange(0, pl as int) =~= placed.input_objects@.subrange(0, pl as int));
            assert(self.input_objects@.subrange(0, start.input_objects@.len() as int) =~= start.input_objects@);
            assert(self.objects@.subrange(0, start.objects@.len() as int) =~= placed.objects@.subrange(0, start.objects@.len() as int));
            assert(self.enums@.subrange(0, start.enums@.len() as int) =~= placed.enums@.subrange(0, start.enums@.len() as int));
            assert forall|a: int, b: int| 0 <= a < b < self.input_objects@.len() implies #[trigger] self.input_objects@[a].name@ != #[trigger] self.input_objects@[b].name@ by {
                assert(before_set.input_objects@[a].name@ != before_set.input_objects@[b].name@);
            }
            assert(self.has_input(name@)) by {
                assert(self.input_objects@[pl as int].name@ == name@);
            }
        }
        TypeRef::Named(name)
    }

    /// The GraphQL type of a field, input-side or output-side; message and
    /// enum types are made on first use.
    pub fn type_for_field(&mut self, d: &DescriptorSet, field: &FieldDesc, required: bool, is_input: bool) -> (r: TypeRef)
        requires
            old(self).wf(),
            d.wf(),
            field.kind.refs_ok(d.messages@.len(), d.enums@.len()),
        ensures
            final(self).wf(),
            old(self).extended_by(*final(self)),
            r@ == field_type(*d, *field, required, is_input),
        decreases missing(*d, *old(self), is_input), 1nat,
    {
        let base = match field.kind {
            FieldKind::Bool => scalar("Boolean"),
            FieldKind::String => scalar("String"),
            FieldKind::Bytes => if is_input { scalar("Upload") } else { scalar("String") },
            FieldKind::Float | FieldKind::Double => scalar("Float"),
            FieldKind::Int32 | FieldKind::Sint32 | FieldKind::Sfixed32 | FieldKind::Uint32
            | FieldKind::Fixed32 => scalar("Int"),
            FieldKind::Int64 | FieldKind::Sint64 | FieldKind::Sfixed64 | FieldKind::Uint64
            | FieldKind::Fixed64 => scalar("String"),
            FieldKind::Enum(e) => self.ensure_enum(d, e),
            FieldKind::Message(m) => {
                if is_input {
                    self.ensure_input_object(d, m)
                } else {
                    self.ensure_object(d, m)
                }
            },
        };
        proof {
            if field.kind is Bool || field.kind is String || field.kind is Bytes || field.kind is Float || field.kind is Double
                || field.kind is Int32 || field.kind is Sint32 || field.kind is Sfixed32 || field.kind is Uint32 || field.kind is Fixed32
                || field.kind is Int64 || field.kind is Sint64 || field.kind is Sfixed64 || field.kind is Uint64 || field.kind is Fixed64 {
                assert(self.enums@.subrange(0, self.enums@.len() as int) =~= self.enums@);
                assert(self.objects@.subrange(0, self.objects@.len() as int) =~= self.objects@);
                assert(self.input_objects@.subrange(0, self.input_objects@.len() as int) =~= self.input_objects@);
            }
        }
        assert(base@ == TRef::Named(base_type_name(*d, field.kind, is_input)));
        let b = if required { TypeRef::NonNull(Box::new(base)) } else { base };
        if field.is_list {
            TypeRef::List(Box::new(b))
        } else {
            b
        }
    }

    /// The input-side GraphQL type of a field.
    pub fn input_type_for_field(&mut self, d: &DescriptorSet, field: &FieldDesc, required: bool) -> (r: TypeRef)
        requires
            old(self).wf(),
            d.wf(),
            field.kind.refs_ok(d.messages@.len(), d.enums@.len()),
        ensures
            final(self).wf(),
            old(self).extended_by(*final(self)),
            r@ == field_type(*d, *field, required, true),
    {
        self.type_for_field(d, field, required, true)
    }

    /// The output-side GraphQL type of a field.
    pub fn output_type_for_field(&mut self, d: &DescriptorSet, field: &FieldDesc, required: bool) -> (r: TypeRef)
        requires
            old(self).wf(),
            d.wf(),
            field.kind.refs_ok(d.messages@.len(), d.enums@.len()),
        ensures
            final(self).wf(),
            old(self).extended_by(*final(self)),
            r@ == field_type(*d, *field, required, false),
    {
        self.type_for_field(d, field, required, false)
    }
}

/// Within one build the registry only grows, so once `ensure_object` or
/// `ensure_input_object` has made the type of message `m`, every later call
/// for `m` finds it: the call leaves the registry as it is and returns the
/// same reference, `Named(message_type_name(d, m))`.
pub proof fn lemma_ensure_stable(d: DescriptorSet, m: int, made: TypeRegistry, later: TypeRegistry)
    requires
        made.extended_by(later),
    ensures
        made.has_object(message_type_name(d, m)) ==> later.has_object(message_type_name(d, m)),
        made.has_input(message_type_name(d, m)) ==> later.has_input(message_type_name(d, m)),
{
    lemma_extended_keeps_names(made, later);
}

} // verus!
