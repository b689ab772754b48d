//! Schema synthesis: one GraphQL root field per annotated gRPC method, with
//! its arguments, return type and the configuration its resolver needs.
use vstd::prelude::*;
use vstd::string::StringExecFns;
use crate::descriptor::{
    field_is_omitted, field_is_required, gql_name, graphql_field_name, is_omitted, is_required,
    DescriptorSet, FieldDesc, FieldKind, GraphqlType, SchemaOptions,
};
use crate::registry::{field_type, message_type_name, TRef, TypeRef, TypeRegistry};
use crate::federation::FederationConfig;
use crate::error::Error;
use crate::grpc_client::{ClientView, GrpcClient, GrpcClientPool};

verus! {

/// One argument of a root field.
pub struct ArgumentSpec {
    pub name: String,
    pub ty: TypeRef,
}

/// Everything the resolver of one root field needs: the service and method
/// to call, the request and response message types, how arguments become the
/// request, and how the reply becomes the result.
pub struct OperationConfig {
    pub service_name: String,
    pub grpc_path: String,
    pub input: usize,
    pub output: usize,
    pub request_wrapper_name: Option<String>,
    pub return_type: TypeRef,
    pub args: Vec<ArgumentSpec>,
    pub pluck: Option<String>,
}

/// A field of the Query, Mutation or Subscription root.
pub struct RootField {
    pub name: String,
    pub operation: OperationConfig,
    pub streaming: bool,
}

/// The arguments of the first `n` fields of `fs`: one per non-omitted
/// field, under its GraphQL name, with its input-side type.
pub open spec fn args_ok(d: DescriptorSet, fs: Seq<FieldDesc>, n: nat, out: Seq<ArgumentSpec>) -> bool
    decreases n,
{
    if n == 0 || n > fs.len() {
        out.len() == 0
    } else {
        let f = fs[n - 1];
        if is_omitted(f) {
            args_ok(d, fs, (n - 1) as nat, out)
        } else {
            &&& out.len() > 0
            &&& args_ok(d, fs, (n - 1) as nat, out.drop_last())
            &&& out.last().name@ == gql_name(f)
            &&& out.last().ty@ == field_type(d, f, is_required(f), true)
        }
    }
}

/// The GraphQL names of the non-omitted fields among the first `n` of `fs`.
pub open spec fn kept_names(fs: Seq<FieldDesc>, n: nat) -> Seq<Seq<char>>
    decreases n,
{
    if n == 0 || n > fs.len() {
        seq![]
    } else if is_omitted(fs[n - 1]) {
        kept_names(fs, (n - 1) as nat)
    } else {
        kept_names(fs, (n - 1) as nat).push(gql_name(fs[n - 1]))
    }
}

pub open spec fn arg_names(args: Seq<ArgumentSpec>) -> Seq<Seq<char>> {
    args.map_values(|a: ArgumentSpec| a.name@)
}

/// The arguments of a field whose request is message `input`: the single
/// wrapper argument when one is named, else one per non-omitted field.
pub open spec fn arguments_ok(d: DescriptorSet, input: int, wrapper: Option<Seq<char>>, args: Seq<ArgumentSpec>) -> bool {
    match wrapper {
        Some(w) => args.len() == 1 && args[0].name@ == w && args[0].ty@ == TRef::Named(message_type_name(d, input)),
        None => args_ok(d, d.messages@[input].fields@, d.messages@[input].fields@.len(), args),
    }
}

/// The name of the request wrapper argument: `request.name` when non-empty.
pub open spec fn wrapper_of(s: SchemaOptions) -> Option<Seq<char>> {
    match s.request {
        Some(r) => if r.name@.len() > 0 { Some(r.name@) } else { None },
        None => None,
    }
}

/// The field named by `response.pluck`, when non-empty.
pub open spec fn pluck_of(s: SchemaOptions) -> Option<Seq<char>> {
    match s.response {
        Some(r) => if r.pluck@.len() > 0 { Some(r.pluck@) } else { None },
        None => None,
    }
}

pub open spec fn return_required(s: SchemaOptions) -> bool {
    match s.response {
        Some(r) => r.required,
        None => false,
    }
}

/// The index of the first field of `fs` with protobuf name `name`.
pub open spec fn field_index(fs: Seq<FieldDesc>, name: Seq<char>, n: nat) -> Option<nat>
    decreases n,
{
    if n == 0 || n > fs.len() {
        None
    } else {
        match field_index(fs, name, (n - 1) as nat) {
            Some(i) => Some(i),
            None => if fs[n - 1].name@ == name { Some((n - 1) as nat) } else { None },
        }
    }
}

/// The return type of a method: the plucked field's output type when the
/// pluck names a field of the response, else the response object; non-null
/// when the response is required.
pub open spec fn return_type_spec(d: DescriptorSet, output: int, s: SchemaOptions) -> TRef {
    let fs = d.messages@[output].fields@;
    let base = match pluck_of(s) {
        Some(p) => match field_index(fs, p, fs.len()) {
            Some(i) => field_type(d, fs[i as int], false, false),
            None => TRef::Named(message_type_name(d, output)),
        },
        None => TRef::Named(message_type_name(d, output)),
    };
    if return_required(s) { TRef::NonNull(Box::new(base)) } else { base }
}

/// The gRPC path of a method: `/<service>/<method>`.
pub open spec fn grpc_path_of(service: Seq<char>, method: Seq<char>) -> Seq<char> {
    "/"@ + service + "/"@ + method
}

/// The configuration of the operation for method `k` of service `s`.
pub open spec fn operation_ok(d: DescriptorSet, s: int, k: int, op: OperationConfig) -> bool {
    let svc = d.services@[s];
    let md = svc.methods@[k];
    let so = md.schema->0;
    &&& op.service_name@ == svc.full_name@
    &&& op.grpc_path@ == grpc_path_of(svc.full_name@, md.name@)
    &&& op.input == md.input
    &&& op.output == md.output
    &&& match op.request_wrapper_name {
        Some(w) => wrapper_of(so) == Some(w@),
        None => wrapper_of(so) is None,
    }
    &&& arguments_ok(d, md.input as int, wrapper_of(so), op.args@)
    &&& op.return_type@ == return_type_spec(d, md.output as int, so)
    &&& match op.pluck {
        Some(p) => pluck_of(so) == Some(p@),
        None => pluck_of(so) is None,
    }
}

/// The names of the arguments of the first `n` fields are the GraphQL names
/// of the non-omitted fields among them: argument generation neither drops
/// nor invents a field.
pub proof fn lemma_argument_names(d: DescriptorSet, fs: Seq<FieldDesc>, n: nat, args: Seq<ArgumentSpec>)
    requires
        args_ok(d, fs, n, args),
    ensures
        arg_names(args) == kept_names(fs, n),
    decreases n,
{
    if n > 0 && n <= fs.len() {
        if is_omitted(fs[n - 1]) {
            lemma_argument_names(d, fs, (n - 1) as nat, args);
        } else {
            lemma_argument_names(d, fs, (n - 1) as nat, args.drop_last());
            assert(arg_names(args) =~= arg_names(args.drop_last()).push(args.last().name@));
        }
    } else {
        assert(arg_names(args) =~= Seq::<Seq<char>>::empty());
    }
}

/// The arguments of a root field: the wrapper argument, typed as the request
/// message's input object, or one argument per non-omitted request field.
pub fn build_arguments(d: &DescriptorSet, input: usize, wrapper: &Option<String>, registry: &mut TypeRegistry) -> (r: Vec<ArgumentSpec>)
    requires
        d.wf(),
        input < d.messages@.len(),
        old(registry).wf(),
        wrapper is Some ==> wrapper->Some_0@.len() > 0,
    ensures
        final(registry).wf(),
        old(registry).extended_by(*final(registry)),
        arguments_ok(*d, input as int, match wrapper { Some(w) => Some(w@), None => None }, r@),
{
    if let Some(w) = wrapper {
        let ty = registry.ensure_input_object(d, input);
        let mut out: Vec<ArgumentSpec> = Vec::new();
        out.push(ArgumentSpec { name: w.clone(), ty });
        return out;
    }
    let fs = &d.messages[input].fields;
    let ghost start = *registry;
    let mut args: Vec<ArgumentSpec> = Vec::new();
    let mut i: usize = 0;
    proof {
        assert(start.objects@.subrange(0, start.objects@.len() as int) =~= start.objects@);
        assert(start.input_objects@.subrange(0, start.input_objects@.len() as int) =~= start.input_objects@);
        assert(start.enums@.subrange(0, start.enums@.len() as int) =~= start.enums@);
    }
    while i < fs.len()
        invariant
            d.wf(),
            input < d.messages@.len(),
            fs@ == d.messages@[input as int].fields@,
            i <= fs@.len(),
            registry.wf(),
            start.extended_by(*registry),
            args_ok(*d, fs@, i as nat, args@),
        decreases fs@.len() - i,
    {
        let f = &fs[i];
        assert(d.messages@[input as int].fields@[i as int] == *f);
        if !field_is_omitted(f) {
            let required = field_is_required(f);
            let ghost before = *registry;
            let ty = registry.input_type_for_field(d, f, required);
            proof {
                crate::registry::lemma_extended_trans(start, before, *registry);
            }
            let a = ArgumentSpec { name: graphql_field_name(f), ty };
            proof {
                assert(args@.push(a).drop_last() =~= args@);
            }
            args.push(a);
        }
        i = i + 1;
    }
    args
}

pub(crate) fn find_field_by_name(fs: &Vec<FieldDesc>, name: &String) -> (r: Option<usize>)
    ensures
        match r {
            Some(i) => field_index(fs@, name@, fs@.len() as nat) == Some(i as nat) && i < fs@.len(),
            None => field_index(fs@, name@, fs@.len() as nat) is None,
        },
{
    let mut i: usize = 0;
    while i < fs.len()
        invariant
            i <= fs@.len(),
            field_index(fs@, name@, i as nat) is None,
        decreases fs@.len() - i,
    {
        if fs[i].name == *name {
            proof {
                lemma_field_index_prefix(fs@, name@, (i + 1) as nat);
            }
            return Some(i);
        }
        i = i + 1;
    }
    None
}

proof fn lemma_field_index_prefix(fs: Seq<FieldDesc>, name: Seq<char>, k: nat)
    requires
        k <= fs.len(),
        field_index(fs, name, k) is Some,
    ensures
        field_index(fs, name, fs.len()) == field_index(fs, name, k),
    decreases fs.len() - k,
{
    if k < fs.len() {
        lemma_field_index_prefix(fs, name, k + 1);
    }
}

/// The return type of a method with response message `output`.
pub fn compute_return_type(d: &DescriptorSet, output: usize, schema: &SchemaOptions, registry: &mut TypeRegistry) -> (r: TypeRef)
    requires
        d.wf(),
        output < d.messages@.len(),
        old(registry).wf(),
    ensures
        final(registry).wf(),
        old(registry).extended_by(*final(registry)),
        r@ == return_type_spec(*d, output as int, *schema),
{
    let mut required = false;
    let mut plucked: Option<usize> = None;
    if let Some(resp) = &schema.response {
        required = resp.required;
        if !resp.pluck.as_str().is_empty() {
            plucked = find_field_by_name(&d.messages[output].fields, &resp.pluck);
        }
    }
    let base = match plucked {
        Some(i) => {
            proof {
                assert(d.messages@[output as int].fields@[i as int].kind.refs_ok(d.messages@.len(), d.enums@.len()));
            }
            registry.output_type_for_field(d, &d.messages[output].fields[i], false)
        },
        None => registry.ensure_object(d, output),
    };
    if required {
        TypeRef::NonNull(Box::new(base))
    } else {
        base
    }
}

fn grpc_path(service: &String, method: &String) -> (r: String)
    ensures
        r@ == grpc_path_of(service@, method@),
{
    let mut p = String::from_str("/");
    p.append(service.as_str());
    p.append("/");
    p.append(method.as_str());
    p
}

impl OperationConfig {
    /// The operation for method `k` of service `s`, whose `graphql.schema`
    /// options are set.
    pub fn new(d: &DescriptorSet, s: usize, k: usize, registry: &mut TypeRegistry) -> (r: OperationConfig)
        requires
            d.wf(),
            s < d.services@.len(),
            k < d.services@[s as int].methods@.len(),
            d.services@[s as int].methods@[k as int].schema is Some,
            old(registry).wf(),
        ensures
            final(registry).wf(),
            old(registry).extended_by(*final(registry)),
            operation_ok(*d, s as int, k as int, r),
    {
        let svc = &d.services[s];
        let md = &svc.methods[k];
        let so = md.schema.as_ref().unwrap();
        let ghost start = *registry;
        let return_type = compute_return_type(d, md.output, so, registry);
        let request_wrapper_name = match &so.request {
            Some(req) => if !req.name.as_str().is_empty() { Some(req.name.clone()) } else { None },
            None => None,
        };
        let ghost mid = *registry;
        let args = build_arguments(d, md.input, &request_wrapper_name, registry);
        proof {
            crate::registry::lemma_extended_trans(start, mid, *registry);
        }
        let pluck = match &so.response {
            Some(resp) => if !resp.pluck.as_str().is_empty() { Some(resp.pluck.clone()) } else { None },
            None => None,
        };
        OperationConfig {
            service_name: svc.full_name.clone(),
            grpc_path: grpc_path(&svc.full_name, &md.name),
            input: md.input,
            output: md.output,
            request_wrapper_name,
            return_type,
            args,
            pluck,
        }
    }
}

/// The Query or Mutation root field `name` for method `k` of service `s`,
/// answered by a unary call.
pub fn build_field(name: String, d: &DescriptorSet, s: usize, k: usize, registry: &mut TypeRegistry) -> (r: RootField)
    requires
        d.wf(),
        s < d.services@.len(),
        k < d.services@[s as int].methods@.len(),
        d.services@[s as int].methods@[k as int].schema is Some,
        old(registry).wf(),
    ensures
        final(registry).wf(),
        old(registry).extended_by(*final(registry)),
        r.name@ == name@,
        operation_ok(*d, s as int, k as int, r.operation),
        !r.streaming,
{
    let operation = OperationConfig::new(d, s, k, registry);
    RootField { name, operation, streaming: false }
}

/// The Subscription root field `name` for method `k` of service `s`,
/// answered by a server-streaming call.
pub fn build_subscription_field(name: String, d: &DescriptorSet, s: usize, k: usize, registry: &mut TypeRegistry) -> (r: RootField)
    requires
        d.wf(),
        s < d.services@.len(),
        k < d.services@[s as int].methods@.len(),
        d.services@[s as int].methods@[k as int].schema is Some,
        old(registry).wf(),
    ensures
        final(registry).wf(),
        old(registry).extended_by(*final(registry)),
        r.name@ == name@,
        operation_ok(*d, s as int, k as int, r.operation),
        r.streaming,
{
    let operation = OperationConfig::new(d, s, k, registry);
    RootField { name, operation, streaming: true }
}

/// The root a method of this type is placed on: resolvers go to Query.
pub open spec fn root_of(t: GraphqlType) -> GraphqlType {
    match t {
        GraphqlType::Resolver => GraphqlType::Query,
        _ => t,
    }
}

/// Method `k` of service `s` becomes a field of root `root`: it carries
/// `graphql.schema` with a non-empty name and a type placed on that root.
pub open spec fn qualifies(d: DescriptorSet, s: int, k: int, root: GraphqlType) -> bool {
    let md = d.services@[s].methods@[k];
    &&& md.schema is Some
    &&& md.schema->0.name@.len() > 0
    &&& root_of(md.schema->0.graphql_type) == root
}

/// The methods among the first `k` of service `s` that become fields of `root`.
pub open spec fn ops_in_methods(d: DescriptorSet, s: int, root: GraphqlType, k: nat) -> Seq<(int, int)>
    decreases k,
{
    if k == 0 || k > d.services@[s].methods@.len() {
        seq![]
    } else if qualifies(d, s, k - 1, root) {
        ops_in_methods(d, s, root, (k - 1) as nat).push((s, k - 1))
    } else {
        ops_in_methods(d, s, root, (k - 1) as nat)
    }
}

/// Service `name` passes the allowlist, if there is one.
pub open spec fn allowed(allow: Option<Vec<String>>, name: Seq<char>) -> bool {
    match allow {
        Some(v) => exists|i: int| 0 <= i < v@.len() && #[trigger] v@[i]@ == name,
        None => true,
    }
}

/// The methods of the first `n` allowed services that become fields of
/// `root`, in descriptor order.
pub open spec fn ops_in_services(d: DescriptorSet, allow: Option<Vec<String>>, root: GraphqlType, n: nat) -> Seq<(int, int)>
    decreases n,
{
    if n == 0 || n > d.services@.len() {
        seq![]
    } else if allowed(allow, d.services@[n - 1].full_name@) {
        ops_in_services(d, allow, root, (n - 1) as nat) + ops_in_methods(
            d,
            n - 1,
            root,
            d.services@[n - 1].methods@.len() as nat,
        )
    } else {
        ops_in_services(d, allow, root, (n - 1) as nat)
    }
}

/// `fields` are the root fields of the methods `ops`, in order.
pub open spec fn root_fields_ok(d: DescriptorSet, ops: Seq<(int, int)>, fields: Seq<RootField>) -> bool {
    &&& fields.len() == ops.len()
    &&& forall|i: int| 0 <= i < ops.len() ==> {
        let (s, k) = ops[i];
        &&& 0 <= s < d.services@.len()
        &&& 0 <= k < d.services@[s].methods@.len()
        &&& (#[trigger] fields[i]).name@ == d.services@[s].methods@[k].schema->0.name@
        &&& operation_ok(d, s, k, fields[i].operation)
    }
}

/// The synthesised schema: the root fields, the registered types, and the
/// federation wiring. `placeholder` stands for `Query.__placeholder`,
/// installed when no method is placed on Query.
pub struct DynamicSchema {
    pub query: Vec<RootField>,
    pub mutation: Vec<RootField>,
    pub subscription: Vec<RootField>,
    pub placeholder: bool,
    pub registry: TypeRegistry,
    pub federation: bool,
    pub entities: FederationConfig,
}

/// Builder of a schema from a descriptor set.
pub struct SchemaBuilder {
    pub descriptor: Option<DescriptorSet>,
    pub federation: bool,
    pub service_allowlist: Option<Vec<String>>,
}

fn service_allowed(allow: &Option<Vec<String>>, name: &String) -> (r: bool)
    ensures
        r == allowed(*allow, name@),
{
    match allow {
        None => true,
        Some(v) => {
            let mut i: usize = 0;
            while i < v.len()
                invariant
                    i <= v@.len(),
                    *allow == Some(*v),
                    forall|k: int| 0 <= k < i ==> #[trigger] v@[k]@ != name@,
                decreases v@.len() - i,
            {
                if v[i] == *name {
                    assert(v@[i as int]@ == name@);
                    assert(allow->Some_0@ == v@);
                    assert(exists|j: int| 0 <= j < allow->Some_0@.len() && #[trigger] allow->Some_0@[j]@ == name@);
                    return true;
                }
                i = i + 1;
            }
            false
        },
    }
}

/// Checks that every index of the descriptor set is in range.
pub fn check_descriptor(d: &DescriptorSet) -> (r: bool)
    ensures
        r == d.wf(),
{
    let nm = d.messages.len();
    let ne = d.enums.len();
    let mut m: usize = 0;
    while m < nm
        invariant
            nm == d.messages@.len(),
            ne == d.enums@.len(),
            m <= nm,
            forall|a: int, f: int| 0 <= a < m && 0 <= f < d.messages@[a].fields@.len()
                ==> (#[trigger] d.messages@[a].fields@[f]).kind.refs_ok(nm as nat, ne as nat),
        decreases nm - m,
    {
        let fs = &d.messages[m].fields;
        let mut f: usize = 0;
        while f < fs.len()
            invariant
                nm == d.messages@.len(),
                ne == d.enums@.len(),
                m < nm,
                fs@ == d.messages@[m as int].fields@,
                f <= fs@.len(),
                forall|a: int, g: int| 0 <= a < m && 0 <= g < d.messages@[a].fields@.len()
                    ==> (#[trigger] d.messages@[a].fields@[g]).kind.refs_ok(nm as nat, ne as nat),
                forall|g: int| 0 <= g < f ==> (#[trigger] fs@[g]).kind.refs_ok(nm as nat, ne as nat),
            decreases fs@.len() - f,
        {
            let ok = match fs[f].kind {
                FieldKind::Enum(e) => e < ne,
                FieldKind::Message(x) => x < nm,
                _ => true,
            };
            if !ok {
                assert(!d.messages@[m as int].fields@[f as int].kind.refs_ok(nm as nat, ne as nat));
                return false;
            }
            f = f + 1;
        }
        m = m + 1;
    }
    let mut s: usize = 0;
    while s < d.services.len()
        invariant
            nm == d.messages@.len(),
            s <= d.services@.len(),
            forall|a: int, f: int| 0 <= a < nm && 0 <= f < d.messages@[a].fields@.len()
                ==> (#[trigger] d.messages@[a].fields@[f]).kind.refs_ok(nm as nat, ne as nat),
            ne == d.enums@.len(),
            forall|a: int, k: int| 0 <= a < s && 0 <= k < d.services@[a].methods@.len() ==> {
                let md = #[trigger] d.services@[a].methods@[k];
                md.input < nm && md.output < nm
            },
        decreases d.services@.len() - s,
    {
        let ms = &d.services[s].methods;
        let mut k: usize = 0;
        while k < ms.len()
            invariant
                nm == d.messages@.len(),
                s < d.services@.len(),
                ms@ == d.services@[s as int].methods@,
                k <= ms@.len(),
                forall|a: int, j: int| 0 <= a < s && 0 <= j < d.services@[a].methods@.len() ==> {
                    let md = #[trigger] d.services@[a].methods@[j];
                    md.input < nm && md.output < nm
                },
                forall|j: int| 0 <= j < k ==> (#[trigger] ms@[j]).input < nm && ms@[j].output < nm,
            decreases ms@.len() - k,
        {
            if ms[k].input >= nm || ms[k].output >= nm {
                assert(d.services@[s as int].methods@[k as int] == ms@[k as int]);
                return false;
            }
            k = k + 1;
        }
        s = s + 1;
    }
    true
}

proof fn lemma_root_fields_push(d: DescriptorSet, ops: Seq<(int, int)>, fields: Seq<RootField>, s: int, k: int, f: RootField)
    requires
        root_fields_ok(d, ops, fields),
        0 <= s < d.services@.len(),
        0 <= k < d.services@[s].methods@.len(),
        f.name@ == d.services@[s].methods@[k].schema->0.name@,
        operation_ok(d, s, k, f.operation),
    ensures
        root_fields_ok(d, ops.push((s, k)), fields.push(f)),
{
    assert forall|i: int| 0 <= i < ops.push((s, k)).len() implies {
        let (a, b) = ops.push((s, k))[i];
        &&& 0 <= a < d.services@.len()
        &&& 0 <= b < d.services@[a].methods@.len()
        &&& (#[trigger] fields.push(f)[i]).name@ == d.services@[a].methods@[b].schema->0.name@
        &&& operation_ok(d, a, b, fields.push(f)[i].operation)
    } by {
        if i < ops.len() {
            assert(ops.push((s, k))[i] == ops[i]);
            assert(fields.push(f)[i] == fields[i]);
        }
    }
}

/// Adds the root fields of the methods of service `s` to the three roots.
fn add_service_fields(
    d: &DescriptorSet,
    s: usize,
    registry: &mut TypeRegistry,
    query: &mut Vec<RootField>,
    mutation: &mut Vec<RootField>,
    subscription: &mut Vec<RootField>,
)
    requires
        d.wf(),
        s < d.services@.len(),
        old(registry).wf(),
    ensures
        final(registry).wf(),
        old(registry).extended_by(*final(registry)),
        forall|ops: Seq<(int, int)>| root_fields_ok(*d, ops, old(query)@) ==> #[trigger] root_fields_ok(*d, ops + ops_in_methods(*d, s as int, GraphqlType::Query, d.services@[s as int].methods@.len() as nat), final(query)@),
        forall|ops: Seq<(int, int)>| root_fields_ok(*d, ops, old(mutation)@) ==> #[trigger] root_fields_ok(*d, ops + ops_in_methods(*d, s as int, GraphqlType::Mutation, d.services@[s as int].methods@.len() as nat), final(mutation)@),
        forall|ops: Seq<(int, int)>| root_fields_ok(*d, ops, old(subscription)@) ==> #[trigger] root_fields_ok(*d, ops + ops_in_methods(*d, s as int, GraphqlType::Subscription, d.services@[s as int].methods@.len() as nat), final(subscription)@),
{
    let ghost q0 = query@;
    let ghost m0 = mutation@;
    let ghost s0 = subscription@;
    let ghost start = *registry;
    proof {
        assert(start.objects@.subrange(0, start.objects@.len() as int) =~= start.objects@);
        assert(start.input_objects@.subrange(0, start.input_objects@.len() as int) =~= start.input_objects@);
        assert(start.enums@.subrange(0, start.enums@.len() as int) =~= start.enums@);
    }
    let ms = &d.services[s].methods;
    let mut k: usize = 0;
    while k < ms.len()
        invariant
            d.wf(),
            s < d.services@.len(),
            ms@ == d.services@[s as int].methods@,
            k <= ms@.len(),
            registry.wf(),
            start.extended_by(*registry),
            forall|ops: Seq<(int, int)>| root_fields_ok(*d, ops, q0) ==> #[trigger] root_fields_ok(*d, ops + ops_in_methods(*d, s as int, GraphqlType::Query, k as nat), query@),
            forall|ops: Seq<(int, int)>| root_fields_ok(*d, ops, m0) ==> #[trigger] root_fields_ok(*d, ops + ops_in_methods(*d, s as int, GraphqlType::Mutation, k as nat), mutation@),
            forall|ops: Seq<(int, int)>| root_fields_ok(*d, ops, s0) ==> #[trigger] root_fields_ok(*d, ops + ops_in_methods(*d, s as int, GraphqlType::Subscription, k as nat), subscription@),
        decreases ms@.len() - k,
    {
        let md = &ms[k];
        assert(d.services@[s as int].methods@[k as int] == *md);
        let ghost qk = query@;
        let ghost mk = mutation@;
        let ghost sk = subscription@;
        if let Some(so) = &md.schema {
            if !so.name.as_str().is_empty() {
                let ghost before = *registry;
                match so.graphql_type {
                    GraphqlType::Query | GraphqlType::Resolver => {
                        let f = build_field(so.name.clone(), d, s, k, registry);
                        query.push(f);
                        proof {
                            assert forall|ops: Seq<(int, int)>| root_fields_ok(*d, ops, q0) implies #[trigger] root_fields_ok(*d, ops + ops_in_methods(*d, s as int, GraphqlType::Query, (k + 1) as nat), query@) by {
                                let pre = ops + ops_in_methods(*d, s as int, GraphqlType::Query, k as nat);
                                assert(root_fields_ok(*d, pre, qk));
                                lemma_root_fields_push(*d, pre, qk, s as int, k as int, f);
                                assert(pre.push((s as int, k as int)) =~= ops + ops_in_methods(*d, s as int, GraphqlType::Query, (k + 1) as nat));
                            }
                        }
                    },
                    GraphqlType::Mutation => {
                        let f = build_field(so.name.clone(), d, s, k, registry);
                        mutation.push(f);
                        proof {
                            assert forall|ops: Seq<(int, int)>| root_fields_ok(*d, ops, m0) implies #[trigger] root_fields_ok(*d, ops + ops_in_methods(*d, s as int, GraphqlType::Mutation, (k + 1) as nat), mutation@) by {
                                let pre = ops + ops_in_methods(*d, s as int, GraphqlType::Mutation, k as nat);
                                assert(root_fields_ok(*d, pre, mk));
                                lemma_root_fields_push(*d, pre, mk, s as int, k as int, f);
                                assert(pre.push((s as int, k as int)) =~= ops + ops_in_methods(*d, s as int, GraphqlType::Mutation, (k + 1) as nat));
                            }
                        }
                    },
                    GraphqlType::Subscription => {
                        let f = build_subscription_field(so.name.clone(), d, s, k, registry);
                        subscription.push(f);
                        proof {
                            assert forall|ops: Seq<(int, int)>| root_fields_ok(*d, ops, s0) implies #[trigger] root_fields_ok(*d, ops + ops_in_methods(*d, s as int, GraphqlType::Subscription, (k + 1) as nat), subscription@) by {
                                let pre = ops + ops_in_methods(*d, s as int, GraphqlType::Subscription, k as nat);
                                assert(root_fields_ok(*d, pre, sk));
                                lemma_root_fields_push(*d, pre, sk, s as int, k as int, f);
                                assert(pre.push((s as int, k as int)) =~= ops + ops_in_methods(*d, s as int, GraphqlType::Subscription, (k + 1) as nat));
                            }
                        }
                    },
                }
                proof {
                    crate::registry::lemma_extended_trans(start, before, *registry);
                }
            }
        }
        proof {
            assert(qualifies(*d, s as int, k as int, GraphqlType::Query) ==> ops_in_methods(*d, s as int, GraphqlType::Query, (k + 1) as nat) == ops_in_methods(*d, s as int, GraphqlType::Query, k as nat).push((s as int, k as int)));
            assert(!qualifies(*d, s as int, k as int, GraphqlType::Query) ==> ops_in_methods(*d, s as int, GraphqlType::Query, (k + 1) as nat) == ops_in_methods(*d, s as int, GraphqlType::Query, k as nat));
            assert(!qualifies(*d, s as int, k as int, GraphqlType::Mutation) ==> ops_in_methods(*d, s as int, GraphqlType::Mutation, (k + 1) as nat) == ops_in_methods(*d, s as int, GraphqlType::Mutation, k as nat));
            assert(!qualifies(*d, s as int, k as int, GraphqlType::Subscription) ==> ops_in_methods(*d, s as int, GraphqlType::Subscription, (k + 1) as nat) == ops_in_methods(*d, s as int, GraphqlType::Subscription, k as nat));
        }
        k = k + 1;
    }
}

/// Service `s` asks for a client of its own: `graphql.service.host` is set.
pub open spec fn wants_client(d: DescriptorSet, s: int) -> bool {
    d.services@[s].options is Some && d.services@[s].options->0.host@.len() > 0
}

/// `v` is the client that an allowed service named `k`, asking for one,
/// gets: a lazy client of its host with its security mode.
pub open spec fn client_for(d: DescriptorSet, allow: Option<Vec<String>>, k: Seq<char>, v: ClientView) -> bool {
    exists|t: int| 0 <= t < d.services@.len() && #[trigger] d.services@[t].full_name@ == k && allowed(allow, k)
        && wants_client(d, t) && v == (ClientView {
            endpoint: d.services@[t].options->0.host@,
            insecure: d.services@[t].options->0.insecure,
            lazy: true,
        })
}

/// What a successful build of `d` holds.
pub open spec fn schema_ok(d: DescriptorSet, allow: Option<Vec<String>>, federation: bool, sch: DynamicSchema) -> bool {
    let n = d.services@.len() as nat;
    &&& root_fields_ok(d, ops_in_services(d, allow, GraphqlType::Query, n), sch.query@)
    &&& root_fields_ok(d, ops_in_services(d, allow, GraphqlType::Mutation, n), sch.mutation@)
    &&& root_fields_ok(d, ops_in_services(d, allow, GraphqlType::Subscription, n), sch.subscription@)
    &&& sch.placeholder == (ops_in_services(d, allow, GraphqlType::Query, n).len() == 0)
    &&& sch.registry.wf()
    &&& sch.federation == federation
    &&& (!federation || !d.extensions.entity) ==> sch.entities.entities@.len() == 0
    &&& (federation && d.extensions.entity) ==> {
        let ms = crate::federation::entity_messages(d, d.messages@.len() as nat);
        &&& sch.entities.entities@.len() == ms.len()
        &&& forall|i: int| 0 <= i < ms.len() ==> crate::federation::entity_ok(d, ms[i], #[trigger] sch.entities.entities@[i])
    }
}

/// The descriptor set can be built from: every index is in range and the
/// annotation extensions are declared.
pub open spec fn buildable(d: DescriptorSet) -> bool {
    d.extensions.schema && d.extensions.service && d.extensions.field && d.wf()
}

impl SchemaBuilder {
    /// A builder with no descriptor set, federation off and no allowlist.
    pub fn new() -> (r: SchemaBuilder)
        ensures
            r.descriptor is None,
            !r.federation,
            r.service_allowlist is None,
    {
        SchemaBuilder { descriptor: None, federation: false, service_allowlist: None }
    }

    /// Uses descriptor set `d`.
    pub fn with_descriptor_set(self, d: DescriptorSet) -> (r: SchemaBuilder)
        ensures
            r.descriptor == Some(d),
            r.federation == self.federation,
            r.service_allowlist == self.service_allowlist,
    {
        SchemaBuilder { descriptor: Some(d), federation: self.federation, service_allowlist: self.service_allowlist }
    }

    /// Turns federation support on.
    pub fn enable_federation(self) -> (r: SchemaBuilder)
        ensures
            r.descriptor == self.descriptor,
            r.federation,
            r.service_allowlist == self.service_allowlist,
    {
        SchemaBuilder { descriptor: self.descriptor, federation: true, service_allowlist: self.service_allowlist }
    }

    /// Limits the schema to the services of these full names.
    pub fn with_services(self, services: Vec<String>) -> (r: SchemaBuilder)
        ensures
            r.descriptor == self.descriptor,
            r.federation == self.federation,
            r.service_allowlist == Some(services),
    {
        SchemaBuilder { descriptor: self.descriptor, federation: self.federation, service_allowlist: Some(services) }
    }

    /// Builds the schema. Fails with a schema error when no descriptor set
    /// was given, when it lacks the annotation extensions, or when an index
    /// in it is out of range. Each allowed service with a host and no client
    /// in `pool` gets a lazily connecting client.
    pub fn build(self, pool: &mut GrpcClientPool) -> (r: Result<DynamicSchema, Error>)
        requires
            old(pool).wf(),
        ensures
            final(pool).wf(),
            match self.descriptor {
                None => r is Err && r->Err_0 is Schema,
                Some(d) => if buildable(d) {
                    &&& r is Ok
                    &&& schema_ok(d, self.service_allowlist, self.federation, r->Ok_0)
                    &&& forall|k: Seq<char>| #[trigger] old(pool)@.contains_key(k) ==> final(pool)@.contains_key(k) && final(pool)@[k] == old(pool)@[k]
                    &&& forall|s: int| 0 <= s < d.services@.len() && allowed(self.service_allowlist, d.services@[s].full_name@)
                        && wants_client(d, s) ==> #[trigger] final(pool)@.contains_key(d.services@[s].full_name@)
                    &&& forall|k: Seq<char>| #[trigger] final(pool)@.contains_key(k) && !old(pool)@.contains_key(k)
                        ==> client_for(d, self.service_allowlist, k, final(pool)@[k])
                } else {
                    r is Err && r->Err_0 is Schema
                },
            },
    {
        let d = match self.descriptor {
            None => {
                return Err(Error::Schema(String::from_str("descriptor set is required")));
            },
            Some(d) => d,
        };
        if !d.extensions.schema {
            return Err(Error::Schema(String::from_str("missing graphql.schema extension")));
        }
        if !d.extensions.service {
            return Err(Error::Schema(String::from_str("missing graphql.service extension")));
        }
        if !d.extensions.field {
            return Err(Error::Schema(String::from_str("missing graphql.field extension")));
        }
        if !check_descriptor(&d) {
            return Err(Error::Schema(String::from_str("descriptor set refers to unknown types")));
        }
        let entities = if self.federation && d.extensions.entity {
            FederationConfig::from_descriptor_pool(&d)
        } else {
            FederationConfig::new()
        };
        let allow = self.service_allowlist;
        let mut registry = TypeRegistry::new();
        let mut query: Vec<RootField> = Vec::new();
        let mut mutation: Vec<RootField> = Vec::new();
        let mut subscription: Vec<RootField> = Vec::new();
        let ghost pool0 = *pool;
        let mut s: usize = 0;
        while s < d.services.len()
            invariant
                d.wf(),
                s <= d.services@.len(),
                registry.wf(),
                pool.wf(),
                root_fields_ok(d, ops_in_services(d, allow, GraphqlType::Query, s as nat), query@),
                root_fields_ok(d, ops_in_services(d, allow, GraphqlType::Mutation, s as nat), mutation@),
                root_fields_ok(d, ops_in_services(d, allow, GraphqlType::Subscription, s as nat), subscription@),
                forall|k: Seq<char>| #[trigger] pool0@.contains_key(k) ==> pool@.contains_key(k) && pool@[k] == pool0@[k],
                forall|t: int| 0 <= t < s && allowed(allow, d.services@[t].full_name@) && wants_client(d, t)
                    ==> #[trigger] pool@.contains_key(d.services@[t].full_name@),
                forall|k: Seq<char>| #[trigger] pool@.contains_key(k) && !pool0@.contains_key(k)
                    ==> client_for(d, allow, k, pool@[k]),
            decreases d.services@.len() - s,
        {
            let svc = &d.services[s];
            if service_allowed(&allow, &svc.full_name) {
                if let Some(opts) = &svc.options {
                    if !opts.host.as_str().is_empty() {
                        if pool.get(svc.full_name.as_str()).is_none() {
                            match GrpcClient::connect_lazy(opts.host.clone(), opts.insecure) {
                                Ok(client) => {
                                    let ghost before = *pool;
                                    let name = svc.full_name.clone();
                                    pool.add(name, client);
                                    proof {
                                        assert(d.services@[s as int].full_name@ == svc.full_name@);
                                        assert forall|k: Seq<char>| #[trigger] pool@.contains_key(k) && !pool0@.contains_key(k)
                                            implies client_for(d, allow, k, pool@[k]) by {
                                            if k == svc.full_name@ {
                                                assert(d.services@[s as int].full_name@ == k);
                                            } else {
                                                assert(before@.contains_key(k));
                                            }
                                        }
                                    }
                                },
                                Err(e) => {
                                    return Err(e);
                                },
                            }
                        }
                    }
                }
                let ghost q = query@;
                let ghost m = mutation@;
                let ghost sb = subscription@;
                add_service_fields(&d, s, &mut registry, &mut query, &mut mutation, &mut subscription);
                proof {
                    let n = d.services@[s as int].methods@.len() as nat;
                    assert(ops_in_services(d, allow, GraphqlType::Query, (s + 1) as nat) == ops_in_services(d, allow, GraphqlType::Query, s as nat) + ops_in_methods(d, s as int, GraphqlType::Query, n));
                    assert(ops_in_services(d, allow, GraphqlType::Mutation, (s + 1) as nat) == ops_in_services(d, allow, GraphqlType::Mutation, s as nat) + ops_in_methods(d, s as int, GraphqlType::Mutation, n));
                    assert(ops_in_services(d, allow, GraphqlType::Subscription, (s + 1) as nat) == ops_in_services(d, allow, GraphqlType::Subscription, s as nat) + ops_in_methods(d, s as int, GraphqlType::Subscription, n));
                }
            }
            s = s + 1;
        }
        if self.federation {
            entities.apply_to_registry(&mut registry);
        }
        let placeholder = query.len() == 0;
        Ok(DynamicSchema {
            query,
            mutation,
            subscription,
            placeholder,
            registry,
            federation: self.federation,
            entities,
        })
    }
}

} // verus!
