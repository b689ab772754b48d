use grpc_graphql_gateway::descriptor::{
    DescriptorSet, ExtensionSet, FieldDesc, FieldKind, FieldOptions, GraphqlType, MessageDesc,
    MethodDesc, RequestOptions, ResponseOptions, SchemaOptions, ServiceDesc, ServiceOptions,
};
use grpc_graphql_gateway::error::Error;
use grpc_graphql_gateway::grpc_client::{GrpcClient, GrpcClientPool};
use grpc_graphql_gateway::registry::{TypeRef, TypeRegistry};
use grpc_graphql_gateway::schema::SchemaBuilder;

fn field(name: &str, kind: FieldKind) -> FieldDesc {
    FieldDesc { name: name.to_string(), kind, is_list: false, options: None }
}

fn schema(name: &str, t: GraphqlType, wrapper: Option<&str>) -> Option<SchemaOptions> {
    Some(SchemaOptions {
        name: name.to_string(),
        graphql_type: t,
        request: wrapper.map(|w| RequestOptions { name: w.to_string() }),
        response: None,
    })
}

fn greeter(host: &str) -> DescriptorSet {
    DescriptorSet {
        messages: vec![
            MessageDesc {
                full_name: "greeter.HelloRequest".to_string(),
                fields: vec![
                    field("name", FieldKind::String),
                    FieldDesc {
                        name: "salutation".to_string(),
                        kind: FieldKind::String,
                        is_list: false,
                        options: None,
                    },
                    FieldDesc {
                        name: "trace".to_string(),
                        kind: FieldKind::String,
                        is_list: false,
                        options: Some(FieldOptions {
                            name: String::new(),
                            required: false,
                            omit: true,
                            external: false,
                            requires: String::new(),
                            provides: String::new(),
                        }),
                    },
                ],
                entity: None,
            },
            MessageDesc {
                full_name: "greeter.HelloReply".to_string(),
                fields: vec![field("message", FieldKind::String), field("meta", FieldKind::Message(1))],
                entity: None,
            },
        ],
        enums: vec![],
        services: vec![ServiceDesc {
            full_name: "greeter.Greeter".to_string(),
            options: Some(ServiceOptions { host: host.to_string(), insecure: true }),
            methods: vec![
                MethodDesc { name: "SayHello".to_string(), input: 0, output: 1, schema: schema("hello", GraphqlType::Query, None) },
                MethodDesc { name: "UpdateGreeting".to_string(), input: 0, output: 1, schema: schema("updateGreeting", GraphqlType::Mutation, Some("input")) },
                MethodDesc { name: "StreamHellos".to_string(), input: 0, output: 1, schema: schema("streamHello", GraphqlType::Subscription, None) },
                MethodDesc { name: "Plain".to_string(), input: 0, output: 1, schema: None },
            ],
        }],
        extensions: ExtensionSet { schema: true, service: true, field: true, entity: false },
    }
}

fn named(t: &TypeRef) -> String {
    match t {
        TypeRef::Named(n) => n.clone(),
        _ => panic!("expected a named type"),
    }
}

#[test]
fn test_builder_creation() {
    let r = SchemaBuilder::new().build(&mut GrpcClientPool::new());
    assert!(r.is_err());
}

#[test]
fn missing_extension_is_schema_error() {
    let mut d = greeter("");
    d.extensions.field = false;
    let r = SchemaBuilder::new().with_descriptor_set(d).build(&mut GrpcClientPool::new());
    assert!(matches!(r, Err(Error::Schema(_))));
}

#[test]
fn dangling_type_index_is_schema_error() {
    let mut d = greeter("");
    d.services[0].methods[0].output = 9;
    let r = SchemaBuilder::new().with_descriptor_set(d).build(&mut GrpcClientPool::new());
    assert!(matches!(r, Err(Error::Schema(_))));
}

#[test]
fn hello_query_takes_request_fields_as_arguments() {
    let sch = SchemaBuilder::new().with_descriptor_set(greeter("")).build(&mut GrpcClientPool::new()).ok().expect("builds");
    assert!(!sch.placeholder);
    assert_eq!(sch.query.len(), 1);
    let f = &sch.query[0];
    assert_eq!(f.name, "hello");
    assert!(!f.streaming);
    assert_eq!(f.operation.service_name, "greeter.Greeter");
    assert_eq!(f.operation.grpc_path, "/greeter.Greeter/SayHello");
    let names: Vec<&str> = f.operation.args.iter().map(|a| a.name.as_str()).collect();
    assert_eq!(names, vec!["name", "salutation"]);
    assert_eq!(named(&f.operation.args[0].ty), "String");
    assert_eq!(named(&f.operation.return_type), "greeter_HelloReply");
}

#[test]
fn mutation_with_wrapper_takes_one_input_argument() {
    let sch = SchemaBuilder::new().with_descriptor_set(greeter("")).build(&mut GrpcClientPool::new()).ok().expect("builds");
    assert_eq!(sch.mutation.len(), 1);
    let f = &sch.mutation[0];
    assert_eq!(f.name, "updateGreeting");
    assert_eq!(f.operation.args.len(), 1);
    assert_eq!(f.operation.args[0].name, "input");
    assert_eq!(named(&f.operation.args[0].ty), "greeter_HelloRequest");
    assert_eq!(f.operation.request_wrapper_name, Some("input".to_string()));
    assert!(sch.registry.input_objects.iter().any(|i| i.name == "greeter_HelloRequest" && i.fields.len() == 2));
}

#[test]
fn subscription_is_streaming() {
    let sch = SchemaBuilder::new().with_descriptor_set(greeter("")).build(&mut GrpcClientPool::new()).ok().expect("builds");
    assert_eq!(sch.subscription.len(), 1);
    assert_eq!(sch.subscription[0].name, "streamHello");
    assert!(sch.subscription[0].streaming);
}

#[test]
fn no_query_methods_gives_placeholder() {
    let mut d = greeter("");
    d.services[0].methods.remove(0);
    let sch = SchemaBuilder::new().with_descriptor_set(d).build(&mut GrpcClientPool::new()).ok().expect("builds");
    assert!(sch.placeholder);
    assert!(sch.query.is_empty());
}

#[test]
fn empty_descriptor_set_gives_placeholder() {
    let d = DescriptorSet {
        messages: vec![],
        enums: vec![],
        services: vec![],
        extensions: ExtensionSet { schema: true, service: true, field: true, entity: false },
    };
    let sch = SchemaBuilder::new().with_descriptor_set(d).build(&mut GrpcClientPool::new()).ok().expect("builds");
    assert!(sch.placeholder);
    assert!(sch.mutation.is_empty() && sch.subscription.is_empty());
}

#[test]
fn allowlist_filters_services() {
    let sch = SchemaBuilder::new()
        .with_descriptor_set(greeter(""))
        .with_services(vec!["other.Service".to_string()])
        .build(&mut GrpcClientPool::new())
        .ok()
        .expect("builds");
    assert!(sch.placeholder);
    assert!(sch.mutation.is_empty());
}

#[test]
fn host_creates_lazy_client_once() {
    let mut pool = GrpcClientPool::new();
    let _ = SchemaBuilder::new().with_descriptor_set(greeter("http://127.0.0.1:50051")).build(&mut pool).ok().expect("builds");
    let c = pool.get("greeter.Greeter").expect("client added");
    assert_eq!(c.endpoint(), "http://127.0.0.1:50051");
    assert!(c.is_insecure());
    assert!(c.lazy);

    let mut pool2 = GrpcClientPool::new();
    pool2.add("greeter.Greeter".to_string(), GrpcClient::connect_lazy("http://keep:1".to_string(), false).ok().unwrap());
    let _ = SchemaBuilder::new().with_descriptor_set(greeter("http://127.0.0.1:50051")).build(&mut pool2).ok().expect("builds");
    assert_eq!(pool2.get("greeter.Greeter").unwrap().endpoint(), "http://keep:1");
}

#[test]
fn pluck_changes_return_type() {
    let mut d = greeter("");
    d.services[0].methods[0].schema.as_mut().unwrap().response =
        Some(ResponseOptions { required: true, pluck: "message".to_string() });
    let sch = SchemaBuilder::new().with_descriptor_set(d).build(&mut GrpcClientPool::new()).ok().expect("builds");
    match &sch.query[0].operation.return_type {
        TypeRef::NonNull(inner) => assert_eq!(named(inner), "String"),
        _ => panic!("expected a non-null type"),
    }
}

#[test]
fn recursive_message_registers_once() {
    let d = greeter("");
    let mut reg = TypeRegistry::new();
    let a = reg.ensure_object(&d, 1);
    let b = reg.ensure_object(&d, 1);
    assert_eq!(named(&a), "greeter_HelloReply");
    assert_eq!(named(&b), "greeter_HelloReply");
    assert_eq!(reg.objects.len(), 1);
    assert_eq!(reg.objects[0].fields.len(), 2);
    assert_eq!(named(&reg.objects[0].fields[1].ty), "greeter_HelloReply");
    let i1 = reg.ensure_input_object(&d, 1);
    let i2 = reg.ensure_input_object(&d, 1);
    assert_eq!(named(&i1), named(&i2));
    assert_eq!(reg.input_objects.len(), 1);
}

#[test]
fn required_and_list_wrapping() {
    let mut d = greeter("");
    d.messages[0].fields[0].options = Some(FieldOptions {
        name: "who".to_string(),
        required: true,
        omit: false,
        external: false,
        requires: String::new(),
        provides: String::new(),
    });
    d.messages[0].fields[1].is_list = true;
    let sch = SchemaBuilder::new().with_descriptor_set(d).build(&mut GrpcClientPool::new()).ok().expect("builds");
    let args = &sch.query[0].operation.args;
    assert_eq!(args[0].name, "who");
    assert!(matches!(&args[0].ty, TypeRef::NonNull(_)));
    assert!(matches!(&args[1].ty, TypeRef::List(_)));
}
