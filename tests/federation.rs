use grpc_graphql_gateway::descriptor::{
    DescriptorSet, EntityOptions, ExtensionSet, FieldDesc, FieldKind, MessageDesc,
};
use grpc_graphql_gateway::error::Error;
use grpc_graphql_gateway::federation::{FederationConfig, GrpcEntityResolver};
use grpc_graphql_gateway::grpc_client::GrpcClientPool;
use grpc_graphql_gateway::registry::ObjectDef;
use grpc_graphql_gateway::value::{GqlValue, GqlNumber};

fn product_set(keys: Vec<&str>, resolvable: bool, extend: bool) -> DescriptorSet {
    DescriptorSet {
        messages: vec![
            MessageDesc {
                full_name: "federation_example.Product".to_string(),
                fields: vec![
                    FieldDesc { name: "upc".to_string(), kind: FieldKind::String, is_list: false, options: None },
                    FieldDesc { name: "name".to_string(), kind: FieldKind::String, is_list: false, options: None },
                ],
                entity: Some(EntityOptions {
                    keys: keys.into_iter().map(String::from).collect(),
                    extend,
                    resolvable,
                }),
            },
            MessageDesc { full_name: "federation_example.Plain".to_string(), fields: vec![], entity: None },
        ],
        enums: vec![],
        services: vec![],
        extensions: ExtensionSet { schema: true, service: true, field: true, entity: true },
    }
}

fn rep(entries: Vec<(&str, GqlValue)>) -> Vec<(String, GqlValue)> {
    entries.into_iter().map(|(k, v)| (k.to_string(), v)).collect()
}

#[test]
fn test_federation_config_new() {
    let config = FederationConfig::new();
    assert!(!config.is_enabled());
    assert!(config.entities.is_empty());
}

#[test]
fn test_entity_config_composite_keys() {
    let keys = vec![
        vec!["id".to_string()],
        vec!["org".to_string(), "user".to_string()],
    ];
    assert_eq!(keys.len(), 2);
    assert_eq!(keys[0], vec!["id"]);
    assert_eq!(keys[1], vec!["org", "user"]);
}

#[test]
fn composite_keys_are_split_on_whitespace() {
    let d = product_set(vec!["id", "org  user"], true, false);
    let config = FederationConfig::from_descriptor_pool(&d);
    assert!(config.is_enabled());
    assert_eq!(config.entities.len(), 1);
    let e = &config.entities[0];
    assert_eq!(e.typename, "federation_example_Product");
    assert_eq!(e.keys, vec![vec!["id".to_string()], vec!["org".to_string(), "user".to_string()]]);
}

#[test]
fn messages_without_keys_are_not_entities() {
    let d = product_set(vec![], true, false);
    assert!(!FederationConfig::from_descriptor_pool(&d).is_enabled());
}

#[test]
fn resolvable_entity_gets_key_directive() {
    let d = product_set(vec!["upc"], true, false);
    let config = FederationConfig::from_descriptor_pool(&d);
    let obj = ObjectDef {
        name: "federation_example_Product".to_string(),
        fields: vec![],
        keys: vec![],
        extends: false,
        directives: vec![],
    };
    let out = config.apply_directives_to_object(obj, "federation_example_Product");
    assert_eq!(out.keys, vec![("upc".to_string(), true)]);
    assert_eq!(out.directives.len(), 1);
    assert_eq!(out.directives[0].name, "key");
    assert_eq!(out.directives[0].args, vec![("fields".to_string(), "upc".to_string())]);
    assert!(!out.extends);
}

#[test]
fn unresolvable_extended_entity() {
    let d = product_set(vec!["org user"], false, true);
    let config = FederationConfig::from_descriptor_pool(&d);
    let obj = ObjectDef { name: "federation_example_Product".to_string(), fields: vec![], keys: vec![], extends: false, directives: vec![] };
    let out = config.apply_directives_to_object(obj, "federation_example_Product");
    assert_eq!(out.keys, vec![("org user".to_string(), false)]);
    assert!(out.extends);
    assert_eq!(out.directives.len(), 2);
    assert_eq!(out.directives[1].name, "extends");
}

#[test]
fn other_objects_are_untouched() {
    let d = product_set(vec!["upc"], true, false);
    let config = FederationConfig::from_descriptor_pool(&d);
    let obj = ObjectDef { name: "x_Other".to_string(), fields: vec![], keys: vec![], extends: false, directives: vec![] };
    let out = config.apply_directives_to_object(obj, "x_Other");
    assert!(out.keys.is_empty() && out.directives.is_empty());
}

#[test]
fn entities_resolve_to_their_representation() {
    let d = product_set(vec!["upc"], true, false);
    let config = FederationConfig::from_descriptor_pool(&d);
    let resolver = GrpcEntityResolver::new(GrpcClientPool::new());
    let reps = vec![rep(vec![
        ("__typename", GqlValue::String("federation_example_Product".to_string())),
        ("upc", GqlValue::String("apollo-1".to_string())),
    ])];
    let out = config.resolve_entities(&resolver, &reps).ok().expect("resolves");
    assert_eq!(out.len(), 1);
    assert_eq!(out[0].0, "federation_example_Product");
    match &out[0].1 {
        GqlValue::Object(o) => {
            assert_eq!(o.len(), 2);
            assert_eq!(o[1].0, "upc");
            assert!(matches!(&o[1].1, GqlValue::String(s) if s == "apollo-1"));
        }
        _ => panic!("expected an object"),
    }
}

#[test]
fn empty_representations_give_empty_list() {
    let d = product_set(vec!["upc"], true, false);
    let config = FederationConfig::from_descriptor_pool(&d);
    let resolver = GrpcEntityResolver::new(GrpcClientPool::new());
    let out = config.resolve_entities(&resolver, &vec![]).ok().expect("resolves");
    assert!(out.is_empty());
}

#[test]
fn missing_typename_is_schema_error() {
    let d = product_set(vec!["upc"], true, false);
    let config = FederationConfig::from_descriptor_pool(&d);
    let r = config.entity_for_representation(&rep(vec![("upc", GqlValue::String("apollo-1".to_string()))]));
    assert!(matches!(r, Err(Error::Schema(_))));
    assert_eq!(r.err().unwrap().code(), "SCHEMA_ERROR");
}

#[test]
fn non_string_typename_is_schema_error() {
    let d = product_set(vec!["upc"], true, false);
    let config = FederationConfig::from_descriptor_pool(&d);
    let r = config.entity_for_representation(&rep(vec![("__typename", GqlValue::Number(GqlNumber::PosInt(3)))]));
    assert!(matches!(r, Err(Error::Schema(_))));
}

#[test]
fn unknown_entity_type_is_schema_error() {
    let d = product_set(vec!["upc"], true, false);
    let config = FederationConfig::from_descriptor_pool(&d);
    let r = config.entity_for_representation(&rep(vec![("__typename", GqlValue::String("Nope".to_string()))]));
    assert!(matches!(r, Err(Error::Schema(_))));
}
