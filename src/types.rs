//! Plain configuration records shared with embedders.
use vstd::prelude::*;

verus! {

/// The root a GraphQL operation belongs to.
#[derive(PartialEq, Eq, Structural, Clone, Copy, Debug, Hash)]
pub enum SchemaType {
    Query,
    Mutation,
    Subscription,
}

/// The metadata of one GraphQL field taken from a method's
/// `graphql.schema` options.
pub struct FieldConfig {
    pub name: String,
    pub schema_type: SchemaType,
    pub required: bool,
    pub service_name: String,
    pub method_name: String,
    pub streaming: bool,
}

/// A configured gRPC backend.
pub struct ServiceConfig {
    pub name: String,
    pub endpoint: String,
    pub insecure: bool,
}

} // verus!
