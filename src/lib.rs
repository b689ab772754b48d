//! A gateway that exposes gRPC services as one GraphQL schema, driven by
//! protobuf descriptors and their `graphql.*` annotations.

pub mod descriptor;
pub mod error;
pub mod federation;
pub mod grpc_client;
pub mod marshal;
pub mod middleware;
pub mod registry;
pub mod runtime;
pub mod schema;
pub mod text;
pub mod types;
pub mod value;
