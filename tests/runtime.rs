use grpc_graphql_gateway::error::Error;
use grpc_graphql_gateway::grpc_client::{GrpcClient, GrpcClientPool};
use grpc_graphql_gateway::middleware::{authorize, CorsMiddleware, LoggingMiddleware};
use grpc_graphql_gateway::runtime::{CallStep, ChainStep, GrpcCacheKey, GrpcResponseCache, MiddlewareChain};
use grpc_graphql_gateway::text::{format_i64, parse_i64, parse_u64, parse_usize, split_words};
use grpc_graphql_gateway::value::GqlValue;

#[test]
fn memo_answers_identical_call() {
    let mut cache = GrpcResponseCache::new();
    let key = GrpcCacheKey::new("greeter.Greeter", "/greeter.Greeter/SayHello", vec![10, 1, 65]);
    assert!(matches!(cache.begin_call(&key), CallStep::Call));
    let v = cache.finish_call(key, GqlValue::String("Hello, A!".to_string()));
    assert!(matches!(v, GqlValue::String(ref s) if s == "Hello, A!"));
    let again = GrpcCacheKey::new("greeter.Greeter", "/greeter.Greeter/SayHello", vec![10, 1, 65]);
    match cache.begin_call(&again) {
        CallStep::Cached(GqlValue::String(s)) => assert_eq!(s, "Hello, A!"),
        _ => panic!("expected a cached reply"),
    }
    let other = GrpcCacheKey::new("greeter.Greeter", "/greeter.Greeter/SayHello", vec![10, 1, 66]);
    assert!(cache.get(&other).is_none());
}

#[test]
fn failing_auth_rejects_with_single_error() {
    let mut chain = MiddlewareChain::new(2);
    assert!(matches!(chain.start(), ChainStep::Run(0)));
    let step = chain.step(authorize(None, false));
    match step {
        ChainStep::Reject(resp) => {
            assert!(resp.data.is_none());
            assert_eq!(resp.errors.len(), 1);
            assert_eq!(resp.errors[0].message, "Invalid or missing authorization");
            assert_eq!(resp.errors[0].code, "UNAUTHORIZED");
        }
        _ => panic!("expected a rejection"),
    }
}

#[test]
fn passing_middlewares_lead_to_execution() {
    let mut chain = MiddlewareChain::new(2);
    assert!(matches!(chain.step(CorsMiddleware::new().call()), ChainStep::Run(1)));
    assert!(matches!(chain.step(LoggingMiddleware.call()), ChainStep::Execute));
    assert!(matches!(MiddlewareChain::new(0).start(), ChainStep::Execute));
    assert!(authorize(Some("token"), true).is_ok());
    assert!(authorize(Some("token"), false).is_err());
}

#[test]
fn cors_defaults() {
    let c = CorsMiddleware::new();
    assert_eq!(c.allow_origins, vec!["*".to_string()]);
    assert_eq!(c.allow_methods, vec!["GET".to_string(), "POST".to_string()]);
}

#[test]
fn error_codes_and_messages() {
    let e = Error::Unauthorized("nope".to_string());
    assert_eq!(e.code(), "UNAUTHORIZED");
    assert_eq!(e.message(), "Unauthorized: nope");
    let g = Error::Grpc("unavailable".to_string()).to_graphql_error();
    assert_eq!(g.code, "GRPC_ERROR");
    assert_eq!(g.message, "gRPC error: unavailable");
    assert_eq!(Error::Io("x".to_string()).code(), "IO_ERROR");
    assert_eq!(Error::Other("x".to_string()).code(), "UNKNOWN_ERROR");
}

#[test]
fn client_pool_add_get_remove() {
    let mut pool = GrpcClientPool::new();
    assert_eq!(pool.names().len(), 0);
    pool.add("a.A".to_string(), GrpcClient::connect_lazy("http://one".to_string(), true).ok().unwrap());
    pool.add("a.A".to_string(), GrpcClient::connect_lazy("http://two".to_string(), false).ok().unwrap());
    assert_eq!(pool.names(), vec!["a.A".to_string()]);
    assert_eq!(pool.get("a.A").unwrap().endpoint(), "http://two");
    assert!(pool.remove("a.A").is_some());
    assert!(pool.get("a.A").is_none());
    pool.add("b.B".to_string(), GrpcClient::connect_lazy("http://b".to_string(), true).ok().unwrap());
    pool.clear();
    assert!(pool.names().is_empty());
}

#[test]
fn builder_defaults() {
    let b = GrpcClient::builder("http://localhost:50051".to_string());
    assert!(b.insecure && !b.lazy);
    let c = b.insecure(false).lazy(true).connect_lazy().ok().unwrap();
    assert!(!c.is_insecure());
    assert_eq!(c.endpoint(), "http://localhost:50051");
}

#[test]
fn decimal_text() {
    assert_eq!(parse_i64("9223372036854775807"), Some(i64::MAX));
    assert_eq!(parse_i64("-9223372036854775808"), Some(i64::MIN));
    assert_eq!(parse_i64("+12"), Some(12));
    assert_eq!(parse_i64(""), None);
    assert_eq!(parse_i64("-"), None);
    assert_eq!(parse_i64("1x"), None);
    assert_eq!(parse_u64("18446744073709551616"), None);
    assert_eq!(parse_usize("0"), Some(0));
    assert_eq!(format_i64(i64::MIN), "-9223372036854775808");
    assert_eq!(format_i64(0), "0");
}

#[test]
fn words_split_on_any_whitespace() {
    assert_eq!(split_words("  org\tuser \n"), vec!["org".to_string(), "user".to_string()]);
    assert!(split_words("   ").is_empty());
    assert_eq!(split_words("a\u{3000}b"), vec!["a".to_string(), "b".to_string()]);
}

#[test]
fn test_grpc_client_pool() {
    let pool = GrpcClientPool::new();
    assert_eq!(pool.names().len(), 0);
}

#[test]
fn builder_creates_lazy_client() {
    let client = GrpcClient::builder("http://localhost:50051".to_string())
        .lazy(true)
        .connect_lazy()
        .ok()
        .expect("lazy connect should not fail");
    assert!(client.is_insecure());
    assert_eq!(client.endpoint(), "http://localhost:50051");
}

#[test]
fn builder_can_create_secure_lazy_client() {
    let client = GrpcClient::builder("https://example.com:443".to_string())
        .insecure(false)
        .connect_lazy()
        .ok()
        .expect("lazy TLS client should be configured");
    assert!(!client.is_insecure());
}
