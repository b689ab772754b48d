//! The request lifecycle: the per-request memo of gRPC replies, the
//! middleware chain, and the response envelope.
use vstd::prelude::*;
use vstd::string::StringExecFns;
use crate::error::{code_of, detail_of, Error, GraphQLError};
use crate::value::{clone_value, gv, GVal, GqlValue};

verus! {

/// What identifies a gRPC call within one request: service, method path and
/// the encoded request message.
pub struct GrpcCacheKey {
    pub service: String,
    pub path: String,
    pub request: Vec<u8>,
}

/// View of a cache key.
pub open spec fn key_view(k: GrpcCacheKey) -> (Seq<char>, Seq<char>, Seq<u8>) {
    (k.service@, k.path@, k.request@)
}

impl GrpcCacheKey {
    pub fn new(service: &str, path: &str, request: Vec<u8>) -> (r: GrpcCacheKey)
        ensures
            key_view(r) == (service@, path@, request@),
    {
        GrpcCacheKey { service: String::from_str(service), path: String::from_str(path), request }
    }

    fn same(&self, other: &GrpcCacheKey) -> (r: bool)
        ensures
            r == (key_view(*self) == key_view(*other)),
    {
        if self.service != other.service || self.path != other.path {
            return false;
        }
        if self.request.len() != other.request.len() {
            return false;
        }
        let mut i: usize = 0;
        while i < self.request.len()
            invariant
                self.request@.len() == other.request@.len(),
                i <= self.request@.len(),
                forall|k: int| 0 <= k < i ==> self.request@[k] == other.request@[k],
            decreases self.request@.len() - i,
        {
            if self.request[i] != other.request[i] {
                return false;
            }
            i = i + 1;
        }
        assert(self.request@ =~= other.request@);
        true
    }
}

/// The reply recorded last for `key` among the first `n` entries.
pub open spec fn memo_lookup(entries: Seq<(GrpcCacheKey, GqlValue)>, key: (Seq<char>, Seq<char>, Seq<u8>), n: nat) -> Option<GVal>
    decreases n,
{
    if n == 0 || n > entries.len() {
        None
    } else if key_view(entries[n - 1].0) == key {
        Some(gv(entries[n - 1].1))
    } else {
        memo_lookup(entries, key, (n - 1) as nat)
    }
}

/// The replies of the gRPC calls made so far within one request.
pub struct GrpcResponseCache {
    pub entries: Vec<(GrpcCacheKey, GqlValue)>,
}

/// What a resolver does about a call: answer from the memo, or call upstream.
pub enum CallStep {
    Cached(GqlValue),
    Call,
}

impl GrpcResponseCache {
    /// The reply recorded for `key`, if any.
    pub open spec fn lookup(&self, key: (Seq<char>, Seq<char>, Seq<u8>)) -> Option<GVal> {
        memo_lookup(self.entries@, key, self.entries@.len() as nat)
    }

    /// An empty memo.
    pub fn new() -> (r: GrpcResponseCache)
        ensures
            forall|k: (Seq<char>, Seq<char>, Seq<u8>)| #[trigger] r.lookup(k) is None,
    {
        GrpcResponseCache { entries: Vec::new() }
    }

    /// The reply recorded for `key`.
    pub fn get(&self, key: &GrpcCacheKey) -> (r: Option<GqlValue>)
        ensures
            match r {
                Some(v) => self.lookup(key_view(*key)) == Some(gv(v)),
                None => self.lookup(key_view(*key)) is None,
            },
    {
        let mut i: usize = self.entries.len();
        while i > 0
            invariant
                i <= self.entries@.len(),
                memo_lookup(self.entries@, key_view(*key), self.entries@.len() as nat) == memo_lookup(self.entries@, key_view(*key), i as nat),
            decreases i,
        {
            if self.entries[i - 1].0.same(key) {
                return Some(clone_value(&self.entries[i - 1].1));
            }
            i = i - 1;
        }
        None
    }

    /// Records `value` as the reply for `key`.
    pub fn insert(&mut self, key: GrpcCacheKey, value: GqlValue)
        ensures
            final(self).lookup(key_view(key)) == Some(gv(value)),
            forall|k: (Seq<char>, Seq<char>, Seq<u8>)| k != key_view(key) ==> #[trigger] final(self).lookup(k) == old(self).lookup(k),
    {
        let ghost pre = self.entries@;
        self.entries.push((key, value));
        proof {
            assert(self.entries@.subrange(0, pre.len() as int) =~= pre);
            assert forall|k: (Seq<char>, Seq<char>, Seq<u8>)| k != key_view(key) implies #[trigger] memo_lookup(self.entries@, k, self.entries@.len() as nat) == memo_lookup(pre, k, pre.len() as nat) by {
                lemma_memo_prefix(pre, self.entries@, k, pre.len() as nat);
            }
        }
    }

    /// Decides how a resolver answers the call `key`: from the memo when a
    /// reply is recorded, else by calling upstream.
    pub fn begin_call(&self, key: &GrpcCacheKey) -> (r: CallStep)
        ensures
            match r {
                CallStep::Cached(v) => self.lookup(key_view(*key)) == Some(gv(v)),
                CallStep::Call => self.lookup(key_view(*key)) is None,
            },
    {
        match self.get(key) {
            Some(v) => CallStep::Cached(v),
            None => CallStep::Call,
        }
    }

    /// Records the upstream reply of a unary call and returns it.
    pub fn finish_call(&mut self, key: GrpcCacheKey, reply: GqlValue) -> (r: GqlValue)
        ensures
            gv(r) == gv(reply),
            final(self).lookup(key_view(key)) == Some(gv(reply)),
            forall|k: (Seq<char>, Seq<char>, Seq<u8>)| k != key_view(key) ==> #[trigger] final(self).lookup(k) == old(self).lookup(k),
    {
        let out = clone_value(&reply);
        self.insert(key, reply);
        out
    }
}

proof fn lemma_memo_prefix(pre: Seq<(GrpcCacheKey, GqlValue)>, post: Seq<(GrpcCacheKey, GqlValue)>, k: (Seq<char>, Seq<char>, Seq<u8>), n: nat)
    requires
        n <= pre.len(),
        pre.len() < post.len(),
        post.subrange(0, pre.len() as int) == pre,
        forall|j: int| pre.len() <= j < post.len() ==> key_view(#[trigger] post[j].0) != k,
    ensures
        memo_lookup(post, k, post.len() as nat) == memo_lookup(pre, k, n) || n < pre.len(),
        memo_lookup(post, k, post.len() as nat) == memo_lookup(pre, k, pre.len() as nat),
    decreases post.len() - pre.len(),
{
    lemma_memo_same_prefix(pre, post, k, pre.len() as nat);
    lemma_memo_skip(post, k, pre.len() as nat, post.len() as nat);
}

proof fn lemma_memo_same_prefix(pre: Seq<(GrpcCacheKey, GqlValue)>, post: Seq<(GrpcCacheKey, GqlValue)>, k: (Seq<char>, Seq<char>, Seq<u8>), n: nat)
    requires
        n <= pre.len(),
        pre.len() <= post.len(),
        post.subrange(0, pre.len() as int) == pre,
    ensures
        memo_lookup(post, k, n) == memo_lookup(pre, k, n),
    decreases n,
{
    if n > 0 {
        assert(post[n - 1] == post.subrange(0, pre.len() as int)[n - 1]);
        lemma_memo_same_prefix(pre, post, k, (n - 1) as nat);
    }
}

proof fn lemma_memo_skip(post: Seq<(GrpcCacheKey, GqlValue)>, k: (Seq<char>, Seq<char>, Seq<u8>), lo: nat, n: nat)
    requires
        lo <= n <= post.len(),
        forall|j: int| lo <= j < post.len() ==> key_view(#[trigger] post[j].0) != k,
    ensures
        memo_lookup(post, k, n) == memo_lookup(post, k, lo),
    decreases n - lo,
{
    if n > lo {
        lemma_memo_skip(post, k, lo, (n - 1) as nat);
    }
}

/// Once a unary call's reply is recorded, a later identical call in the
/// same request is answered from the memo with that same reply, whatever
/// other calls are recorded in between: identical calls reach upstream at
/// most as often as they race, and give identical results.
pub proof fn lemma_memo_idempotent(
    c0: GrpcResponseCache,
    key: GrpcCacheKey,
    reply: GqlValue,
    later: Seq<(GrpcCacheKey, GqlValue)>,
    c2: GrpcResponseCache,
)
    requires
        c2.entries@ == c0.entries@.push((key, reply)) + later,
        forall|j: int| 0 <= j < later.len() ==> key_view(#[trigger] later[j].0) != key_view(key),
    ensures
        c2.lookup(key_view(key)) == Some(gv(reply)),
{
    let e = c2.entries@;
    let n = c0.entries@.len() + 1;
    assert forall|j: int| n <= j < e.len() implies key_view(#[trigger] e[j].0) != key_view(key) by {
        assert(e[j] == later[j - n]);
    }
    lemma_memo_skip(e, key_view(key), n as nat, e.len() as nat);
    assert(e[n - 1] == (key, reply));
}

/// A response envelope: data, or errors, or both.
pub struct GraphQLResponse {
    pub data: Option<GqlValue>,
    pub errors: Vec<GraphQLError>,
}

impl GraphQLResponse {
    /// A response carrying `data` and no errors.
    pub fn success(data: GqlValue) -> (r: GraphQLResponse)
        ensures
            r.data == Some(data),
            r.errors@.len() == 0,
    {
        GraphQLResponse { data: Some(data), errors: Vec::new() }
    }

    /// A response carrying one error and no data.
    pub fn error(error: GraphQLError) -> (r: GraphQLResponse)
        ensures
            r.data is None,
            r.errors@ == seq![error],
    {
        let mut errors: Vec<GraphQLError> = Vec::new();
        errors.push(error);
        GraphQLResponse { data: None, errors }
    }

    /// A response carrying these errors and no data.
    pub fn errors(errors: Vec<GraphQLError>) -> (r: GraphQLResponse)
        ensures
            r.data is None,
            r.errors == errors,
    {
        GraphQLResponse { data: None, errors }
    }
}

/// The envelope of a request that a middleware rejected: one error whose
/// message is the failure's text and whose code classifies it, no data.
pub fn rejection(err: &Error) -> (r: GraphQLResponse)
    ensures
        r.data is None,
        r.errors@.len() == 1,
        r.errors@[0].message@ == detail_of(*err),
        r.errors@[0].code@ == code_of(*err),
{
    let e = GraphQLError { message: err.detail().clone(), code: String::from_str(err.code()) };
    GraphQLResponse::error(e)
}

/// Where a request stands in its middleware chain.
pub enum ChainStep {
    /// Run the middleware of this index next.
    Run(usize),
    /// Every middleware passed: execute the request.
    Execute,
    /// A middleware failed: answer with this envelope.
    Reject(GraphQLResponse),
}

/// The middleware chain of one request: `count` middlewares run in order,
/// `next` is the one to run next.
pub struct MiddlewareChain {
    pub count: usize,
    pub next: usize,
}

impl MiddlewareChain {
    pub open spec fn wf(&self) -> bool {
        self.next <= self.count
    }

    /// A chain of `count` middlewares, none run yet.
    pub fn new(count: usize) -> (r: MiddlewareChain)
        ensures
            r.wf(),
            r.count == count,
            r.next == 0,
    {
        MiddlewareChain { count, next: 0 }
    }

    /// What to do first: run the first middleware, or execute when there
    /// is none.
    pub fn start(&self) -> (r: ChainStep)
        requires
            self.wf(),
        ensures
            self.next < self.count ==> r == ChainStep::Run(self.next),
            self.next >= self.count ==> r is Execute,
    {
        if self.next < self.count {
            ChainStep::Run(self.next)
        } else {
            ChainStep::Execute
        }
    }

    /// Takes the outcome of the middleware just run: a failure ends the
    /// request with its error; a success moves to the next middleware, or
    /// to execution after the last.
    pub fn step(&mut self, outcome: Result<(), Error>) -> (r: ChainStep)
        requires
            old(self).wf(),
            old(self).next < old(self).count,
        ensures
            final(self).wf(),
            final(self).count == old(self).count,
            match outcome {
                Err(e) => final(self).next == old(self).count && match r {
                    ChainStep::Reject(resp) => resp.data is None && resp.errors@.len() == 1
                        && resp.errors@[0].message@ == detail_of(e) && resp.errors@[0].code@ == code_of(e),
                    _ => false,
                },
                Ok(()) => final(self).next == old(self).next + 1 && if final(self).next < final(self).count {
                    r == ChainStep::Run(final(self).next)
                } else {
                    r is Execute
                },
            },
    {
        match outcome {
            Err(e) => {
                self.next = self.count;
                ChainStep::Reject(rejection(&e))
            },
            Ok(()) => {
                self.next = self.next + 1;
                if self.next < self.count {
                    ChainStep::Run(self.next)
                } else {
                    ChainStep::Execute
                }
            },
        }
    }
}

} // verus!
