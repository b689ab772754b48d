//! gRPC client configuration and the named pool of clients.
use vstd::prelude::*;
use crate::error::Error;
use crate::text::str_eq;

verus! {

/// A gRPC backend: the endpoint it reaches and whether plaintext is used.
/// The transport channel itself belongs to the embedding program.
pub struct GrpcClient {
    pub endpoint: String,
    pub insecure: bool,
    pub lazy: bool,
}

/// View of a client.
pub struct ClientView {
    pub endpoint: Seq<char>,
    pub insecure: bool,
    pub lazy: bool,
}

impl View for GrpcClient {
    type V = ClientView;

    open spec fn view(&self) -> ClientView {
        ClientView { endpoint: self.endpoint@, insecure: self.insecure, lazy: self.lazy }
    }
}

impl GrpcClient {
    /// A builder for a client of `endpoint`: insecure, not lazy.
    pub fn builder(endpoint: String) -> (r: GrpcClientBuilder)
        ensures
            r.endpoint@ == endpoint@,
            r.insecure,
            !r.lazy,
    {
        GrpcClientBuilder::new(endpoint)
    }

    /// A lazily connecting client of `endpoint`.
    pub fn connect_lazy(endpoint: String, insecure: bool) -> (r: Result<GrpcClient, Error>)
        ensures
            r is Ok,
            r->Ok_0@ == (ClientView { endpoint: endpoint@, insecure, lazy: true }),
    {
        Self::builder(endpoint).insecure(insecure).lazy(true).connect_lazy()
    }

    /// The endpoint this client reaches.
    pub fn endpoint(&self) -> (r: &str)
        ensures
            r@ == self.endpoint@,
    {
        self.endpoint.as_str()
    }

    /// Whether the client uses plaintext.
    pub fn is_insecure(&self) -> (r: bool)
        ensures
            r == self.insecure,
    {
        self.insecure
    }

    /// A copy of this client.
    pub fn duplicate(&self) -> (r: GrpcClient)
        ensures
            r@ == self@,
    {
        GrpcClient { endpoint: self.endpoint.clone(), insecure: self.insecure, lazy: self.lazy }
    }
}

/// Options of a client to be made.
pub struct GrpcClientBuilder {
    pub endpoint: String,
    pub insecure: bool,
    pub lazy: bool,
}

impl GrpcClientBuilder {
    /// Options for `endpoint`: insecure, not lazy.
    pub fn new(endpoint: String) -> (r: GrpcClientBuilder)
        ensures
            r.endpoint@ == endpoint@,
            r.insecure,
            !r.lazy,
    {
        GrpcClientBuilder { endpoint, insecure: true, lazy: false }
    }

    /// Sets whether plaintext is used.
    pub fn insecure(self, insecure: bool) -> (r: GrpcClientBuilder)
        ensures
            r.endpoint@ == self.endpoint@,
            r.insecure == insecure,
            r.lazy == self.lazy,
    {
        GrpcClientBuilder { endpoint: self.endpoint, insecure, lazy: self.lazy }
    }

    /// Sets whether the connection is opened on first use.
    pub fn lazy(self, lazy: bool) -> (r: GrpcClientBuilder)
        ensures
            r.endpoint@ == self.endpoint@,
            r.insecure == self.insecure,
            r.lazy == lazy,
    {
        GrpcClientBuilder { endpoint: self.endpoint, insecure: self.insecure, lazy }
    }

    /// The client these options describe, connecting on first use.
    pub fn connect_lazy(self) -> (r: Result<GrpcClient, Error>)
        ensures
            r is Ok,
            r->Ok_0@ == (ClientView { endpoint: self.endpoint@, insecure: self.insecure, lazy: true }),
    {
        Ok(GrpcClient { endpoint: self.endpoint, insecure: self.insecure, lazy: true })
    }
}

/// The map a sequence of named clients stands for; a later entry wins.
pub open spec fn pool_map(s: Seq<(String, GrpcClient)>) -> Map<Seq<char>, ClientView>
    decreases s.len(),
{
    if s.len() == 0 {
        Map::empty()
    } else {
        pool_map(s.drop_last()).insert(s.last().0@, s.last().1@)
    }
}

pub open spec fn names_unique(s: Seq<(String, GrpcClient)>) -> bool {
    forall|i: int, j: int| 0 <= i < j < s.len() ==> #[trigger] s[i].0@ != #[trigger] s[j].0@
}

proof fn lemma_pool_map(s: Seq<(String, GrpcClient)>)
    requires
        names_unique(s),
    ensures
        forall|k: Seq<char>| #[trigger] pool_map(s).contains_key(k) <==> exists|i: int| 0 <= i < s.len() && s[i].0@ == k,
        forall|i: int| 0 <= i < s.len() ==> #[trigger] pool_map(s)[s[i].0@] == s[i].1@,
    decreases s.len(),
{
    if s.len() > 0 {
        let p = s.drop_last();
        assert(names_unique(p)) by {
            assert forall|i: int, j: int| 0 <= i < j < p.len() implies #[trigger] p[i].0@ != #[trigger] p[j].0@ by {
                assert(p[i] == s[i] && p[j] == s[j]);
            }
        }
        lemma_pool_map(p);
        assert(pool_map(s) == pool_map(p).insert(s.last().0@, s.last().1@));
        assert forall|k: Seq<char>| #[trigger] pool_map(s).contains_key(k) <==> exists|i: int| 0 <= i < s.len() && s[i].0@ == k by {
            if pool_map(s).contains_key(k) && k != s.last().0@ {
                let i = choose|i: int| 0 <= i < p.len() && p[i].0@ == k;
                assert(s[i] == p[i]);
            }
            if exists|i: int| 0 <= i < s.len() && s[i].0@ == k {
                let i = choose|i: int| 0 <= i < s.len() && s[i].0@ == k;
                if i < p.len() {
                    assert(s[i] == p[i]);
                }
            }
        }
        assert forall|i: int| 0 <= i < s.len() implies #[trigger] pool_map(s)[s[i].0@] == s[i].1@ by {
            if i < p.len() {
                assert(s[i] == p[i]);
                assert(s[i].0@ != s.last().0@);
            }
        }
    }
}

/// The named gRPC clients of a gateway; adding under an existing name
/// replaces that entry.
pub struct GrpcClientPool {
    pub clients: Vec<(String, GrpcClient)>,
}

impl View for GrpcClientPool {
    type V = Map<Seq<char>, ClientView>;

    open spec fn view(&self) -> Map<Seq<char>, ClientView> {
        pool_map(self.clients@)
    }
}

impl GrpcClientPool {
    pub open spec fn wf(&self) -> bool {
        names_unique(self.clients@)
    }

    /// An empty pool.
    pub fn new() -> (r: GrpcClientPool)
        ensures
            r.wf(),
            r@ == Map::<Seq<char>, ClientView>::empty(),
    {
        GrpcClientPool { clients: Vec::new() }
    }

    fn index_of(&self, name: &str) -> (r: Option<usize>)
        requires
            self.wf(),
        ensures
            match r {
                Some(i) => i < self.clients@.len() && self.clients@[i as int].0@ == name@,
                None => !self@.contains_key(name@),
            },
    {
        proof {
            lemma_pool_map(self.clients@);
        }
        let mut i: usize = 0;
        while i < self.clients.len()
            invariant
                i <= self.clients@.len(),
                forall|k: int| 0 <= k < i ==> #[trigger] self.clients@[k].0@ != name@,
            decreases self.clients@.len() - i,
        {
            if str_eq(self.clients[i].0.as_str(), name) {
                return Some(i);
            }
            i = i + 1;
        }
        None
    }

    /// The client registered under `name`.
    pub fn get(&self, name: &str) -> (r: Option<GrpcClient>)
        requires
            self.wf(),
        ensures
            match r {
                Some(c) => self@.contains_key(name@) && c@ == self@[name@],
                None => !self@.contains_key(name@),
            },
    {
        proof {
            lemma_pool_map(self.clients@);
        }
        match self.index_of(name) {
            Some(i) => Some(self.clients[i].1.duplicate()),
            None => None,
        }
    }

    /// Registers `client` under `name`, replacing any client of that name.
    pub fn add(&mut self, name: String, client: GrpcClient)
        requires
            old(self).wf(),
        ensures
            final(self).wf(),
            final(self)@ == old(self)@.insert(name@, client@),
    {
        proof {
            lemma_pool_map(self.clients@);
        }
        let ghost n = name@;
        let ghost cv = client@;
        match self.index_of(name.as_str()) {
            Some(i) => {
                let ghost pre = self.clients@;
                self.clients.set(i, (name, client));
                proof {
                    assert(names_unique(self.clients@)) by {
                        assert forall|a: int, b: int| 0 <= a < b < self.clients@.len() implies #[trigger] self.clients@[a].0@ != #[trigger] self.clients@[b].0@ by {
                            assert(pre[a].0@ != pre[b].0@);
                        }
                    }
                    lemma_pool_map(self.clients@);
                    assert(self@ =~= pool_map(pre).insert(n, cv)) by {
                        assert forall|k: Seq<char>| #[trigger] self@.contains_key(k) <==> pool_map(pre).insert(n, cv).contains_key(k) by {
                            if exists|j: int| 0 <= j < pre.len() && pre[j].0@ == k {
                                let j = choose|j: int| 0 <= j < pre.len() && pre[j].0@ == k;
                                assert(self.clients@[j].0@ == k);
                            }
                            if exists|j: int| 0 <= j < pre.len() && self.clients@[j].0@ == k {
                                let j = choose|j: int| 0 <= j < pre.len() && self.clients@[j].0@ == k;
                                if j != i {
                                    assert(pre[j].0@ == k);
                                }
                            }
                        }
                        assert forall|k: Seq<char>| #[trigger] self@.contains_key(k) implies self@[k] == pool_map(pre).insert(n, cv)[k] by {
                            let j = choose|j: int| 0 <= j < self.clients@.len() && self.clients@[j].0@ == k;
                            if j != i {
                                assert(pre[j] == self.clients@[j]);
                            }
                        }
                    }
                }
            },
            None => {
                let ghost pre = self.clients@;
                self.clients.push((name, client));
                proof {
                    assert(self.clients@.drop_last() =~= pre);
                    assert(names_unique(self.clients@)) by {
                        assert forall|a: int, b: int| 0 <= a < b < self.clients@.len() implies #[trigger] self.clients@[a].0@ != #[trigger] self.clients@[b].0@ by {
                            if b == pre.len() {
                                assert(pool_map(pre).contains_key(pre[a].0@));
                            } else {
                                assert(pre[a].0@ != pre[b].0@);
                            }
                        }
                    }
                }
            },
        }
    }

    /// Removes and returns the client registered under `name`.
    pub fn remove(&mut self, name: &str) -> (r: Option<GrpcClient>)
        requires
            old(self).wf(),
        ensures
            final(self).wf(),
            final(self)@ == old(self)@.remove(name@),
            match r {
                Some(c) => old(self)@.contains_key(name@) && c@ == old(self)@[name@],
                None => !old(self)@.contains_key(name@),
            },
    {
        proof {
            lemma_pool_map(self.clients@);
        }
        match self.index_of(name) {
            Some(i) => {
                let ghost pre = self.clients@;
                let (_, c) = self.clients.remove(i);
                proof {
                    assert(names_unique(self.clients@)) by {
                        assert forall|a: int, b: int| 0 <= a < b < self.clients@.len() implies #[trigger] self.clients@[a].0@ != #[trigger] self.clients@[b].0@ by {
                            let a2 = if a < i { a } else { a + 1 };
                            let b2 = if b < i { b } else { b + 1 };
                            assert(self.clients@[a] == pre[a2] && self.clients@[b] == pre[b2]);
                        }
                    }
                    lemma_pool_map(self.clients@);
                    assert(self@ =~= pool_map(pre).remove(name@)) by {
                        assert forall|k: Seq<char>| #[trigger] self@.contains_key(k) <==> pool_map(pre).remove(name@).contains_key(k) by {
                            if exists|j: int| 0 <= j < pre.len() && pre[j].0@ == k && k != name@ {
                                let j = choose|j: int| 0 <= j < pre.len() && pre[j].0@ == k && k != name@;
                                let j2 = if j < i { j } else { j - 1 };
                                assert(self.clients@[j2] == pre[j]);
                            }
                            if exists|j: int| 0 <= j < self.clients@.len() && self.clients@[j].0@ == k {
                                let j = choose|j: int| 0 <= j < self.clients@.len() && self.clients@[j].0@ == k;
                                let j2 = if j < i { j } else { j + 1 };
                                assert(self.clients@[j] == pre[j2]);
                            }
                        }
                        assert forall|k: Seq<char>| #[trigger] self@.contains_key(k) implies self@[k] == pool_map(pre).remove(name@)[k] by {
                            let j = choose|j: int| 0 <= j < self.clients@.len() && self.clients@[j].0@ == k;
                            let j2 = if j < i { j } else { j + 1 };
                            assert(self.clients@[j] == pre[j2]);
                        }
                    }
                }
                Some(c)
            },
            None => {
                proof {
                    assert(self@ =~= self@.remove(name@));
                }
                None
            },
        }
    }

    /// The names of all registered clients.
    pub fn names(&self) -> (r: Vec<String>)
        requires
            self.wf(),
        ensures
            r@.len() == self.clients@.len(),
            forall|k: Seq<char>| self@.contains_key(k) <==> exists|i: int| 0 <= i < r@.len() && #[trigger] r@[i]@ == k,
    {
        proof {
            lemma_pool_map(self.clients@);
        }
        let mut out: Vec<String> = Vec::new();
        let mut i: usize = 0;
        while i < self.clients.len()
            invariant
                i <= self.clients@.len(),
                out@.len() == i,
                forall|k: int| 0 <= k < i ==> #[trigger] out@[k]@ == self.clients@[k].0@,
            decreases self.clients@.len() - i,
        {
            out.push(self.clients[i].0.clone());
            i = i + 1;
        }
        proof {
            assert forall|k: Seq<char>| self@.contains_key(k) <==> exists|j: int| 0 <= j < out@.len() && #[trigger] out@[j]@ == k by {
                if self@.contains_key(k) {
                    let j = choose|j: int| 0 <= j < self.clients@.len() && self.clients@[j].0@ == k;
                    assert(out@[j]@ == k);
                }
            }
        }
        out
    }

    /// Removes every client.
    pub fn clear(&mut self)
        ensures
            final(self).wf(),
            final(self)@ == Map::<Seq<char>, ClientView>::empty(),
    {
        self.clients = Vec::new();
    }
}

} // verus!
