//! The System One client: its endpoint, its settings and the cache that
//! shares one client per (base URL, API key) pair.

use vstd::prelude::*;

use crate::error::{Error, ErrorView};
use crate::retry::REQUEST_TIMEOUT_SECS;
use crate::text::{concat2, push_char, trim_end_char, trim_end_matches};

verus! {

/// An HTTP client of `reqwest`; opaque here, carried for the transport.
#[verifier::external_type_specification]
#[verifier::external_body]
pub struct ExHttpClient(reqwest::Client);

/// The `User-Agent` header sent with every request.
pub const USER_AGENT: &'static str = "modular-agent-jev/0.1.0";

/// Where the System One endpoint lives under the API base URL.
pub const SYSTEM_ONE_PATH: &'static str = "/v1/systemone";

/// `reqwest::ClientBuilder` with the given timeout and user agent, then
/// `build`. Claimed: a client that is built was built with the timeout and
/// user agent handed in, which the ghost record returned beside it holds.
/// Nothing is claimed of whether building succeeds, which depends on the
/// machine (the TLS backend); the error text is the crate's own.
#[verifier::external_body]
fn build_http_client(timeout_secs: u64, user_agent: &str) -> (r: Result<
    (reqwest::Client, Ghost<(u64, Seq<char>)>),
    String,
>)
    ensures
        r matches Ok(p) ==> p.1@ == (timeout_secs, user_agent@),
{
    let builder = reqwest::Client::builder().timeout(
        std::time::Duration::from_secs(timeout_secs),
    ).user_agent(user_agent);
    match builder.build() {
        Ok(c) => Ok((c, Ghost((timeout_secs, user_agent@)))),
        Err(e) => Err(e.to_string()),
    }
}

/// `reqwest::Client::clone`: the client is a handle (an `Arc`) on one
/// connection pool, and its clone is a handle on the same pool. Claimed: the
/// clone is the same client.
#[verifier::external_body]
fn clone_http_client(c: &reqwest::Client) -> (r: reqwest::Client)
    ensures
        r == *c,
{
    c.clone()
}

/// A client of the System One API: an HTTP client, the API base URL without
/// trailing slashes, and the API key.
pub struct TypeSafeClient {
    http: reqwest::Client,
    settings: Ghost<(u64, Seq<char>)>,
    base_url: String,
    api_key: String,
}

/// The model of a [`TypeSafeClient`]: where it sends requests, with which
/// key, through which HTTP client (its connection pool), and the timeout in
/// seconds and user agent that HTTP client was built with.
pub struct ClientView {
    pub base_url: Seq<char>,
    pub api_key: Seq<char>,
    pub http: reqwest::Client,
    pub settings: (u64, Seq<char>),
}

impl View for TypeSafeClient {
    type V = ClientView;

    closed spec fn view(&self) -> ClientView {
        ClientView {
            base_url: self.base_url@,
            api_key: self.api_key@,
            http: self.http,
            settings: self.settings@,
        }
    }
}

/// A client that `TypeSafeClient::new` makes for `base_url` and `api_key`:
/// the base URL without trailing slashes, the key, and an HTTP client built
/// with `REQUEST_TIMEOUT_SECS` and `USER_AGENT`.
pub open spec fn is_client_for(c: ClientView, base_url: Seq<char>, api_key: Seq<char>) -> bool {
    &&& c.base_url == trim_end_matches(base_url, '/')
    &&& c.api_key == api_key
    &&& c.settings == (REQUEST_TIMEOUT_SECS, USER_AGENT@)
}

/// The message of a failed client build.
pub open spec fn is_build_error(e: ErrorView) -> bool {
    exists|d: Seq<char>| e == ErrorView::IoError("TypeSafe client build error: "@ + d)
}

impl TypeSafeClient {
    /// A client for the API at `base_url` (trailing slashes dropped) with the
    /// key `api_key`; it fails only when the HTTP client cannot be built.
    pub fn new(base_url: &str, api_key: &str) -> (r: Result<TypeSafeClient, Error>)
        ensures
            r matches Ok(c) ==> is_client_for(c@, base_url@, api_key@),
            r matches Err(e) ==> is_build_error(e@),
    {
        match build_http_client(REQUEST_TIMEOUT_SECS, USER_AGENT) {
            Ok((http, settings)) => Ok(
                TypeSafeClient {
                    http,
                    settings,
                    base_url: trim_end_char(base_url, '/'),
                    api_key: api_key.to_owned(),
                },
            ),
            Err(detail) => {
                let m = concat2("TypeSafe client build error: ", detail.as_str());
                assert(is_build_error(ErrorView::IoError(m@)));
                Err(Error::IoError(m))
            },
        }
    }

    /// The API base URL, without trailing slashes.
    pub fn base_url(&self) -> (r: &str)
        ensures
            r@ == self@.base_url,
    {
        self.base_url.as_str()
    }

    /// The API key sent as bearer token.
    pub fn api_key(&self) -> (r: &str)
        ensures
            r@ == self@.api_key,
    {
        self.api_key.as_str()
    }

    /// The HTTP client that carries the requests.
    pub fn http(&self) -> (r: &reqwest::Client)
        ensures
            *r == self@.http,
    {
        &self.http
    }

    /// The URL of the System One endpoint.
    pub fn system_one_url(&self) -> (r: String)
        ensures
            r@ == self@.base_url + SYSTEM_ONE_PATH@,
    {
        concat2(self.base_url.as_str(), SYSTEM_ONE_PATH)
    }
}

impl Clone for TypeSafeClient {
    fn clone(&self) -> (r: Self)
        ensures
            r@ == self@,
    {
        TypeSafeClient {
            http: clone_http_client(&self.http),
            settings: self.settings,
            base_url: self.base_url.clone(),
            api_key: self.api_key.clone(),
        }
    }
}

/// Token counts that the API reports for a call.
#[derive(Debug, Clone, Copy, PartialEq, Eq, Structural)]
pub struct Usage {
    pub input_tokens: u64,
    pub output_tokens: u64,
}

/// The cache key of a (base URL, API key) pair: both joined by a NUL character.
pub open spec fn cache_key(base_url: Seq<char>, api_key: Seq<char>) -> Seq<char> {
    base_url + seq!['\0'] + api_key
}

/// The cache key of a (base URL, API key) pair.
pub fn client_cache_key(base_url: &str, api_key: &str) -> (k: String)
    ensures
        k@ == cache_key(base_url@, api_key@),
{
    let mut k = base_url.to_owned();
    push_char(&mut k, '\0');
    k.append(api_key);
    k
}

/// Clients by cache key, each key at most once.
pub struct ClientCache {
    entries: Vec<(String, TypeSafeClient)>,
}

impl ClientCache {
    #[verifier::type_invariant]
    closed spec fn keys_distinct(&self) -> bool {
        forall|i: int, j: int|
            0 <= i < j < self.entries@.len() ==> #[trigger] self.entries@[i].0@
                != #[trigger] self.entries@[j].0@
    }

    closed spec fn has_key_at(&self, i: int, k: Seq<char>) -> bool {
        0 <= i < self.entries@.len() && self.entries@[i].0@ == k
    }

    /// The cached clients, by key.
    pub closed spec fn view(&self) -> Map<Seq<char>, ClientView> {
        Map::new(
            |k: Seq<char>| exists|i: int| self.has_key_at(i, k),
            |k: Seq<char>| self.entries@[choose|i: int| self.has_key_at(i, k)].1@,
        )
    }

    /// An empty cache.
    pub fn new() -> (c: ClientCache)
        ensures
            c.view() == Map::<Seq<char>, ClientView>::empty(),
    {
        let c = ClientCache { entries: Vec::new() };
        assert(c.view() =~= Map::<Seq<char>, ClientView>::empty());
        c
    }

    /// The index of `key`, if cached.
    fn find(&self, key: &String) -> (r: Option<usize>)
        ensures
            r matches Some(i) ==> self.has_key_at(i as int, key@),
            r is None ==> forall|i: int| !self.has_key_at(i, key@),
    {
        let n = self.entries.len();
        let mut i: usize = 0;
        while i < n
            invariant
                i <= n,
                n == self.entries@.len(),
                forall|j: int| 0 <= j < i ==> !self.has_key_at(j, key@),
            decreases n - i,
        {
            if self.entries[i].0 == *key {
                return Some(i);
            }
            i = i + 1;
        }
        None
    }

    /// The client cached under `key`.
    pub fn get(&self, key: &String) -> (r: Option<&TypeSafeClient>)
        ensures
            r matches Some(c) ==> self.view().dom().contains(key@) && c@ == self.view()[key@],
            r is None ==> !self.view().dom().contains(key@),
    {
        proof {
            use_type_invariant(self);
        }
        match self.find(key) {
            Some(i) => {
                proof {
                    let j = choose|j: int| self.has_key_at(j, key@);
                    assert(self.has_key_at(i as int, key@));
                    if j != i {
                        if j < i {
                            assert(self.entries@[j].0@ != self.entries@[i as int].0@);
                        } else {
                            assert(self.entries@[i as int].0@ != self.entries@[j].0@);
                        }
                    }
                }
                Some(&self.entries[i].1)
            },
            None => None,
        }
    }

    /// Caches `client` under a key that is not cached yet.
    fn insert(&mut self, key: String, client: TypeSafeClient)
        requires
            !old(self).view().dom().contains(key@),
        ensures
            final(self).view() == old(self).view().insert(key@, client@),
    {
        proof {
            use_type_invariant(&*self);
        }
        let ghost old_entries = self.entries@;
        let ghost k = key@;
        let ghost cv = client@;
        assert(forall|i: int| 0 <= i < old_entries.len() ==> old_entries[i].0@ != k) by {
            assert forall|i: int| 0 <= i < old_entries.len() implies old_entries[i].0@ != k by {
                if old_entries[i].0@ == k {
                    assert(self.has_key_at(i, k));
                }
            }
        }
        let mut entries: Vec<(String, TypeSafeClient)> = Vec::new();
        std::mem::swap(&mut entries, &mut self.entries);
        entries.push((key, client));
        self.entries = entries;
        proof {
            let new_entries = self.entries@;
            assert(new_entries.len() == old_entries.len() + 1);
            assert forall|i: int| 0 <= i < old_entries.len() implies new_entries[i] == old_entries[i] by {}
        }
        assert(self.view() =~= old(self).view().insert(k, cv)) by {
            let new_entries = self.entries@;
            let n = old_entries.len() as int;
            assert(self.has_key_at(n, k));
            assert forall|kk: Seq<char>| #[trigger] self.view().dom().contains(kk) <==> old(self).view().insert(k, cv).dom().contains(kk) by {
                if kk != k {
                    if exists|i: int| self.has_key_at(i, kk) {
                        let i = choose|i: int| self.has_key_at(i, kk);
                        assert(i < n);
                        assert(old(self).has_key_at(i, kk));
                    }
                    if exists|i: int| old(self).has_key_at(i, kk) {
                        let i = choose|i: int| old(self).has_key_at(i, kk);
                        assert(self.has_key_at(i, kk));
                    }
                }
            }
            assert forall|kk: Seq<char>| #[trigger] self.view().dom().contains(kk) implies self.view()[kk] == old(self).view().insert(k, cv)[kk] by {
                let j = choose|i: int| self.has_key_at(i, kk);
                if kk == k {
                    if j != n {
                        assert(old(self).has_key_at(j, k));
                    }
                } else {
                    assert(j < n);
                    assert(old(self).has_key_at(j, kk));
                    let j0 = choose|i: int| old(self).has_key_at(i, kk);
                    if j0 != j {
                        if j0 < j {
                            assert(old_entries[j0].0@ != old_entries[j].0@);
                        } else {
                            assert(old_entries[j].0@ != old_entries[j0].0@);
                        }
                    }
                }
            }
        }
    }
}

/// The client for (`base_url`, `api_key`): the cached one when the pair has
/// been seen, else a new one, which is cached. A failed build leaves the
/// cache as it was.
pub fn get_cached_client(cache: &mut ClientCache, base_url: &str, api_key: &str) -> (r: Result<
    TypeSafeClient,
    Error,
>)
    ensures
        ({
            let k = cache_key(base_url@, api_key@);
            if old(cache).view().dom().contains(k) {
                &&& r matches Ok(c)
                &&& c@ == old(cache).view()[k]
                &&& final(cache).view() == old(cache).view()
            } else {
                match r {
                    Ok(c) => {
                        &&& is_client_for(c@, base_url@, api_key@)
                        &&& final(cache).view() == old(cache).view().insert(k, c@)
                    },
                    Err(e) => {
                        &&& is_build_error(e@)
                        &&& final(cache).view() == old(cache).view()
                    },
                }
            }
        }),
{
    let key = client_cache_key(base_url, api_key);
    match cache.get(&key) {
        Some(c) => {
            return Ok(c.clone());
        },
        None => {},
    }
    let client = TypeSafeClient::new(base_url, api_key)?;
    cache.insert(key, client.clone());
    Ok(client)
}

/// Distinct (base URL, API key) pairs get distinct cache keys, hence distinct
/// clients, as long as the base URLs hold no NUL character.
pub proof fn lemma_cache_key_injective(b1: Seq<char>, k1: Seq<char>, b2: Seq<char>, k2: Seq<char>)
    requires
        !b1.contains('\0'),
        !b2.contains('\0'),
        cache_key(b1, k1) == cache_key(b2, k2),
    ensures
        b1 == b2,
        k1 == k2,
{
    let c = cache_key(b1, k1);
    if b1.len() < b2.len() {
        assert(c[b1.len() as int] == '\0');
        assert(b2[b1.len() as int] == c[b1.len() as int]);
    } else if b2.len() < b1.len() {
        assert(c[b2.len() as int] == '\0');
        assert(b1[b2.len() as int] == c[b2.len() as int]);
    } else {
        assert(b1 =~= c.take(b1.len() as int));
        assert(b2 =~= c.take(b2.len() as int));
        assert(k1 =~= c.skip(b1.len() as int + 1));
        assert(k2 =~= c.skip(b2.len() as int + 1));
    }
}

/// A client's base URL never ends with a slash.
pub proof fn lemma_base_url_without_trailing_slash(base_url: Seq<char>)
    ensures
        trim_end_matches(base_url, '/').len() > 0 ==> trim_end_matches(base_url, '/').last()
            != '/',
    decreases base_url.len(),
{
    if base_url.len() > 0 && base_url.last() == '/' {
        lemma_base_url_without_trailing_slash(base_url.drop_last());
    }
}

} // verus!
