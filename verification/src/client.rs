//! The dispatcher — one logical request attempt — and the client builder.
//!
//! A [`Dispatcher`] composes the key pool, the rate limiter and the request
//! builder into the decision side of the request lifecycle: acquire a
//! credential (which may ask the caller to wait, or fail), hand out the
//! complete send plan (URL and headers), classify the response, and record
//! usage on success. The transport call between those steps belongs to the
//! embedding application.

use vstd::prelude::*;

use crate::config::{ApiKeyBalancing, RateLimitMode, TornClientConfig};
use crate::error::Error;
use crate::http::{build_url, classify_response, error_envelope_of, http_status_message, status_is_success, url_of};
use crate::key_pool::KeyPool;
use crate::rate_limit::{key_index_of, lemma_key_index_of, pruned_of, AcquireOutcome, RateLimitInfo, RateLimiter};

verus! {

/// The request headers attached to a send: the credential as an
/// `Authorization: ApiKey <credential>` header, JSON acceptance, then the
/// configured static headers.
pub open spec fn request_headers_of(
    key: Seq<char>,
    extra: Seq<(Seq<char>, Seq<char>)>,
) -> Seq<(Seq<char>, Seq<char>)> {
    seq![("Authorization"@, "ApiKey "@ + key), ("Accept"@, "application/json"@)] + extra
}

/// Whether every configured header name occurs at most once — the shape a
/// header collection built by the builder always has.
pub open spec fn header_names_unique(headers: Seq<(Seq<char>, Seq<char>)>) -> bool {
    forall|i: int, j: int| 0 <= i < j < headers.len() ==> headers[i].0 != headers[j].0
}

/// `headers` with `(name, value)` inserted: an existing entry for `name`
/// is overwritten in place, otherwise the pair is appended.
pub open spec fn upsert_header(
    headers: Seq<(Seq<char>, Seq<char>)>,
    name: Seq<char>,
    value: Seq<char>,
) -> Seq<(Seq<char>, Seq<char>)> {
    let i = key_index_of(headers.map_values(|p: (Seq<char>, Seq<char>)| p.0), name);
    if i < 0 {
        headers.push((name, value))
    } else {
        headers.update(i, (name, value))
    }
}

/// Everything the transport needs for one HTTP GET.
#[derive(Debug)]
pub struct SendPlan {
    /// The complete request URL.
    pub url: String,
    /// The credential the request is sent with.
    pub api_key: String,
    /// The request headers, in order.
    pub headers: Vec<(String, String)>,
}

/// The decision that opens one request attempt.
#[derive(Debug)]
pub enum DispatchStep {
    /// A credential was admitted: issue this HTTP GET.
    Send(SendPlan),
    /// No credential is admissible yet; retry after this many milliseconds.
    Wait(u64),
    /// The attempt failed before any transport work.
    Fail(Error),
}

/// The decision core of the client: key selection, admission control and
/// request building for one logical request attempt.
#[derive(Debug)]
pub struct Dispatcher {
    config: TornClientConfig,
    key_pool: KeyPool,
    rate_limiter: RateLimiter,
}

impl Dispatcher {
    /// The configuration the dispatcher was built with.
    pub closed spec fn spec_config(self) -> TornClientConfig {
        self.config
    }

    /// The key pool state.
    pub closed spec fn spec_pool(self) -> KeyPool {
        self.key_pool
    }

    /// The rate limiter state.
    pub closed spec fn spec_limiter(self) -> RateLimiter {
        self.rate_limiter
    }

    /// A well-formed dispatcher: a non-empty pool holding exactly the
    /// configured keys, and a limiter in the configured mode.
    pub open spec fn wf(self) -> bool {
        &&& self.spec_pool().wf()
        &&& self.spec_limiter().wf()
        &&& self.spec_pool().spec_keys() == self.spec_config().api_keys.deep_view()
        &&& self.spec_pool().spec_balancing() == self.spec_config().api_key_balancing
        &&& self.spec_limiter().spec_mode() == self.spec_config().rate_limit_mode
    }

    /// Create a dispatcher from a configuration.
    ///
    /// Fails with `NoKeys` if and only if no API key is configured.
    pub fn new(config: TornClientConfig) -> (r: Result<Self, Error>)
        ensures
            config.api_keys@.len() == 0 <==> r is Err,
            r is Err ==> r->Err_0 is NoKeys,
            r is Ok ==> {
                let d = r->Ok_0;
                &&& d.wf()
                &&& d.spec_config() == config
                &&& d.spec_pool().spec_index() == 0
                &&& d.spec_limiter().spec_tracked_keys() == Seq::<Seq<char>>::empty()
                &&& d.spec_limiter().spec_ip() == Seq::<u64>::empty()
            },
    {
        let keys = clone_keys(&config.api_keys);
        proof {
            assert(keys@.len() == keys.deep_view().len());
            assert(config.api_keys@.len() == config.api_keys.deep_view().len());
        }
        let key_pool = match KeyPool::new(keys, config.api_key_balancing) {
            Ok(p) => p,
            Err(e) => {
                return Err(e);
            },
        };
        let rate_limiter = RateLimiter::new(config.rate_limit_mode);
        Ok(Dispatcher { config, key_pool, rate_limiter })
    }

    /// Number of API keys configured.
    pub fn key_count(&self) -> (n: usize)
        ensures
            n == self.spec_config().api_keys@.len(),
    {
        self.config.api_keys.len()
    }

    /// The dispatcher's configuration.
    pub fn config(&self) -> (c: &TornClientConfig)
        ensures
            *c == self.spec_config(),
    {
        &self.config
    }

    /// Per-key admission info for all tracked keys, each key in its
    /// display form (its first five characters): the diagnostic view of the
    /// rate limiter. Empty under `Ignore`.
    pub fn rate_limit_info(&mut self, now_ms: u64) -> (r: Vec<(String, RateLimitInfo)>)
        requires
            old(self).wf(),
        ensures
            final(self).wf(),
            final(self).spec_config() == old(self).spec_config(),
            final(self).spec_pool() == old(self).spec_pool(),
            old(self).spec_limiter().same_admission(final(self).spec_limiter(), now_ms),
            old(self).spec_limiter().evolves_by_pruning(final(self).spec_limiter(), now_ms),
            old(self).spec_config().rate_limit_mode is Ignore ==> final(self).spec_limiter()
                == old(self).spec_limiter(),
            old(self).spec_config().rate_limit_mode is Ignore ==> r@.len() == 0,
            !(old(self).spec_config().rate_limit_mode is Ignore) ==> {
                &&& final(self).spec_limiter().spec_tracked_keys() == old(
                    self,
                ).spec_limiter().spec_tracked_keys()
                &&& final(self).spec_limiter().spec_windows().len() == old(
                    self,
                ).spec_limiter().spec_windows().len()
                &&& (forall|t: int|
                    0 <= t < old(self).spec_limiter().spec_windows().len()
                        ==> #[trigger] final(self).spec_limiter().spec_windows()[t] == pruned_of(
                        old(self).spec_limiter().spec_windows()[t],
                        now_ms,
                    ))
                &&& r@.len() == old(self).spec_limiter().spec_tracked_keys().len()
                &&& (forall|t: int|
                    0 <= t < r@.len() ==> (#[trigger] r@[t]).0@ == crate::key_pool::masked_of(
                        old(self).spec_limiter().spec_tracked_keys()[t],
                    ))
                &&& (forall|t: int|
                    0 <= t < r@.len() ==> (#[trigger] r@[t]).1.used == RateLimiter::used_of(
                        old(self).spec_limiter().spec_windows()[t],
                        now_ms,
                    ) && r@[t].1.remaining == RateLimiter::remaining_of(
                        old(self).spec_limiter().spec_windows()[t],
                        now_ms,
                    ) && r@[t].1.reset_in_ms == RateLimiter::reset_of(
                        old(self).spec_limiter().spec_windows()[t],
                        now_ms,
                    ))
            },
    {
        self.rate_limiter.get_rate_limit_info(now_ms)
    }

    /// Open one request attempt at `now_ms`: acquire a credential and build
    /// the send plan.
    ///
    /// The plan's URL is the configured base URL, the path, and the query
    /// parameters with the reserved names stripped and the configured
    /// comment appended; the credential travels as an `Authorization`
    /// header, never as a query parameter. Under `AutoDelay` the caller is
    /// asked to wait and retry when no credential is admissible; under
    /// `ThrowOnLimit` the attempt fails with `RateLimited` instead.
    pub fn begin_request(
        &mut self,
        path: &str,
        params: &Vec<(String, String)>,
        now_ms: u64,
    ) -> (step: DispatchStep)
        requires
            old(self).wf(),
        ensures
            final(self).wf(),
            final(self).spec_config() == old(self).spec_config(),
            old(self).spec_limiter().same_admission(final(self).spec_limiter(), now_ms),
            old(self).spec_limiter().evolves_by_pruning(final(self).spec_limiter(), now_ms),
            old(self).spec_limiter().scan_evolution(final(self).spec_limiter(), now_ms),
            (step matches DispatchStep::Send(plan) ==> {
                &&& plan.url@ == url_of(
                    old(self).spec_config().base_url@,
                    path@,
                    params.deep_view(),
                    old(self).spec_config().comment.deep_view(),
                )
                &&& plan.headers.deep_view() == request_headers_of(
                    plan.api_key@,
                    old(self).spec_config().headers.deep_view(),
                )
            }),
            old(self).spec_config().rate_limit_mode is Ignore ==> {
                &&& (step matches DispatchStep::Send(plan) && plan.api_key@ == old(
                    self,
                ).spec_pool().selected_key(old(self).spec_pool().spec_index()))
                &&& final(self).spec_pool().spec_index() == old(
                    self,
                ).spec_pool().spec_index().wrapping_add(1)
            },
            old(self).spec_config().rate_limit_mode is ThrowOnLimit ==> {
                &&& final(self).spec_pool() == old(self).spec_pool()
                &&& match step {
                    DispatchStep::Send(plan) => old(self).spec_limiter().find_spec(
                        old(self).spec_pool().spec_keys(),
                        now_ms,
                    ) == Some(plan.api_key@),
                    DispatchStep::Fail(e) => e is RateLimited && old(self).spec_limiter().find_spec(
                        old(self).spec_pool().spec_keys(),
                        now_ms,
                    ) is None,
                    DispatchStep::Wait(_) => false,
                }
            },
            old(self).spec_config().rate_limit_mode is AutoDelay ==> {
                &&& final(self).spec_pool() == old(self).spec_pool()
                &&& match step {
                    DispatchStep::Send(plan) => old(self).spec_limiter().find_spec(
                        old(self).spec_pool().spec_keys(),
                        now_ms,
                    ) == Some(plan.api_key@),
                    DispatchStep::Fail(_) => false,
                    DispatchStep::Wait(d) => old(self).spec_limiter().find_spec(
                        old(self).spec_pool().spec_keys(),
                        now_ms,
                    ) is None && d == final(self).spec_limiter().min_wait_spec(now_ms),
                }
            },
    {
        match self.rate_limiter.acquire(&mut self.key_pool, now_ms) {
            AcquireOutcome::Granted(api_key) => {
                let url = build_url(
                    self.config.base_url.as_str(),
                    path,
                    params,
                    &self.config.comment,
                );
                let mut headers: Vec<(String, String)> = Vec::new();
                let mut auth = String::from_str("ApiKey ");
                auth.append(api_key.as_str());
                headers.push((String::from_str("Authorization"), auth));
                headers.push((String::from_str("Accept"), String::from_str("application/json")));
                let ghost base = headers.deep_view();
                let mut i: usize = 0;
                proof {
                    assert(base =~= request_headers_of(
                        api_key@,
                        self.config.headers.deep_view().take(0),
                    ));
                }
                while i < self.config.headers.len()
                    invariant
                        i <= self.config.headers.len(),
                        base == request_headers_of(
                            api_key@,
                            self.config.headers.deep_view().take(0),
                        ),
                        headers.deep_view() == request_headers_of(
                            api_key@,
                            self.config.headers.deep_view().take(i as int),
                        ),
                    decreases self.config.headers.len() - i,
                {
                    let ghost pre = headers.deep_view();
                    let name = self.config.headers[i].0.clone();
                    let value = self.config.headers[i].1.clone();
                    let ghost pair = (name@, value@);
                    headers.push((name, value));
                    proof {
                        let extra = self.config.headers.deep_view();
                        assert(pair == extra[i as int]);
                        assert(headers.deep_view() =~= pre.push(pair));
                        assert(pre.push(pair) =~= request_headers_of(api_key@, extra.take(i + 1)));
                    }
                    i += 1;
                }
                proof {
                    let extra = self.config.headers.deep_view();
                    assert(extra.take(self.config.headers@.len() as int) =~= extra);
                }
                DispatchStep::Send(SendPlan { url, api_key, headers })
            },
            AcquireOutcome::Denied => DispatchStep::Fail(Error::RateLimited),
            AcquireOutcome::Wait(d) => DispatchStep::Wait(d),
        }
    }

    /// Close one request attempt at `now_ms`, given the transport's status
    /// and body and the outcome of decoding the body into the target type.
    ///
    /// In order of precedence: a non-success status fails with `Request`
    /// carrying the status; a body matching the error envelope fails with
    /// `Api` carrying the remote code and message — whatever the decode
    /// outcome was; a failed decode fails with `Json`. Only a fully
    /// successful attempt records usage for the credential.
    pub fn finish_request(
        &mut self,
        api_key: &str,
        status: u16,
        body: &str,
        decode_failure: Option<String>,
        now_ms: u64,
    ) -> (r: Result<(), Error>)
        requires
            old(self).wf(),
        ensures
            final(self).wf(),
            final(self).spec_config() == old(self).spec_config(),
            final(self).spec_pool() == old(self).spec_pool(),
            !status_is_success(status) ==> {
                &&& (r matches Err(e) && e matches Error::Request(m) && m@ == http_status_message(
                    status,
                ))
                &&& final(self).spec_limiter() == old(self).spec_limiter()
            },
            status_is_success(status) ==> match error_envelope_of(body@) {
                Some(cm) => {
                    &&& (r matches Err(e) && e matches Error::Api { code, message } && code == cm.0
                        && message@ == cm.1)
                    &&& final(self).spec_limiter() == old(self).spec_limiter()
                },
                None => match decode_failure {
                    Some(m) => {
                        &&& (r matches Err(e) && e matches Error::Json(m2) && m2 == m)
                        &&& final(self).spec_limiter() == old(self).spec_limiter()
                    },
                    None => {
                        &&& r is Ok
                        &&& recorded_usage(
                            old(self).spec_limiter(),
                            final(self).spec_limiter(),
                            api_key@,
                            now_ms,
                        )
                    },
                },
            },
    {
        match classify_response(status, body) {
            Err(e) => Err(e),
            Ok(()) => match decode_failure {
                Some(m) => Err(Error::Json(m)),
                None => {
                    self.rate_limiter.record_request(api_key, now_ms);
                    Ok(())
                },
            },
        }
    }
}

/// How a limiter changes when usage is recorded for `key` at `now`: under
/// `Ignore` not at all, otherwise exactly as `RateLimiter::records_usage`
/// pins it — the timestamp joins the key's window and the aggregate
/// window, the tracked-key list at most gains `key`, and nothing else
/// moves.
pub open spec fn recorded_usage(
    before: RateLimiter,
    after: RateLimiter,
    key: Seq<char>,
    now: u64,
) -> bool {
    &&& after.spec_mode() == before.spec_mode()
    &&& (before.spec_mode() is Ignore ==> after == before)
    &&& (!(before.spec_mode() is Ignore) ==> before.records_usage(after, key, now))
}

/// Clone a list of keys, preserving each key's characters.
fn clone_keys(keys: &Vec<String>) -> (r: Vec<String>)
    ensures
        r.deep_view() == keys.deep_view(),
{
    let mut out: Vec<String> = Vec::new();
    let mut i: usize = 0;
    while i < keys.len()
        invariant
            i <= keys.len(),
            out.deep_view() =~= keys.deep_view().take(i as int),
        decreases keys.len() - i,
    {
        let ghost pre = out.deep_view();
        let k = keys[i].clone();
        let ghost kv = k@;
        out.push(k);
        proof {
            assert(out.deep_view() =~= pre.push(kv));
            assert(out.deep_view() =~= keys.deep_view().take(i + 1));
        }
        i += 1;
    }
    proof {
        assert(out.deep_view() =~= keys.deep_view());
    }
    out
}

/// Builder for a client core with custom options.
#[derive(Debug)]
pub struct TornClientBuilder {
    config: TornClientConfig,
}

impl Default for TornClientBuilder {
    fn default() -> (r: Self)
        ensures
            r.spec_config().api_keys@ == Seq::<String>::empty(),
            r.spec_config().rate_limit_mode == RateLimitMode::AutoDelay,
            r.spec_config().api_key_balancing == ApiKeyBalancing::RoundRobin,
            r.spec_config().comment is None,
            r.spec_config().headers@ == Seq::<(String, String)>::empty(),
            r.spec_config().base_url@ == TornClientConfig::spec_default_base_url(),
            !r.spec_config().verbose,
    {
        TornClientBuilder { config: TornClientConfig::default() }
    }
}

impl TornClientBuilder {
    /// The configuration assembled so far.
    pub closed spec fn spec_config(self) -> TornClientConfig {
        self.config
    }

    /// Add a single API key to the client.
    pub fn api_key(self, key: &str) -> (r: Self)
        ensures
            r.spec_config().api_keys.deep_view() == self.spec_config().api_keys.deep_view().push(
                key@,
            ),
            r.spec_config().rate_limit_mode == self.spec_config().rate_limit_mode,
            r.spec_config().api_key_balancing == self.spec_config().api_key_balancing,
            r.spec_config().comment == self.spec_config().comment,
            r.spec_config().headers == self.spec_config().headers,
            r.spec_config().base_url == self.spec_config().base_url,
            r.spec_config().verbose == self.spec_config().verbose,
    {
        let mut config = self.config;
        let owned = key.to_owned();
        let ghost pre = config.api_keys.deep_view();
        config.api_keys.push(owned);
        proof {
            assert(config.api_keys.deep_view() =~= pre.push(key@));
        }
        TornClientBuilder { config }
    }

    /// Set multiple API keys at once, replacing any set before.
    pub fn api_keys(self, keys: Vec<String>) -> (r: Self)
        ensures
            r.spec_config().api_keys == keys,
            r.spec_config().rate_limit_mode == self.spec_config().rate_limit_mode,
            r.spec_config().api_key_balancing == self.spec_config().api_key_balancing,
            r.spec_config().comment == self.spec_config().comment,
            r.spec_config().headers == self.spec_config().headers,
            r.spec_config().base_url == self.spec_config().base_url,
            r.spec_config().verbose == self.spec_config().verbose,
    {
        let mut config = self.config;
        config.api_keys = keys;
        TornClientBuilder { config }
    }

    /// Set the rate limit behaviour mode.
    pub fn rate_limit_mode(self, mode: RateLimitMode) -> (r: Self)
        ensures
            r.spec_config().rate_limit_mode == mode,
            r.spec_config().api_keys == self.spec_config().api_keys,
            r.spec_config().api_key_balancing == self.spec_config().api_key_balancing,
            r.spec_config().comment == self.spec_config().comment,
            r.spec_config().headers == self.spec_config().headers,
            r.spec_config().base_url == self.spec_config().base_url,
            r.spec_config().verbose == self.spec_config().verbose,
    {
        let mut config = self.config;
        config.rate_limit_mode = mode;
        TornClientBuilder { config }
    }

    /// Set the API key balancing strategy.
    pub fn api_key_balancing(self, balancing: ApiKeyBalancing) -> (r: Self)
        ensures
            r.spec_config().api_key_balancing == balancing,
            r.spec_config().api_keys == self.spec_config().api_keys,
            r.spec_config().rate_limit_mode == self.spec_config().rate_limit_mode,
            r.spec_config().comment == self.spec_config().comment,
            r.spec_config().headers == self.spec_config().headers,
            r.spec_config().base_url == self.spec_config().base_url,
            r.spec_config().verbose == self.spec_config().verbose,
    {
        let mut config = self.config;
        config.api_key_balancing = balancing;
        TornClientBuilder { config }
    }

    /// Set an optional comment appended to all requests.
    pub fn comment(self, comment: &str) -> (r: Self)
        ensures
            r.spec_config().comment.deep_view() == Some(comment@),
            r.spec_config().api_keys == self.spec_config().api_keys,
            r.spec_config().rate_limit_mode == self.spec_config().rate_limit_mode,
            r.spec_config().api_key_balancing == self.spec_config().api_key_balancing,
            r.spec_config().headers == self.spec_config().headers,
            r.spec_config().base_url == self.spec_config().base_url,
            r.spec_config().verbose == self.spec_config().verbose,
    {
        let mut config = self.config;
        config.comment = Some(comment.to_owned());
        TornClientBuilder { config }
    }

    /// Add a custom HTTP header to all requests.
    ///
    /// Setting a header whose name is already configured replaces its
    /// value in place; each name is sent at most once.
    pub fn header(self, key: &str, value: &str) -> (r: Self)
        ensures
            r.spec_config().headers.deep_view() == upsert_header(
                self.spec_config().headers.deep_view(),
                key@,
                value@,
            ),
            header_names_unique(self.spec_config().headers.deep_view())
                ==> header_names_unique(r.spec_config().headers.deep_view()),
            r.spec_config().api_keys == self.spec_config().api_keys,
            r.spec_config().rate_limit_mode == self.spec_config().rate_limit_mode,
            r.spec_config().api_key_balancing == self.spec_config().api_key_balancing,
            r.spec_config().comment == self.spec_config().comment,
            r.spec_config().base_url == self.spec_config().base_url,
            r.spec_config().verbose == self.spec_config().verbose,
    {
        let mut config = self.config;
        let owned = key.to_owned();
        let ghost cfg0 = config;
        let ghost dv0 = config.headers.deep_view();
        let ghost names = dv0.map_values(|p: (Seq<char>, Seq<char>)| p.0);
        let n = config.headers.len();
        let mut found: usize = n;
        let mut j: usize = 0;
        while j < n
            invariant
                j <= n,
                n == config.headers.len(),
                config == cfg0,
                owned@ == key@,
                dv0 == config.headers.deep_view(),
                names == dv0.map_values(|p: (Seq<char>, Seq<char>)| p.0),
                found == n || (found < j && names[found as int] == key@ && (forall|t: int|
                    0 <= t < found ==> names[t] != key@)),
                found == n ==> (forall|t: int| 0 <= t < j ==> names[t] != key@),
            decreases n - j,
        {
            if found == n && config.headers[j].0 == owned {
                proof {
                    assert(names[j as int] == key@);
                }
                found = j;
            }
            j += 1;
        }
        if found < n {
            proof {
                lemma_key_index_of(names, key@);
                let f = key_index_of(names, key@);
                if f < found {
                    assert(names[f] != key@);
                    assert(false);
                }
                if f > found {
                    assert(names[found as int] != key@);
                    assert(false);
                }
                assert(f == found);
            }
            config.headers.set(found, (owned, value.to_owned()));
            proof {
                assert(config.headers.deep_view() =~= dv0.update(found as int, (key@, value@)));
                let ndv = config.headers.deep_view();
                if header_names_unique(dv0) {
                    assert forall|a: int, b: int|
                        0 <= a < b < ndv.len() implies ndv[a].0 != ndv[b].0 by {
                        assert(ndv[a].0 == dv0[a].0);
                        assert(ndv[b].0 == dv0[b].0);
                    }
                }
            }
        } else {
            proof {
                lemma_key_index_of(names, key@);
                assert(key_index_of(names, key@) == -1);
            }
            config.headers.push((owned, value.to_owned()));
            proof {
                assert(config.headers.deep_view() =~= dv0.push((key@, value@)));
                let ndv = config.headers.deep_view();
                if header_names_unique(dv0) {
                    assert forall|a: int, b: int|
                        0 <= a < b < ndv.len() implies ndv[a].0 != ndv[b].0 by {
                        if b < dv0.len() {
                            assert(ndv[a].0 == dv0[a].0);
                            assert(ndv[b].0 == dv0[b].0);
                        } else {
                            assert(ndv[a].0 == names[a]);
                            assert(ndv[b].0 == key@);
                        }
                    }
                }
            }
        }
        TornClientBuilder { config }
    }

    /// Set a custom base URL.
    pub fn base_url(self, url: &str) -> (r: Self)
        ensures
            r.spec_config().base_url@ == url@,
            r.spec_config().api_keys == self.spec_config().api_keys,
            r.spec_config().rate_limit_mode == self.spec_config().rate_limit_mode,
            r.spec_config().api_key_balancing == self.spec_config().api_key_balancing,
            r.spec_config().comment == self.spec_config().comment,
            r.spec_config().headers == self.spec_config().headers,
            r.spec_config().verbose == self.spec_config().verbose,
    {
        let mut config = self.config;
        config.base_url = url.to_owned();
        TornClientBuilder { config }
    }

    /// Enable verbose logging in the embedding application.
    pub fn verbose(self, verbose: bool) -> (r: Self)
        ensures
            r.spec_config().verbose == verbose,
            r.spec_config().api_keys == self.spec_config().api_keys,
            r.spec_config().rate_limit_mode == self.spec_config().rate_limit_mode,
            r.spec_config().api_key_balancing == self.spec_config().api_key_balancing,
            r.spec_config().comment == self.spec_config().comment,
            r.spec_config().headers == self.spec_config().headers,
            r.spec_config().base_url == self.spec_config().base_url,
    {
        let mut config = self.config;
        config.verbose = verbose;
        TornClientBuilder { config }
    }

    /// Build the dispatcher.
    ///
    /// Fails with `NoKeys` if and only if no API key was provided.
    pub fn build(self) -> (r: Result<Dispatcher, Error>)
        ensures
            self.spec_config().api_keys@.len() == 0 <==> r is Err,
            r is Err ==> r->Err_0 is NoKeys,
            r is Ok ==> {
                let d = r->Ok_0;
                &&& d.wf()
                &&& d.spec_config() == self.spec_config()
                &&& d.spec_pool().spec_index() == 0
                &&& d.spec_limiter().spec_tracked_keys() == Seq::<Seq<char>>::empty()
            },
    {
        if self.config.api_keys.is_empty() {
            return Err(Error::NoKeys);
        }
        Dispatcher::new(self.config)
    }
}

} // verus!
