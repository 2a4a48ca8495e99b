use vstd::prelude::*;
use vstd::string::StringExecFns;

verus! {

/// The URL-safe base64 encoding, without padding, of the UTF-8 bytes of `s`.
pub uninterp spec fn base64_url_nopad(s: Seq<char>) -> Seq<char>;

/// Relies on base64::encode_engine with the URL-safe alphabet and no padding: the
/// encoding depends on the input bytes alone.
#[verifier::external_body]
fn encode_url_safe(s: &str) -> (r: String)
    ensures
        r@ == base64_url_nopad(s@),
{
    base64::encode_engine(
        s,
        &base64::engine::fast_portable::FastPortable::from(
            &base64::alphabet::URL_SAFE,
            base64::engine::fast_portable::NO_PAD,
        ),
    )
}

/// The cache key of a source URL.
pub open spec fn cache_key_of(url: Seq<char>) -> Seq<char> {
    base64_url_nopad(url)
}

/// The name of the cache file that holds the snapshot of a source URL.
pub open spec fn cache_file_name_of(url: Seq<char>) -> Seq<char> {
    cache_key_of(url) + ".json"@
}

/// The cache key of `url`: its URL-safe base64 encoding, unpadded.
pub fn cache_key(url: &str) -> (r: String)
    ensures
        r@ == cache_key_of(url@),
{
    encode_url_safe(url)
}

/// The name of the cache file for `url`: its cache key with the extension `.json`.
pub fn get_cache_file(url: &str) -> (r: String)
    ensures
        r@ == cache_file_name_of(url@),
{
    cache_key(url).concat(".json")
}

/// Whether a cache entry last modified at `modified` (`None`: it could not be
/// examined) is stale at `now` under a time-to-live of `ttl` seconds.
pub open spec fn expired(modified: Option<i64>, now: i64, ttl: u64) -> bool {
    match modified {
        Some(m) => now - m > ttl,
        None => true,
    }
}

/// Decides `expired(modified, now, cache_timeout)`.
pub fn is_cache_expired(modified: Option<i64>, now: i64, cache_timeout: u64) -> (r: bool)
    ensures
        r == expired(modified, now, cache_timeout),
{
    match modified {
        Some(m) => (now as i128) - (m as i128) > cache_timeout as i128,
        None => true,
    }
}

/// Where the acquisition of a snapshot stands.
#[derive(Clone, Copy, Debug, PartialEq, Eq, Structural)]
pub enum ProviderStep {
    /// The cache entry's modification time is being looked up.
    LookingUp,
    /// A fresh cache entry is being read and parsed.
    Reading,
    /// The source is being fetched.
    Fetching,
    /// A fetched snapshot is being written to the cache.
    Writing,
    /// A snapshot was delivered, or the acquisition failed.
    Finished,
}

/// What the outside world reports back to the provider.
#[derive(Clone, Copy, Debug, PartialEq, Eq, Structural)]
pub enum ProviderEvent {
    /// The cache entry's modification time, `None` when it could not be examined.
    Stat(Option<i64>),
    /// Whether the cache entry was read and parsed.
    Read(bool),
    /// Whether the fetch delivered a parsed snapshot.
    Fetched(bool),
    /// Whether the snapshot was written to the cache.
    Written(bool),
}

/// What the provider asks the outside world to do next.
#[derive(Clone, Copy, Debug, PartialEq, Eq, Structural)]
pub enum ProviderAction {
    ReadCache,
    Fetch,
    WriteCache,
    UseCached,
    UseFetched,
    Fail,
}

/// The provider's transition: from `step`, on `event`, at `now`, with time-to-live `ttl`.
///
/// A stale or unreadable cache entry leads to a fetch; a fresh one is read, and a
/// corrupt one is treated as stale. A failed fetch fails; a failed write does not.
pub open spec fn transition(step: ProviderStep, event: ProviderEvent, now: i64, ttl: u64) -> (
    ProviderStep,
    ProviderAction,
) {
    match (step, event) {
        (ProviderStep::LookingUp, ProviderEvent::Stat(m)) => if expired(m, now, ttl) {
            (ProviderStep::Fetching, ProviderAction::Fetch)
        } else {
            (ProviderStep::Reading, ProviderAction::ReadCache)
        },
        (ProviderStep::Reading, ProviderEvent::Read(ok)) => if ok {
            (ProviderStep::Finished, ProviderAction::UseCached)
        } else {
            (ProviderStep::Fetching, ProviderAction::Fetch)
        },
        (ProviderStep::Fetching, ProviderEvent::Fetched(ok)) => if ok {
            (ProviderStep::Writing, ProviderAction::WriteCache)
        } else {
            (ProviderStep::Finished, ProviderAction::Fail)
        },
        (ProviderStep::Writing, ProviderEvent::Written(_)) => (
            ProviderStep::Finished,
            ProviderAction::UseFetched,
        ),
        _ => (ProviderStep::Finished, ProviderAction::Fail),
    }
}

/// Computes `transition(step, event, now, cache_timeout)`.
pub fn next_step(step: ProviderStep, event: ProviderEvent, now: i64, cache_timeout: u64) -> (r: (
    ProviderStep,
    ProviderAction,
))
    ensures
        r == transition(step, event, now, cache_timeout),
{
    match (step, event) {
        (ProviderStep::LookingUp, ProviderEvent::Stat(m)) => if is_cache_expired(m, now, cache_timeout) {
            (ProviderStep::Fetching, ProviderAction::Fetch)
        } else {
            (ProviderStep::Reading, ProviderAction::ReadCache)
        },
        (ProviderStep::Reading, ProviderEvent::Read(ok)) => if ok {
            (ProviderStep::Finished, ProviderAction::UseCached)
        } else {
            (ProviderStep::Fetching, ProviderAction::Fetch)
        },
        (ProviderStep::Fetching, ProviderEvent::Fetched(ok)) => if ok {
            (ProviderStep::Writing, ProviderAction::WriteCache)
        } else {
            (ProviderStep::Finished, ProviderAction::Fail)
        },
        (ProviderStep::Writing, ProviderEvent::Written(_)) => (
            ProviderStep::Finished,
            ProviderAction::UseFetched,
        ),
        _ => (ProviderStep::Finished, ProviderAction::Fail),
    }
}

/// The actions the provider asks for, from `step`, on the events `events` in turn.
pub open spec fn run(step: ProviderStep, events: Seq<ProviderEvent>, now: i64, ttl: u64) -> Seq<
    ProviderAction,
>
    decreases events.len(),
{
    if events.len() == 0 {
        Seq::empty()
    } else {
        let (next, action) = transition(step, events[0], now, ttl);
        seq![action] + run(next, events.drop_first(), now, ttl)
    }
}

/// The number of fetches among `actions`.
pub open spec fn fetch_count(actions: Seq<ProviderAction>) -> nat
    decreases actions.len(),
{
    if actions.len() == 0 {
        0
    } else {
        (if actions[0] == ProviderAction::Fetch { 1nat } else { 0nat }) + fetch_count(
            actions.drop_first(),
        )
    }
}

} // verus!
