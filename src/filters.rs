use vstd::prelude::*;
use crate::pattern::{regex_matches, UrlPattern};
use crate::types::{MirrorMetadata, Protocol};

verus! {

/// The options that select which mirrors are kept.
///
/// `age` and `delay` are in seconds; `completion_percent` is a percentage.
#[derive(Debug)]
pub struct FilterOpts {
    pub age: Option<i64>,
    pub delay: Option<u64>,
    pub include_re: Option<UrlPattern>,
    pub exclude_re: Option<UrlPattern>,
    pub latest: Option<usize>,
    pub number: Option<usize>,
    pub protocol: Option<Vec<Protocol>>,
    pub completion_percent: u8,
    pub isos: bool,
    pub ipv4: bool,
    pub ipv6: bool,
}

/// Whether a mirror of completion `ppm` (millionths) meets a threshold in percent:
/// `ppm / 1e6 * 100 >= threshold`, the boundary included.
pub open spec fn completion_ok(threshold: u8, ppm: u32) -> bool {
    ppm as int * 100 >= threshold as int * 1000000
}

/// Whether a mirror last synchronised at `last_sync` is at most `max_secs` old at `now`;
/// a mirror that never synchronised is not.
pub open spec fn age_ok(now: i64, max_secs: i64, last_sync: Option<i64>) -> bool {
    match last_sync {
        Some(t) => now - t <= max_secs,
        None => false,
    }
}

/// Whether a reported delay in minutes is at most `max_secs` seconds; a missing delay is not.
pub open spec fn delay_ok(max_secs: u64, delay: Option<u64>) -> bool {
    match delay {
        Some(d) => d * 60 <= max_secs,
        None => false,
    }
}

/// One predicate of the filter pipeline.
pub enum Criterion<'a> {
    Active,
    Ipv4,
    Ipv6,
    Isos,
    Completion(u8),
    Protocols(&'a Vec<Protocol>),
    MaxAge { now: i64, max_secs: i64 },
    MaxDelay(u64),
    UrlMatches(&'a UrlPattern),
    UrlAvoids(&'a UrlPattern),
}

impl<'a> Criterion<'a> {
    /// Whether mirror `m` passes this criterion.
    pub open spec fn holds(&self, m: MirrorMetadata) -> bool {
        match *self {
            Criterion::Active => m.active,
            Criterion::Ipv4 => m.ipv4,
            Criterion::Ipv6 => m.ipv6,
            Criterion::Isos => m.isos,
            Criterion::Completion(t) => completion_ok(t, m.completion_ppm),
            Criterion::Protocols(ps) => ps@.contains(m.protocol),
            Criterion::MaxAge { now, max_secs } => age_ok(now, max_secs, m.last_sync),
            Criterion::MaxDelay(d) => delay_ok(d, m.delay),
            Criterion::UrlMatches(p) => regex_matches(p@, m.url@),
            Criterion::UrlAvoids(p) => !regex_matches(p@, m.url@),
        }
    }

    /// Decides whether `m` passes this criterion.
    pub fn check(&self, m: &MirrorMetadata) -> (r: bool)
        ensures
            r == self.holds(*m),
    {
        match self {
            Criterion::Active => m.active,
            Criterion::Ipv4 => m.ipv4,
            Criterion::Ipv6 => m.ipv6,
            Criterion::Isos => m.isos,
            Criterion::Completion(t) => {
                m.completion_ppm as u64 * 100 >= *t as u64 * 1000000
            },
            Criterion::Protocols(ps) => contains_protocol(ps, m.protocol),
            Criterion::MaxAge { now, max_secs } => match m.last_sync {
                Some(t) => (*now as i128) - (t as i128) <= *max_secs as i128,
                None => false,
            },
            Criterion::MaxDelay(d) => match m.delay {
                Some(x) => (x as u128) * 60 <= *d as u128,
                None => false,
            },
            Criterion::UrlMatches(p) => p.is_match(m.url.as_str()),
            Criterion::UrlAvoids(p) => !p.is_match(m.url.as_str()),
        }
    }
}

/// Whether `p` is one of `ps`.
pub fn contains_protocol(ps: &Vec<Protocol>, p: Protocol) -> (r: bool)
    ensures
        r == ps@.contains(p),
{
    let mut i: usize = 0;
    while i < ps.len()
        invariant
            i <= ps.len(),
            forall|j: int| 0 <= j < i ==> ps@[j] != p,
        decreases ps.len() - i,
    {
        if ps[i] == p {
            return true;
        }
        i = i + 1;
    }
    false
}

/// The records of `s` that pass `c`, in their order.
pub open spec fn kept(s: Seq<MirrorMetadata>, c: Criterion) -> Seq<MirrorMetadata> {
    s.filter(|m: MirrorMetadata| c.holds(m))
}

/// The records of `v` that pass `c`, in their order.
pub fn retain_where(v: &Vec<MirrorMetadata>, c: &Criterion) -> (r: Vec<MirrorMetadata>)
    ensures
        r@ == kept(v@, *c),
{
    let mut r: Vec<MirrorMetadata> = Vec::new();
    let mut i: usize = 0;
    while i < v.len()
        invariant
            i <= v.len(),
            r@ == kept(v@.take(i as int), *c),
        decreases v.len() - i,
    {
        proof {
            let s1 = v@.take(i + 1);
            assert(s1.drop_last() =~= v@.take(i as int));
            assert(s1.last() == v@[i as int]);
            reveal_with_fuel(Seq::filter, 1);
        }
        if c.check(&v[i]) {
            r.push(v[i].clone());
        }
        i = i + 1;
    }
    assert(v@.take(v.len() as int) =~= v@);
    r
}

/// Filtering by `p` then by `q` keeps the records that pass both, in their order.
pub proof fn lemma_filter_twice(
    s: Seq<MirrorMetadata>,
    p: spec_fn(MirrorMetadata) -> bool,
    q: spec_fn(MirrorMetadata) -> bool,
)
    ensures
        s.filter(p).filter(q) == s.filter(|m: MirrorMetadata| p(m) && q(m)),
    decreases s.len(),
{
    reveal_with_fuel(Seq::filter, 1);
    if s.len() > 0 {
        lemma_filter_twice(s.drop_last(), p, q);
        let pq = |m: MirrorMetadata| p(m) && q(m);
        let fp = s.drop_last().filter(p);
        if p(s.last()) {
            assert(s.filter(p) == fp.push(s.last()));
            assert(fp.push(s.last()).drop_last() =~= fp);
        }
    } else {
        assert(s.filter(p).filter(q) =~= s.filter(|m: MirrorMetadata| p(m) && q(m)));
    }
}

/// Filtering by predicates that agree on every record gives the same records.
pub proof fn lemma_filter_ext(
    s: Seq<MirrorMetadata>,
    p: spec_fn(MirrorMetadata) -> bool,
    q: spec_fn(MirrorMetadata) -> bool,
)
    requires
        forall|m: MirrorMetadata| #[trigger] p(m) == q(m),
    ensures
        s.filter(p) == s.filter(q),
{
    assert(p =~= q);
}


/// Whether mirror `m` passes every filter that `opts` enables, at time `now`.
pub open spec fn passes(opts: FilterOpts, now: i64, m: MirrorMetadata) -> bool {
    &&& m.active
    &&& opts.ipv4 ==> m.ipv4
    &&& opts.ipv6 ==> m.ipv6
    &&& opts.isos ==> m.isos
    &&& completion_ok(opts.completion_percent, m.completion_ppm)
    &&& (opts.protocol matches Some(ps) ==> ps@.contains(m.protocol))
    &&& (opts.age matches Some(a) ==> age_ok(now, a, m.last_sync))
    &&& (opts.delay matches Some(d) ==> delay_ok(d, m.delay))
    &&& (opts.include_re matches Some(p) ==> regex_matches(p@, m.url@))
    &&& (opts.exclude_re matches Some(p) ==> !regex_matches(p@, m.url@))
}

/// The records of `s` that pass every filter `opts` enables at `now`, in their order.
pub open spec fn filtered(opts: FilterOpts, now: i64, s: Seq<MirrorMetadata>) -> Seq<MirrorMetadata> {
    s.filter(|m: MirrorMetadata| passes(opts, now, m))
}

/// A mirror list under the filter pipeline.
pub struct Filters(pub Vec<MirrorMetadata>);

impl Filters {
    pub fn new(v: Vec<MirrorMetadata>) -> (r: Self)
        ensures
            r.0 == v,
    {
        Filters(v)
    }

    /// The mirrors that pass every filter `filter_opts` enables, in their order.
    pub fn apply_filters(self, filter_opts: &FilterOpts) -> (r: Vec<MirrorMetadata>)
        ensures
            exists|now: i64| r@ == filtered(*filter_opts, now, self.0@),
    {
        let now = now_timestamp();
        self.apply_filters_at(filter_opts, now)
    }

    /// The mirrors that pass every filter `filter_opts` enables at time `now`, in their order.
    pub fn apply_filters_at(self, filter_opts: &FilterOpts, now: i64) -> (r: Vec<MirrorMetadata>)
        ensures
            r@ == filtered(*filter_opts, now, self.0@),
    {
        filter_mirrors(&self.0, filter_opts, now)
    }
}

/// Decides `passes(*opts, now, *m)`, the active filter first.
pub fn check_all(opts: &FilterOpts, now: i64, m: &MirrorMetadata) -> (r: bool)
    ensures
        r == passes(*opts, now, *m),
{
    if !Criterion::Active.check(m) {
        return false;
    }
    if let Some(age) = opts.age {
        if !(Criterion::MaxAge { now, max_secs: age }).check(m) {
            return false;
        }
    }
    if let Some(d) = opts.delay {
        if !Criterion::MaxDelay(d).check(m) {
            return false;
        }
    }
    if let Some(p) = &opts.include_re {
        if !Criterion::UrlMatches(p).check(m) {
            return false;
        }
    }
    if let Some(p) = &opts.exclude_re {
        if !Criterion::UrlAvoids(p).check(m) {
            return false;
        }
    }
    if let Some(ps) = &opts.protocol {
        if !Criterion::Protocols(ps).check(m) {
            return false;
        }
    }
    if !Criterion::Completion(opts.completion_percent).check(m) {
        return false;
    }
    if opts.isos && !Criterion::Isos.check(m) {
        return false;
    }
    if opts.ipv4 && !Criterion::Ipv4.check(m) {
        return false;
    }
    if opts.ipv6 && !Criterion::Ipv6.check(m) {
        return false;
    }
    true
}

/// The records of `v` that pass every filter `opts` enables at `now`, in their order.
pub fn filter_mirrors(v: &Vec<MirrorMetadata>, opts: &FilterOpts, now: i64) -> (r: Vec<MirrorMetadata>)
    ensures
        r@ == filtered(*opts, now, v@),
{
    let mut r: Vec<MirrorMetadata> = Vec::new();
    let mut i: usize = 0;
    while i < v.len()
        invariant
            i <= v.len(),
            r@ == filtered(*opts, now, v@.take(i as int)),
        decreases v.len() - i,
    {
        proof {
            let s1 = v@.take(i + 1);
            assert(s1.drop_last() =~= v@.take(i as int));
            assert(s1.last() == v@[i as int]);
            reveal_with_fuel(Seq::filter, 1);
        }
        if check_all(opts, now, &v[i]) {
            r.push(v[i].clone());
        }
        i = i + 1;
    }
    assert(v@.take(v.len() as int) =~= v@);
    r
}

/// Relies on chrono::Utc::now and DateTime::timestamp: the current time in whole
/// seconds since the Unix epoch. Nothing is known of the value.
#[verifier::external_body]
pub(crate) fn now_timestamp() -> (r: i64) {
    chrono::Utc::now().timestamp()
}

} // verus!
