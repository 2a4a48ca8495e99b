use vstd::prelude::*;
use vstd::string::StringExecFns;
use crate::filters::{filter_mirrors, filtered, now_timestamp, FilterOpts};
use crate::sort::{first_n, limit, most_recent, most_recent_post, sort_mirrors, sort_post};

verus! {

/// Transfer protocol a mirror serves.
#[derive(Clone, Copy, Debug, PartialEq, Eq, Structural)]
pub enum Protocol {
    Ftp,
    Http,
    Https,
    Rsync,
}

/// Lower-case name of a protocol.
pub open spec fn protocol_name(p: Protocol) -> Seq<char> {
    match p {
        Protocol::Ftp => "ftp"@,
        Protocol::Http => "http"@,
        Protocol::Https => "https"@,
        Protocol::Rsync => "rsync"@,
    }
}

impl Protocol {
    /// The protocol's lower-case name, as used in the status document.
    pub fn fmt(&self) -> (r: String)
        ensures
            r@ == protocol_name(*self),
    {
        match self {
            Protocol::Ftp => String::from_str("ftp"),
            Protocol::Http => String::from_str("http"),
            Protocol::Https => String::from_str("https"),
            Protocol::Rsync => String::from_str("rsync"),
        }
    }
}

/// Key by which a mirror list can be ordered.
#[derive(Clone, Copy, Debug, PartialEq, Eq, Structural)]
pub enum SortOpts {
    Age,
    Rate,
    Country,
    Score,
    Delay,
}

/// One mirror's reported state.
///
/// Times are Unix timestamps in seconds. Fractions and durations are held in
/// millionths: `completion_ppm` is the completion fraction times 1 000 000,
/// `duration_avg`, `duration_stddev` and `score` are their values times 1 000 000.
#[derive(Debug)]
pub struct MirrorMetadata {
    pub url: String,
    pub protocol: Protocol,
    pub last_sync: Option<i64>,
    pub completion_ppm: u32,
    pub delay: Option<u64>,
    pub duration_avg: Option<u64>,
    pub duration_stddev: Option<u64>,
    pub score: Option<u64>,
    pub active: bool,
    pub country: String,
    pub country_code: String,
    pub isos: bool,
    pub ipv4: bool,
    pub ipv6: bool,
    pub details: String,
}

/// Largest value of `completion_ppm`: a mirror that is fully complete.
pub const FULL_COMPLETION: u32 = 1000000;

impl MirrorMetadata {
    /// The completion fraction lies in [0, 1].
    pub open spec fn wf(&self) -> bool {
        self.completion_ppm <= FULL_COMPLETION
    }
}

impl Clone for MirrorMetadata {
    fn clone(&self) -> (r: Self)
        ensures
            r == *self,
    {
        MirrorMetadata {
            url: self.url.clone(),
            protocol: self.protocol,
            last_sync: self.last_sync,
            completion_ppm: self.completion_ppm,
            delay: self.delay,
            duration_avg: self.duration_avg,
            duration_stddev: self.duration_stddev,
            score: self.score,
            active: self.active,
            country: self.country.clone(),
            country_code: self.country_code.clone(),
            isos: self.isos,
            ipv4: self.ipv4,
            ipv6: self.ipv6,
            details: self.details.clone(),
        }
    }
}


/// One retrieval of the whole mirror set. `last_check` is a Unix timestamp in seconds.
#[derive(Debug)]
pub struct MirrorsStatus {
    pub cutoff: usize,
    pub last_check: i64,
    pub num_checks: usize,
    pub check_frequency: usize,
    pub urls: Vec<MirrorMetadata>,
    pub version: usize,
}

/// `r` is what the pipeline makes of the records `s` under `opts` at `now`: the records
/// that pass every enabled filter, then the `latest` most recent of them, then the
/// first `number`.
pub open spec fn pipeline_post(
    opts: FilterOpts,
    now: i64,
    s: Seq<MirrorMetadata>,
    r: Seq<MirrorMetadata>,
) -> bool {
    limits_post(opts, filtered(opts, now, s), r)
}

/// `r` is what the `latest` and then the `number` limits of `opts` leave of `t`.
pub open spec fn limits_post(opts: FilterOpts, t: Seq<MirrorMetadata>, r: Seq<MirrorMetadata>) -> bool {
    exists|l: Seq<MirrorMetadata>| #[trigger] latest_step(opts, t, l) && r == number_step(opts, l)
}

/// What the `number` limit of `opts` leaves of `l`.
pub open spec fn number_step(opts: FilterOpts, l: Seq<MirrorMetadata>) -> Seq<MirrorMetadata> {
    match opts.number {
        Some(k) => first_n(l, k as nat),
        None => l,
    }
}

/// `t` is `f` sorted stably by `sort` (preferred countries `order`), or `f` itself.
pub open spec fn sort_step(
    sort: Option<SortOpts>,
    order: Seq<String>,
    f: Seq<MirrorMetadata>,
    t: Seq<MirrorMetadata>,
) -> bool {
    match sort {
        Some(k) => sort_post(k, order, f, t),
        None => t == f,
    }
}

/// `r` is what the whole pipeline makes of `s`: the records that pass every filter
/// `opts` enables at `now`, sorted by `sort`, then limited by `latest` and `number`.
pub open spec fn selection_post(
    opts: FilterOpts,
    sort: Option<SortOpts>,
    order: Seq<String>,
    now: i64,
    s: Seq<MirrorMetadata>,
    r: Seq<MirrorMetadata>,
) -> bool {
    exists|t: Seq<MirrorMetadata>|
        #[trigger] sort_step(sort, order, filtered(opts, now, s), t) && limits_post(opts, t, r)
}

/// `l` is what the `latest` limit of `opts` leaves of `f`.
pub open spec fn latest_step(opts: FilterOpts, f: Seq<MirrorMetadata>, l: Seq<MirrorMetadata>) -> bool {
    match opts.latest {
        Some(n) => most_recent_post(f, n as nat, l),
        None => l == f,
    }
}

impl MirrorsStatus {
    /// The same snapshot with the mirror list `u`.
    pub open spec fn with_urls(self, u: Seq<MirrorMetadata>, r: MirrorsStatus) -> bool {
        &&& r.cutoff == self.cutoff
        &&& r.last_check == self.last_check
        &&& r.num_checks == self.num_checks
        &&& r.check_frequency == self.check_frequency
        &&& r.version == self.version
        &&& r.urls@ == u
    }

    /// The URLs of the mirrors, in their order.
    pub fn urls(self) -> (r: Vec<String>)
        ensures
            r@.len() == self.urls@.len(),
            forall|i: int| 0 <= i < r@.len() ==> #[trigger] r@[i]@ == self.urls@[i].url@,
    {
        let mut r: Vec<String> = Vec::new();
        let mut i: usize = 0;
        while i < self.urls.len()
            invariant
                i <= self.urls.len(),
                r@.len() == i,
                forall|j: int| 0 <= j < i ==> #[trigger] r@[j]@ == self.urls@[j].url@,
            decreases self.urls.len() - i,
        {
            r.push(self.urls[i].url.clone());
            i = i + 1;
        }
        r
    }

    /// Applies the filters, then the `latest` and `number` limits, of `filter_opts`
    /// at the current time.
    pub fn filter_by_opts(self, filter_opts: &FilterOpts) -> (r: Self)
        ensures
            exists|now: i64| pipeline_post(*filter_opts, now, self.urls@, r.urls@),
            self.with_urls(r.urls@, r),
    {
        let now = now_timestamp();
        self.filter_by_opts_at(filter_opts, now)
    }

    /// Applies the filters, then the `latest` and `number` limits, of `filter_opts`
    /// at time `now`.
    pub fn filter_by_opts_at(self, filter_opts: &FilterOpts, now: i64) -> (r: Self)
        ensures
            pipeline_post(*filter_opts, now, self.urls@, r.urls@),
            self.with_urls(r.urls@, r),
    {
        let ghost s = self.urls@;
        let mut st = self;
        st.filter_active_and_opts(filter_opts, now);
        let ghost f = st.urls@;
        if let Some(latest) = filter_opts.latest {
            st.n_latest(latest);
        }
        let ghost l = st.urls@;
        if let Some(number) = filter_opts.number {
            st = st.n_urls(number);
        }
        assert(pipeline_post(*filter_opts, now, s, st.urls@)) by {
            assert(f == filtered(*filter_opts, now, s));
            assert(latest_step(*filter_opts, f, l));
        }
        st
    }

    /// The whole pipeline at the current time: filters, the sort `sort` (preferred
    /// countries `country_order`), then the `latest` and `number` limits.
    pub fn select(self, filter_opts: &FilterOpts, sort: Option<SortOpts>, country_order: &Vec<String>) -> (r: Self)
        ensures
            exists|now: i64| selection_post(*filter_opts, sort, country_order@, now, self.urls@, r.urls@),
            self.with_urls(r.urls@, r),
    {
        let now = now_timestamp();
        self.select_at(filter_opts, sort, country_order, now)
    }

    /// The whole pipeline at time `now`: filters, the sort `sort` (preferred countries
    /// `country_order`), then the `latest` and `number` limits.
    pub fn select_at(self, filter_opts: &FilterOpts, sort: Option<SortOpts>, country_order: &Vec<String>, now: i64) -> (r: Self)
        ensures
            selection_post(*filter_opts, sort, country_order@, now, self.urls@, r.urls@),
            self.with_urls(r.urls@, r),
    {
        let ghost s = self.urls@;
        let mut st = self;
        st.filter_active_and_opts(filter_opts, now);
        let ghost f = st.urls@;
        if let Some(k) = sort {
            st.urls = sort_mirrors(&st.urls, k, country_order);
        }
        let ghost t = st.urls@;
        if let Some(latest) = filter_opts.latest {
            st.n_latest(latest);
        }
        let ghost l = st.urls@;
        if let Some(number) = filter_opts.number {
            st = st.n_urls(number);
        }
        assert(selection_post(*filter_opts, sort, country_order@, now, s, st.urls@)) by {
            assert(sort_step(sort, country_order@, filtered(*filter_opts, now, s), t));
            assert(latest_step(*filter_opts, t, l));
        }
        st
    }

    /// Keeps the active mirrors that pass every filter of `filter_opts` at `now`.
    fn filter_active_and_opts(&mut self, filter_opts: &FilterOpts, now: i64)
        ensures
            old(self).with_urls(filtered(*filter_opts, now, old(self).urls@), *final(self)),
    {
        self.urls = filter_mirrors(&self.urls, filter_opts, now);
    }

    /// Keeps the first `number` mirrors.
    pub fn n_urls(self, number: usize) -> (r: Self)
        ensures
            self.with_urls(first_n(self.urls@, number as nat), r),
    {
        let urls = limit(&self.urls, number);
        MirrorsStatus { urls, ..self }
    }

    /// Keeps the `latest` most recently synchronised mirrors, most recent first.
    fn n_latest(&mut self, latest: usize)
        ensures
            most_recent_post(old(self).urls@, latest as nat, final(self).urls@),
            old(self).with_urls(final(self).urls@, *final(self)),
    {
        self.urls = most_recent(&self.urls, latest);
    }
}

} // verus!
