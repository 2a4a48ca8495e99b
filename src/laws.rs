use vstd::prelude::*;
use crate::cache::{
    cache_key_of, expired, fetch_count, run, transition, ProviderAction, ProviderEvent,
    ProviderStep,
};
use crate::filters::{filtered, kept, lemma_filter_ext, lemma_filter_twice, passes, Criterion, FilterOpts};
use crate::sort::{first_n, in_key_order, lex_lt, most_recent_post, sort_key, sort_post};
use crate::types::{
    latest_step, limits_post, number_step, pipeline_post, selection_post, sort_step, MirrorMetadata,
    SortOpts,
};

verus! {

broadcast use vstd::seq_lib::group_filter_ensures;

/// A record is among the filtered records exactly when it passes every enabled filter.
pub proof fn lemma_survives_iff_passes(opts: FilterOpts, now: i64, s: Seq<MirrorMetadata>, m: MirrorMetadata)
    requires
        s.contains(m),
    ensures
        filtered(opts, now, s).contains(m) <==> passes(opts, now, m),
{
    let f = filtered(opts, now, s);
    if f.contains(m) {
        let i = choose|i: int| 0 <= i < f.len() && f[i] == m;
        assert(passes(opts, now, f[i]));
    }
    if passes(opts, now, m) {
        let i = choose|i: int| 0 <= i < s.len() && s[i] == m;
        assert(f.contains(s[i]));
    }
}

/// Every record that a rearrangement-and-prefix step keeps comes from its input.
proof fn lemma_most_recent_from(m: Seq<MirrorMetadata>, n: nat, r: Seq<MirrorMetadata>, i: int)
    requires
        most_recent_post(m, n, r),
        0 <= i < r.len(),
    ensures
        m.contains(r[i]),
{
    let s = choose|s: Seq<MirrorMetadata>| sort_post(SortOpts::Age, Seq::empty(), m, s) && r == first_n(s, n);
    let p = choose|p: Seq<int>| crate::sort::stably_sorted_by(SortOpts::Age, Seq::empty(), m, s, p);
    assert(s[i] == m[p[i]]);
}

/// Every record the `latest` and `number` limits keep comes from their input.
proof fn lemma_limits_from(opts: FilterOpts, t: Seq<MirrorMetadata>, r: Seq<MirrorMetadata>, i: int)
    requires
        limits_post(opts, t, r),
        0 <= i < r.len(),
    ensures
        t.contains(r[i]),
{
    let l = choose|l: Seq<MirrorMetadata>| #[trigger] latest_step(opts, t, l) && r == number_step(opts, l);
    assert(r[i] == l[i]);
    match opts.latest {
        Some(n) => lemma_most_recent_from(t, n as nat, l, i),
        None => assert(t[i] == l[i]),
    }
}

/// Every record a stable sort puts out comes from its input.
proof fn lemma_sort_from(sort: Option<SortOpts>, order: Seq<String>, f: Seq<MirrorMetadata>, t: Seq<MirrorMetadata>, i: int)
    requires
        sort_step(sort, order, f, t),
        0 <= i < t.len(),
    ensures
        f.contains(t[i]),
{
    if let Some(k) = sort {
        let p = choose|p: Seq<int>| crate::sort::stably_sorted_by(k, order, f, t, p);
        assert(t[i] == f[p[i]]);
    } else {
        assert(f[i] == t[i]);
    }
}

/// Every filtered record is active.
proof fn lemma_filtered_active(opts: FilterOpts, now: i64, s: Seq<MirrorMetadata>, m: MirrorMetadata)
    requires
        filtered(opts, now, s).contains(m),
    ensures
        m.active,
{
    let f = filtered(opts, now, s);
    let k = choose|k: int| 0 <= k < f.len() && f[k] == m;
    assert(passes(opts, now, f[k]));
}

/// No inactive mirror comes out of the filters and limits, whatever the options.
pub proof fn lemma_inactive_never_kept(opts: FilterOpts, now: i64, s: Seq<MirrorMetadata>, r: Seq<MirrorMetadata>)
    requires
        pipeline_post(opts, now, s, r),
    ensures
        forall|i: int| 0 <= i < r.len() ==> (#[trigger] r[i]).active,
{
    assert forall|i: int| 0 <= i < r.len() implies (#[trigger] r[i]).active by {
        lemma_limits_from(opts, filtered(opts, now, s), r, i);
        lemma_filtered_active(opts, now, s, r[i]);
    }
}

/// No inactive mirror comes out of the whole pipeline, whatever the options and sort.
pub proof fn lemma_inactive_never_selected(
    opts: FilterOpts,
    sort: Option<SortOpts>,
    order: Seq<String>,
    now: i64,
    s: Seq<MirrorMetadata>,
    r: Seq<MirrorMetadata>,
)
    requires
        selection_post(opts, sort, order, now, s, r),
    ensures
        forall|i: int| 0 <= i < r.len() ==> (#[trigger] r[i]).active,
{
    let f = filtered(opts, now, s);
    let t = choose|t: Seq<MirrorMetadata>| #[trigger] sort_step(sort, order, f, t) && limits_post(opts, t, r);
    assert forall|i: int| 0 <= i < r.len() implies (#[trigger] r[i]).active by {
        lemma_limits_from(opts, t, r, i);
        let j = choose|j: int| 0 <= j < t.len() && t[j] == r[i];
        lemma_sort_from(sort, order, f, t, j);
        lemma_filtered_active(opts, now, s, r[i]);
    }
}

/// With no other filter enabled, an active record survives exactly when its completion
/// fraction times 100 reaches the threshold, the boundary included.
pub proof fn lemma_completion_threshold(opts: FilterOpts, now: i64, s: Seq<MirrorMetadata>, m: MirrorMetadata)
    requires
        s.contains(m),
        m.active,
        opts.age is None,
        opts.delay is None,
        opts.include_re is None,
        opts.exclude_re is None,
        opts.protocol is None,
        !opts.isos,
        !opts.ipv4,
        !opts.ipv6,
    ensures
        filtered(opts, now, s).contains(m) <==> m.completion_ppm as int * 100
            >= opts.completion_percent as int * 1000000,
{
    lemma_survives_iff_passes(opts, now, s, m);
}

/// The filters commute: applying criterion `a` then `b` keeps the same records, in the
/// same order, as applying `b` then `a`.
pub proof fn lemma_filters_commute(s: Seq<MirrorMetadata>, a: Criterion, b: Criterion)
    ensures
        kept(kept(s, a), b) == kept(kept(s, b), a),
{
    let pa = |m: MirrorMetadata| a.holds(m);
    let pb = |m: MirrorMetadata| b.holds(m);
    lemma_filter_twice(s, pa, pb);
    lemma_filter_twice(s, pb, pa);
    lemma_filter_ext(s, |m: MirrorMetadata| pa(m) && pb(m), |m: MirrorMetadata| pb(m) && pa(m));
}

/// A prefix of a sequence in key order is in key order.
proof fn lemma_first_n_in_order(s: Seq<MirrorMetadata>, n: nat)
    requires
        in_key_order(SortOpts::Age, Seq::empty(), s),
    ensures
        in_key_order(SortOpts::Age, Seq::empty(), first_n(s, n)),
        first_n(s, n).len() <= n,
        first_n(s, n).len() <= s.len(),
{
    let r = first_n(s, n);
    assert forall|a: int, b: int| 0 <= a < b < r.len() implies !lex_lt(
        #[trigger] sort_key(SortOpts::Age, Seq::empty(), r[b]),
        #[trigger] sort_key(SortOpts::Age, Seq::empty(), r[a]),
    ) by {
        assert(r[a] == s[a] && r[b] == s[b]);
    }
}

/// Taking the `n` most recent records of the `n` most recent records changes nothing,
/// and there are at most `n` of them.
pub proof fn lemma_most_recent_idempotent(
    m: Seq<MirrorMetadata>,
    n: nat,
    r1: Seq<MirrorMetadata>,
    r2: Seq<MirrorMetadata>,
)
    requires
        most_recent_post(m, n, r1),
        most_recent_post(r1, n, r2),
    ensures
        r2 == r1,
        r1.len() <= n,
{
    let s1 = choose|s: Seq<MirrorMetadata>| sort_post(SortOpts::Age, Seq::empty(), m, s) && r1 == first_n(s, n);
    let p1 = choose|p: Seq<int>| crate::sort::stably_sorted_by(SortOpts::Age, Seq::empty(), m, s1, p);
    lemma_first_n_in_order(s1, n);
    let s2 = choose|s: Seq<MirrorMetadata>| sort_post(SortOpts::Age, Seq::empty(), r1, s) && r2 == first_n(s, n);
    assert(s2 == r1);
}

/// Whether `x` synchronised no earlier than `y`, a missing time being the earliest.
pub open spec fn synced_no_earlier(x: MirrorMetadata, y: MirrorMetadata) -> bool {
    match (x.last_sync, y.last_sync) {
        (_, None) => true,
        (None, Some(_)) => false,
        (Some(a), Some(b)) => a >= b,
    }
}

/// The recency key orders records from the most recently synchronised down.
pub proof fn lemma_recency_key(x: MirrorMetadata, y: MirrorMetadata)
    requires
        !lex_lt(sort_key(SortOpts::Age, Seq::empty(), y), sort_key(SortOpts::Age, Seq::empty(), x)),
    ensures
        synced_no_earlier(x, y),
{
    reveal_with_fuel(lex_lt, 3);
    let kx = sort_key(SortOpts::Age, Seq::empty(), x);
    let ky = sort_key(SortOpts::Age, Seq::empty(), y);
    if x.last_sync is None && y.last_sync is Some {
        assert(ky[0] < kx[0]);
    }
    if x.last_sync is Some && y.last_sync is Some {
        assert(ky[0] == kx[0]);
        assert(ky.drop_first()[0] == ky[1]);
        assert(kx.drop_first()[0] == kx[1]);
    }
}

/// Each record that the most-recent step keeps synchronised no earlier than each record
/// it leaves out: the input is rearranged into `s`, of which `r` is the front.
pub proof fn lemma_most_recent_newest(m: Seq<MirrorMetadata>, n: nat, r: Seq<MirrorMetadata>)
    requires
        most_recent_post(m, n, r),
    ensures
        exists|s: Seq<MirrorMetadata>| #![trigger sort_post(SortOpts::Age, Seq::empty(), m, s)]
            {
                &&& sort_post(SortOpts::Age, Seq::empty(), m, s)
                &&& r == first_n(s, n)
                &&& forall|a: int, b: int|
                    0 <= a < r.len() <= b < s.len() ==> synced_no_earlier(#[trigger] s[a], #[trigger] s[b])
            },
{
    let s = choose|s: Seq<MirrorMetadata>| sort_post(SortOpts::Age, Seq::empty(), m, s) && r == first_n(s, n);
    let p = choose|p: Seq<int>| crate::sort::stably_sorted_by(SortOpts::Age, Seq::empty(), m, s, p);
    assert forall|a: int, b: int| 0 <= a < r.len() <= b < s.len() implies synced_no_earlier(
        #[trigger] s[a],
        #[trigger] s[b],
    ) by {
        lemma_recency_key(s[a], s[b]);
    }
}

/// A stale or unexaminable cache entry leads straight to a fetch.
pub proof fn lemma_stale_entry_fetches(modified: Option<i64>, now: i64, ttl: u64)
    requires
        expired(modified, now, ttl),
    ensures
        transition(ProviderStep::LookingUp, ProviderEvent::Stat(modified), now, ttl) == (
            ProviderStep::Fetching,
            ProviderAction::Fetch,
        ),
{
}

/// A fresh cache entry that reads back is used as it is, with no fetch, whatever follows.
pub proof fn lemma_fresh_entry_no_fetch(modified: Option<i64>, now: i64, ttl: u64, rest: Seq<ProviderEvent>)
    requires
        !expired(modified, now, ttl),
    ensures
        ({
            let events = seq![ProviderEvent::Stat(modified), ProviderEvent::Read(true)] + rest;
            let actions = run(ProviderStep::LookingUp, events, now, ttl);
            &&& actions[0] == ProviderAction::ReadCache
            &&& actions[1] == ProviderAction::UseCached
            &&& fetch_count(actions) == 0
        }),
{
    let events = seq![ProviderEvent::Stat(modified), ProviderEvent::Read(true)] + rest;
    let e1 = seq![ProviderEvent::Read(true)] + rest;
    assert(events.drop_first() =~= e1);
    assert(e1.drop_first() =~= rest);
    assert(events[0] == ProviderEvent::Stat(modified));
    assert(e1[0] == ProviderEvent::Read(true));
    lemma_no_fetch_after(ProviderStep::Finished, rest, now, ttl);
    let a2 = run(ProviderStep::Finished, rest, now, ttl);
    let a1 = seq![ProviderAction::UseCached] + a2;
    assert(run(ProviderStep::Reading, e1, now, ttl) == a1);
    let a0 = seq![ProviderAction::ReadCache] + a1;
    assert(run(ProviderStep::LookingUp, events, now, ttl) == a0);
    assert(a1.drop_first() =~= a2);
    assert(a0.drop_first() =~= a1);
    assert(fetch_count(a1) == 0);
}

/// From a step past the fetch, no further fetch is asked for.
proof fn lemma_no_fetch_after(step: ProviderStep, events: Seq<ProviderEvent>, now: i64, ttl: u64)
    requires
        step == ProviderStep::Fetching || step == ProviderStep::Writing || step == ProviderStep::Finished,
    ensures
        fetch_count(run(step, events, now, ttl)) == 0,
    decreases events.len(),
{
    if events.len() > 0 {
        let (next, action) = transition(step, events[0], now, ttl);
        lemma_no_fetch_after(next, events.drop_first(), now, ttl);
        let rest = run(next, events.drop_first(), now, ttl);
        assert((seq![action] + rest).drop_first() =~= rest);
    }
}

/// At most one fetch per acquisition, from a cache lookup or a cache read onwards.
pub proof fn lemma_at_most_one_fetch(step: ProviderStep, events: Seq<ProviderEvent>, now: i64, ttl: u64)
    ensures
        fetch_count(run(step, events, now, ttl)) <= 1,
    decreases events.len(),
{
    if events.len() > 0 {
        let (next, action) = transition(step, events[0], now, ttl);
        let rest = run(next, events.drop_first(), now, ttl);
        assert((seq![action] + rest).drop_first() =~= rest);
        if action == ProviderAction::Fetch {
            lemma_no_fetch_after(next, events.drop_first(), now, ttl);
        } else {
            lemma_at_most_one_fetch(next, events.drop_first(), now, ttl);
        }
    }
}

/// The same URL always gives the same cache key.
pub proof fn lemma_cache_key_deterministic(u1: Seq<char>, u2: Seq<char>)
    requires
        u1 == u2,
    ensures
        cache_key_of(u1) == cache_key_of(u2),
{
}

} // verus!
