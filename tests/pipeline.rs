use rflector::cache::{
    cache_key, get_cache_file, is_cache_expired, next_step, ProviderAction, ProviderEvent,
    ProviderStep,
};
use rflector::filters::{filter_mirrors, retain_where, Criterion, FilterOpts, Filters};
use rflector::pattern::{completion_threshold, FilterError, UrlPattern};
use rflector::sort::{lex_less, limit, most_recent, sort_mirrors};
use rflector::types::{MirrorMetadata, MirrorsStatus, Protocol, SortOpts};

fn mirror(url: &str, protocol: Protocol, active: bool, completion_ppm: u32) -> MirrorMetadata {
    MirrorMetadata {
        url: url.to_string(),
        protocol,
        last_sync: Some(1_000_000),
        completion_ppm,
        delay: Some(10),
        duration_avg: None,
        duration_stddev: None,
        score: None,
        active,
        country: "Germany".to_string(),
        country_code: "DE".to_string(),
        isos: true,
        ipv4: true,
        ipv6: false,
        details: String::new(),
    }
}

fn no_filters() -> FilterOpts {
    FilterOpts {
        age: None,
        delay: None,
        include_re: None,
        exclude_re: None,
        latest: None,
        number: None,
        protocol: None,
        completion_percent: 0,
        isos: false,
        ipv4: false,
        ipv6: false,
    }
}

fn status(urls: Vec<MirrorMetadata>) -> MirrorsStatus {
    MirrorsStatus { cutoff: 3600, last_check: 2_000_000, num_checks: 10, check_frequency: 60, urls, version: 3 }
}

fn url_list(v: &[MirrorMetadata]) -> Vec<String> {
    v.iter().map(|m| m.url.clone()).collect()
}

#[test]
fn three_mirror_scenario() {
    let a = mirror("https://a.example/", Protocol::Https, true, 1_000_000);
    let b = mirror("http://b.example/", Protocol::Http, true, 500_000);
    let c = mirror("https://c.example/", Protocol::Https, false, 1_000_000);
    let mut opts = no_filters();
    opts.completion_percent = 90;
    opts.protocol = Some(vec![Protocol::Https]);
    let r = status(vec![a, b, c]).filter_by_opts_at(&opts, 2_000_000);
    assert_eq!(r.urls(), vec!["https://a.example/".to_string()]);
}

#[test]
fn age_filter_scenario() {
    let now = 10_000_000;
    let mut two = mirror("https://two.example/", Protocol::Https, true, 1_000_000);
    two.last_sync = Some(now - 2 * 3600);
    let mut six = mirror("https://six.example/", Protocol::Https, true, 1_000_000);
    six.last_sync = Some(now - 6 * 3600);
    let mut never = mirror("https://never.example/", Protocol::Https, true, 1_000_000);
    never.last_sync = None;
    let mut opts = no_filters();
    opts.age = Some(3 * 3600);
    let r = filter_mirrors(&vec![two, six, never], &opts, now);
    assert_eq!(url_list(&r), vec!["https://two.example/".to_string()]);
}

#[test]
fn age_filter_at_current_time() {
    let now = chrono::Utc::now().timestamp();
    let mut two = mirror("https://two.example/", Protocol::Https, true, 1_000_000);
    two.last_sync = Some(now - 2 * 3600);
    let mut six = mirror("https://six.example/", Protocol::Https, true, 1_000_000);
    six.last_sync = Some(now - 6 * 3600);
    let mut opts = no_filters();
    opts.age = Some(3 * 3600);
    let r = status(vec![two, six]).filter_by_opts(&opts);
    assert_eq!(r.version, 3);
    assert_eq!(r.urls(), vec!["https://two.example/".to_string()]);
}

#[test]
fn inactive_never_kept() {
    let a = mirror("https://a.example/", Protocol::Https, false, 1_000_000);
    let b = mirror("https://b.example/", Protocol::Https, false, 1_000_000);
    let r = Filters::new(vec![a, b]).apply_filters_at(&no_filters(), 0);
    assert!(r.is_empty());
}

#[test]
fn completion_boundary_is_inclusive() {
    let at = mirror("https://at.example/", Protocol::Https, true, 900_000);
    let below = mirror("https://below.example/", Protocol::Https, true, 899_999);
    let mut opts = no_filters();
    opts.completion_percent = 90;
    let r = filter_mirrors(&vec![at, below], &opts, 0);
    assert_eq!(url_list(&r), vec!["https://at.example/".to_string()]);
}

#[test]
fn default_completion_needs_full_mirror() {
    let full = mirror("https://full.example/", Protocol::Https, true, 1_000_000);
    let almost = mirror("https://almost.example/", Protocol::Https, true, 999_999);
    let mut opts = no_filters();
    opts.completion_percent = 100;
    let r = filter_mirrors(&vec![full, almost], &opts, 0);
    assert_eq!(url_list(&r), vec!["https://full.example/".to_string()]);
}

#[test]
fn filters_commute_on_example() {
    let v = vec![
        mirror("https://a.example/", Protocol::Https, true, 1_000_000),
        mirror("http://b.example/", Protocol::Http, true, 1_000_000),
        mirror("https://c.example/", Protocol::Https, true, 500_000),
    ];
    let ps = vec![Protocol::Https];
    let x = Criterion::Protocols(&ps);
    let y = Criterion::Completion(90);
    let xy = retain_where(&retain_where(&v, &x), &y);
    let yx = retain_where(&retain_where(&v, &y), &x);
    assert_eq!(url_list(&xy), url_list(&yx));
    assert_eq!(url_list(&xy), vec!["https://a.example/".to_string()]);
}

#[test]
fn regex_filters() {
    let v = vec![
        mirror("https://mirror.de/", Protocol::Https, true, 1_000_000),
        mirror("https://mirror.fr/", Protocol::Https, true, 1_000_000),
        mirror("https://other.de/", Protocol::Https, true, 1_000_000),
    ];
    let mut opts = no_filters();
    opts.include_re = Some(UrlPattern::new(r"\.de/$").unwrap());
    opts.exclude_re = Some(UrlPattern::new("other").unwrap());
    let r = filter_mirrors(&v, &opts, 0);
    assert_eq!(url_list(&r), vec!["https://mirror.de/".to_string()]);
}

#[test]
fn invalid_regex_is_rejected() {
    assert_eq!(UrlPattern::new("(unclosed").unwrap_err(), FilterError::InvalidRegex);
    assert_eq!(UrlPattern::new("ok+").unwrap().as_str(), "ok+");
}

#[test]
fn delay_and_flag_filters() {
    let mut slow = mirror("https://slow.example/", Protocol::Https, true, 1_000_000);
    slow.delay = Some(30);
    let mut unknown = mirror("https://unknown.example/", Protocol::Https, true, 1_000_000);
    unknown.delay = None;
    let mut v6 = mirror("https://v6.example/", Protocol::Https, true, 1_000_000);
    v6.ipv6 = true;
    let mut opts = no_filters();
    opts.delay = Some(15 * 60);
    let r = filter_mirrors(&vec![slow, unknown, v6.clone()], &opts, 0);
    assert_eq!(url_list(&r), vec!["https://v6.example/".to_string()]);
    let mut opts6 = no_filters();
    opts6.ipv6 = true;
    let plain = mirror("https://plain.example/", Protocol::Https, true, 1_000_000);
    let r6 = filter_mirrors(&vec![plain, v6], &opts6, 0);
    assert_eq!(url_list(&r6), vec!["https://v6.example/".to_string()]);
}

#[test]
fn sort_is_stable() {
    let mut a = mirror("https://a.example/", Protocol::Https, true, 1_000_000);
    a.score = Some(5);
    let mut b = mirror("https://b.example/", Protocol::Https, true, 1_000_000);
    b.score = Some(1);
    let mut c = mirror("https://c.example/", Protocol::Https, true, 1_000_000);
    c.score = Some(5);
    let mut d = mirror("https://d.example/", Protocol::Https, true, 1_000_000);
    d.score = None;
    let r = sort_mirrors(&vec![d, a, b, c], SortOpts::Score, &vec![]);
    assert_eq!(
        url_list(&r),
        vec!["https://b.example/", "https://a.example/", "https://c.example/", "https://d.example/"]
    );
}

#[test]
fn sort_by_country_with_preference() {
    let mut x = mirror("https://x.example/", Protocol::Https, true, 1_000_000);
    x.country = "Austria".to_string();
    let mut y = mirror("https://y.example/", Protocol::Https, true, 1_000_000);
    y.country = "Sweden".to_string();
    let mut z = mirror("https://z.example/", Protocol::Https, true, 1_000_000);
    z.country = "France".to_string();
    let v = vec![y, x, z];
    let plain = sort_mirrors(&v, SortOpts::Country, &vec![]);
    assert_eq!(url_list(&plain), vec!["https://x.example/", "https://z.example/", "https://y.example/"]);
    let pref = sort_mirrors(&v, SortOpts::Country, &vec!["Sweden".to_string()]);
    assert_eq!(url_list(&pref), vec!["https://y.example/", "https://x.example/", "https://z.example/"]);
}

#[test]
fn sort_by_age_rate_and_delay() {
    let mut old = mirror("https://old.example/", Protocol::Https, true, 1_000_000);
    old.last_sync = Some(100);
    old.duration_avg = Some(2);
    old.delay = Some(1);
    let mut new = mirror("https://new.example/", Protocol::Https, true, 1_000_000);
    new.last_sync = Some(200);
    new.duration_avg = Some(1);
    new.delay = None;
    let v = vec![old, new];
    assert_eq!(url_list(&sort_mirrors(&v, SortOpts::Age, &vec![])), vec!["https://new.example/", "https://old.example/"]);
    assert_eq!(url_list(&sort_mirrors(&v, SortOpts::Rate, &vec![])), vec!["https://new.example/", "https://old.example/"]);
    assert_eq!(url_list(&sort_mirrors(&v, SortOpts::Delay, &vec![])), vec!["https://old.example/", "https://new.example/"]);
}

#[test]
fn most_recent_is_idempotent() {
    let mut v = Vec::new();
    for (i, t) in [Some(50), None, Some(300), Some(100), Some(300)].iter().enumerate() {
        let mut m = mirror(&format!("https://m{}.example/", i), Protocol::Https, true, 1_000_000);
        m.last_sync = *t;
        v.push(m);
    }
    let once = most_recent(&v, 3);
    assert_eq!(url_list(&once), vec!["https://m2.example/", "https://m4.example/", "https://m3.example/"]);
    let twice = most_recent(&once, 3);
    assert_eq!(url_list(&twice), url_list(&once));
    assert_eq!(most_recent(&v, 10).len(), 5);
    assert_eq!(url_list(&most_recent(&v, 10))[4], "https://m1.example/");
}

#[test]
fn latest_and_number_limits() {
    let mut v = Vec::new();
    for i in 0..4i64 {
        let mut m = mirror(&format!("https://n{}.example/", i), Protocol::Https, true, 1_000_000);
        m.last_sync = Some(i * 10);
        v.push(m);
    }
    let mut opts = no_filters();
    opts.latest = Some(3);
    opts.number = Some(2);
    let r = status(v.clone()).filter_by_opts_at(&opts, 100);
    assert_eq!(r.urls(), vec!["https://n3.example/".to_string(), "https://n2.example/".to_string()]);
    assert_eq!(limit(&v, 9).len(), 4);
    assert_eq!(url_list(&status(v).n_urls(1).urls), vec!["https://n0.example/"]);
}

#[test]
fn cache_key_is_base64_url() {
    assert_eq!(cache_key("abc"), "YWJj");
    assert_eq!(cache_key("a?>"), "YT8-");
    assert_eq!(get_cache_file("ab"), "YWI.json");
    assert_eq!(cache_key("https://x/"), cache_key("https://x/"));
    assert_ne!(cache_key("https://x/"), cache_key("https://y/"));
}

#[test]
fn cache_expiry() {
    assert!(is_cache_expired(None, 1000, 300));
    assert!(!is_cache_expired(Some(700), 1000, 300));
    assert!(is_cache_expired(Some(699), 1000, 300));
}

#[test]
fn provider_steps() {
    let (s, a) = next_step(ProviderStep::LookingUp, ProviderEvent::Stat(Some(900)), 1000, 300);
    assert_eq!((s, a), (ProviderStep::Reading, ProviderAction::ReadCache));
    assert_eq!(next_step(s, ProviderEvent::Read(true), 1000, 300), (ProviderStep::Finished, ProviderAction::UseCached));
    assert_eq!(next_step(s, ProviderEvent::Read(false), 1000, 300), (ProviderStep::Fetching, ProviderAction::Fetch));
    let (s2, a2) = next_step(ProviderStep::LookingUp, ProviderEvent::Stat(Some(100)), 1000, 300);
    assert_eq!((s2, a2), (ProviderStep::Fetching, ProviderAction::Fetch));
    let (s3, a3) = next_step(s2, ProviderEvent::Fetched(true), 1000, 300);
    assert_eq!((s3, a3), (ProviderStep::Writing, ProviderAction::WriteCache));
    assert_eq!(next_step(s3, ProviderEvent::Written(false), 1000, 300), (ProviderStep::Finished, ProviderAction::UseFetched));
    assert_eq!(next_step(s2, ProviderEvent::Fetched(false), 1000, 300), (ProviderStep::Finished, ProviderAction::Fail));
}

#[test]
fn protocol_names_and_key_order() {
    assert_eq!(Protocol::Https.fmt(), "https");
    assert_eq!(Protocol::Rsync.fmt(), "rsync");
    assert!(lex_less(&vec![0, 5], &vec![0, 6]));
    assert!(lex_less(&vec![0], &vec![0, 1]));
    assert!(!lex_less(&vec![1], &vec![0, 9]));
}

#[test]
fn completion_threshold_range() {
    assert_eq!(completion_threshold(0), Ok(0));
    assert_eq!(completion_threshold(100), Ok(100));
    assert_eq!(completion_threshold(101), Err(FilterError::CompletionOutOfRange));
}

#[test]
fn select_sorts_before_limits() {
    let mut v = Vec::new();
    for (i, score) in [Some(9), Some(3), None, Some(1)].iter().enumerate() {
        let mut m = mirror(&format!("https://s{}.example/", i), Protocol::Https, true, 1_000_000);
        m.score = *score;
        v.push(m);
    }
    v[1].active = false;
    let mut opts = no_filters();
    opts.number = Some(2);
    let r = status(v).select_at(&opts, Some(SortOpts::Score), &vec![], 0);
    assert_eq!(r.urls(), vec!["https://s3.example/".to_string(), "https://s0.example/".to_string()]);
}
