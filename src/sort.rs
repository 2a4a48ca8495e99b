use vstd::prelude::*;
use vstd::string::StrSliceExecFns;
use crate::types::{MirrorMetadata, SortOpts};

verus! {

/// Strict lexicographic order on integer sequences; a proper prefix comes first.
pub open spec fn lex_lt(a: Seq<i128>, b: Seq<i128>) -> bool
    decreases a.len(),
{
    if a.len() == 0 {
        b.len() > 0
    } else if b.len() == 0 {
        false
    } else if a[0] != b[0] {
        a[0] < b[0]
    } else {
        lex_lt(a.drop_first(), b.drop_first())
    }
}

/// No sequence comes before itself.
pub proof fn lemma_lex_irreflexive(a: Seq<i128>)
    ensures
        !lex_lt(a, a),
    decreases a.len(),
{
    if a.len() > 0 {
        lemma_lex_irreflexive(a.drop_first());
    }
}

/// The lexicographic order is transitive.
pub proof fn lemma_lex_transitive(a: Seq<i128>, b: Seq<i128>, c: Seq<i128>)
    requires
        lex_lt(a, b),
        lex_lt(b, c),
    ensures
        lex_lt(a, c),
    decreases a.len(),
{
    if a.len() > 0 && b.len() > 0 && c.len() > 0 && a[0] == b[0] && b[0] == c[0] {
        lemma_lex_transitive(a.drop_first(), b.drop_first(), c.drop_first());
    }
}

/// Of two distinct sequences, one comes before the other.
pub proof fn lemma_lex_total(a: Seq<i128>, b: Seq<i128>)
    ensures
        a == b || lex_lt(a, b) || lex_lt(b, a),
    decreases a.len(),
{
    if a.len() > 0 && b.len() > 0 && a[0] == b[0] {
        lemma_lex_total(a.drop_first(), b.drop_first());
        if a.drop_first() == b.drop_first() {
            assert(a =~= seq![a[0]] + a.drop_first());
            assert(b =~= seq![b[0]] + b.drop_first());
        }
    } else if a.len() == 0 && b.len() == 0 {
        assert(a =~= b);
    }
}

/// No two sequences each come before the other.
pub proof fn lemma_lex_asymmetric(a: Seq<i128>, b: Seq<i128>)
    ensures
        !(lex_lt(a, b) && lex_lt(b, a)),
{
    if lex_lt(a, b) && lex_lt(b, a) {
        lemma_lex_transitive(a, b, a);
        lemma_lex_irreflexive(a);
    }
}

/// Decides `lex_lt(a@, b@)`.
pub fn lex_less(a: &Vec<i128>, b: &Vec<i128>) -> (r: bool)
    ensures
        r == lex_lt(a@, b@),
{
    let mut i: usize = 0;
    assert(a@.skip(0) =~= a@);
    assert(b@.skip(0) =~= b@);
    while i < a.len() && i < b.len()
        invariant
            i <= a.len(),
            i <= b.len(),
            lex_lt(a@, b@) == lex_lt(a@.skip(i as int), b@.skip(i as int)),
        decreases a.len() - i,
    {
        if a[i] != b[i] {
            return a[i] < b[i];
        }
        assert(a@.skip(i as int).drop_first() =~= a@.skip(i + 1));
        assert(b@.skip(i as int).drop_first() =~= b@.skip(i + 1));
        i = i + 1;
    }
    i < b.len()
}


/// Key of an optional value that sorts ascending, a missing value last.
pub open spec fn missing_last(v: Option<u64>) -> Seq<i128> {
    match v {
        Some(x) => seq![0i128, x as i128],
        None => seq![1i128],
    }
}

/// Key of an optional time that sorts the most recent first, a missing time last.
pub open spec fn recency_key(t: Option<i64>) -> Seq<i128> {
    match t {
        Some(x) => seq![0i128, (0 - x) as i128],
        None => seq![1i128],
    }
}

/// Position of the first entry of `order` equal to `c`, or the length of `order`.
pub open spec fn group_of(order: Seq<String>, c: Seq<char>) -> nat
    decreases order.len(),
{
    if order.len() == 0 {
        0
    } else if order[0]@ == c {
        0
    } else {
        1 + group_of(order.drop_first(), c)
    }
}

/// The code points of `s`.
pub open spec fn char_codes(s: Seq<char>) -> Seq<i128> {
    s.map_values(|ch: char| ch as u32 as i128)
}

/// The key by which `opts` orders mirror `m`; `order` lists preferred countries.
pub open spec fn sort_key(opts: SortOpts, order: Seq<String>, m: MirrorMetadata) -> Seq<i128> {
    match opts {
        SortOpts::Age => recency_key(m.last_sync),
        SortOpts::Rate => missing_last(m.duration_avg),
        SortOpts::Score => missing_last(m.score),
        SortOpts::Delay => missing_last(m.delay),
        SortOpts::Country => seq![group_of(order, m.country@) as i128] + char_codes(m.country@),
    }
}

fn missing_last_key(v: Option<u64>) -> (r: Vec<i128>)
    ensures
        r@ == missing_last(v),
{
    let mut r: Vec<i128> = Vec::new();
    match v {
        Some(x) => {
            r.push(0);
            r.push(x as i128);
        },
        None => r.push(1),
    }
    assert(r@ =~= missing_last(v));
    r
}

fn country_group(order: &Vec<String>, c: &String) -> (r: usize)
    ensures
        r as nat == group_of(order@, c@),
{
    let mut i: usize = 0;
    assert(order@.skip(0) =~= order@);
    while i < order.len()
        invariant
            i <= order.len(),
            group_of(order@, c@) == i + group_of(order@.skip(i as int), c@),
        decreases order.len() - i,
    {
        if order[i] == *c {
            return i;
        }
        assert(order@.skip(i as int).drop_first() =~= order@.skip(i + 1));
        i = i + 1;
    }
    i
}

/// The key by which `opts` orders `m`.
pub fn key_of(opts: SortOpts, order: &Vec<String>, m: &MirrorMetadata) -> (r: Vec<i128>)
    ensures
        r@ == sort_key(opts, order@, *m),
{
    match opts {
        SortOpts::Age => {
            let mut r: Vec<i128> = Vec::new();
            match m.last_sync {
                Some(t) => {
                    r.push(0);
                    r.push(0 - (t as i128));
                },
                None => r.push(1),
            }
            assert(r@ =~= recency_key(m.last_sync));
            r
        },
        SortOpts::Rate => missing_last_key(m.duration_avg),
        SortOpts::Score => missing_last_key(m.score),
        SortOpts::Delay => missing_last_key(m.delay),
        SortOpts::Country => {
            let mut r: Vec<i128> = Vec::new();
            r.push(country_group(order, &m.country) as i128);
            let s = m.country.as_str();
            let n = s.unicode_len();
            let mut i: usize = 0;
            while i < n
                invariant
                    n == s@.len(),
                    s@ == m.country@,
                    i <= n,
                    r@ == seq![group_of(order@, m.country@) as i128] + char_codes(s@.take(i as int)),
                decreases n - i,
            {
                let ch = s.get_char(i);
                r.push(ch as u32 as i128);
                assert(char_codes(s@.take(i + 1)) =~= char_codes(s@.take(i as int)).push(ch as u32 as i128));
                i = i + 1;
            }
            assert(s@.take(n as int) =~= s@);
            r
        },
    }
}


/// Index `x` comes before index `y`: a smaller key, or an equal key and an earlier place.
pub open spec fn before(keys: Seq<Vec<i128>>, x: int, y: int) -> bool {
    lex_lt(keys[x]@, keys[y]@) || (keys[x]@ == keys[y]@ && x < y)
}

/// The indices `p` are listed in the order `before`.
pub open spec fn ordered_by(keys: Seq<Vec<i128>>, p: Seq<usize>) -> bool {
    forall|a: int, b: int|
        0 <= a < b < p.len() ==> #[trigger] before(keys, p[a] as int, p[b] as int)
}

/// The keys are already in ascending order.
pub open spec fn keys_sorted(keys: Seq<Vec<i128>>) -> bool {
    forall|a: int, b: int| 0 <= a < b < keys.len() ==> !lex_lt(#[trigger] keys[b]@, #[trigger] keys[a]@)
}

proof fn lemma_before_transitive(keys: Seq<Vec<i128>>, x: int, y: int, z: int)
    requires
        before(keys, x, y),
        before(keys, y, z),
    ensures
        before(keys, x, z),
{
    if lex_lt(keys[x]@, keys[y]@) && lex_lt(keys[y]@, keys[z]@) {
        lemma_lex_transitive(keys[x]@, keys[y]@, keys[z]@);
    }
}

proof fn lemma_before_facts(keys: Seq<Vec<i128>>, x: int, y: int)
    requires
        before(keys, x, y),
    ensures
        !lex_lt(keys[y]@, keys[x]@),
        keys[x]@ == keys[y]@ ==> x < y,
        x != y,
{
    lemma_lex_asymmetric(keys[x]@, keys[y]@);
    lemma_lex_irreflexive(keys[x]@);
}

fn insert_position(keys: &Vec<Vec<i128>>, p: &Vec<usize>, i: usize) -> (j: usize)
    requires
        i < keys.len(),
        forall|t: int| 0 <= t < p.len() ==> p@[t] < keys.len(),
    ensures
        j <= p.len(),
        forall|t: int| j <= t < p.len() ==> lex_lt(keys@[i as int]@, keys@[p@[t] as int]@),
        j > 0 ==> !lex_lt(keys@[i as int]@, keys@[p@[j - 1] as int]@),
{
    let mut j: usize = p.len();
    loop
        invariant
            i < keys.len(),
            forall|t: int| 0 <= t < p.len() ==> p@[t] < keys.len(),
            j <= p.len(),
            forall|t: int| j <= t < p.len() ==> lex_lt(keys@[i as int]@, keys@[p@[t] as int]@),
        ensures
            j <= p.len(),
            forall|t: int| j <= t < p.len() ==> lex_lt(keys@[i as int]@, keys@[p@[t] as int]@),
            j > 0 ==> !lex_lt(keys@[i as int]@, keys@[p@[j - 1] as int]@),
        decreases j,
    {
        if j == 0 {
            break;
        }
        if !lex_less(&keys[i], &keys[p[j - 1]]) {
            break;
        }
        j = j - 1;
    }
    j
}

/// The indices of `keys` in ascending order of key, equal keys in their order:
/// a stable insertion sort.
pub fn sort_indices(keys: &Vec<Vec<i128>>) -> (p: Vec<usize>)
    ensures
        p.len() == keys.len(),
        forall|t: int| 0 <= t < p.len() ==> p@[t] < keys.len(),
        ordered_by(keys@, p@),
        keys_sorted(keys@) ==> p@ == Seq::new(keys.len() as nat, |t: int| t as usize),
{
    let mut p: Vec<usize> = Vec::new();
    let mut i: usize = 0;
    while i < keys.len()
        invariant
            i <= keys.len(),
            p.len() == i,
            forall|t: int| 0 <= t < p.len() ==> p@[t] < i,
            ordered_by(keys@, p@),
            keys_sorted(keys@) ==> p@ == Seq::new(i as nat, |t: int| t as usize),
        decreases keys.len() - i,
    {
        let j = insert_position(keys, &p, i);
        let ghost old_p = p@;
        proof {
            if j > 0 {
                let y = old_p[j - 1] as int;
                lemma_lex_total(keys@[i as int]@, keys@[y]@);
                assert(before(keys@, y, i as int));
            }
        }
        p.insert(j, i);
        proof {
            let k = keys@;
            assert forall|a: int, b: int| 0 <= a < b < p@.len() implies #[trigger] before(k, p@[a] as int, p@[b] as int) by {
                if b < j {
                    assert(before(k, old_p[a] as int, old_p[b] as int));
                } else if a > j {
                    assert(before(k, old_p[a - 1] as int, old_p[b - 1] as int));
                } else if a < j && b > j {
                    assert(before(k, old_p[a] as int, old_p[b - 1] as int));
                } else if a == j {
                    assert(lex_lt(k[i as int]@, k[old_p[b - 1] as int]@));
                } else {
                    if a < j - 1 {
                        assert(before(k, old_p[a] as int, old_p[j - 1] as int));
                        lemma_before_transitive(k, old_p[a] as int, old_p[j - 1] as int, i as int);
                    }
                }
            }
            if keys_sorted(k) {
                if j < old_p.len() {
                    assert(old_p[old_p.len() - 1] == i - 1);
                    assert(!lex_lt(k[i as int]@, k[i - 1]@));
                }
                assert(p@ =~= Seq::new((i + 1) as nat, |t: int| t as usize));
            }
        }
        i = i + 1;
    }
    p
}


/// `m` is already in ascending order of the key that `opts` gives.
pub open spec fn in_key_order(opts: SortOpts, order: Seq<String>, m: Seq<MirrorMetadata>) -> bool {
    forall|a: int, b: int|
        0 <= a < b < m.len() ==> !lex_lt(
            #[trigger] sort_key(opts, order, m[b]),
            #[trigger] sort_key(opts, order, m[a]),
        )
}

/// `r` is `m` rearranged by the distinct positions `p` (`r[t] == m[p[t]]`), in ascending
/// order of key, records of equal key keeping their relative order.
pub open spec fn stably_sorted_by(
    opts: SortOpts,
    order: Seq<String>,
    m: Seq<MirrorMetadata>,
    r: Seq<MirrorMetadata>,
    p: Seq<int>,
) -> bool {
    &&& p.len() == m.len()
    &&& r.len() == m.len()
    &&& forall|t: int| 0 <= t < p.len() ==> 0 <= #[trigger] p[t] < m.len() && r[t] == m[p[t]]
    &&& forall|a: int, b: int| 0 <= a < b < p.len() ==> #[trigger] p[a] != #[trigger] p[b]
    &&& in_key_order(opts, order, r)
    &&& forall|a: int, b: int|
        0 <= a < b < r.len() && sort_key(opts, order, r[a]) == sort_key(opts, order, r[b])
            ==> #[trigger] p[a] < #[trigger] p[b]
}

/// `r` is the stable sort of `m` by the key that `opts` gives.
pub open spec fn sort_post(
    opts: SortOpts,
    order: Seq<String>,
    m: Seq<MirrorMetadata>,
    r: Seq<MirrorMetadata>,
) -> bool {
    &&& exists|p: Seq<int>| stably_sorted_by(opts, order, m, r, p)
    &&& in_key_order(opts, order, m) ==> r == m
}

/// Sorts a copy of `mirrors` by `opts`, stably; `order` lists the preferred countries
/// for a sort by country (mirrors of an unlisted country come after the listed ones).
pub fn sort_mirrors(mirrors: &Vec<MirrorMetadata>, opts: SortOpts, order: &Vec<String>) -> (r: Vec<
    MirrorMetadata,
>)
    ensures
        sort_post(opts, order@, mirrors@, r@),
{
    let mut keys: Vec<Vec<i128>> = Vec::new();
    let mut i: usize = 0;
    while i < mirrors.len()
        invariant
            i <= mirrors.len(),
            keys.len() == i,
            forall|t: int| 0 <= t < i ==> #[trigger] keys@[t]@ == sort_key(opts, order@, mirrors@[t]),
        decreases mirrors.len() - i,
    {
        keys.push(key_of(opts, order, &mirrors[i]));
        i = i + 1;
    }
    let p = sort_indices(&keys);
    let mut r: Vec<MirrorMetadata> = Vec::new();
    let mut t: usize = 0;
    while t < p.len()
        invariant
            t <= p.len(),
            p.len() == mirrors.len(),
            forall|u: int| 0 <= u < p.len() ==> p@[u] < mirrors.len(),
            r.len() == t,
            forall|u: int| 0 <= u < t ==> #[trigger] r@[u] == mirrors@[p@[u] as int],
        decreases p.len() - t,
    {
        r.push(mirrors[p[t]].clone());
        t = t + 1;
    }
    proof {
        let k = keys@;
        let pi = p@.map_values(|x: usize| x as int);
        assert forall|t: int| 0 <= t < r.len() implies k[p@[t] as int]@ == sort_key(
            opts,
            order@,
            #[trigger] r@[t],
        ) by {
            assert(r@[t] == mirrors@[p@[t] as int]);
        }
        assert forall|t: int| 0 <= t < pi.len() implies 0 <= #[trigger] pi[t] < mirrors@.len()
            && r@[t] == mirrors@[pi[t]] by {
            assert(r@[t] == mirrors@[p@[t] as int]);
        }
        assert forall|a: int, b: int| 0 <= a < b < pi.len() implies #[trigger] pi[a]
            != #[trigger] pi[b] by {
            lemma_before_facts(k, p@[a] as int, p@[b] as int);
        }
        assert forall|a: int, b: int|
            0 <= a < b < r@.len() && sort_key(opts, order@, r@[a]) == sort_key(opts, order@, r@[b])
            implies #[trigger] pi[a] < #[trigger] pi[b] by {
            assert(k[p@[a] as int]@ == sort_key(opts, order@, r@[a]));
            assert(k[p@[b] as int]@ == sort_key(opts, order@, r@[b]));
            lemma_before_facts(k, p@[a] as int, p@[b] as int);
        }
        assert forall|a: int, b: int| 0 <= a < b < r@.len() implies !lex_lt(
            #[trigger] sort_key(opts, order@, r@[b]),
            #[trigger] sort_key(opts, order@, r@[a]),
        ) by {
            assert(k[p@[a] as int]@ == sort_key(opts, order@, r@[a]));
            assert(k[p@[b] as int]@ == sort_key(opts, order@, r@[b]));
            lemma_before_facts(k, p@[a] as int, p@[b] as int);
        }
        assert(stably_sorted_by(opts, order@, mirrors@, r@, pi));
        if in_key_order(opts, order@, mirrors@) {
            assert(keys_sorted(k));
            assert(r@ =~= mirrors@);
        }
    }
    r
}

/// The first `min(n, len)` records of `m`.
pub open spec fn first_n(m: Seq<MirrorMetadata>, n: nat) -> Seq<MirrorMetadata> {
    if n < m.len() {
        m.take(n as int)
    } else {
        m
    }
}

/// The first `n` records of `mirrors`, or all of them when there are fewer.
pub fn limit(mirrors: &Vec<MirrorMetadata>, n: usize) -> (r: Vec<MirrorMetadata>)
    ensures
        r@ == first_n(mirrors@, n as nat),
{
    let mut r: Vec<MirrorMetadata> = Vec::new();
    let mut i: usize = 0;
    while i < n && i < mirrors.len()
        invariant
            i <= mirrors.len(),
            i <= n,
            r@ == mirrors@.take(i as int),
        decreases mirrors.len() - i,
    {
        r.push(mirrors[i].clone());
        assert(r@ =~= mirrors@.take(i + 1));
        i = i + 1;
    }
    assert(mirrors@.take(mirrors.len() as int) =~= mirrors@);
    proof {
        if (n as nat) < mirrors@.len() {
            assert(i == n);
        }
    }
    r
}

/// `r` is the `n` most recently synchronised records of `m`, most recent first,
/// records synchronised at the same time (or never) keeping their relative order.
pub open spec fn most_recent_post(m: Seq<MirrorMetadata>, n: nat, r: Seq<MirrorMetadata>) -> bool {
    exists|s: Seq<MirrorMetadata>| sort_post(SortOpts::Age, Seq::empty(), m, s) && r == first_n(s, n)
}

/// The `n` most recently synchronised mirrors (all of them when there are fewer),
/// most recent first; mirrors that never synchronised come last.
pub fn most_recent(mirrors: &Vec<MirrorMetadata>, n: usize) -> (r: Vec<MirrorMetadata>)
    ensures
        most_recent_post(mirrors@, n as nat, r@),
{
    let order: Vec<String> = Vec::new();
    let s = sort_mirrors(mirrors, SortOpts::Age, &order);
    assert(order@ =~= Seq::<String>::empty());
    limit(&s, n)
}

} // verus!
