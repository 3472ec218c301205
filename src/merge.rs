use vstd::prelude::*;

use crate::sample::{QualitySample, SampleView, views};

verus! {

/// Index of the last entry of `t` whose URL is `u`, or -1 where none is.
pub open spec fn url_index(t: Seq<SampleView>, u: Seq<char>) -> int
    decreases t.len(),
{
    if t.len() == 0 {
        -1
    } else if t.last().url == u {
        t.len() - 1
    } else {
        url_index(t.drop_last(), u)
    }
}

/// No two entries of `t` share a URL.
pub open spec fn unique_urls(t: Seq<SampleView>) -> bool {
    forall|i: int, j: int|
        0 <= i < t.len() && 0 <= j < t.len() && i != j ==> #[trigger] t[i].url != #[trigger] t[j].url
}

/// Some entry of `t` has URL `u`.
pub open spec fn has_url(t: Seq<SampleView>, u: Seq<char>) -> bool {
    exists|i: int| 0 <= i < t.len() && #[trigger] t[i].url == u
}

/// One step of the reduction: a sample with an unseen URL is appended; one
/// with a known URL replaces that entry only where its bandwidth is strictly
/// greater.
pub open spec fn insert_sample(t: Seq<SampleView>, s: SampleView) -> Seq<SampleView> {
    let k = url_index(t, s.url);
    if k < 0 {
        t.push(s)
    } else if t[k].bandwidth < s.bandwidth {
        t.update(k, s)
    } else {
        t
    }
}

/// The table that results from inserting the samples `s`, in order, into `t`.
pub open spec fn merge_into(t: Seq<SampleView>, s: Seq<SampleView>) -> Seq<SampleView>
    decreases s.len(),
{
    if s.len() == 0 {
        t
    } else {
        insert_sample(merge_into(t, s.drop_last()), s.last())
    }
}

/// The merged stream table of the samples `s`, taken in arrival order.
pub open spec fn merge_all(s: Seq<SampleView>) -> Seq<SampleView> {
    merge_into(seq![], s)
}

/// The URL-to-bandwidth mapping that a table holds.
pub open spec fn bandwidth_map(t: Seq<SampleView>) -> Map<Seq<char>, u64> {
    Map::new(|u: Seq<char>| has_url(t, u), |u: Seq<char>| t[url_index(t, u)].bandwidth)
}

/// `t` holds exactly one entry per distinct URL of `s`, and that entry is a
/// sample of `s` whose bandwidth is the greatest among the samples of its URL.
pub open spec fn is_best_per_url(s: Seq<SampleView>, t: Seq<SampleView>) -> bool {
    &&& unique_urls(t)
    &&& forall|u: Seq<char>| #[trigger] has_url(t, u) <==> has_url(s, u)
    &&& forall|i: int| 0 <= i < t.len() ==> s.contains(#[trigger] t[i])
    &&& forall|i: int, j: int|
        0 <= i < t.len() && 0 <= j < s.len() && #[trigger] t[i].url == #[trigger] s[j].url
            ==> s[j].bandwidth <= t[i].bandwidth
}

proof fn lemma_url_index(t: Seq<SampleView>, u: Seq<char>)
    ensures
        url_index(t, u) < t.len(),
        url_index(t, u) >= 0 ==> t[url_index(t, u)].url == u,
        url_index(t, u) < 0 <==> !has_url(t, u),
        url_index(t, u) >= -1,
    decreases t.len(),
{
    if t.len() > 0 && t.last().url != u {
        lemma_url_index(t.drop_last(), u);
        if has_url(t, u) {
            let i = choose|i: int| 0 <= i < t.len() && #[trigger] t[i].url == u;
            assert(t.drop_last()[i].url == u);
        }
        if has_url(t.drop_last(), u) {
            let i = choose|i: int| 0 <= i < t.drop_last().len() && #[trigger] t.drop_last()[i].url == u;
            assert(t[i].url == u);
        }
    } else if t.len() > 0 {
        assert(t[t.len() - 1].url == u);
    }
}

/// In a table with unique URLs, the entry of a URL is the one `url_index` finds.
proof fn lemma_url_index_unique(t: Seq<SampleView>, i: int)
    requires
        unique_urls(t),
        0 <= i < t.len(),
    ensures
        url_index(t, t[i].url) == i,
{
    lemma_url_index(t, t[i].url);
    assert(has_url(t, t[i].url));
}

proof fn lemma_insert_keeps_best(s: Seq<SampleView>, t: Seq<SampleView>, x: SampleView)
    requires
        is_best_per_url(s, t),
    ensures
        is_best_per_url(s.push(x), insert_sample(t, x)),
{
    let s2 = s.push(x);
    let t2 = insert_sample(t, x);
    let k = url_index(t, x.url);
    lemma_url_index(t, x.url);
    assert(s2[s.len() as int] == x);
    assert forall|i: int| 0 <= i < s.len() implies s2[i] == s[i] by {}
    assert forall|i: int| 0 <= i < t2.len() implies s2.contains(#[trigger] t2[i]) by {
        if t2[i] != x {
            assert(t2[i] == t[i]);
            assert(s.contains(t[i]));
            let j = choose|j: int| 0 <= j < s.len() && s[j] == t[i];
            assert(s2[j] == t[i]);
        } else {
            assert(s2[s.len() as int] == x);
        }
    }
    assert forall|u: Seq<char>| #[trigger] has_url(t2, u) <==> has_url(s2, u) by {
        if has_url(t2, u) {
            let i = choose|i: int| 0 <= i < t2.len() && #[trigger] t2[i].url == u;
            if t2[i].url == x.url {
                assert(s2[s.len() as int].url == u);
            } else {
                assert(t[i].url == u);
                assert(has_url(t, u));
                let j = choose|j: int| 0 <= j < s.len() && #[trigger] s[j].url == u;
                assert(s2[j].url == u);
            }
        }
        if has_url(s2, u) {
            let j = choose|j: int| 0 <= j < s2.len() && #[trigger] s2[j].url == u;
            if u == x.url {
                if k < 0 {
                    assert(t2[t.len() as int].url == u);
                } else {
                    assert(t2[k].url == u);
                }
            } else {
                assert(s[j].url == u);
                assert(has_url(s, u));
                assert(has_url(t, u));
                let i = choose|i: int| 0 <= i < t.len() && #[trigger] t[i].url == u;
                assert(t2[i].url == u);
            }
        }
    }
    assert forall|i: int, j: int|
        0 <= i < t2.len() && 0 <= j < t2.len() && i != j implies #[trigger] t2[i].url != #[trigger] t2[j].url by {
        if k < 0 {
            if i == t.len() {
                assert(t[j].url != x.url);
            } else if j == t.len() {
                assert(t[i].url != x.url);
            } else {
                assert(t[i].url != t[j].url);
            }
        } else {
            if i == k {
                assert(t[j].url != t[k].url);
            } else if j == k {
                assert(t[i].url != t[k].url);
            } else {
                assert(t[i].url != t[j].url);
            }
        }
    }
    assert forall|i: int, j: int|
        0 <= i < t2.len() && 0 <= j < s2.len() && #[trigger] t2[i].url == #[trigger] s2[j].url
            implies s2[j].bandwidth <= t2[i].bandwidth by {
        if j == s.len() {
            if k >= 0 && t2[i].url == x.url {
                assert(t[i].url == t[k].url || i == k);
                if i != k {
                    assert(false);
                }
            }
        } else {
            assert(s2[j] == s[j]);
            if k >= 0 && i == k {
                assert(t[k].url == s[j].url);
                assert(s[j].bandwidth <= t[k].bandwidth);
            } else if k < 0 && i == t.len() {
                assert(has_url(s, x.url));
                assert(false);
            } else {
                assert(t2[i] == t[i]);
            }
        }
    }
}

/// A table with unique URLs is the best-per-URL table of its own entries.
proof fn lemma_best_of_self(t: Seq<SampleView>)
    requires
        unique_urls(t),
    ensures
        is_best_per_url(t, t),
{
    assert forall|i: int| 0 <= i < t.len() implies t.contains(#[trigger] t[i]) by {}
    assert forall|i: int, j: int|
        0 <= i < t.len() && 0 <= j < t.len() && #[trigger] t[i].url == #[trigger] t[j].url
            implies t[j].bandwidth <= t[i].bandwidth by {
        if i != j {
            assert(t[i].url != t[j].url);
        }
    }
}

/// For every sequence of samples, the merged table holds exactly one entry per
/// distinct URL, and that entry carries the greatest bandwidth among the
/// samples of its URL (it is one of those samples).
pub proof fn lemma_merge_best_per_url(s: Seq<SampleView>)
    ensures
        is_best_per_url(s, merge_all(s)),
    decreases s.len(),
{
    if s.len() == 0 {
        assert forall|u: Seq<char>| #[trigger] has_url(merge_all(s), u) <==> has_url(s, u) by {}
    } else {
        lemma_merge_best_per_url(s.drop_last());
        lemma_insert_keeps_best(s.drop_last(), merge_all(s.drop_last()), s.last());
        assert(s.drop_last().push(s.last()) =~= s);
    }
}

proof fn lemma_merge_into_concat(t: Seq<SampleView>, p: Seq<SampleView>, q: Seq<SampleView>)
    ensures
        merge_into(t, p + q) == merge_into(merge_into(t, p), q),
    decreases q.len(),
{
    if q.len() == 0 {
        assert(p + q =~= p);
    } else {
        lemma_merge_into_concat(t, p, q.drop_last());
        assert((p + q).drop_last() =~= p + q.drop_last());
        assert((p + q).last() == q.last());
    }
}

/// Inserting entries that a table with unique URLs already holds leaves it as it is.
proof fn lemma_merge_into_own_entries(t: Seq<SampleView>, q: Seq<SampleView>)
    requires
        unique_urls(t),
        forall|i: int| 0 <= i < q.len() ==> t.contains(#[trigger] q[i]),
    ensures
        merge_into(t, q) == t,
    decreases q.len(),
{
    if q.len() > 0 {
        lemma_merge_into_own_entries(t, q.drop_last());
        let x = q.last();
        assert(t.contains(q[q.len() - 1]));
        let m = choose|m: int| 0 <= m < t.len() && t[m] == x;
        lemma_url_index_unique(t, m);
    }
}

/// A sequence of samples with unique URLs merges to itself.
proof fn lemma_merge_unique(t: Seq<SampleView>)
    requires
        unique_urls(t),
    ensures
        merge_all(t) == t,
    decreases t.len(),
{
    if t.len() > 0 {
        let p = t.drop_last();
        assert(unique_urls(p)) by {
            assert forall|i: int, j: int|
                0 <= i < p.len() && 0 <= j < p.len() && i != j implies #[trigger] p[i].url != #[trigger] p[j].url by {
                assert(t[i].url != t[j].url);
            }
        }
        lemma_merge_unique(p);
        lemma_url_index(p, t.last().url);
        if has_url(p, t.last().url) {
            let i = choose|i: int| 0 <= i < p.len() && #[trigger] p[i].url == t.last().url;
            assert(t[i].url != t[t.len() - 1].url);
        }
        assert(p.push(t.last()) =~= t);
    }
}

/// Merging is idempotent: the table of a merge, fed back as samples together
/// with a second copy of itself, merges to the same table.
pub proof fn lemma_merge_idempotent(s: Seq<SampleView>)
    ensures
        merge_all(merge_all(s) + merge_all(s)) == merge_all(s),
{
    let t = merge_all(s);
    lemma_merge_best_per_url(s);
    lemma_merge_into_concat(seq![], t, t);
    lemma_merge_unique(t);
    lemma_merge_into_own_entries(t, t);
}

/// Merging is commutative on the final contents: two arrival orders of the same
/// multiset of samples give the same URL-to-bandwidth mapping.
pub proof fn lemma_merge_order_free(s1: Seq<SampleView>, s2: Seq<SampleView>)
    requires
        s1.to_multiset() == s2.to_multiset(),
    ensures
        bandwidth_map(merge_all(s1)) == bandwidth_map(merge_all(s2)),
{
    let t1 = merge_all(s1);
    let t2 = merge_all(s2);
    lemma_merge_best_per_url(s1);
    lemma_merge_best_per_url(s2);
    assert forall|x: SampleView| s1.contains(x) <==> s2.contains(x) by {
        s1.to_multiset_ensures();
        s2.to_multiset_ensures();
        assert(s1.to_multiset().count(x) == s2.to_multiset().count(x));
        assert(s1.contains(x) <==> s1.to_multiset().count(x) > 0);
        assert(s2.contains(x) <==> s2.to_multiset().count(x) > 0);
    }
    assert forall|u: Seq<char>| has_url(s1, u) <==> has_url(s2, u) by {
        if has_url(s1, u) {
            let j = choose|j: int| 0 <= j < s1.len() && #[trigger] s1[j].url == u;
            assert(s1.contains(s1[j]));
            let j2 = choose|j2: int| 0 <= j2 < s2.len() && s2[j2] == s1[j];
            assert(s2[j2].url == u);
        }
        if has_url(s2, u) {
            let j = choose|j: int| 0 <= j < s2.len() && #[trigger] s2[j].url == u;
            assert(s2.contains(s2[j]));
            let j1 = choose|j1: int| 0 <= j1 < s1.len() && s1[j1] == s2[j];
            assert(s1[j1].url == u);
        }
    }
    assert forall|u: Seq<char>| has_url(t1, u) implies t1[url_index(t1, u)].bandwidth
        == t2[url_index(t2, u)].bandwidth by {
        assert(has_url(t2, u));
        lemma_url_index(t1, u);
        lemma_url_index(t2, u);
        let k1 = url_index(t1, u);
        let k2 = url_index(t2, u);
        assert(s1.contains(t1[k1]));
        assert(s2.contains(t2[k2]));
        let j1 = choose|j: int| 0 <= j < s1.len() && s1[j] == t2[k2];
        let j2 = choose|j: int| 0 <= j < s2.len() && s2[j] == t1[k1];
        assert(t1[k1].url == s1[j1].url);
        assert(t2[k2].url == s2[j2].url);
    }
    assert(bandwidth_map(t1) =~= bandwidth_map(t2));
}

/// `r` carries the URLs and bandwidths of `t`, entry by entry; other fields
/// may differ.
pub open spec fn same_urls_and_bandwidths(t: Seq<SampleView>, r: Seq<SampleView>) -> bool {
    &&& t.len() == r.len()
    &&& forall|i: int|
        0 <= i < t.len() ==> (#[trigger] t[i]).url == r[i].url && t[i].bandwidth == r[i].bandwidth
}

proof fn lemma_url_index_same_urls(a: Seq<SampleView>, b: Seq<SampleView>, u: Seq<char>)
    requires
        same_urls_and_bandwidths(a, b),
    ensures
        url_index(a, u) == url_index(b, u),
    decreases a.len(),
{
    if a.len() > 0 {
        assert(a[a.len() - 1].url == b[b.len() - 1].url);
        assert forall|i: int| 0 <= i < a.drop_last().len() implies (#[trigger] a.drop_last()[i]).url
            == b.drop_last()[i].url && a.drop_last()[i].bandwidth == b.drop_last()[i].bandwidth by {
            assert(a[i].url == b[i].url);
        }
        lemma_url_index_same_urls(a.drop_last(), b.drop_last(), u);
    }
}

/// Merging is idempotent: the entries of a merged table, re-expressed as
/// samples with the same URLs and bandwidths (whatever their response times)
/// and fed twice, merge to a table with the same URL-to-bandwidth mapping.
pub proof fn lemma_merge_idempotent_any_times(s: Seq<SampleView>, r: Seq<SampleView>)
    requires
        same_urls_and_bandwidths(merge_all(s), r),
    ensures
        bandwidth_map(merge_all(r + r)) == bandwidth_map(merge_all(s)),
{
    let t = merge_all(s);
    lemma_merge_best_per_url(s);
    assert forall|i: int, j: int|
        0 <= i < r.len() && 0 <= j < r.len() && i != j implies #[trigger] r[i].url != #[trigger] r[j].url by {
        assert(t[i].url != t[j].url);
        assert(t[i].url == r[i].url);
        assert(t[j].url == r[j].url);
    }
    assert forall|i: int| 0 <= i < r.len() implies r.contains(#[trigger] r[i]) by {}
    lemma_merge_into_concat(seq![], r, r);
    lemma_merge_unique(r);
    lemma_merge_into_own_entries(r, r);
    assert forall|u: Seq<char>| has_url(r, u) <==> has_url(t, u) by {
        lemma_url_index(r, u);
        lemma_url_index(t, u);
        lemma_url_index_same_urls(t, r, u);
    }
    assert forall|u: Seq<char>| has_url(r, u) implies r[url_index(r, u)].bandwidth
        == t[url_index(t, u)].bandwidth by {
        lemma_url_index(r, u);
        lemma_url_index_same_urls(t, r, u);
        assert(t[url_index(t, u)].bandwidth == r[url_index(t, u)].bandwidth);
    }
    assert(bandwidth_map(r) =~= bandwidth_map(t));
}

/// Samples that carry exactly two distinct URLs merge to a table of exactly
/// two entries, one for each URL.
pub proof fn lemma_two_urls_two_entries(s: Seq<SampleView>, u: Seq<char>, w: Seq<char>)
    requires
        u != w,
        has_url(s, u),
        has_url(s, w),
        forall|j: int| 0 <= j < s.len() ==> (#[trigger] s[j]).url == u || s[j].url == w,
    ensures
        merge_all(s).len() == 2,
        has_url(merge_all(s), u),
        has_url(merge_all(s), w),
{
    let t = merge_all(s);
    lemma_merge_best_per_url(s);
    assert(has_url(t, u));
    assert(has_url(t, w));
    let i = choose|i: int| 0 <= i < t.len() && #[trigger] t[i].url == u;
    let j = choose|j: int| 0 <= j < t.len() && #[trigger] t[j].url == w;
    assert(i != j);
    if t.len() > 2 {
        assert forall|k: int| 0 <= k < t.len() implies (#[trigger] t[k]).url == u || t[k].url == w by {
            assert(s.contains(t[k]));
            let m = choose|m: int| 0 <= m < s.len() && s[m] == t[k];
            assert(s[m].url == u || s[m].url == w);
        }
        assert(t[0].url == u || t[0].url == w);
        assert(t[1].url == u || t[1].url == w);
        assert(t[2].url == u || t[2].url == w);
        assert(t[0].url != t[1].url);
        assert(t[0].url != t[2].url);
        assert(t[1].url != t[2].url);
    }
}

/// The merged stream table: at most one sample per URL.
pub struct MergedStreamTable {
    pub entries: Vec<QualitySample>,
}

impl View for MergedStreamTable {
    type V = Seq<SampleView>;

    open spec fn view(&self) -> Seq<SampleView> {
        views(self.entries@)
    }
}

impl MergedStreamTable {
    pub open spec fn wf(&self) -> bool {
        unique_urls(self@)
    }

    /// An empty table.
    pub fn new() -> (r: MergedStreamTable)
        ensures
            r@ == Seq::<SampleView>::empty(),
            r.wf(),
    {
        MergedStreamTable { entries: Vec::new() }
    }

    /// Position of the entry whose URL is `url`, where there is one.
    pub fn find(&self, url: &String) -> (r: Option<usize>)
        ensures
            match r {
                Some(k) => k as int == url_index(self@, url@),
                None => url_index(self@, url@) < 0,
            },
    {
        let mut i: usize = self.entries.len();
        assert(self@.take(i as int) =~= self@);
        while i > 0
            invariant
                i <= self.entries.len(),
                url_index(self@, url@) == url_index(self@.take(i as int), url@),
            decreases i,
        {
            assert(self@.take(i as int).drop_last() =~= self@.take(i - 1));
            if self.entries[i - 1].url == *url {
                return Some(i - 1);
            }
            i = i - 1;
        }
        None
    }

    /// Adds one sample: appended where its URL is unseen, replacing the entry
    /// of its URL only where its bandwidth is strictly greater.
    pub fn insert(&mut self, sample: QualitySample)
        requires
            old(self).wf(),
        ensures
            final(self)@ == insert_sample(old(self)@, sample@),
            final(self).wf(),
    {
        proof {
            lemma_best_of_self(self@);
            lemma_insert_keeps_best(self@, self@, sample@);
            lemma_url_index(self@, sample@.url);
        }
        match self.find(&sample.url) {
            None => {
                self.entries.push(sample);
                assert(self@ =~= insert_sample(old(self)@, sample@));
            },
            Some(k) => {
                if self.entries[k].bandwidth < sample.bandwidth {
                    self.entries[k] = sample;
                    assert(self@ =~= insert_sample(old(self)@, sample@));
                }
            },
        }
    }
}

/// Builds the merged stream table of `samples`, taken in order.
pub fn merge_samples(samples: &Vec<QualitySample>) -> (r: MergedStreamTable)
    ensures
        r@ == merge_all(views(samples@)),
        r.wf(),
{
    let mut table = MergedStreamTable::new();
    let mut i: usize = 0;
    while i < samples.len()
        invariant
            i <= samples.len(),
            table.wf(),
            table@ == merge_all(views(samples@.take(i as int))),
        decreases samples.len() - i,
    {
        assert(views(samples@.take(i + 1)).drop_last() =~= views(samples@.take(i as int)));
        table.insert(samples[i].duplicate());
        i = i + 1;
    }
    assert(samples@.take(i as int) =~= samples@);
    table
}

/// Protocol version that the synthetic playlist declares.
pub const SYNTHETIC_VERSION: usize = 6;

/// One variant of the synthetic playlist.
#[derive(Debug, Clone)]
pub struct SyntheticVariant {
    pub uri: String,
    pub bandwidth: u64,
}

/// The merged master playlist: one variant per entry of the merged table, a
/// fixed protocol version, no independent-segments flag.
#[derive(Debug, Clone)]
pub struct SyntheticMasterPlaylist {
    pub version: usize,
    pub independent_segments: bool,
    pub variants: Vec<SyntheticVariant>,
}

/// The `(uri, bandwidth)` pairs of a list of variants.
pub open spec fn variant_pairs(v: Seq<SyntheticVariant>) -> Seq<(Seq<char>, u64)> {
    v.map_values(|x: SyntheticVariant| (x.uri@, x.bandwidth))
}

/// The `(uri, bandwidth)` pairs that a table turns into.
pub open spec fn table_pairs(t: Seq<SampleView>) -> Seq<(Seq<char>, u64)> {
    t.map_values(|x: SampleView| (x.url, x.bandwidth))
}

impl SyntheticMasterPlaylist {
    /// The variants as `(uri, bandwidth)` pairs.
    pub open spec fn pairs(&self) -> Seq<(Seq<char>, u64)> {
        variant_pairs(self.variants@)
    }

    /// The synthetic playlist of a merged table: one variant per entry, in
    /// the table's order, with the entry's URL and bandwidth.
    pub fn from_table(table: &MergedStreamTable) -> (r: SyntheticMasterPlaylist)
        ensures
            r.pairs() == table_pairs(table@),
            r.version == SYNTHETIC_VERSION,
            !r.independent_segments,
    {
        let mut variants: Vec<SyntheticVariant> = Vec::new();
        let mut i: usize = 0;
        while i < table.entries.len()
            invariant
                i <= table.entries.len(),
                variants@.len() == i,
                variant_pairs(variants@) == table_pairs(table@.take(i as int)),
            decreases table.entries.len() - i,
        {
            let e = &table.entries[i];
            let ghost prev = variants@;
            variants.push(SyntheticVariant { uri: e.url.clone(), bandwidth: e.bandwidth });
            assert forall|k: int| 0 <= k <= i implies #[trigger] variant_pairs(variants@)[k]
                == table_pairs(table@.take(i + 1))[k] by {
                if k < i {
                    assert(variants@[k] == prev[k]);
                    assert(variant_pairs(prev)[k] == table_pairs(table@.take(i as int))[k]);
                } else {
                    assert(table@[k] == table.entries@[k]@);
                }
            }
            assert(variant_pairs(variants@) =~= table_pairs(table@.take(i + 1)));
            i = i + 1;
        }
        assert(table@.take(i as int) =~= table@);
        SyntheticMasterPlaylist { version: SYNTHETIC_VERSION, independent_segments: false, variants }
    }
}

/// All samples of all batches, batch after batch.
pub open spec fn fan_in(batches: Seq<Seq<QualitySample>>) -> Seq<QualitySample>
    decreases batches.len(),
{
    if batches.len() == 0 {
        seq![]
    } else {
        fan_in(batches.drop_last()) + batches.last()
    }
}

/// Gathers the sample batches of several playlists into one sequence, batch
/// after batch.
pub fn gather_batches(batches: &Vec<Vec<QualitySample>>) -> (r: Vec<QualitySample>)
    ensures
        r@ == fan_in(batches@.map_values(|b: Vec<QualitySample>| b@)),
{
    let ghost bs = batches@.map_values(|b: Vec<QualitySample>| b@);
    let mut r: Vec<QualitySample> = Vec::new();
    let mut i: usize = 0;
    while i < batches.len()
        invariant
            i <= batches.len(),
            bs == batches@.map_values(|b: Vec<QualitySample>| b@),
            r@ == fan_in(bs.take(i as int)),
        decreases batches.len() - i,
    {
        let batch = &batches[i];
        let mut j: usize = 0;
        let ghost before = r@;
        while j < batch.len()
            invariant
                j <= batch.len(),
                r@ == before + batch@.take(j as int),
            decreases batch.len() - j,
        {
            r.push(batch[j].duplicate());
            assert(r@ =~= before + batch@.take(j + 1));
            j = j + 1;
        }
        proof {
            assert(batch@.take(j as int) =~= batch@);
            assert(bs.take(i + 1).drop_last() =~= bs.take(i as int));
        }
        i = i + 1;
    }
    assert(bs.take(i as int) =~= bs);
    r
}

/// Merges the sample batches of several playlists into one synthetic master
/// playlist: the batches are gathered in order and reduced to the best
/// sample per URL.
pub fn merge_playlists(batches: Vec<Vec<QualitySample>>) -> (r: SyntheticMasterPlaylist)
    ensures
        r.pairs() == table_pairs(merge_all(views(fan_in(batches@.map_values(|b: Vec<QualitySample>| b@))))),
        r.version == SYNTHETIC_VERSION,
        !r.independent_segments,
{
    let all = gather_batches(&batches);
    let table = merge_samples(&all);
    SyntheticMasterPlaylist::from_table(&table)
}

} // verus!
