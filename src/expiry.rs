use vstd::prelude::*;

verus! {

/// The names that lapse at one block height, in the order they were scheduled.
pub struct ExpireTimes {
    pub names: Vec<String>,
}

/// The names of a bucket as character sequences.
pub open spec fn names_of(e: ExpireTimes) -> Seq<Seq<char>> {
    e.names@.map_values(|n: String| n@)
}

/// Bucket heights rise strictly along the sequence.
pub open spec fn ascending(s: Seq<(u64, ExpireTimes)>) -> bool {
    forall|a: int, b: int| #![trigger s[a], s[b]] 0 <= a < b < s.len() ==> s[a].0 < s[b].0
}

/// Some bucket of `s` sits at height `t`.
pub open spec fn has_height(s: Seq<(u64, ExpireTimes)>, t: u64) -> bool {
    exists|i: int| 0 <= i < s.len() && s[i].0 == t
}

/// The map from height to scheduled names that an ascending bucket list stands for.
pub open spec fn buckets_map(s: Seq<(u64, ExpireTimes)>) -> Map<u64, Seq<Seq<char>>> {
    Map::new(
        |t: u64| has_height(s, t),
        |t: u64| names_of(s[choose|i: int| 0 <= i < s.len() && s[i].0 == t].1),
    )
}

/// Every name held by a bucket strictly below `now`.
pub open spec fn due_names(m: Map<u64, Seq<Seq<char>>>, now: u64) -> Set<Seq<char>> {
    Set::new(|n: Seq<char>| exists|t: u64| t < now && m.contains_key(t) && m[t].contains(n))
}

/// Heights rise strictly along `hs`.
pub open spec fn ascending_heights(hs: Seq<u64>) -> bool {
    forall|a: int, b: int| #![trigger hs[a], hs[b]] 0 <= a < b < hs.len() ==> hs[a] < hs[b]
}

/// The bucket of `m` at each height of `hs`.
pub open spec fn buckets_at(m: Map<u64, Seq<Seq<char>>>, hs: Seq<u64>) -> Seq<Seq<Seq<char>>> {
    hs.map_values(|h: u64| m[h])
}

/// `r` is the names of every bucket strictly below `now`, bucket after bucket
/// in ascending order of height, each bucket in scheduling order.
pub open spec fn due_in_order(m: Map<u64, Seq<Seq<char>>>, now: u64, r: Seq<Seq<char>>) -> bool {
    exists|hs: Seq<u64>|
        #![trigger buckets_at(m, hs)]
        ascending_heights(hs) && (forall|h: u64| hs.contains(h) <==> (h < now && m.contains_key(h)))
            && r == buckets_at(m, hs).flatten()
}

/// The names of each bucket of `s`, in order.
pub open spec fn bucket_names(s: Seq<(u64, ExpireTimes)>) -> Seq<Seq<Seq<char>>> {
    s.map_values(|b: (u64, ExpireTimes)| names_of(b.1))
}

/// The index without the buckets strictly below `now`.
pub open spec fn not_due(m: Map<u64, Seq<Seq<char>>>, now: u64) -> Map<u64, Seq<Seq<char>>> {
    m.remove_keys(Set::new(|t: u64| t < now))
}

/// The index after `name` is appended to the bucket at height `at`.
pub open spec fn scheduled(m: Map<u64, Seq<Seq<char>>>, name: Seq<char>, at: u64) -> Map<
    u64,
    Seq<Seq<char>>,
> {
    if m.contains_key(at) {
        m.insert(at, m[at].push(name))
    } else {
        m.insert(at, seq![name])
    }
}

proof fn lemma_lookup(s: Seq<(u64, ExpireTimes)>, i: int)
    requires
        ascending(s),
        0 <= i < s.len(),
    ensures
        buckets_map(s).contains_key(s[i].0),
        buckets_map(s)[s[i].0] == names_of(s[i].1),
{
    let t = s[i].0;
    assert(has_height(s, t));
    let c = choose|j: int| 0 <= j < s.len() && s[j].0 == t;
    if c < i {
        assert(s[c].0 < s[i].0);
    }
    if i < c {
        assert(s[i].0 < s[c].0);
    }
}

proof fn lemma_update(s: Seq<(u64, ExpireTimes)>, i: int, e: (u64, ExpireTimes))
    requires
        ascending(s),
        0 <= i < s.len(),
        e.0 == s[i].0,
    ensures
        ascending(s.update(i, e)),
        buckets_map(s.update(i, e)) =~= buckets_map(s).insert(e.0, names_of(e.1)),
{
    let u = s.update(i, e);
    assert forall|a: int, b: int| 0 <= a < b < u.len() implies #[trigger] u[a].0 < #[trigger] u[b].0 by {
        assert(s[a].0 < s[b].0);
    }
    let m = buckets_map(s).insert(e.0, names_of(e.1));
    assert forall|t: u64| #[trigger] has_height(u, t) <==> m.contains_key(t) by {
        if has_height(u, t) {
            let j = choose|j: int| 0 <= j < u.len() && u[j].0 == t;
            assert(s[j].0 == t);
        }
        if m.contains_key(t) && t != e.0 {
            let j = choose|j: int| 0 <= j < s.len() && s[j].0 == t;
            assert(u[j].0 == t);
        }
        if t == e.0 {
            assert(u[i].0 == t);
        }
    }
    assert forall|t: u64| has_height(u, t) implies buckets_map(u)[t] == m[t] by {
        let j = choose|j: int| 0 <= j < u.len() && u[j].0 == t;
        lemma_lookup(u, j);
        if j != i {
            lemma_lookup(s, j);
        }
    }
}

proof fn lemma_insert(s: Seq<(u64, ExpireTimes)>, p: int, e: (u64, ExpireTimes))
    requires
        ascending(s),
        0 <= p <= s.len(),
        forall|j: int| 0 <= j < p ==> #[trigger] s[j].0 < e.0,
        forall|j: int| p <= j < s.len() ==> #[trigger] s[j].0 > e.0,
    ensures
        ascending(s.insert(p, e)),
        buckets_map(s.insert(p, e)) =~= buckets_map(s).insert(e.0, names_of(e.1)),
{
    let u = s.insert(p, e);
    assert forall|j: int| 0 <= j < u.len() implies #[trigger] u[j] == (if j < p {
        s[j]
    } else if j == p {
        e
    } else {
        s[j - 1]
    }) by {}
    assert forall|a: int, b: int| 0 <= a < b < u.len() implies #[trigger] u[a].0 < #[trigger] u[b].0 by {
        assert(u[a] == (if a < p { s[a] } else if a == p { e } else { s[a - 1] }));
        assert(u[b] == (if b < p { s[b] } else if b == p { e } else { s[b - 1] }));
        if a > p {
            assert(s[a - 1].0 < s[b - 1].0);
        } else if a < p && b < p {
            assert(s[a].0 < s[b].0);
        } else if a < p && b > p {
            assert(s[a].0 < s[b - 1].0);
        }
    }
    let m = buckets_map(s).insert(e.0, names_of(e.1));
    assert forall|t: u64| #[trigger] has_height(u, t) <==> m.contains_key(t) by {
        if has_height(u, t) {
            let j = choose|j: int| 0 <= j < u.len() && u[j].0 == t;
            assert(u[j] == (if j < p { s[j] } else if j == p { e } else { s[j - 1] }));
            if j < p {
                assert(s[j].0 == t);
            } else if j > p {
                assert(s[j - 1].0 == t);
            }
        }
        if m.contains_key(t) && t != e.0 {
            let j = choose|j: int| 0 <= j < s.len() && s[j].0 == t;
            let uj = if j < p { j } else { j + 1 };
            assert(u[uj] == s[j]);
        }
        if t == e.0 {
            assert(u[p] == e);
        }
    }
    assert forall|t: u64| has_height(u, t) implies buckets_map(u)[t] == m[t] by {
        let j = choose|j: int| 0 <= j < u.len() && u[j].0 == t;
        lemma_lookup(u, j);
        assert(u[j] == (if j < p { s[j] } else if j == p { e } else { s[j - 1] }));
        if j < p {
            lemma_lookup(s, j);
        } else if j > p {
            lemma_lookup(s, j - 1);
        }
    }
}

proof fn lemma_skip(s: Seq<(u64, ExpireTimes)>, p: int, now: u64)
    requires
        ascending(s),
        0 <= p <= s.len(),
        forall|j: int| 0 <= j < p ==> #[trigger] s[j].0 < now,
        forall|j: int| p <= j < s.len() ==> #[trigger] s[j].0 >= now,
    ensures
        ascending(s.skip(p)),
        buckets_map(s.skip(p)) =~= not_due(buckets_map(s), now),
{
    let u = s.skip(p);
    assert forall|a: int, b: int| 0 <= a < b < u.len() implies #[trigger] u[a].0 < #[trigger] u[b].0 by {
        assert(u[a] == s[a + p]);
        assert(u[b] == s[b + p]);
    }
    let m = not_due(buckets_map(s), now);
    assert forall|t: u64| #[trigger] has_height(u, t) <==> m.contains_key(t) by {
        if has_height(u, t) {
            let j = choose|j: int| 0 <= j < u.len() && u[j].0 == t;
            assert(u[j] == s[j + p]);
            assert(s[j + p].0 == t);
        }
        if m.contains_key(t) {
            let j = choose|j: int| 0 <= j < s.len() && s[j].0 == t;
            assert(j >= p);
            assert(u[j - p] == s[j]);
        }
    }
    assert forall|t: u64| has_height(u, t) implies buckets_map(u)[t] == m[t] by {
        let j = choose|j: int| 0 <= j < u.len() && u[j].0 == t;
        assert(u[j] == s[j + p]);
        lemma_lookup(u, j);
        lemma_lookup(s, j + p);
    }
}

/// Some string of `r` reads `n`.
pub open spec fn holds_name(r: Seq<String>, n: Seq<char>) -> bool {
    exists|k: int| 0 <= k < r.len() && r[k]@ == n
}

/// Some bucket among the first `i` of `s` holds `n`.
spec fn in_first_buckets(s: Seq<(u64, ExpireTimes)>, i: int, n: Seq<char>) -> bool {
    exists|j: int| 0 <= j < i && #[trigger] names_of(s[j].1).contains(n)
}

/// Names scheduled to lapse, grouped into buckets by block height.
pub struct ExpiryIndex {
    buckets: Vec<(u64, ExpireTimes)>,
}

impl View for ExpiryIndex {
    type V = Map<u64, Seq<Seq<char>>>;

    closed spec fn view(&self) -> Map<u64, Seq<Seq<char>>> {
        buckets_map(self.buckets@)
    }
}

impl ExpiryIndex {
    /// Buckets are kept in ascending order of height, one per height.
    pub closed spec fn well_formed(&self) -> bool {
        ascending(self.buckets@)
    }

    pub fn new() -> (r: Self)
        ensures
            r.well_formed(),
            r@ == Map::<u64, Seq<Seq<char>>>::empty(),
    {
        let r = ExpiryIndex { buckets: Vec::new() };
        assert(r@ =~= Map::<u64, Seq<Seq<char>>>::empty());
        r
    }

    /// An index holding `buckets`, or `None` when their heights do not rise
    /// strictly.
    pub fn from_buckets(buckets: Vec<(u64, ExpireTimes)>) -> (r: Option<Self>)
        ensures
            match r {
                Some(ix) => ix.well_formed() && ix@ == buckets_map(buckets@),
                None => !ascending(buckets@),
            },
    {
        let mut i: usize = 1;
        while i < buckets.len()
            invariant
                1 <= i,
                forall|a: int, b: int|
                    #![trigger buckets@[a], buckets@[b]]
                    0 <= a < b < i && b < buckets@.len() ==> buckets@[a].0 < buckets@[b].0,
            decreases buckets@.len() - i,
        {
            if buckets[i - 1].0 >= buckets[i].0 {
                assert(!(buckets@[i - 1].0 < buckets@[i as int].0));
                return None;
            }
            assert forall|a: int| 0 <= a < i implies #[trigger] buckets@[a].0 < buckets@[i as int].0 by {
                if a < i - 1 {
                    assert(buckets@[a].0 < buckets@[i - 1].0);
                }
            }
            i = i + 1;
        }
        Some(ExpiryIndex { buckets })
    }

    /// The buckets in ascending order of height.
    pub fn into_buckets(self) -> (r: Vec<(u64, ExpireTimes)>)
        requires
            self.well_formed(),
        ensures
            ascending(r@),
            buckets_map(r@) == self@,
    {
        self.buckets
    }

    /// The number of leading buckets whose height is below `t`.
    fn count_below(&self, t: u64) -> (p: usize)
        requires
            self.well_formed(),
        ensures
            p <= self.buckets@.len(),
            forall|j: int| 0 <= j < p ==> #[trigger] self.buckets@[j].0 < t,
            forall|j: int| p <= j < self.buckets@.len() ==> #[trigger] self.buckets@[j].0 >= t,
    {
        let mut p: usize = 0;
        while p < self.buckets.len() && self.buckets[p].0 < t
            invariant
                p <= self.buckets@.len(),
                forall|j: int| 0 <= j < p ==> #[trigger] self.buckets@[j].0 < t,
            decreases self.buckets@.len() - p,
        {
            p = p + 1;
        }
        assert forall|j: int| p <= j < self.buckets@.len() implies #[trigger] self.buckets@[j].0 >= t by {
            if j > p {
                assert(self.buckets@[p as int].0 < self.buckets@[j].0);
            }
        }
        p
    }

    /// Appends `name` to the bucket at height `at`, opening that bucket if needed.
    /// A name already scheduled is appended again.
    pub fn schedule(&mut self, name: String, at: u64)
        requires
            old(self).well_formed(),
        ensures
            final(self).well_formed(),
            final(self)@ == scheduled(old(self)@, name@, at),
    {
        let p = self.count_below(at);
        if p < self.buckets.len() && self.buckets[p].0 == at {
            proof {
                lemma_lookup(self.buckets@, p as int);
            }
            let (t, mut bucket) = self.buckets.remove(p);
            let ghost before = bucket;
            bucket.names.push(name);
            assert(names_of(bucket) =~= names_of(before).push(name@));
            proof {
                lemma_update(old(self).buckets@, p as int, (t, bucket));
            }
            self.buckets.insert(p, (t, bucket));
            assert(self.buckets@ =~= old(self).buckets@.update(p as int, (t, bucket)));
        } else {
            let mut names: Vec<String> = Vec::new();
            names.push(name);
            let bucket = ExpireTimes { names };
            assert(names_of(bucket) =~= seq![name@]);
            proof {
                assert forall|j: int| 0 <= j < self.buckets@.len() && self.buckets@[j].0 == at implies false by {
                    if j > p {
                        assert(self.buckets@[p as int].0 < self.buckets@[j].0);
                    }
                }
                lemma_insert(self.buckets@, p as int, (at, bucket));
            }
            self.buckets.insert(p, (at, bucket));
        }
    }

    /// Every name in a bucket strictly below `now`, in ascending order of height
    /// and in scheduling order within a bucket.
    pub fn due(&self, now: u64) -> (r: Vec<String>)
        requires
            self.well_formed(),
        ensures
            due_in_order(self@, now, r@.map_values(|n: String| n@)),
            forall|n: Seq<char>| #[trigger] due_names(self@, now).contains(n) <==> holds_name(r@, n),
    {
        let p = self.count_below(now);
        let mut r: Vec<String> = Vec::new();
        let mut i: usize = 0;
        while i < p
            invariant
                i <= p <= self.buckets@.len(),
                self.well_formed(),
                forall|j: int| 0 <= j < p ==> #[trigger] self.buckets@[j].0 < now,
                forall|n: Seq<char>| #[trigger] holds_name(r@, n) <==> in_first_buckets(self.buckets@, i as int, n),
                r@.map_values(|n: String| n@) == bucket_names(self.buckets@.take(i as int)).flatten_alt(),
            decreases p - i,
        {
            let names = &self.buckets[i].1.names;
            let ghost r0 = r@;
            let mut k: usize = 0;
            while k < names.len()
                invariant
                    k <= names@.len(),
                    i < p <= self.buckets@.len(),
                    names == self.buckets@[i as int].1.names,
                    forall|n: Seq<char>| #[trigger] holds_name(r0, n) <==> in_first_buckets(self.buckets@, i as int, n),
                    r@.len() == r0.len() + k,
                    forall|x: int| 0 <= x < r0.len() ==> #[trigger] r@[x] == r0[x],
                    forall|x: int| 0 <= x < k ==> #[trigger] r@[r0.len() + x] == names@[x],
                decreases names@.len() - k,
            {
                r.push(names[k].clone());
                k = k + 1;
            }
            proof {
                let b = self.buckets@[i as int].1;
                let prev = bucket_names(self.buckets@.take(i as int));
                let next = bucket_names(self.buckets@.take(i + 1));
                assert(next =~= prev.push(names_of(b)));
                assert(next.drop_last() =~= prev);
                assert forall|x: int| 0 <= x < r@.len() implies #[trigger] r@[x]@ == (r0.map_values(
                    |n: String| n@,
                ) + names_of(b))[x] by {
                    if x >= r0.len() {
                        assert(r@[r0.len() + (x - r0.len())] == names@[x - r0.len()]);
                    } else {
                        assert(r@[x] == r0[x]);
                    }
                }
                assert(r@.map_values(|n: String| n@) =~= r0.map_values(|n: String| n@) + names_of(b));
                assert forall|n: Seq<char>| #[trigger] holds_name(r@, n) <==> in_first_buckets(self.buckets@, i + 1, n) by {
                    if holds_name(r@, n) {
                        let x = choose|x: int| 0 <= x < r@.len() && r@[x]@ == n;
                        if x >= r0.len() {
                            let y = x - r0.len();
                            assert(r@[r0.len() + y] == names@[y]);
                            assert(names_of(b)[y] == n);
                            assert(names_of(self.buckets@[i as int].1).contains(n));
                        } else {
                            assert(r@[x] == r0[x]);
                            assert(holds_name(r0, n));
                        }
                    }
                    if in_first_buckets(self.buckets@, i + 1, n) {
                        let j = choose|j: int| 0 <= j < i + 1 && #[trigger] names_of(self.buckets@[j].1).contains(n);
                        if j == i {
                            let y = choose|y: int| 0 <= y < names_of(b).len() && names_of(b)[y] == n;
                            assert(r@[r0.len() + y] == names@[y]);
                            assert(r@[r0.len() + y]@ == n);
                        } else {
                            assert(in_first_buckets(self.buckets@, i as int, n));
                            assert(holds_name(r0, n));
                            let x = choose|x: int| 0 <= x < r0.len() && r0[x]@ == n;
                            assert(r@[x] == r0[x]);
                        }
                    }
                }
            }
            i = i + 1;
        }
        proof {
            let s = self.buckets@;
            let hs = s.take(p as int).map_values(|b: (u64, ExpireTimes)| b.0);
            let m = self@;
            assert(ascending_heights(hs));
            assert forall|h: u64| hs.contains(h) <==> (h < now && m.contains_key(h)) by {
                if hs.contains(h) {
                    let j = choose|j: int| 0 <= j < hs.len() && hs[j] == h;
                    assert(s[j].0 == h);
                    lemma_lookup(s, j);
                }
                if h < now && m.contains_key(h) {
                    let j = choose|j: int| 0 <= j < s.len() && s[j].0 == h;
                    if j >= p {
                        assert(s[j].0 >= now);
                    }
                    assert(hs[j] == h);
                }
            }
            assert forall|j: int| 0 <= j < p implies #[trigger] bucket_names(s.take(p as int))[j] == m[hs[j]] by {
                lemma_lookup(s, j);
            }
            assert(buckets_at(m, hs) =~= bucket_names(s.take(p as int)));
            bucket_names(s.take(p as int)).lemma_flatten_and_flatten_alt_are_equivalent();
            assert forall|n: Seq<char>| #[trigger] due_names(self@, now).contains(n) <==> in_first_buckets(s, p as int, n) by {
                if due_names(self@, now).contains(n) {
                    let t = choose|t: u64| t < now && self@.contains_key(t) && self@[t].contains(n);
                    let j = choose|j: int| 0 <= j < s.len() && s[j].0 == t;
                    lemma_lookup(s, j);
                    assert(names_of(s[j].1).contains(n));
                    assert(j < p) by {
                        if j >= p {
                            assert(s[j].0 >= now);
                        }
                    }
                }
                if in_first_buckets(s, p as int, n) {
                    let j = choose|j: int| 0 <= j < p && #[trigger] names_of(s[j].1).contains(n);
                    lemma_lookup(s, j);
                    assert(s[j].0 < now);
                    assert(self@.contains_key(s[j].0) && self@[s[j].0].contains(n));
                }
            }
        }
        r
    }

    /// Deletes, whole, every bucket strictly below `now`.
    pub fn drop_due(&mut self, now: u64)
        requires
            old(self).well_formed(),
        ensures
            final(self).well_formed(),
            final(self)@ == not_due(old(self)@, now),
    {
        let p = self.count_below(now);
        proof {
            lemma_skip(self.buckets@, p as int, now);
        }
        let rest = self.buckets.split_off(p);
        self.buckets = rest;
        assert(self.buckets@ =~= old(self).buckets@.skip(p as int));
    }
}

} // verus!
