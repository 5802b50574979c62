//! Pool configuration and weighted pool selection.
//!
//! A configuration holds named target pools, each backed by a directory
//! and tagged with labels for inclusion and exclusion. Selection across
//! pools weights each pool by its eligible target count and draws
//! uniformly over the total weight, so an empty pool is never chosen.

use vstd::prelude::*;

use crate::error::PsiError;

verus! {

/// One content-acquisition query from the configuration file.
#[derive(Debug)]
pub struct QueryConfig {
    pub query: String,
    pub limit: Option<usize>,
    pub frontloading: Option<Vec<String>>,
}

/// A query resolved against the limit defaulting chain.
#[derive(Debug)]
pub struct Query {
    pub query: String,
    pub limit: usize,
    pub frontloading: Vec<String>,
}

/// The acquisition settings of a pool.
#[derive(Debug)]
pub struct WikiConfig {
    pub default_limit: Option<usize>,
    pub queries: Vec<QueryConfig>,
}

/// A named, directory-backed collection of targets.
#[derive(Debug)]
pub struct TargetPool {
    pub path: String,
    pub labels: Vec<String>,
    pub wiki: Option<WikiConfig>,
}

/// The limit a query runs with: its own, else the caller's override,
/// else the pool-wide default, else 100.
pub open spec fn spec_query_limit(own: Option<usize>, caller: Option<usize>, pool: Option<usize>) -> usize {
    if own is Some {
        own->Some_0
    } else if caller is Some {
        caller->Some_0
    } else if pool is Some {
        pool->Some_0
    } else {
        100
    }
}

impl TargetPool {
    /// The pool's queries, each with its limit resolved (its own limit
    /// first, then the caller's default, then the pool's, then 100) and
    /// its frontloading hints (empty when none were configured). A pool
    /// without acquisition settings has no queries.
    pub fn iter_queries(&self, default_limit: Option<usize>) -> (r: Vec<Query>)
        ensures
            self.wiki is None ==> r@.len() == 0,
            self.wiki is Some ==> {
                let qs = self.wiki->Some_0.queries@;
                &&& r@.len() == qs.len()
                &&& forall|i: int| 0 <= i < qs.len() ==> (#[trigger] r@[i]).query@ == qs[i].query@
                &&& forall|i: int|
                    0 <= i < qs.len() ==> (#[trigger] r@[i]).limit == spec_query_limit(
                        qs[i].limit,
                        default_limit,
                        self.wiki->Some_0.default_limit,
                    )
                &&& forall|i: int|
                    0 <= i < qs.len() ==> (#[trigger] r@[i]).frontloading.deep_view() == (
                    match qs[i].frontloading {
                        Option::Some(f) => f.deep_view(),
                        Option::None => Seq::<Seq<char>>::empty(),
                    })
            },
    {
        let mut out: Vec<Query> = Vec::new();
        let wiki = match &self.wiki {
            Option::Some(w) => w,
            Option::None => {
                return out;
            },
        };
        let n: usize = wiki.queries.len();
        let mut i: usize = 0;
        while i < n
            invariant
                i <= n,
                n == wiki.queries@.len(),
                wiki == self.wiki->Some_0,
                self.wiki is Some,
                out@.len() == i,
                forall|j: int|
                    0 <= j < i ==> (#[trigger] out@[j]).query@ == wiki.queries@[j].query@,
                forall|j: int|
                    0 <= j < i ==> (#[trigger] out@[j]).limit == spec_query_limit(
                        wiki.queries@[j].limit,
                        default_limit,
                        wiki.default_limit,
                    ),
                forall|j: int|
                    0 <= j < i ==> (#[trigger] out@[j]).frontloading.deep_view() == (
                    match wiki.queries@[j].frontloading {
                        Option::Some(f) => f.deep_view(),
                        Option::None => Seq::<Seq<char>>::empty(),
                    }),
            decreases n - i,
        {
            let q = &wiki.queries[i];
            let limit: usize = match q.limit {
                Option::Some(l) => l,
                Option::None => match default_limit {
                    Option::Some(l) => l,
                    Option::None => match wiki.default_limit {
                        Option::Some(l) => l,
                        Option::None => 100,
                    },
                },
            };
            let frontloading: Vec<String> = match &q.frontloading {
                Option::Some(f) => clone_strings(f),
                Option::None => Vec::new(),
            };
            proof {
                if q.frontloading is None {
                    assert(frontloading.deep_view() =~= Seq::<Seq<char>>::empty());
                }
            }
            out.push(Query { query: q.query.clone(), limit, frontloading });
            i = i + 1;
        }
        out
    }
}

/// A copy of a string list, equal text for text.
fn clone_strings(v: &Vec<String>) -> (r: Vec<String>)
    ensures
        r.deep_view() == v.deep_view(),
{
    let n: usize = v.len();
    let mut r: Vec<String> = Vec::new();
    let mut i: usize = 0;
    while i < n
        invariant
            i <= n,
            n == v@.len(),
            r@.len() == i,
            forall|j: int| 0 <= j < i ==> (#[trigger] r@[j])@ == v@[j]@,
        decreases n - i,
    {
        r.push(v[i].clone());
        i = i + 1;
    }
    proof {
        assert(r.deep_view() =~= v.deep_view());
    }
    r
}

/// The first pool stored under a name.
pub open spec fn spec_pool_lookup(s: Seq<(String, TargetPool)>, name: Seq<char>) -> Option<
    TargetPool,
>
    decreases s.len(),
{
    if s.len() == 0 {
        None
    } else if s[0].0@ == name {
        Some(s[0].1)
    } else {
        spec_pool_lookup(s.drop_first(), name)
    }
}

/// The named target pools of a run.
#[derive(Debug)]
pub struct Config {
    target_pools: Vec<(String, TargetPool)>,
}

impl Config {
    /// The stored (name, pool) pairs.
    pub closed spec fn pools(&self) -> Seq<(String, TargetPool)> {
        self.target_pools@
    }

    /// A configuration from parsed (name, pool) pairs.
    pub fn new(target_pools: Vec<(String, TargetPool)>) -> (r: Config)
        ensures
            r.pools() == target_pools@,
    {
        Config { target_pools }
    }

    /// How many pools are configured.
    pub fn len(&self) -> (r: usize)
        ensures
            r == self.pools().len(),
    {
        self.target_pools.len()
    }

    /// Whether a pool of this name is configured.
    pub fn has_pool(&self, pool: &String) -> (r: bool)
        ensures
            r == (spec_pool_lookup(self.pools(), pool@) is Some),
    {
        match self.get_pool(pool) {
            Option::Some(_) => true,
            Option::None => false,
        }
    }

    /// The pool of this name, if one is configured.
    pub fn get_pool(&self, pool: &String) -> (r: Option<&TargetPool>)
        ensures
            r is Some <==> spec_pool_lookup(self.pools(), pool@) is Some,
            r is Some ==> *r->Some_0 == spec_pool_lookup(self.pools(), pool@)->Some_0,
    {
        let n: usize = self.target_pools.len();
        proof {
            assert(self.pools().skip(0) =~= self.pools());
        }
        let mut i: usize = 0;
        while i < n
            invariant
                i <= n,
                n == self.pools().len(),
                spec_pool_lookup(self.pools(), pool@) == spec_pool_lookup(
                    self.pools().skip(i as int),
                    pool@,
                ),
            decreases n - i,
        {
            proof {
                assert(self.pools().skip(i as int)[0] == self.pools()[i as int]);
                assert(self.pools().skip(i as int).drop_first() =~= self.pools().skip(
                    i as int + 1,
                ));
            }
            if self.target_pools[i].0 == *pool {
                return Some(&self.target_pools[i].1);
            }
            i = i + 1;
        }
        None
    }

    /// The pool stored at an index, with its name.
    pub fn pool_at(&self, i: usize) -> (r: (&String, &TargetPool))
        requires
            i < self.pools().len(),
        ensures
            *r.0 == self.pools()[i as int].0,
            *r.1 == self.pools()[i as int].1,
    {
        (&self.target_pools[i].0, &self.target_pools[i].1)
    }

    /// The configured pool names, in order.
    pub fn list_pools(&self) -> (r: Vec<String>)
        ensures
            r@.len() == self.pools().len(),
            forall|i: int|
                0 <= i < r@.len() ==> (#[trigger] r@[i])@ == self.pools()[i].0@,
    {
        let n: usize = self.target_pools.len();
        let mut r: Vec<String> = Vec::new();
        let mut i: usize = 0;
        while i < n
            invariant
                i <= n,
                n == self.pools().len(),
                r@.len() == i,
                forall|j: int| 0 <= j < i ==> (#[trigger] r@[j])@ == self.pools()[j].0@,
            decreases n - i,
        {
            r.push(self.target_pools[i].0.clone());
            i = i + 1;
        }
        r
    }

    /// The resolved queries of a named pool, or none when the name is
    /// not configured.
    pub fn iter_queries(&self, pool: &String, default_limit: Option<usize>) -> (r: Vec<Query>)
        ensures
            spec_pool_lookup(self.pools(), pool@) is None ==> r@.len() == 0,
            spec_pool_lookup(self.pools(), pool@) matches Some(p) ==> {
                &&& (p.wiki is None ==> r@.len() == 0)
                &&& (p.wiki matches Some(w) ==> {
                    &&& r@.len() == w.queries@.len()
                    &&& forall|i: int|
                        0 <= i < w.queries@.len() ==> (#[trigger] r@[i]).query@
                            == w.queries@[i].query@
                    &&& forall|i: int|
                        0 <= i < w.queries@.len() ==> (#[trigger] r@[i]).limit == spec_query_limit(
                            w.queries@[i].limit,
                            default_limit,
                            w.default_limit,
                        )
                    &&& forall|i: int|
                        0 <= i < w.queries@.len() ==> (#[trigger] r@[i]).frontloading.deep_view()
                            == (match w.queries@[i].frontloading {
                            Option::Some(f) => f.deep_view(),
                            Option::None => Seq::<Seq<char>>::empty(),
                        })
                })
            },
    {
        match self.get_pool(pool) {
            Option::Some(tpool) => tpool.iter_queries(default_limit),
            Option::None => Vec::new(),
        }
    }
}

/// Whether some string in the list reads as `x`.
pub open spec fn spec_names_contain(s: Seq<String>, x: Seq<char>) -> bool {
    exists|i: int| 0 <= i < s.len() && s[i]@ == x
}

fn names_contain(list: &Vec<String>, x: &String) -> (r: bool)
    ensures
        r == spec_names_contain(list@, x@),
{
    let n: usize = list.len();
    let mut i: usize = 0;
    while i < n
        invariant
            i <= n,
            n == list@.len(),
            forall|j: int| 0 <= j < i ==> list@[j]@ != x@,
        decreases n - i,
    {
        if list[i] == *x {
            return true;
        }
        i = i + 1;
    }
    false
}

/// Whether a pool takes part in a run: a pool carrying the excluded
/// label never does; otherwise one requested by name, or carrying the
/// included label, does; and when nothing at all was asked for, every
/// pool does.
pub open spec fn spec_pool_selected(
    name: Seq<char>,
    labels: Seq<String>,
    requested: Seq<String>,
    include_label: Option<String>,
    exclude_label: Option<String>,
) -> bool {
    if exclude_label is Some && spec_names_contain(labels, exclude_label->Some_0@) {
        false
    } else if spec_names_contain(requested, name) {
        true
    } else if include_label is Some && spec_names_contain(labels, include_label->Some_0@) {
        true
    } else {
        requested.len() == 0 && include_label is None && exclude_label is None
    }
}

impl Config {
    /// The indices of the pools a run draws from, in configuration
    /// order. Fails with `NotFoundError` when a requested pool name is
    /// not configured at all.
    pub fn select_pools(
        &self,
        requested: &Vec<String>,
        include_label: &Option<String>,
        exclude_label: &Option<String>,
    ) -> (r: Result<Vec<usize>, PsiError>)
        ensures
            (exists|i: int|
                0 <= i < requested@.len() && spec_pool_lookup(
                    self.pools(),
                    (#[trigger] requested@[i])@,
                ) is None) <==> (r is Err && r->Err_0 == PsiError::NotFoundError),
            (forall|i: int|
                0 <= i < requested@.len() ==> spec_pool_lookup(
                    self.pools(),
                    (#[trigger] requested@[i])@,
                ) is Some) ==> r is Ok,
            r is Ok ==> {
                let idx = r->Ok_0@;
                &&& forall|k: int| 0 <= k < idx.len() ==> 0 <= #[trigger] idx[k] < self.pools().len()
                &&& forall|k: int| 0 <= k < idx.len() - 1 ==> #[trigger] idx[k] < idx[k + 1]
                &&& forall|k: int|
                    0 <= k < idx.len() ==> spec_pool_selected(
                        self.pools()[#[trigger] idx[k] as int].0@,
                        self.pools()[idx[k] as int].1.labels@,
                        requested@,
                        *include_label,
                        *exclude_label,
                    )
                &&& forall|p: int|
                    0 <= p < self.pools().len() && spec_pool_selected(
                        (#[trigger] self.pools()[p]).0@,
                        self.pools()[p].1.labels@,
                        requested@,
                        *include_label,
                        *exclude_label,
                    ) ==> idx.contains(p as usize)
            },
    {
        let nr: usize = requested.len();
        let mut i: usize = 0;
        while i < nr
            invariant
                i <= nr,
                nr == requested@.len(),
                forall|j: int|
                    0 <= j < i ==> spec_pool_lookup(
                        self.pools(),
                        (#[trigger] requested@[j])@,
                    ) is Some,
            decreases nr - i,
        {
            if !self.has_pool(&requested[i]) {
                return Err(PsiError::NotFoundError);
            }
            i = i + 1;
        }
        let n: usize = self.target_pools.len();
        let mut out: Vec<usize> = Vec::new();
        let mut p: usize = 0;
        while p < n
            invariant
                p <= n,
                n == self.pools().len(),
                forall|k: int| 0 <= k < out@.len() ==> 0 <= #[trigger] out@[k] < p,
                forall|k: int| 0 <= k < out@.len() - 1 ==> #[trigger] out@[k] < out@[k + 1],
                forall|k: int|
                    0 <= k < out@.len() ==> spec_pool_selected(
                        self.pools()[#[trigger] out@[k] as int].0@,
                        self.pools()[out@[k] as int].1.labels@,
                        requested@,
                        *include_label,
                        *exclude_label,
                    ),
                forall|q: int|
                    0 <= q < p && spec_pool_selected(
                        (#[trigger] self.pools()[q]).0@,
                        self.pools()[q].1.labels@,
                        requested@,
                        *include_label,
                        *exclude_label,
                    ) ==> out@.contains(q as usize),
            decreases n - p,
        {
            let name = &self.target_pools[p].0;
            let labels = &self.target_pools[p].1.labels;
            let excluded: bool = match exclude_label {
                Option::Some(x) => names_contain(labels, x),
                Option::None => false,
            };
            let selected: bool = if excluded {
                false
            } else if names_contain(requested, name) {
                true
            } else {
                let included: bool = match include_label {
                    Option::Some(x) => names_contain(labels, x),
                    Option::None => false,
                };
                if included {
                    true
                } else {
                    requested.len() == 0 && include_label.is_none() && exclude_label.is_none()
                }
            };
            if selected {
                let ghost old_out = out@;
                out.push(p);
                proof {
                    assert(out@.last() == p as usize);
                    assert(out@.drop_last() =~= old_out);
                    assert forall|q: int|
                        0 <= q < p + 1 && spec_pool_selected(
                            (#[trigger] self.pools()[q]).0@,
                            self.pools()[q].1.labels@,
                            requested@,
                            *include_label,
                            *exclude_label,
                        ) implies out@.contains(q as usize) by {
                        if q < p {
                            assert(old_out.contains(q as usize));
                            let w = choose|w: int|
                                0 <= w < old_out.len() && old_out[w] == q as usize;
                            assert(out@[w] == q as usize);
                        } else {
                            assert(out@[out@.len() - 1] == q as usize);
                        }
                    }
                }
            }
            p = p + 1;
        }
        Ok(out)
    }
}

/// The total of the first `i` weights.
pub open spec fn spec_cum_weight(ws: Seq<usize>, i: int) -> int
    decreases i,
{
    if i <= 0 {
        0
    } else {
        spec_cum_weight(ws, i - 1) + ws[i - 1]
    }
}

proof fn lemma_cum_weight_nonneg(ws: Seq<usize>, i: int)
    requires
        i <= ws.len(),
    ensures
        spec_cum_weight(ws, i) >= 0,
    decreases i,
{
    if i > 0 {
        lemma_cum_weight_nonneg(ws, i - 1);
    }
}

/// The total weight is zero exactly when every weight is zero.
pub proof fn lemma_total_zero(ws: Seq<usize>)
    ensures
        (spec_cum_weight(ws, ws.len() as int) == 0) <==> (forall|i: int|
            0 <= i < ws.len() ==> ws[i] == 0),
    decreases ws.len(),
{
    if ws.len() > 0 {
        let n = ws.len() as int;
        lemma_cum_weight_nonneg(ws, n - 1);
        assert(spec_cum_weight(ws, n) == spec_cum_weight(ws, n - 1) + ws[n - 1]);
        lemma_total_front(ws);
        if forall|i: int| 0 <= i < ws.len() ==> ws[i] == 0 {
            lemma_all_zero_total(ws, n);
        }
    }
}

proof fn lemma_all_zero_total(ws: Seq<usize>, i: int)
    requires
        0 <= i <= ws.len(),
        forall|j: int| 0 <= j < ws.len() ==> ws[j] == 0,
    ensures
        spec_cum_weight(ws, i) == 0,
    decreases i,
{
    if i > 0 {
        lemma_all_zero_total(ws, i - 1);
    }
}

proof fn lemma_total_front(ws: Seq<usize>)
    ensures
        (spec_cum_weight(ws, ws.len() as int) == 0) ==> (forall|i: int|
            0 <= i < ws.len() ==> ws[i] == 0),
    decreases ws.len(),
{
    if ws.len() > 0 && spec_cum_weight(ws, ws.len() as int) == 0 {
        let n = ws.len() as int;
        lemma_cum_weight_nonneg(ws, n - 1);
        assert(ws[n - 1] == 0);
        assert forall|i: int| 0 <= i < n implies ws[i] == 0 by {
            lemma_cum_prefix_zero(ws, n, i + 1);
            lemma_cum_weight_nonneg(ws, i);
        }
    }
}

proof fn lemma_cum_prefix_zero(ws: Seq<usize>, n: int, i: int)
    requires
        0 <= i <= n <= ws.len(),
        spec_cum_weight(ws, n) == 0,
    ensures
        spec_cum_weight(ws, i) == 0,
    decreases n - i,
{
    if i < n {
        lemma_cum_prefix_zero(ws, n, i + 1);
        lemma_cum_weight_nonneg(ws, i);
    }
}

/// The total of all weights, wide enough that it cannot overflow.
fn total_weight(ws: &Vec<usize>) -> (t: u128)
    ensures
        t == spec_cum_weight(ws@, ws@.len() as int),
{
    let n: usize = ws.len();
    let mut t: u128 = 0;
    let mut i: usize = 0;
    while i < n
        invariant
            i <= n,
            n == ws@.len(),
            t == spec_cum_weight(ws@, i as int),
            t <= (i as int) * (usize::MAX as int),
        decreases n - i,
    {
        assert((i as int) * (usize::MAX as int) + (usize::MAX as int) == ((i + 1) as int) * (
        usize::MAX as int)) by (nonlinear_arith);
        assert(((i + 1) as int) * (usize::MAX as int) <= (n as int) * (usize::MAX as int)) by (
        nonlinear_arith)
            requires
                0 <= i < n,
        ;
        assert((n as int) * (usize::MAX as int) < u128::MAX) by (nonlinear_arith)
            requires
                n <= usize::MAX < 0x1_0000_0000_0000_0000,
        ;
        t = t + ws[i] as u128;
        i = i + 1;
    }
    t
}

/// The pool index a draw lands in: the first index whose cumulative
/// weight exceeds the draw. A zero-weight pool owns no draw values, so
/// it is never the result.
pub fn pick_weighted_index(ws: &Vec<usize>, draw: u128) -> (idx: usize)
    requires
        draw < spec_cum_weight(ws@, ws@.len() as int),
    ensures
        idx < ws@.len(),
        spec_cum_weight(ws@, idx as int) <= draw < spec_cum_weight(ws@, idx as int + 1),
        ws@[idx as int] > 0,
{
    let n: usize = ws.len();
    let mut acc: u128 = 0;
    let mut i: usize = 0;
    while i < n
        invariant
            i <= n,
            n == ws@.len(),
            acc == spec_cum_weight(ws@, i as int),
            draw >= acc,
            draw < spec_cum_weight(ws@, n as int),
            acc <= (i as int) * (usize::MAX as int),
        decreases n - i,
    {
        assert((i as int) * (usize::MAX as int) + (usize::MAX as int) == ((i + 1) as int) * (
        usize::MAX as int)) by (nonlinear_arith);
        assert(((i + 1) as int) * (usize::MAX as int) <= (n as int) * (usize::MAX as int)) by (
        nonlinear_arith)
            requires
                0 <= i < n,
        ;
        assert((n as int) * (usize::MAX as int) < u128::MAX) by (nonlinear_arith)
            requires
                n <= usize::MAX < 0x1_0000_0000_0000_0000,
        ;
        let next: u128 = acc + ws[i] as u128;
        if draw < next {
            return i;
        }
        acc = next;
        i = i + 1;
    }
    proof {
        assert(false);
    }
    0
}

/// Weighted pool selection: when every pool is empty the draw fails
/// with `EmptyPoolError`; otherwise a pool is returned, and it has at
/// least one eligible target — a pool with zero eligible targets has
/// zero chance of selection.
pub fn random_pool(weights: &Vec<usize>) -> (r: Result<usize, PsiError>)
    ensures
        (forall|i: int| 0 <= i < weights@.len() ==> weights@[i] == 0) <==> (r is Err && r->Err_0
            == PsiError::EmptyPoolError),
        (exists|i: int| 0 <= i < weights@.len() && weights@[i] > 0) ==> r is Ok,
        r is Ok ==> r->Ok_0 < weights@.len() && weights@[r->Ok_0 as int] > 0,
{
    let total: u128 = total_weight(weights);
    proof {
        lemma_total_zero(weights@);
        lemma_cum_weight_nonneg(weights@, weights@.len() as int);
    }
    if total == 0 {
        return Err(PsiError::EmptyPoolError);
    }
    let draw: u128 = crate::draw::draw_below(total);
    Ok(pick_weighted_index(weights, draw))
}

/// A pool with zero eligible targets is never selected: any index the
/// cumulative draw can land in has positive weight.
pub proof fn lemma_zero_weight_never_chosen(ws: Seq<usize>, idx: int, draw: int)
    requires
        0 <= idx < ws.len(),
        spec_cum_weight(ws, idx) <= draw < spec_cum_weight(ws, idx + 1),
    ensures
        ws[idx] > 0,
{
}

} // verus!
