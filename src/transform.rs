//! Transformers: synchronous per-metric steps run in registration order.
use crate::event::{Metric, MetricView, Origin};
use crate::tags::{lemma_sorted_pairs_of, sorted_pairs, tag_map, TagMap, TagPair};
use vstd::prelude::*;

verus! {

/// A step of the chain: returns the metric, possibly changed, or `None` to
/// drop it. Implementations must not block.
pub trait Transformer {
    /// What this transformer, in its current state, makes of a metric from
    /// `origin`.
    spec fn outcome(&self, origin: &Origin, m: MetricView) -> Option<MetricView>;

    fn transform(&mut self, origin: &Origin, metric: Metric) -> (r: Option<Metric>)
        ensures
            opt_view(r) == old(self).outcome(origin, metric@),
    ;
}

/// The view of an optional metric.
pub open spec fn opt_view(m: Option<Metric>) -> Option<MetricView> {
    match m {
        Some(x) => Some(x@),
        None => None,
    }
}

/// The chain run left to right from `start`: each transformer is handed what
/// the one before it returned, and the first `None` ends the run.
pub open spec fn chain_outcome<T: Transformer>(
    chain: Seq<T>,
    origin: &Origin,
    start: Option<MetricView>,
) -> Option<MetricView>
    decreases chain.len(),
{
    if chain.len() == 0 {
        start
    } else {
        match chain_outcome(chain.drop_last(), origin, start) {
            Some(x) => chain.last().outcome(origin, x),
            None => None,
        }
    }
}

/// Runs `metric` through `chain` in order and stops at the first transformer
/// that drops it; the transformers after that one are not called.
pub fn run_chain<T: Transformer>(chain: &mut Vec<T>, origin: &Origin, metric: Metric) -> (r:
    Option<Metric>)
    ensures
        final(chain)@.len() == old(chain)@.len(),
        opt_view(r) == chain_outcome(old(chain)@, origin, Some(metric@)),
{
    let ghost start = old(chain)@;
    let ghost first = metric@;
    let n = chain.len();
    let mut current = Some(metric);
    let mut i: usize = 0;
    assert(start.subrange(0, 0) =~= Seq::<T>::empty());
    while i < n
        invariant
            n == chain@.len(),
            n == start.len(),
            start == old(chain)@,
            first == metric@,
            i <= n,
            forall|j: int| i <= j < n ==> chain@[j] == start[j],
            opt_view(current) == chain_outcome(start.subrange(0, i as int), origin, Some(first)),
        decreases n - i,
    {
        proof {
            let pre = start.subrange(0, i + 1);
            assert(pre.drop_last() =~= start.subrange(0, i as int));
            assert(pre.last() == start[i as int]);
        }
        match current {
            None => {
                proof {
                    lemma_dropped_stays_dropped(start, origin, first, i as int);
                }
                return None;
            },
            Some(m) => {
                current = chain[i].transform(origin, m);
            },
        }
        i = i + 1;
    }
    assert(start.subrange(0, n as int) =~= start);
    current
}

proof fn lemma_dropped_stays_dropped<T: Transformer>(
    chain: Seq<T>,
    origin: &Origin,
    first: MetricView,
    i: int,
)
    requires
        0 <= i <= chain.len(),
        chain_outcome(chain.subrange(0, i), origin, Some(first)) is None,
    ensures
        chain_outcome(chain, origin, Some(first)) is None,
    decreases chain.len() - i,
{
    if i < chain.len() {
        let pre = chain.subrange(0, i + 1);
        assert(pre.drop_last() =~= chain.subrange(0, i));
        lemma_dropped_stays_dropped(chain, origin, first, i + 1);
    } else {
        assert(chain.subrange(0, i) =~= chain);
    }
}

/// Merges a fixed set of tags into every metric, overwriting keys the metric
/// already has.
pub struct Tags {
    tags: TagMap,
}

impl View for Tags {
    type V = Seq<TagPair>;

    closed spec fn view(&self) -> Seq<TagPair> {
        self.tags@
    }
}

impl Tags {
    pub fn new(tags: TagMap) -> (r: Tags)
        ensures
            r@ == tags@,
    {
        Tags { tags }
    }

    /// The metric with this transformer's tags merged in.
    pub fn apply(&self, metric: Metric) -> (r: Metric)
        ensures
            tag_map(r.tags@) == tag_map(metric.tags@).union_prefer_right(tag_map(self@)),
            r.name == metric.name,
            r.value_bits == metric.value_bits,
            r.metric_type == metric.metric_type,
            r.category == metric.category,
            r.timestamp == metric.timestamp,
    {
        let mut m = metric;
        let pairs = self.tags.pairs();
        let n = pairs.len();
        let mut i: usize = 0;
        assert(self@.subrange(0, 0) =~= Seq::<TagPair>::empty());
        while i < n
            invariant
                n == pairs@.len(),
                n == self@.len(),
                i <= n,
                forall|j: int| 0 <= j < n ==> (#[trigger] pairs@[j]).0@ == self@[j].0 && pairs@[j].1@ == self@[j].1,
                tag_map(m.tags@) == tag_map(metric.tags@).union_prefer_right(tag_map(self@.subrange(0, i as int))),
                m.name == metric.name,
                m.value_bits == metric.value_bits,
                m.metric_type == metric.metric_type,
                m.category == metric.category,
                m.timestamp == metric.timestamp,
            decreases n - i,
        {
            let k = pairs[i].0.clone();
            let v = pairs[i].1.clone();
            m.tags.insert(k, v);
            proof {
                let s = self@;
                let prefix = s.subrange(0, i + 1);
                assert(prefix.drop_last() =~= s.subrange(0, i as int));
                assert(prefix.last() == s[i as int]);
                assert(tag_map(prefix) == tag_map(s.subrange(0, i as int)).insert(s[i as int].0, s[i as int].1));
                assert(tag_map(metric.tags@).union_prefer_right(tag_map(prefix)) =~= tag_map(metric.tags@).union_prefer_right(tag_map(s.subrange(0, i as int))).insert(s[i as int].0, s[i as int].1));
            }
            i = i + 1;
        }
        assert(self@.subrange(0, n as int) =~= self@);
        m
    }
}

/// The metric with `tags` merged into its own tags, `tags` winning on a
/// shared key.
pub open spec fn merged(m: MetricView, tags: Seq<TagPair>) -> MetricView {
    MetricView { tags: sorted_pairs(tag_map(m.tags).union_prefer_right(tag_map(tags))), ..m }
}

/// A merge's result carries the merged tags: merging them again adds
/// nothing to the mapping.
pub proof fn lemma_merge_absorbs(m: Map<Seq<char>, Seq<char>>, tags: Map<Seq<char>, Seq<char>>)
    ensures
        m.union_prefer_right(tags).union_prefer_right(tags) == m.union_prefer_right(tags),
{
    assert(m.union_prefer_right(tags).union_prefer_right(tags) =~= m.union_prefer_right(tags));
}

/// Merging tags into a metric that already carries them changes nothing, so
/// the `Tags` transformer applied to its own output returns it unchanged.
pub proof fn lemma_tags_idempotent(m: MetricView, tags: Seq<TagPair>)
    requires
        crate::tags::sorted_keys(m.tags),
        tag_map(m.tags).union_prefer_right(tag_map(tags)) == tag_map(m.tags),
    ensures
        merged(m, tags) == m,
{
    lemma_sorted_pairs_of(m.tags);
}

impl Transformer for Tags {
    open spec fn outcome(&self, origin: &Origin, m: MetricView) -> Option<MetricView> {
        Some(merged(m, self@))
    }

    fn transform(&mut self, origin: &Origin, metric: Metric) -> (r: Option<Metric>)
        ensures
            r matches Some(m) && tag_map(m.tags@) == tag_map(metric.tags@).union_prefer_right(
                tag_map(old(self)@),
            ) && m.name == metric.name && m.value_bits == metric.value_bits && m.metric_type
                == metric.metric_type && m.category == metric.category && m.timestamp
                == metric.timestamp,
            final(self)@ == old(self)@,
    {
        let r = self.apply(metric);
        proof {
            use_type_invariant(&r.tags);
            lemma_sorted_pairs_of(r.tags@);
        }
        Some(r)
    }
}

} // verus!
