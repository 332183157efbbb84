//! Response amplifier: boosts the priority of contexts flagged by the
//! immune system, and lets that boost decay cycle by cycle.
use vstd::prelude::*;
use crate::assoc::{keys_unique, to_map, has_key, lemma_dom, lemma_finite, lemma_index, lemma_index_of, lemma_len, lemma_push, lemma_update};
use crate::memory::Severity;

verus! {

/// Amplification trigger conditions.
#[derive(Debug, Clone, Copy, PartialEq, Eq, Structural)]
pub enum AmplifyTrigger {
    /// Anomaly detected above severity threshold.
    AnomalyDetected(Severity),
    /// Repeated antigen encounter (memory hit).
    MemoryHit(Severity),
    /// Network regulation flagged critical state.
    RegulationAlert(Severity),
}

impl AmplifyTrigger {
    /// The severity carried by the trigger.
    pub open spec fn severity_of(self) -> Severity {
        match self {
            AmplifyTrigger::AnomalyDetected(s) => s,
            AmplifyTrigger::MemoryHit(s) => s,
            AmplifyTrigger::RegulationAlert(s) => s,
        }
    }
}

/// Configuration for the response amplifier.
#[derive(Debug, Clone, Copy)]
pub struct AmplifierConfig {
    /// Priority boost amount per trigger.
    pub boost_per_trigger: u8,
    /// Maximum priority cap.
    pub max_priority: u8,
    /// Decay per cycle (priority decreases by this amount when inactive).
    pub decay_per_cycle: u8,
}

impl Default for AmplifierConfig {
    fn default() -> (c: Self)
        ensures
            c.boost_per_trigger == 2,
            c.max_priority == 10,
            c.decay_per_cycle == 1,
    {
        AmplifierConfig { boost_per_trigger: 2, max_priority: 10, decay_per_cycle: 1 }
    }
}

/// The boost a trigger of the given severity adds: the configured boost
/// scaled by 1.5 (Low), 2 (Medium), 3 (High) or 5 (Critical), rounded half
/// away from zero and saturated to the range of a `u8`.
pub open spec fn spec_effective_boost(boost: u8, severity: Severity) -> int {
    let raw: int = match severity {
        Severity::Low => (3 * boost + 1) / 2,
        Severity::Medium => 2 * boost,
        Severity::High => 3 * boost,
        Severity::Critical => 5 * boost,
    };
    if raw > 255 {
        255
    } else {
        raw
    }
}

/// Exact integer form of `round(boost * multiplier(severity))`, saturated
/// to `u8`.
pub fn effective_boost(boost: u8, severity: Severity) -> (r: u8)
    ensures
        r == spec_effective_boost(boost, severity),
{
    let b: u32 = boost as u32;
    let raw: u32 = match severity {
        Severity::Low => (3 * b + 1) / 2,
        Severity::Medium => 2 * b,
        Severity::High => 3 * b,
        Severity::Critical => 5 * b,
    };
    if raw > 255 {
        255
    } else {
        raw as u8
    }
}

/// Amplifier that tracks and boosts priority for specific contexts.
pub struct ResponseAmplifier {
    /// Current amplification levels per context id (distinct ids).
    levels: Vec<(u64, u8)>,
    config: AmplifierConfig,
}

/// Level of `id` in a level map: 0 when it is not amplified.
pub open spec fn level_in(m: Map<u64, u8>, id: u64) -> int {
    if m.dom().contains(id) {
        m[id] as int
    } else {
        0
    }
}

/// The map a decay cycle leaves: every level drops by `decay` (saturating),
/// and contexts that reach zero are forgotten.
pub open spec fn decayed(m: Map<u64, u8>, decay: u8) -> Map<u64, u8> {
    Map::new(
        |k: u64| m.dom().contains(k) && m[k] > decay,
        |k: u64| (m[k] - decay) as u8,
    )
}

impl ResponseAmplifier {
    /// The amplification levels, by context id.
    pub closed spec fn levels(&self) -> Map<u64, u8> {
        to_map(self.levels@)
    }

    /// The configuration the amplifier was made with.
    pub closed spec fn config(&self) -> AmplifierConfig {
        self.config
    }

    /// Well-formedness: context ids are distinct and every stored level is
    /// above zero and no more than the configured cap: a context is tracked
    /// exactly while it is amplified.
    pub closed spec fn wf(&self) -> bool {
        &&& keys_unique(self.levels@)
        &&& forall|i: int|
            0 <= i < self.levels@.len() ==> 0 < #[trigger] self.levels@[i].1
                <= self.config.max_priority
    }

    /// Create a new amplifier with the given config.
    pub fn new(config: AmplifierConfig) -> (r: Self)
        ensures
            r.wf(),
            r.levels() == Map::<u64, u8>::empty(),
            r.config() == config,
    {
        let r = ResponseAmplifier { levels: Vec::new(), config };
        assert(r.levels@ =~= Seq::<(u64, u8)>::empty());
        r
    }

    /// Whatever sequence of triggers and decays produced it, a well-formed
    /// amplifier tracks finitely many contexts, each actively amplified
    /// (above level zero) and none above the configured cap.
    pub proof fn lemma_levels_bounded(&self)
        requires
            self.wf(),
        ensures
            self.levels().dom().finite(),
            forall|k: u64| #[trigger]
                self.levels().dom().contains(k) ==> 0 < self.levels()[k]
                    <= self.config().max_priority,
    {
        lemma_finite(self.levels@);
        assert forall|k: u64| #[trigger]
            self.levels().dom().contains(k) implies 0 < self.levels()[k]
            <= self.config().max_priority by {
            let i = lemma_index_of(self.levels@, k);
        }
    }

    /// Position of `id` among the stored levels, if any.
    fn find(&self, id: u64) -> (r: Option<usize>)
        requires
            self.wf(),
        ensures
            match r {
                Some(i) => i < self.levels@.len() && self.levels@[i as int].0 == id,
                None => !self.levels().dom().contains(id),
            },
    {
        let mut i: usize = 0;
        while i < self.levels.len()
            invariant
                i <= self.levels@.len(),
                forall|j: int| 0 <= j < i ==> self.levels@[j].0 != id,
            decreases self.levels@.len() - i,
        {
            if self.levels[i].0 == id {
                return Some(i);
            }
            i += 1;
        }
        proof {
            lemma_dom(self.levels@, id);
        }
        None
    }

    /// Record a trigger event for a context, boosting its priority.
    ///
    /// The severity carried by the trigger scales `boost_per_trigger` by
    /// 1.5 (Low), 2 (Medium), 3 (High) or 5 (Critical); the new level is
    /// the old one plus that boost (counted without overflow), capped at
    /// `max_priority`.  A context
    /// whose new level is zero is not amplified and stays untracked.
    pub fn trigger(&mut self, context_id: u64, trigger: AmplifyTrigger)
        requires
            old(self).wf(),
        ensures
            final(self).wf(),
            final(self).config() == old(self).config(),
            ({
                let sum = level_in(old(self).levels(), context_id) + spec_effective_boost(
                    old(self).config().boost_per_trigger,
                    trigger.severity_of(),
                );
                let new_level = if sum < old(self).config().max_priority {
                    sum
                } else {
                    old(self).config().max_priority as int
                };
                final(self).levels() == if new_level > 0 {
                    old(self).levels().insert(context_id, new_level as u8)
                } else {
                    old(self).levels()
                }
            }),
    {
        let severity = match trigger {
            AmplifyTrigger::AnomalyDetected(s) => s,
            AmplifyTrigger::MemoryHit(s) => s,
            AmplifyTrigger::RegulationAlert(s) => s,
        };
        let boost = effective_boost(self.config.boost_per_trigger, severity);
        let max = self.config.max_priority;
        match self.find(context_id) {
            Some(i) => {
                proof {
                    lemma_index(self.levels@, i as int);
                }
                let level = self.levels[i].1;
                let sum: u16 = level as u16 + boost as u16;
                let new_level: u8 = if sum < max as u16 {
                    sum as u8
                } else {
                    max
                };
                proof {
                    lemma_update(self.levels@, i as int, new_level);
                }
                self.levels.set(i, (context_id, new_level));
            },
            None => {
                let new_level = if boost < max {
                    boost
                } else {
                    max
                };
                if new_level > 0 {
                    proof {
                        lemma_push(self.levels@, context_id, new_level);
                    }
                    self.levels.push((context_id, new_level));
                }
            },
        }
    }

    /// Get the current amplification level for a context (0 if none).
    pub fn get_level(&self, context_id: u64) -> (r: u8)
        requires
            self.wf(),
        ensures
            r == level_in(self.levels(), context_id),
    {
        match self.find(context_id) {
            Some(i) => {
                proof {
                    lemma_index(self.levels@, i as int);
                }
                self.levels[i].1
            },
            None => 0,
        }
    }

    /// Apply decay to all contexts. Removes entries that reach zero.
    pub fn decay_all(&mut self)
        requires
            old(self).wf(),
        ensures
            final(self).wf(),
            final(self).config() == old(self).config(),
            final(self).levels() == decayed(old(self).levels(), old(self).config().decay_per_cycle),
    {
        let decay = self.config.decay_per_cycle;
        let ghost old_levels = self.levels@;
        let mut kept: Vec<(u64, u8)> = Vec::new();
        let mut i: usize = 0;
        while i < self.levels.len()
            invariant
                i <= old_levels.len(),
                self.levels@ == old_levels,
                keys_unique(old_levels),
                forall|j: int|
                    0 <= j < old_levels.len() ==> 0 < #[trigger] old_levels[j].1
                        <= self.config.max_priority,
                keys_unique(kept@),
                forall|j: int|
                    0 <= j < kept@.len() ==> 0 < #[trigger] kept@[j].1 <= self.config.max_priority,
                decay == self.config.decay_per_cycle,
                to_map(kept@) == decayed(to_map(old_levels.subrange(0, i as int)), decay),
            decreases old_levels.len() - i,
        {
            let (id, level) = self.levels[i];
            let ghost pre = old_levels.subrange(0, i as int);
            let ghost post = old_levels.subrange(0, i + 1);
            proof {
                assert(post.drop_last() =~= pre);
                lemma_dom(pre, id);
                if has_key(pre, id) {
                    let j = choose|j: int| 0 <= j < pre.len() && pre[j].0 == id;
                    assert(old_levels[j].0 == old_levels[i as int].0);
                }
            }
            if level > decay {
                proof {
                    assert(!to_map(kept@).dom().contains(id));
                    lemma_push(kept@, id, (level - decay) as u8);
                    assert(decayed(to_map(post), decay) =~= decayed(to_map(pre), decay).insert(
                        id,
                        (level - decay) as u8,
                    ));
                }
                kept.push((id, level - decay));
            } else {
                proof {
                    assert(decayed(to_map(post), decay) =~= decayed(to_map(pre), decay));
                }
            }
            i += 1;
        }
        proof {
            assert(old_levels.subrange(0, old_levels.len() as int) =~= old_levels);
        }
        self.levels = kept;
    }

    /// Get the number of actively amplified contexts: those above level
    /// zero, which are exactly the tracked ones.
    pub fn active_count(&self) -> (r: usize)
        requires
            self.wf(),
        ensures
            r == self.levels().dom().len(),
            r == self.levels().dom().filter(|k: u64| level_in(self.levels(), k) > 0).len(),
    {
        proof {
            lemma_len(self.levels@);
            self.lemma_levels_bounded();
            assert(self.levels().dom().filter(|k: u64| level_in(self.levels(), k) > 0) =~= self.levels().dom());
        }
        self.levels.len()
    }
}

impl Default for ResponseAmplifier {
    fn default() -> (r: Self)
        ensures
            r.wf(),
            r.levels() == Map::<u64, u8>::empty(),
            r.config().boost_per_trigger == 2,
            r.config().max_priority == 10,
            r.config().decay_per_cycle == 1,
    {
        Self::new(AmplifierConfig::default())
    }
}

} // verus!
