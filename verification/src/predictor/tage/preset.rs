//! A ready-made configuration of the predictor.

use std::ops::RangeInclusive;
use vstd::prelude::*;

use crate::branch::Outcome;
use crate::predictor::counter::SaturatingCounterConfig;
use crate::predictor::table::{lemma_size_bits, table_bits, IndexStrategy, TagStrategy};
use crate::predictor::tage::config::{
    lemma_first_defect, TAGEBaseConfig, TAGEComponentConfig, TAGEConfig,
};
use crate::predictor::tage::TAGEPredictor;

verus! {

/// The number of entries of each table of the ready-made predictor.
pub const TABLE_SIZE: usize = 4096;

/// The number of bits of global history that the ready-made predictor
/// reads.
pub const HISTORY_BITS: usize = 128;

/// 4096 is two to the power of twelve.
pub proof fn lemma_table_size()
    ensures
        table_bits(TABLE_SIZE, 12),
{
    assert(1usize << 12usize == 4096usize) by (bit_vector);
}

/// The counters of the ready-made predictor: they start as not taken, and
/// take four steps of strength in either direction.
pub open spec fn spec_standard_counter() -> SaturatingCounterConfig {
    SaturatingCounterConfig { max_t_state: 4, max_n_state: 4, default_state: Outcome::N }
}

/// Make the configuration of the counters of the ready-made predictor.
pub fn standard_counter() -> (r: SaturatingCounterConfig)
    ensures
        r == spec_standard_counter(),
{
    SaturatingCounterConfig { max_t_state: 4, max_n_state: 4, default_state: Outcome::N }
}

/// `c` is the tagged component of the ready-made predictor that folds the
/// newest `hi + 1` bits of history: 4096 entries with a tag of eight bits
/// and a 'useful' counter of one bit, indexed by the program counter and
/// tagged by the program counter and the folded history.
pub open spec fn is_standard_component(c: TAGEComponentConfig, hi: usize) -> bool {
    &&& c.size == TABLE_SIZE
    &&& c.ghr_range@.start == 0
    &&& c.ghr_range@.end == hi
    &&& !c.ghr_range@.exhausted
    &&& c.tag_bits == 8
    &&& c.useful_bits == 1
    &&& c.index_strat == IndexStrategy::FromPc
    &&& c.tag_strat == TagStrategy::FromPcAndHistory
    &&& c.ctr == spec_standard_counter()
}

/// The last bit of history that the tagged component at `i` of the
/// ready-made predictor folds.
pub open spec fn standard_reach(i: int) -> usize {
    if i == 0 {
        127
    } else if i == 1 {
        63
    } else if i == 2 {
        31
    } else if i == 3 {
        15
    } else {
        7
    }
}

/// `cfg` is the configuration of the ready-made predictor: a base
/// component of 4096 counters, indexed by the program counter, and five
/// tagged components that fold the newest 128, 64, 32, 16 and 8 bits of
/// history.
pub open spec fn is_standard_config(cfg: TAGEConfig) -> bool {
    &&& cfg.base == (TAGEBaseConfig {
        ctr: spec_standard_counter(),
        size: TABLE_SIZE,
        index_strat: IndexStrategy::FromPc,
    })
    &&& cfg.comp@.len() == 5
    &&& forall|i: int|
        0 <= i < 5 ==> is_standard_component(#[trigger] cfg.comp@[i], standard_reach(i))
}

/// Make the configuration of a tagged component of the ready-made
/// predictor that folds the newest `hi + 1` bits of history.
pub fn standard_component(hi: usize) -> (r: TAGEComponentConfig)
    ensures
        is_standard_component(r, hi),
        r.valid(),
{
    proof {
        lemma_table_size();
        lemma_size_bits(TABLE_SIZE, 12);
    }
    TAGEComponentConfig {
        size: TABLE_SIZE,
        ghr_range: RangeInclusive::new(0, hi),
        tag_bits: 8,
        useful_bits: 1,
        ctr: standard_counter(),
        index_strat: IndexStrategy::FromPc,
        tag_strat: TagStrategy::FromPcAndHistory,
    }
}

/// Make the configuration of the ready-made predictor.
pub fn standard_config() -> (r: TAGEConfig)
    ensures
        is_standard_config(r),
        r.valid(),
        r.fits(HISTORY_BITS as nat),
{
    proof {
        lemma_table_size();
        lemma_size_bits(TABLE_SIZE, 12);
    }
    let mut cfg = TAGEConfig::new(
        TAGEBaseConfig {
            ctr: standard_counter(),
            size: TABLE_SIZE,
            index_strat: IndexStrategy::FromPc,
        },
    );
    let his: [usize; 5] = [7, 15, 31, 63, 127];
    let mut k: usize = 0;
    while k < 5
        invariant
            k <= 5,
            his@ == seq![7usize, 15, 31, 63, 127],
            cfg.base == (TAGEBaseConfig {
                ctr: spec_standard_counter(),
                size: TABLE_SIZE,
                index_strat: IndexStrategy::FromPc,
            }),
            cfg.ordered(),
            cfg.comp@.len() == k,
            forall|i: int|
                0 <= i < k ==> {
                    &&& (#[trigger] cfg.comp@[i]).valid()
                    &&& is_standard_component(cfg.comp@[i], standard_reach(5 - k + i))
                },
        decreases 5 - k,
    {
        let ghost before = cfg.comp@;
        let c = standard_component(his[k]);
        assert(his@[k as int] == standard_reach(4 - k));
        cfg.add_component(c);
        proof {
            let at = choose|at: int|
                {
                    &&& 0 <= at <= before.len()
                    &&& #[trigger] cfg.comp@ == before.insert(at, c)
                    &&& forall|i: int|
                        0 <= i < at ==> (#[trigger] before[i]).history_len() >= c.history_len()
                };
            if at > 0 {
                assert(before[0].history_len() >= c.history_len());
                assert(is_standard_component(before[0], standard_reach(5 - k)));
            }
            assert(at == 0);
            assert forall|i: int| 0 <= i < k + 1 implies {
                &&& (#[trigger] cfg.comp@[i]).valid()
                &&& is_standard_component(cfg.comp@[i], standard_reach(5 - (k + 1) + i))
            } by {
                if i > 0 {
                    assert(cfg.comp@[i] == before[i - 1]);
                }
            }
        }
        k = k + 1;
    }
    proof {
        lemma_first_defect(cfg.comp@, 0);
        assert(cfg.base.valid());
        assert forall|i: int| 0 <= i < cfg.comp@.len() implies (
        #[trigger] cfg.comp@[i]).ghr_range@.end < HISTORY_BITS by {
            assert(is_standard_component(cfg.comp@[i], standard_reach(i)));
        }
    }
    cfg
}

/// Build the ready-made predictor: every counter predicts not taken
/// without any strength, every entry of a tagged component is empty, every
/// folded history is clear, and nothing has been counted.
pub fn build_tage() -> (r: TAGEPredictor)
    ensures
        r.wf(),
        r@.fits(HISTORY_BITS as nat),
        r@ == r.cfg.built(),
        is_standard_config(r.cfg),
{
    let cfg = standard_config();
    proof {
        cfg.lemma_built_fits(HISTORY_BITS as nat);
    }
    cfg.build()
}

} // verus!
