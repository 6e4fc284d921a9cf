//! Run-scoped power-ups unlocked at level milestones.

use vstd::prelude::*;

use crate::chance::shuffle;

verus! {

/// Number of power-ups offered at a milestone.
pub const CHOICES_OFFERED: usize = 3;

/// First level whose milestone offers tier 2.
pub const TIER_TWO_LEVEL: u32 = 15;

/// The power-ups; the first four are tier 1, the rest tier 2.
#[derive(Debug, Clone, Copy, PartialEq, Eq, Hash, Structural)]
pub enum PowerUp {
    SpeedySnord,
    EagleEye,
    LuckySnord,
    BouncySnord,
    Procrastisnord,
    FortuneSnord,
    ComboSnord,
    Sharpshooter,
}

/// The power-ups of `tier` in their fixed order; any tier other than 1 is tier 2.
pub open spec fn tier_list(tier: int) -> Seq<PowerUp> {
    if tier == 1 {
        seq![PowerUp::SpeedySnord, PowerUp::EagleEye, PowerUp::LuckySnord, PowerUp::BouncySnord]
    } else {
        seq![
            PowerUp::Procrastisnord,
            PowerUp::FortuneSnord,
            PowerUp::ComboSnord,
            PowerUp::Sharpshooter,
        ]
    }
}

/// Tier offered at `level`.
pub open spec fn tier_of_level(level: int) -> int {
    if level < TIER_TWO_LEVEL {
        1
    } else {
        2
    }
}

/// The candidates at `level`: the level's tier without the unlocked ones,
/// topped up with the other tier's when fewer than `CHOICES_OFFERED` remain.
pub open spec fn choice_pool(level: int, unlocked: Seq<PowerUp>) -> Seq<PowerUp> {
    let tier = tier_of_level(level);
    let own = tier_list(tier).filter(|p: PowerUp| !unlocked.contains(p));
    if own.len() < CHOICES_OFFERED {
        own + tier_list(if tier == 1 {
            2
        } else {
            1
        }).filter(|p: PowerUp| !unlocked.contains(p))
    } else {
        own
    }
}

impl PowerUp {
    /// 1 for the first four power-ups, 2 for the rest.
    pub fn tier(&self) -> (t: u32)
        ensures
            t == (if tier_list(1).contains(*self) {
                1int
            } else {
                2int
            }),
    {
        proof {
            assert(tier_list(1)[0] == PowerUp::SpeedySnord);
            assert(tier_list(1)[1] == PowerUp::EagleEye);
            assert(tier_list(1)[2] == PowerUp::LuckySnord);
            assert(tier_list(1)[3] == PowerUp::BouncySnord);
        }
        match self {
            PowerUp::SpeedySnord | PowerUp::EagleEye | PowerUp::LuckySnord | PowerUp::BouncySnord => 1,
            _ => 2,
        }
    }

    /// Display name.
    pub fn name(&self) -> &'static str {
        match self {
            PowerUp::SpeedySnord => "Speedy Snord",
            PowerUp::EagleEye => "Eagle Eye",
            PowerUp::LuckySnord => "Lucky Snord",
            PowerUp::BouncySnord => "Bouncy Snord",
            PowerUp::Procrastisnord => "Procrastisnord",
            PowerUp::FortuneSnord => "Fortune Snord",
            PowerUp::ComboSnord => "Combo Snord",
            PowerUp::Sharpshooter => "Sharpshooter",
        }
    }

    /// One-line description of the effect.
    pub fn description(&self) -> &'static str {
        match self {
            PowerUp::SpeedySnord => "25% faster projectiles",
            PowerUp::EagleEye => "2x longer aim line",
            PowerUp::LuckySnord => "Better color matching",
            PowerUp::BouncySnord => "Shows bounce trajectory",
            PowerUp::Procrastisnord => "+2 shots before descent",
            PowerUp::FortuneSnord => "See 3 upcoming snords",
            PowerUp::ComboSnord => "+50% score for big combos",
            PowerUp::Sharpshooter => "More precise shots",
        }
    }

    /// The power-ups of `tier`, in order.
    pub fn for_tier(tier: u32) -> (ps: Vec<PowerUp>)
        ensures
            ps@ == tier_list(tier as int),
    {
        let ps = if tier == 1 {
            vec![PowerUp::SpeedySnord, PowerUp::EagleEye, PowerUp::LuckySnord, PowerUp::BouncySnord]
        } else {
            vec![
                PowerUp::Procrastisnord,
                PowerUp::FortuneSnord,
                PowerUp::ComboSnord,
                PowerUp::Sharpshooter,
            ]
        };
        assert(ps@ =~= tier_list(tier as int));
        ps
    }

    /// Tier 1 below level 15, tier 2 from there on.
    pub fn tier_for_level(level: u32) -> (t: u32)
        ensures
            t == tier_of_level(level as int),
    {
        if level < TIER_TWO_LEVEL {
            1
        } else {
            2
        }
    }

    /// The candidates offered at `level` (see `choice_pool`), in order.
    pub fn choice_pool(level: u32, unlocked: &Vec<PowerUp>) -> (pool: Vec<PowerUp>)
        ensures
            pool@ == choice_pool(level as int, unlocked@),
    {
        let tier = PowerUp::tier_for_level(level);
        let mut available = keep_locked(PowerUp::for_tier(tier), unlocked);
        if available.len() < CHOICES_OFFERED {
            let other_tier: u32 = if tier == 1 {
                2
            } else {
                1
            };
            let mut other = keep_locked(PowerUp::for_tier(other_tier), unlocked);
            available.append(&mut other);
        }
        available
    }

    /// Up to `CHOICES_OFFERED` different candidates of `choice_pool`, in random order.
    pub fn random_choices(level: u32, unlocked: &Vec<PowerUp>) -> (choices: Vec<PowerUp>)
        ensures
            choices@.len() == (if choice_pool(level as int, unlocked@).len() < CHOICES_OFFERED {
                choice_pool(level as int, unlocked@).len() as int
            } else {
                CHOICES_OFFERED as int
            }),
            forall|i: int|
                0 <= i < choices@.len() ==> choice_pool(level as int, unlocked@).contains(
                    #[trigger] choices@[i],
                ),
            choices@.to_multiset().subset_of(choice_pool(level as int, unlocked@).to_multiset()),
    {
        let mut available = PowerUp::choice_pool(level, unlocked);
        let ghost pool = available@;
        shuffle(&mut available);
        proof {
            assert forall|i: int| 0 <= i < available@.len() implies pool.contains(
                #[trigger] available@[i],
            ) by {
                vstd::seq_lib::to_multiset_contains(available@, available@[i]);
                assert(available@.to_multiset().count(available@[i]) > 0);
                assert(pool.to_multiset().count(available@[i]) > 0);
                vstd::seq_lib::to_multiset_contains(pool, available@[i]);
            }
        }
        let ghost shuffled = available@;
        available.truncate(CHOICES_OFFERED);
        proof {
            assert(available@ == shuffled.take(available@.len() as int));
            assert forall|i: int| 0 <= i < available@.len() implies pool.contains(
                #[trigger] available@[i],
            ) by {
                assert(available@[i] == shuffled[i]);
            }
            let k = available@.len() as int;
            assert(shuffled =~= shuffled.take(k) + shuffled.skip(k));
            vstd::seq_lib::lemma_multiset_commutative(shuffled.take(k), shuffled.skip(k));
        }
        available
    }
}

/// The items of `ps` that are not in `unlocked`, in order.
fn keep_locked(ps: Vec<PowerUp>, unlocked: &Vec<PowerUp>) -> (r: Vec<PowerUp>)
    ensures
        r@ == ps@.filter(|p: PowerUp| !unlocked@.contains(p)),
{
    let mut r: Vec<PowerUp> = Vec::new();
    let mut i: usize = 0;
    while i < ps.len()
        invariant
            i <= ps@.len(),
            r@ == ps@.take(i as int).filter(|p: PowerUp| !unlocked@.contains(p)),
        decreases ps@.len() - i,
    {
        let p = ps[i];
        proof {
            assert(ps@.take(i + 1) =~= ps@.take(i as int).push(p));
            ps@.take(i as int).lemma_filter_push(p, |p: PowerUp| !unlocked@.contains(p));
        }
        if !contains_power(unlocked, p) {
            r.push(p);
        }
        i += 1;
    }
    assert(ps@.take(ps@.len() as int) =~= ps@);
    r
}

/// Whether `p` occurs in `ps`.
fn contains_power(ps: &Vec<PowerUp>, p: PowerUp) -> (b: bool)
    ensures
        b == ps@.contains(p),
{
    let mut i: usize = 0;
    while i < ps.len()
        invariant
            i <= ps@.len(),
            forall|j: int| 0 <= j < i ==> ps@[j] != p,
        decreases ps@.len() - i,
    {
        if ps[i] == p {
            assert(ps@[i as int] == p);
            return true;
        }
        i += 1;
    }
    false
}

/// The power-ups unlocked in this run, each once.
#[derive(Debug)]
pub struct UnlockedPowerUps {
    pub powers: Vec<PowerUp>,
}

impl UnlockedPowerUps {
    /// None unlocked.
    pub fn new() -> (u: UnlockedPowerUps)
        ensures
            u.powers@.len() == 0,
    {
        UnlockedPowerUps { powers: Vec::new() }
    }

    /// Whether `power` is unlocked.
    pub fn has(&self, power: PowerUp) -> (b: bool)
        ensures
            b == self.powers@.contains(power),
    {
        contains_power(&self.powers, power)
    }

    /// Unlocks `power`; unlocking it again changes nothing.
    pub fn add(&mut self, power: PowerUp)
        ensures
            final(self).powers@ == (if old(self).powers@.contains(power) {
                old(self).powers@
            } else {
                old(self).powers@.push(power)
            }),
    {
        if !self.has(power) {
            self.powers.push(power);
        }
    }

    /// Locks every power-up again.
    pub fn reset(&mut self)
        ensures
            final(self).powers@.len() == 0,
    {
        self.powers.clear();
    }
}

/// The power-ups offered at the milestone of `level`.
#[derive(Debug)]
pub struct PowerUpChoices {
    pub choices: Vec<PowerUp>,
    pub level: u32,
}

} // verus!
