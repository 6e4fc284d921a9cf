use snord::highscore::{HighScores, ScoreEntry};
use snord::powerups::{PowerUp, UnlockedPowerUps};

#[test]
fn tiers_and_lists() {
    assert_eq!(PowerUp::SpeedySnord.tier(), 1);
    assert_eq!(PowerUp::Sharpshooter.tier(), 2);
    assert_eq!(PowerUp::tier_for_level(14), 1);
    assert_eq!(PowerUp::tier_for_level(15), 2);
    assert_eq!(
        PowerUp::for_tier(1),
        vec![
            PowerUp::SpeedySnord,
            PowerUp::EagleEye,
            PowerUp::LuckySnord,
            PowerUp::BouncySnord
        ]
    );
    assert_eq!(PowerUp::for_tier(7)[0], PowerUp::Procrastisnord);
    assert_eq!(PowerUp::ComboSnord.name(), "Combo Snord");
    assert_eq!(PowerUp::Procrastisnord.description(), "+2 shots before descent");
}

#[test]
fn choice_pool_tops_up_from_other_tier() {
    let unlocked = vec![PowerUp::SpeedySnord, PowerUp::EagleEye];
    assert_eq!(
        PowerUp::choice_pool(5, &unlocked),
        vec![
            PowerUp::LuckySnord,
            PowerUp::BouncySnord,
            PowerUp::Procrastisnord,
            PowerUp::FortuneSnord,
            PowerUp::ComboSnord,
            PowerUp::Sharpshooter
        ]
    );
    assert_eq!(PowerUp::choice_pool(20, &unlocked).len(), 4);
}

#[test]
fn random_choices_are_distinct_candidates() {
    let unlocked = vec![PowerUp::LuckySnord];
    for _ in 0..20 {
        let choices = PowerUp::random_choices(10, &unlocked);
        assert_eq!(choices.len(), 3);
        let pool = PowerUp::choice_pool(10, &unlocked);
        for (i, p) in choices.iter().enumerate() {
            assert!(pool.contains(p));
            assert!(!choices[i + 1..].contains(p));
        }
    }
    let all = vec![
        PowerUp::SpeedySnord,
        PowerUp::EagleEye,
        PowerUp::LuckySnord,
        PowerUp::BouncySnord,
        PowerUp::Procrastisnord,
        PowerUp::FortuneSnord,
        PowerUp::ComboSnord,
    ];
    assert_eq!(PowerUp::random_choices(20, &all), vec![PowerUp::Sharpshooter]);
}

#[test]
fn random_choices_cover_the_pool_over_draws() {
    let unlocked: Vec<PowerUp> = Vec::new();
    let mut firsts = Vec::new();
    for _ in 0..200 {
        let choices = PowerUp::random_choices(5, &unlocked);
        if !firsts.contains(&choices[0]) {
            firsts.push(choices[0]);
        }
    }
    assert!(firsts.len() > 1);
}

#[test]
fn unlocked_add_has_reset() {
    let mut u = UnlockedPowerUps::new();
    assert!(!u.has(PowerUp::ComboSnord));
    u.add(PowerUp::ComboSnord);
    u.add(PowerUp::ComboSnord);
    assert!(u.has(PowerUp::ComboSnord));
    assert_eq!(u.powers.len(), 1);
    u.reset();
    assert!(u.powers.is_empty());
}

#[test]
fn high_scores_sorted_and_capped() {
    let mut h = HighScores::new();
    assert!(!h.add_score(ScoreEntry::new(0, 5)));
    assert!(!h.is_high_score(0));
    assert!(h.is_high_score(1));
    for s in [50, 10, 30, 20, 40, 60, 70, 80, 90, 100] {
        assert!(h.add_score(ScoreEntry::new(s, 1)));
    }
    assert_eq!(h.entries.len(), 10);
    assert!(!h.is_high_score(10));
    assert!(h.is_high_score(11));
    assert!(!h.add_score(ScoreEntry::new(5, 1)));
    assert!(h.add_score(ScoreEntry::new(35, 2)));
    let scores: Vec<u32> = h.entries.iter().map(|e| e.score).collect();
    assert_eq!(scores, vec![100, 90, 80, 70, 60, 50, 40, 35, 30, 20]);
    assert!(h.add_score(ScoreEntry::new(35, 3)));
    assert_eq!(h.entries[7].bubbles_popped, 2);
    assert_eq!(h.entries[8].bubbles_popped, 3);
}
