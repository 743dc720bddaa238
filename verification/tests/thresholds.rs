use memo::TreeSearchConfig;

/// A similarity as the library counts it: in millionths.
fn micros(similarity: f64) -> i64 {
    (similarity * 1_000_000.0).round() as i64
}

/// The thresholds of a configuration as similarities.
fn similarities(config: &TreeSearchConfig) -> Vec<f64> {
    config
        .generate_thresholds()
        .iter()
        .map(|t| *t as f64 / 1_000_000.0)
        .collect()
}

#[test]
fn test_default_threshold_generation() {
    let config = TreeSearchConfig::default();
    let thresholds = similarities(&config);

    assert!(thresholds.len() >= 3, "Should generate at least 3 layers");
    assert!(thresholds.len() <= 5, "Should not exceed max_depth");

    assert_eq!(thresholds[0], 0.60);

    for i in 1..thresholds.len() {
        assert!(
            thresholds[i] > thresholds[i - 1],
            "Thresholds should be increasing"
        );
    }

    assert!(thresholds[thresholds.len() - 1] <= 0.95);
}

#[test]
fn test_high_start_threshold() {
    let config = TreeSearchConfig::new(micros(0.70), 100);
    let thresholds = similarities(&config);

    assert!(thresholds.len() >= 2);
    assert_eq!(thresholds[0], 0.70);

    for i in 1..thresholds.len() {
        assert!(thresholds[i] > thresholds[i - 1]);
    }

    if thresholds.len() >= 3 {
        let inc1 = thresholds[1] - thresholds[0];
        let inc2 = thresholds[2] - thresholds[1];
        assert!(
            inc1 >= inc2 || (inc1 - inc2).abs() < 0.001,
            "Increments should decrease or stay similar as threshold increases"
        );
    }
}

#[test]
fn test_very_high_start_threshold() {
    let config = TreeSearchConfig::new(micros(0.85), 100);
    let thresholds = similarities(&config);

    assert!(thresholds.len() >= 2);
    assert_eq!(thresholds[0], 0.85);
    assert!(thresholds[1] >= 0.88 && thresholds[1] <= 0.95);
}

#[test]
fn test_near_limit_threshold() {
    let config = TreeSearchConfig::new(micros(0.93), 100);
    let thresholds = similarities(&config);

    assert!(thresholds.len() <= 2);
    assert_eq!(thresholds[0], 0.93);
}

#[test]
fn default_config_has_documented_values() {
    let config = TreeSearchConfig::default();
    assert_eq!(config.first_threshold, 600_000);
    assert_eq!(config.max_depth, 5);
    assert_eq!(config.max_nodes, 100);
    assert_eq!(config.branch_limit, 5);
    assert!(config.require_tag_overlap);
}

#[test]
fn new_config_replaces_threshold_and_budget_only() {
    let config = TreeSearchConfig::new(725_000, 42);
    assert_eq!(config.first_threshold, 725_000);
    assert_eq!(config.max_nodes, 42);
    assert_eq!(config.max_depth, 5);
    assert_eq!(config.branch_limit, 5);
    assert!(config.require_tag_overlap);
}

#[test]
fn default_thresholds_are_exact() {
    let config = TreeSearchConfig::default();
    assert_eq!(
        config.generate_thresholds(),
        vec![600_000, 700_000, 770_000, 820_000, 870_000]
    );
}

#[test]
fn increments_follow_the_bands() {
    let mut config = TreeSearchConfig::new(640_000, 100);
    config.max_depth = 2;
    assert_eq!(config.generate_thresholds(), vec![640_000, 740_000]);
    config.first_threshold = 650_000;
    assert_eq!(config.generate_thresholds(), vec![650_000, 720_000]);
    config.first_threshold = 749_999;
    assert_eq!(config.generate_thresholds(), vec![749_999, 819_999]);
    config.first_threshold = 750_000;
    assert_eq!(config.generate_thresholds(), vec![750_000, 800_000]);
    config.first_threshold = 850_000;
    assert_eq!(config.generate_thresholds(), vec![850_000, 880_000]);
}

#[test]
fn thresholds_stop_at_the_ceiling() {
    let mut config = TreeSearchConfig::new(850_000, 100);
    config.max_depth = 10;
    assert_eq!(
        config.generate_thresholds(),
        vec![850_000, 880_000, 910_000, 940_000]
    );
    config.first_threshold = 890_000;
    assert_eq!(
        config.generate_thresholds(),
        vec![890_000, 920_000, 950_000]
    );
    config.first_threshold = 950_000;
    assert_eq!(config.generate_thresholds(), vec![950_000]);
}

#[test]
fn threshold_above_ceiling_stands_alone() {
    let config = TreeSearchConfig::new(990_000, 100);
    assert_eq!(config.generate_thresholds(), vec![990_000]);
}

#[test]
fn zero_depth_still_yields_first_threshold() {
    let mut config = TreeSearchConfig::default();
    config.max_depth = 0;
    assert_eq!(config.generate_thresholds(), vec![600_000]);
    config.max_depth = 1;
    assert_eq!(config.generate_thresholds(), vec![600_000]);
}

#[test]
fn negative_threshold_climbs_in_wide_steps() {
    let mut config = TreeSearchConfig::new(-150_000, 100);
    config.max_depth = 4;
    assert_eq!(
        config.generate_thresholds(),
        vec![-150_000, -50_000, 50_000, 150_000]
    );
}

#[test]
fn thresholds_law_holds_on_a_sweep() {
    for depth in 1..8usize {
        let mut first = 0i64;
        while first <= 950_000 {
            let mut config = TreeSearchConfig::new(first, 100);
            config.max_depth = depth;
            let thresholds = config.generate_thresholds();
            assert!(thresholds.len() <= depth);
            assert_eq!(thresholds[0], first);
            for i in 1..thresholds.len() {
                assert!(thresholds[i] > thresholds[i - 1]);
            }
            assert!(*thresholds.last().unwrap() <= 950_000);
            first += 12_345;
        }
    }
}

#[test]
fn near_ceiling_start_gives_at_most_two_layers() {
    for depth in [1usize, 2, 5, 50] {
        for first in [930_000i64, 935_000, 949_999, 950_000, 1_000_000] {
            let mut config = TreeSearchConfig::new(first, 100);
            config.max_depth = depth;
            assert!(config.generate_thresholds().len() <= 2);
        }
    }
}
