use fs_tree::color::{grayscale_from_age, name_color, ACCENT, AGE_LIMITS, MAX_AGE};

/// The gray level by the formula, in floating point.
fn level_by_formula(age: i64) -> u32 {
    let normalized = (age as f64 / MAX_AGE as f64).clamp(0.0, 1.0);
    let fade = (1.0 - (normalized * 9.0 + 1.0).log10()).clamp(0.0, 1.0);
    (fade * 255.0).round() as u32
}

fn gray(level: u32) -> u32 {
    (level << 16) | (level << 8) | level
}

#[test]
fn future_timestamp_has_the_accent_color() {
    assert_eq!(grayscale_from_age(100, 101), 0x3e_eca9);
    assert_eq!(grayscale_from_age(-5, 0), ACCENT);
    assert_eq!(grayscale_from_age(i64::MIN, i64::MAX), ACCENT);
}

#[test]
fn timestamp_of_now_is_white() {
    assert_eq!(grayscale_from_age(0, 0), 0xff_ffff);
    assert_eq!(grayscale_from_age(1_700_000_000, 1_700_000_000), 0xff_ffff);
    assert_eq!(grayscale_from_age(1_700_000_000, 1_700_000_000 - 1), 0xff_ffff);
}

#[test]
fn timestamp_of_max_age_or_older_is_black() {
    assert_eq!(MAX_AGE, 5 * 365 * 24 * 60 * 60);
    assert_eq!(grayscale_from_age(MAX_AGE, 0), 0);
    assert_eq!(grayscale_from_age(MAX_AGE + 1, 0), 0);
    assert_eq!(grayscale_from_age(10 * MAX_AGE, 0), 0);
    assert_eq!(grayscale_from_age(i64::MAX, i64::MIN), 0);
    assert_eq!(grayscale_from_age(i64::MAX, 0), 0);
}

#[test]
fn gray_levels_at_given_ages() {
    assert_eq!(grayscale_from_age(79_279, 0), 0xff_ffff);
    assert_eq!(grayscale_from_age(79_280, 0), 0xfe_fefe);
    assert_eq!(grayscale_from_age(86_400, 0), 0xfe_fefe);
    assert_eq!(grayscale_from_age(604_800, 0), 0xfb_fbfb);
    assert_eq!(grayscale_from_age(2_592_000, 0), 0xf0_f0f0);
    assert_eq!(grayscale_from_age(31_536_000, 0), 0x8d_8d8d);
    assert_eq!(grayscale_from_age(78_840_000, 0), 0x42_4242);
    assert_eq!(grayscale_from_age(MAX_AGE - 1, 0), 0);
}

#[test]
fn gray_levels_follow_the_formula_at_every_limit() {
    let now = 2_000_000_000;
    for (index, limit) in AGE_LIMITS.iter().enumerate() {
        let level = index as u32 + 1;
        let age = *limit as i64;
        assert_eq!(level_by_formula(age), level);
        assert_eq!(level_by_formula(age + 1), level - 1);
        assert_eq!(grayscale_from_age(now, now - age), gray(level));
        assert_eq!(grayscale_from_age(now, now - age - 1), gray(level - 1));
    }
}

#[test]
fn gray_levels_follow_the_formula_between_the_limits() {
    let now = 1_900_000_000;
    let mut age: i64 = 0;
    while age <= MAX_AGE + 100_000 {
        assert_eq!(grayscale_from_age(now, now - age), gray(level_by_formula(age)));
        age += 9_973;
    }
}

#[test]
fn older_is_never_brighter() {
    let now = 1_800_000_000;
    let mut last = 0xff_ffff;
    let mut age: i64 = 0;
    while age <= MAX_AGE {
        let color = grayscale_from_age(now, now - age);
        assert!(color <= last);
        last = color;
        age += 50_021;
    }
    assert_eq!(grayscale_from_age(now, now - MAX_AGE), 0);
}

#[test]
fn gray_has_three_equal_channels() {
    let color = grayscale_from_age(31_536_000, 0);
    assert_eq!(color >> 16, 141);
    assert_eq!((color >> 8) & 0xff, 141);
    assert_eq!(color & 0xff, 141);
}

#[test]
fn age_limits_fall_from_level_to_level() {
    assert_eq!(AGE_LIMITS.len(), 255);
    assert!(AGE_LIMITS.windows(2).all(|pair| pair[0] > pair[1]));
    assert_eq!(AGE_LIMITS[254], 79_279);
    assert!((AGE_LIMITS[0] as i64) < MAX_AGE);
}

#[test]
fn name_color_of_given_names() {
    assert_eq!(name_color(""), 0x22_2325);
    assert_eq!(name_color("a"), 0x01_ec8c);
    assert_eq!(name_color("b"), 0x01_f1a5);
    assert_eq!(name_color("c"), 0x01_eff2);
    assert_eq!(name_color("notes.txt"), 0xe3_274c);
    assert_eq!(name_color("été"), 0xb5_1857);
}

#[test]
fn name_color_depends_on_the_name_alone() {
    let name = String::from("report") + ".pdf";
    assert_eq!(name_color("report.pdf"), name_color(&name));
    assert_ne!(name_color("report.pdf"), name_color("report.pdg"));
    assert!(name_color("report.pdf") <= 0xff_ffff);
}
