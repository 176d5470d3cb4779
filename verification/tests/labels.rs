use github_contributions::labels::{decimal_text, format_stars, pr_label, repo_url};

fn by_floating_point(stars: u32) -> String {
    if stars >= 1000 {
        format!("{:.1}k", stars as f64 / 1000.0)
    } else {
        stars.to_string()
    }
}

#[test]
fn star_labels_of_the_examples() {
    assert_eq!(format_stars(999), "999");
    assert_eq!(format_stars(1000), "1.0k");
    assert_eq!(format_stars(2500), "2.5k");
}

#[test]
fn small_star_counts_are_bare() {
    assert_eq!(format_stars(0), "0");
    assert_eq!(format_stars(7), "7");
    assert_eq!(format_stars(10), "10");
    assert_eq!(format_stars(100), "100");
}

#[test]
fn star_labels_round_to_the_nearest_tenth() {
    assert_eq!(format_stars(1049), "1.0k");
    assert_eq!(format_stars(1051), "1.1k");
    assert_eq!(format_stars(1999), "2.0k");
    assert_eq!(format_stars(12345), "12.3k");
    assert_eq!(format_stars(99949), "99.9k");
    assert_eq!(format_stars(99951), "100.0k");
    assert_eq!(format_stars(999_999), "1000.0k");
    assert_eq!(format_stars(1_234_567), "1234.6k");
    assert_eq!(format_stars(u32::MAX), "4294967.3k");
}

#[test]
fn star_labels_midway_between_tenths() {
    assert_eq!(format_stars(1250), "1.2k");
    assert_eq!(format_stars(1750), "1.8k");
    assert_eq!(format_stars(1050), "1.1k");
    assert_eq!(format_stars(1150), "1.1k");
    assert_eq!(format_stars(1350), "1.4k");
    assert_eq!(format_stars(1450), "1.4k");
    assert_eq!(format_stars(2050), "2.0k");
    assert_eq!(format_stars(2350), "2.4k");
}

#[test]
fn star_labels_agree_with_floating_point_up_to_a_million() {
    let mut stars: u32 = 0;
    while stars <= 1_000_000 {
        assert_eq!(format_stars(stars), by_floating_point(stars), "stars {}", stars);
        stars += if stars < 200_000 { 1 } else { 7 };
    }
}

#[test]
fn star_labels_agree_with_floating_point_midway_between_tenths() {
    let mut stars: u32 = 1050;
    let mut checked = 0u32;
    loop {
        assert_eq!(format_stars(stars), by_floating_point(stars), "stars {}", stars);
        checked += 1;
        let step = if stars < 30_000_000 { 100 } else { 100 * 1013 };
        match stars.checked_add(step) {
            Some(next) => stars = next,
            None => break,
        }
    }
    assert!(checked > 300_000);
}

#[test]
fn star_labels_agree_with_floating_point_at_the_top() {
    let mut stars: u32 = u32::MAX;
    for _ in 0..100_000 {
        assert_eq!(format_stars(stars), by_floating_point(stars), "stars {}", stars);
        stars -= 1;
    }
    let mut power: u32 = 1000;
    while power < u32::MAX / 2 {
        for delta in 0..300u32 {
            for base in [power - 150 + delta, power / 1000 * 1050 - 150 + delta] {
                assert_eq!(format_stars(base), by_floating_point(base), "stars {}", base);
            }
        }
        power *= 2;
    }
}

#[test]
fn pull_request_labels() {
    assert_eq!(pr_label(1), "1 PR");
    assert_eq!(pr_label(0), "0 PRs");
    assert_eq!(pr_label(2), "2 PRs");
    assert_eq!(pr_label(10), "10 PRs");
    assert_eq!(pr_label(11), "11 PRs");
    assert_eq!(pr_label(4294967295), "4294967295 PRs");
    assert_eq!(pr_label(u64::MAX), "18446744073709551615 PRs");
}

#[test]
fn repository_addresses() {
    assert_eq!(repo_url("foo/bar"), "https://github.com/foo/bar");
    assert_eq!(repo_url(""), "https://github.com/");
    assert_eq!(repo_url("é/ü"), "https://github.com/é/ü");
}

#[test]
fn numbers_in_decimal() {
    assert_eq!(decimal_text(0), "0");
    assert_eq!(decimal_text(9), "9");
    assert_eq!(decimal_text(10), "10");
    assert_eq!(decimal_text(1009), "1009");
    assert_eq!(decimal_text(4294967295), "4294967295");
    assert_eq!(decimal_text(u64::MAX), "18446744073709551615");
    let mut n: u64 = 1;
    for _ in 0..2000 {
        assert_eq!(decimal_text(n), n.to_string());
        n = n.wrapping_mul(48271).wrapping_add(11);
    }
}
