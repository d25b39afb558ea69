use dns_monitor::pattern::matches_pattern;

#[test]
fn star_matches_everything() {
    assert!(matches_pattern("eth0", "*"));
    assert!(matches_pattern("", "*"));
    assert!(matches_pattern("Ethernet 2", "*"));
}

#[test]
fn no_star_means_exact_equality() {
    assert!(matches_pattern("eth0", "eth0"));
    assert!(!matches_pattern("eth0", "eth1"));
    assert!(!matches_pattern("eth0", "eth"));
    assert!(!matches_pattern("eth", "eth0"));
    assert!(matches_pattern("", ""));
}

#[test]
fn prefix_suffix_and_infix_patterns() {
    assert!(matches_pattern("eth0", "eth*"));
    assert!(matches_pattern("eth0", "*0"));
    assert!(matches_pattern("eth0", "e*0"));
    assert!(!matches_pattern("eth0", "wlan*"));
}

#[test]
fn interior_segments_match_in_order() {
    assert!(matches_pattern("abcdef", "a*cd*f"));
    assert!(!matches_pattern("abcdef", "a*fe*"));
    assert!(matches_pattern("abcabc", "*b*b*"));
    assert!(!matches_pattern("abcabc", "*b*b*b*"));
}

#[test]
fn consecutive_stars_match_trivially() {
    assert!(matches_pattern("eth0", "e**0"));
    assert!(matches_pattern("eth0", "**"));
}

#[test]
fn matching_is_case_sensitive() {
    assert!(!matches_pattern("Eth0", "eth*"));
    assert!(matches_pattern("Eth0", "Eth*"));
}

#[test]
fn prefix_and_suffix_may_overlap() {
    // The first segment is checked as a prefix and the last as a suffix,
    // independently: they may cover the same characters.
    assert!(matches_pattern("ab", "ab*b"));
}
