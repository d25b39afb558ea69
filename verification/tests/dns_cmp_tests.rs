use dns_monitor::dns_cmp::dns_equal;

fn strings(v: &[&str]) -> Vec<String> {
    v.iter().map(|s| s.to_string()).collect()
}

#[test]
fn equal_lists_in_different_order() {
    let a = strings(&["8.8.8.8", "1.1.1.1"]);
    let b = strings(&["1.1.1.1", "8.8.8.8"]);
    assert!(dns_equal(&a, &b));
}

#[test]
fn different_lengths_are_unequal() {
    let a = strings(&["8.8.8.8"]);
    let b = strings(&["8.8.8.8", "1.1.1.1"]);
    assert!(!dns_equal(&a, &b));
    assert!(!dns_equal(&b, &a));
}

#[test]
fn empty_lists_are_equal() {
    let a: Vec<String> = Vec::new();
    let b: Vec<String> = Vec::new();
    assert!(dns_equal(&a, &b));
}

#[test]
fn same_order_equal() {
    let a = strings(&["8.8.8.8", "1.1.1.1"]);
    let b = strings(&["8.8.8.8", "1.1.1.1"]);
    assert!(dns_equal(&a, &b));
}

#[test]
fn disjoint_lists_unequal() {
    let a = strings(&["8.8.8.8"]);
    let b = strings(&["9.9.9.9"]);
    assert!(!dns_equal(&a, &b));
}

#[test]
fn entries_are_exact_strings() {
    // No address canonicalization: textually different spellings differ.
    let a = strings(&["8.8.8.8"]);
    let b = strings(&["08.8.8.8"]);
    assert!(!dns_equal(&a, &b));
}

#[test]
fn repeated_entries_never_compare_equal() {
    // The comparison is over sets: a list that repeats an entry does not
    // even equal itself, because the repeat cannot be removed twice.
    let a = strings(&["8.8.8.8", "8.8.8.8"]);
    let b = strings(&["8.8.8.8", "8.8.8.8"]);
    assert!(!dns_equal(&a, &b));
}
