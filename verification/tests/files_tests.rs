use zed_rules_sync::files::{is_rule_file_name, md_file_order};

fn names(v: &[&str]) -> Vec<String> {
    v.iter().map(|s| s.to_string()).collect()
}

#[test]
fn order_filters_and_sorts_by_name() {
    let n = names(&["b.md", "notes.txt", "a.md", "C.md", "a.md.bak", "ab.md", "é.md", "z.md"]);
    let order = md_file_order(&n);
    let sorted: Vec<&str> = order.iter().map(|&i| n[i].as_str()).collect();
    assert_eq!(sorted, vec!["C.md", "a.md", "ab.md", "b.md", "z.md", "é.md"]);
}

#[test]
fn order_matches_std_sort() {
    let n = names(&["zeta.md", "Alpha.md", "alpha.md", "beta-2.md", "beta_1.md", "ä.md", "a.md"]);
    let order = md_file_order(&n);
    let mut expected = n.clone();
    expected.sort();
    let got: Vec<String> = order.iter().map(|&i| n[i].clone()).collect();
    assert_eq!(got, expected);
}

#[test]
fn order_is_stable_for_equal_names() {
    let n = names(&["x.md", "a.md", "x.md"]);
    assert_eq!(md_file_order(&n), vec![1, 0, 2]);
}

#[test]
fn order_of_nothing() {
    assert_eq!(md_file_order(&Vec::new()), Vec::<usize>::new());
    assert_eq!(md_file_order(&names(&["readme", "x.txt"])), Vec::<usize>::new());
}

#[test]
fn rule_file_names() {
    assert!(is_rule_file_name("code-style.md"));
    assert!(is_rule_file_name(".md"));
    assert!(!is_rule_file_name("code-style.MD"));
    assert!(!is_rule_file_name("md"));
    assert!(!is_rule_file_name("code-style.md.txt"));
}
