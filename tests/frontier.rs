use linkcrawl::frontier::Frontier;

fn strings(v: &[&str]) -> Vec<String> {
    v.iter().map(|s| s.to_string()).collect()
}

#[test]
fn duplicate_seed_enqueued_once() {
    let mut f = Frontier::new();
    assert!(f.enqueue("https://h/".to_string()));
    assert!(!f.enqueue("https://h/".to_string()));
    let d = f.complete(&"https://h/".to_string(), Vec::new(), true);
    assert_eq!(d, Some(Vec::new()));
    // a second completion of the same address emits nothing
    assert_eq!(f.complete(&"https://h/".to_string(), Vec::new(), true), None);
}

#[test]
fn closed_input_without_seeds_finishes() {
    let mut f = Frontier::new();
    assert!(!f.is_finished());
    f.close_input();
    assert!(f.is_finished());
}

#[test]
fn unreachable_address_emitted_once() {
    let mut f = Frontier::new();
    let a = "https://unreachable.invalid/".to_string();
    assert!(f.enqueue(a.clone()));
    f.close_input();
    assert!(!f.is_finished());
    assert_eq!(f.complete(&a, Vec::new(), true), Some(Vec::new()));
    assert!(f.is_finished());
    assert_eq!(f.complete(&a, Vec::new(), true), None);
    assert!(!f.enqueue(a));
}

#[test]
fn expansion_dispatches_new_children_in_order() {
    let mut f = Frontier::new();
    assert!(f.enqueue("https://h/".to_string()));
    assert!(f.enqueue("https://h/seen".to_string()));
    let children = strings(&["https://h/b", "https://h/seen", "https://h/a", "https://h/b", "https://h/"]);
    let d = f.complete(&"https://h/".to_string(), children, true);
    assert_eq!(d, Some(strings(&["https://h/b", "https://h/a"])));
    assert!(!f.enqueue("https://h/a".to_string()));
    assert!(!f.enqueue("https://h/b".to_string()));
}

#[test]
fn refusal_dispatches_no_children() {
    let mut f = Frontier::new();
    assert!(f.enqueue("https://h/".to_string()));
    let d = f.complete(&"https://h/".to_string(), strings(&["https://h/a", "https://h/b"]), false);
    assert_eq!(d, Some(Vec::new()));
    // the children can still come in another way
    assert!(f.enqueue("https://h/a".to_string()));
}

#[test]
fn run_finishes_after_all_fetches_complete() {
    let mut f = Frontier::new();
    assert!(f.enqueue("https://h/".to_string()));
    let d = f.complete(&"https://h/".to_string(), strings(&["https://h/a"]), true).unwrap();
    assert_eq!(d, strings(&["https://h/a"]));
    f.close_input();
    assert!(!f.is_finished());
    let d2 = f.complete(&"https://h/a".to_string(), strings(&["https://h/"]), true).unwrap();
    assert!(d2.is_empty());
    assert!(f.is_finished());
}

#[test]
fn completion_of_unknown_address_is_ignored() {
    let mut f = Frontier::new();
    assert_eq!(f.complete(&"https://h/".to_string(), strings(&["https://h/a"]), true), None);
    assert!(f.enqueue("https://h/a".to_string()));
}
