use stormstorage::names::NameMap;
use stormstorage::placement::{domain_at, plan, Candidate};

fn rungs() -> Vec<String> {
    ["site", "rack", "cluster", "node"]
        .iter()
        .map(|s| s.to_string())
        .collect()
}

fn labels(pairs: &[(&str, &str)]) -> NameMap<String> {
    let mut m = NameMap::new();
    for (k, v) in pairs {
        m.insert(k.to_string(), v.to_string());
    }
    m
}

fn cand(name: &str, pairs: &[(&str, &str)], free: u64, total: u64) -> Candidate {
    Candidate {
        name: name.into(),
        labels: labels(pairs),
        free_bytes: free,
        total_bytes: total,
    }
}

#[test]
fn domain_chain_prefixes() {
    let l = labels(&[("site", "gw"), ("rack", "r1"), ("node", "n1")]);
    assert_eq!(domain_at(&l, &rungs(), "site"), "gw");
    assert_eq!(domain_at(&l, &rungs(), "rack"), "gw/r1");
    assert_eq!(domain_at(&l, &rungs(), "node"), "gw/r1/n1");
    assert_eq!(domain_at(&NameMap::new(), &rungs(), "rack"), "?");
}

#[test]
fn a_node_without_the_labels_is_its_own_domain() {
    let l = labels(&[("node", "n1")]);
    assert_eq!(domain_at(&l, &rungs(), "rack"), "n1");
    assert_eq!(domain_at(&l, &[], "rack"), "n1");
    assert_eq!(
        domain_at(&l, &rungs(), "nowhere"),
        "n1",
        "an unknown rung takes the whole chain"
    );
}

#[test]
fn spreads_across_distinct_domains() {
    let cands = vec![
        cand("a1", &[("rack", "r1"), ("node", "a1")], 50, 100),
        cand("a2", &[("rack", "r1"), ("node", "a2")], 90, 100),
        cand("b1", &[("rack", "r2"), ("node", "b1")], 60, 100),
    ];
    let picks = plan(&cands, &rungs(), "rack", 2, 10).unwrap();
    assert_eq!(picks.len(), 2);
    // One per rack; within r1 the emptier a2 wins; r1's pick (90%) is
    // emptier than r2's (60%) so a2 leads.
    assert_eq!(picks, vec!["a2".to_string(), "b1".to_string()]);
}

#[test]
fn insufficient_domains_is_a_hard_explained_error() {
    let cands = vec![
        cand("a1", &[("rack", "r1"), ("node", "a1")], 50, 100),
        cand("a2", &[("rack", "r1"), ("node", "a2")], 90, 100),
    ];
    let err = plan(&cands, &rungs(), "rack", 2, 10).unwrap_err();
    assert!(err.contains("distinct domains"), "{err}");
    // At node rung the same two ARE two domains.
    assert_eq!(plan(&cands, &rungs(), "node", 2, 10).unwrap().len(), 2);
}

#[test]
fn capacity_filters_and_load_balances() {
    let cands = vec![
        cand("small", &[("node", "small")], 5, 100),
        cand("fullish", &[("node", "fullish")], 20, 100),
        cand("empty", &[("node", "empty")], 90, 100),
    ];
    let picks = plan(&cands, &rungs(), "node", 2, 10).unwrap();
    assert_eq!(
        picks,
        vec!["empty".to_string(), "fullish".to_string()],
        "small lacks capacity; emptiest first"
    );
    assert!(plan(&cands, &rungs(), "node", 1, 1000).is_err(), "nothing fits");
}

#[test]
fn deterministic_on_ties() {
    let cands = vec![
        cand("b", &[("node", "b")], 50, 100),
        cand("a", &[("node", "a")], 50, 100),
    ];
    assert_eq!(plan(&cands, &rungs(), "node", 1, 1).unwrap(), vec!["a".to_string()]);
}

#[test]
fn errors_name_what_was_found() {
    let cands = vec![
        cand("a1", &[("rack", "r2"), ("node", "a1")], 50, 100),
        cand("a2", &[("rack", "r1"), ("node", "a2")], 90, 100),
    ];
    assert_eq!(
        plan(&cands, &rungs(), "rack", 3, 10).unwrap_err(),
        "need 3 distinct domains at rung \"rack\", found 2: [r1, r2]"
    );
    assert_eq!(
        plan(&cands, &rungs(), "rack", 1, 91).unwrap_err(),
        "no node with 91 bytes free (2 candidates)"
    );
    assert_eq!(
        plan(&[], &rungs(), "rack", 1, 0).unwrap_err(),
        "no node with 0 bytes free (0 candidates)"
    );
}

#[test]
fn unknown_capacity_scores_zero_but_stays_eligible() {
    let cands = vec![
        cand("unknown", &[("node", "unknown")], 10, 0),
        cand("full", &[("node", "full")], 1, 1000),
    ];
    assert_eq!(plan(&cands, &rungs(), "node", 2, 1).unwrap(), ["full", "unknown"]);
}

#[test]
fn ratios_tie_where_doubles_do() {
    // The two shares differ, but not as doubles: the lower name goes first.
    let total = u64::MAX;
    let cands = vec![
        cand("b", &[("node", "b")], total - 1, total),
        cand("a", &[("node", "a")], total - 2, total),
    ];
    assert_eq!(plan(&cands, &rungs(), "node", 2, 1).unwrap(), ["a", "b"]);
}

#[test]
fn no_replicas_is_an_empty_plan() {
    let cands = vec![cand("a", &[("node", "a")], 10, 10)];
    assert!(plan(&cands, &rungs(), "node", 0, 1).unwrap().is_empty());
}
