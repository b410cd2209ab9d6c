use stride_runner_domset::greedy::{build_adjacency, greedy};
use stride_runner_domset::pace::parse_instance;
use stride_runner_domset::solution::{check_dominating, evaluate_solution, format_solution,
    SolutionVerdict};

const REF_DATA: &[u8] = b"p ds 9 8\n1 3\n1 4\n1 7\n2 8\n3 9\n4 8\n4 9\n5 6\n";

#[test]
fn greedy_dominates_nine_node_graph() {
    // Every node of [1, 9] is in the greedy set or adjacent to a member.
    let g = parse_instance(REF_DATA).unwrap();
    let domset = greedy(&g);
    assert!(check_dominating(&g, &domset));
    for v in 1..=9u32 {
        let in_set = domset.contains(&v);
        let adjacent = g
            .edges
            .iter()
            .any(|&(a, b)| (a == v && domset.contains(&b)) || (b == v && domset.contains(&a)));
        assert!(in_set || adjacent, "node {} is uncovered", v);
    }
}

#[test]
fn greedy_output_verifies_as_feasible() {
    let g = parse_instance(REF_DATA).unwrap();
    let domset = greedy(&g);
    let output = format_solution(&domset);
    match evaluate_solution(REF_DATA, &output).unwrap() {
        SolutionVerdict::Valid(data) => assert_eq!(data, domset),
        other => panic!("unexpected outcome: {:?}", other),
    }
}

#[test]
fn greedy_on_path() {
    let g = parse_instance(b"p ds 3 2\n1 2\n2 3\n").unwrap();
    let domset = greedy(&g);
    assert_eq!(domset, vec![2]);
}

#[test]
fn greedy_skips_isolated_node() {
    // Node 3 has no edge; greedy never takes it, and the result still
    // dominates every touched node.
    let g = parse_instance(b"p ds 3 1\n1 2\n").unwrap();
    let domset = greedy(&g);
    assert!(!domset.contains(&3));
    assert!(!check_dominating(&g, &domset));
}

#[test]
fn adjacency_symmetric() {
    let g = parse_instance(REF_DATA).unwrap();
    let adj = build_adjacency(&g);
    assert_eq!(adj.len(), 10);
    for v in 1..=9u32 {
        for &w in &adj[v as usize] {
            assert!(adj[w as usize].contains(&v));
        }
    }
    assert_eq!(adj[1].len(), 3);
    assert_eq!(adj[5], vec![6]);
}
