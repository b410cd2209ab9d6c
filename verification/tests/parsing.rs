use stride_runner_domset::instlist::{
    check_instances_known, finalize_instance_list, resolve_instance_list, sort_u32s,
    InstanceListError,
};
use stride_runner_domset::instlist::read_instance_list as read_list;
use stride_runner_domset::pace::{parse_instance, GraphParseError};

const REF_DATA: &[u8] = b"p ds 9 8\n1 3\n1 4\n1 7\n2 8\n3 9\n4 8\n4 9\n5 6\n";

#[test]
fn read_instance_list() {
    let text = b"c comment\n 1\n\n712 \n 4\n  \nc comment\n5\n";
    let instances = read_list(text).unwrap();
    assert_eq!(instances, vec![1, 712, 4, 5]);
}

#[test]
fn read_instance_list_rejects_bad_line() {
    let text = b"1\ntwo\n3\n";
    assert_eq!(
        read_list(text).unwrap_err(),
        InstanceListError::BadLine
    );
}

#[test]
fn parse_reference_instance() {
    let g = parse_instance(REF_DATA).unwrap();
    assert_eq!(g.n, 9);
    assert_eq!(g.m, 8);
    assert_eq!(g.edges.len(), 8);
    assert_eq!(g.edges[0], (1, 3));
    assert_eq!(g.edges[7], (5, 6));
}

#[test]
fn parse_instance_skips_comments_and_blanks() {
    let data = b"c hello\n\np ds 2 1\nc mid\n 1 2 \n";
    let g = parse_instance(data).unwrap();
    assert_eq!(g.n, 2);
    assert_eq!(g.edges, vec![(1, 2)]);
}

#[test]
fn parse_instance_missing_header() {
    assert_eq!(
        parse_instance(b"1 2\n").unwrap_err(),
        GraphParseError::MissingHeader
    );
    assert_eq!(
        parse_instance(b"").unwrap_err(),
        GraphParseError::MissingHeader
    );
    assert_eq!(
        parse_instance(b"p ds x 1\n1 2\n").unwrap_err(),
        GraphParseError::MissingHeader
    );
}

#[test]
fn parse_instance_bad_edges() {
    // a self-loop
    assert_eq!(
        parse_instance(b"p ds 3 1\n2 2\n").unwrap_err(),
        GraphParseError::BadEdge
    );
    // an index out of range
    assert_eq!(
        parse_instance(b"p ds 3 1\n1 4\n").unwrap_err(),
        GraphParseError::BadEdge
    );
    // three tokens on an edge line
    assert_eq!(
        parse_instance(b"p ds 3 1\n1 2 3\n").unwrap_err(),
        GraphParseError::BadEdge
    );
}

#[test]
fn parse_instance_missing_edges() {
    assert_eq!(
        parse_instance(b"p ds 3 2\n1 2\n").unwrap_err(),
        GraphParseError::MissingEdges
    );
}

#[test]
fn parse_instance_ignores_trailing_lines() {
    let g = parse_instance(b"p ds 2 1\n1 2\nextra garbage\n").unwrap();
    assert_eq!(g.edges, vec![(1, 2)]);
}

#[test]
fn list_intersection() {
    // The file holds [1, 712, 4, 5] among comments and blank lines; the
    // filter returns every known id. The resolved list is the file's set.
    let text = b"c comment\n 1\n\n712 \n 4\n  \nc comment\n5\n";
    let from_file = read_list(text).unwrap();
    let known: Vec<u32> = (1..1000).collect();
    check_instances_known(&from_file, &known).unwrap();
    let resolved = resolve_instance_list(Some(from_file), Some(known)).unwrap();
    assert_eq!(resolved, vec![1, 712, 4, 5]);
    let sorted = finalize_instance_list(resolved.clone(), true).unwrap();
    assert_eq!(sorted, vec![1, 4, 5, 712]);
    let shuffled = finalize_instance_list(resolved, false).unwrap();
    assert_eq!(sort_u32s(shuffled), vec![1, 4, 5, 712]);
}

#[test]
fn unknown_instances_reported_sorted() {
    let proposed = vec![7, 3, 900, 7, 850];
    let known = vec![3, 7];
    match check_instances_known(&proposed, &known).unwrap_err() {
        InstanceListError::UnknownIds(d) => assert_eq!(d, vec![850, 900]),
        other => panic!("unexpected error: {:?}", other),
    }
}

#[test]
fn empty_list_fails_fast() {
    assert_eq!(
        resolve_instance_list(None, None).unwrap_err(),
        InstanceListError::NoSource
    );
    assert_eq!(
        finalize_instance_list(Vec::new(), false).unwrap_err(),
        InstanceListError::Empty
    );
}

#[test]
fn intersection_drops_duplicates_and_unknown() {
    let file = vec![5, 5, 2, 9, 2];
    let db = vec![9, 5, 1];
    let r = resolve_instance_list(Some(file), Some(db)).unwrap();
    assert_eq!(r, vec![5, 9]);
}
