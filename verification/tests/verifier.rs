use stride_runner_domset::pace::parse_instance;
use stride_runner_domset::solution::{
    check_dominating, evaluate_solution, format_solution, parse_solution, SolutionParseError,
    SolutionVerdict,
};

const REF_DATA: &[u8] = b"p ds 9 8\n1 3\n1 4\n1 7\n2 8\n3 9\n4 8\n4 9\n5 6\n";

#[test]
fn parse_solution_plain() {
    let v = parse_solution(9, b"3\n1\n4\n5\n").unwrap();
    assert_eq!(v, vec![1, 4, 5]);
}

#[test]
fn parse_solution_skips_comments_and_blanks() {
    let v = parse_solution(9, b"c greedy\n\n2\nc another\n\n8\n5\n\n").unwrap();
    assert_eq!(v, vec![8, 5]);
}

#[test]
fn incomplete_iff_fewer_than_k_lines() {
    // The solver wrote fewer data lines than it announced.
    assert_eq!(
        parse_solution(9, b"3\n1\n4\n").unwrap_err(),
        SolutionParseError::Incomplete
    );
    // Exactly k lines parse.
    assert_eq!(parse_solution(9, b"3\n1\n4\n5\n").unwrap(), vec![1, 4, 5]);
    // Empty output counts as incomplete: no cardinality line was found.
    assert_eq!(
        parse_solution(9, b"").unwrap_err(),
        SolutionParseError::Incomplete
    );
}

#[test]
fn syntax_errors() {
    // no integer where the cardinality belongs
    assert_eq!(
        parse_solution(9, b"zero\n").unwrap_err(),
        SolutionParseError::Syntax
    );
    // an index out of range
    assert_eq!(
        parse_solution(9, b"1\n10\n").unwrap_err(),
        SolutionParseError::Syntax
    );
    // a zero index
    assert_eq!(
        parse_solution(9, b"1\n0\n").unwrap_err(),
        SolutionParseError::Syntax
    );
    // two indices on one line
    assert_eq!(
        parse_solution(9, b"2\n1 2\n3\n").unwrap_err(),
        SolutionParseError::Syntax
    );
}

#[test]
fn trailing_lines_ignored() {
    let plain = parse_solution(9, b"2\n1\n4\n").unwrap();
    let trailing = parse_solution(9, b"2\n1\n4\n7\n8\nwhatever\n").unwrap();
    assert_eq!(plain, trailing);
}

#[test]
fn repeated_indices_collapse() {
    let v = parse_solution(9, b"3\n4\n4\n2\n").unwrap();
    assert_eq!(v, vec![4, 2]);
}

#[test]
fn feasible_set_verifies() {
    let g = parse_instance(REF_DATA).unwrap();
    // {1, 4, 5, 8, 9, ...}: take a set covering all of [1, 9]
    let sol = vec![1, 8, 5, 9];
    // 1 covers 1,3,4,7; 8 covers 2,4,8; 5 covers 5,6; 9 covers 3,4,9.
    assert!(check_dominating(&g, &sol));
}

#[test]
fn infeasible_set_detected() {
    let g = parse_instance(REF_DATA).unwrap();
    // {1} leaves 2, 5, 6, 8, 9 uncovered.
    assert!(!check_dominating(&g, &vec![1]));
}

#[test]
fn evaluate_solution_feasible() {
    match evaluate_solution(REF_DATA, b"4\n1\n8\n5\n9\n").unwrap() {
        SolutionVerdict::Valid(data) => assert_eq!(data, vec![1, 8, 5, 9]),
        other => panic!("unexpected outcome: {:?}", other),
    }
}

#[test]
fn evaluate_solution_infeasible() {
    // The solver claims the single node 1 dominates the graph.
    assert_eq!(
        evaluate_solution(REF_DATA, b"1\n1\n").unwrap(),
        SolutionVerdict::Infeasible
    );
}

#[test]
fn evaluate_solution_incomplete_and_syntax() {
    assert_eq!(
        evaluate_solution(REF_DATA, b"5\n1\n2\n").unwrap(),
        SolutionVerdict::IncompleteOutput
    );
    assert_eq!(
        evaluate_solution(REF_DATA, b"nonsense\n").unwrap(),
        SolutionVerdict::SyntaxError
    );
}

#[test]
fn zero_cardinality_parses_empty() {
    let v = parse_solution(9, b"0\n").unwrap();
    assert!(v.is_empty());
}

#[test]
fn format_then_parse_round_trip() {
    let sol = vec![1, 8, 5, 9];
    let text = format_solution(&sol);
    assert_eq!(text, b"4\n1\n8\n5\n9\n".to_vec());
    let back = parse_solution(9, &text).unwrap();
    assert_eq!(back, sol);
}
