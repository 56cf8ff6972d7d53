use cerune_lang::constants::order_constants;
use cerune_lang::source::{SourceId, Span};

fn at(start: usize) -> Span {
    Span { source: SourceId { index: 0 }, start, end: start + 1 }
}

fn names(n: usize) -> Vec<String> {
    (0..n).map(|i| format!("C{i}")).collect()
}

#[test]
fn dependencies_come_first() {
    // C0 = C1 + C2; C1 = C2; C2 = 1
    let deps = vec![vec![(1, at(0)), (2, at(1))], vec![(2, at(2))], vec![]];
    assert_eq!(order_constants(&deps, &names(3)).unwrap(), vec![2, 1, 0]);
}

#[test]
fn shared_references_are_not_cycles() {
    let deps = vec![vec![(2, at(0)), (2, at(1))], vec![(2, at(2))], vec![]];
    assert_eq!(order_constants(&deps, &names(3)).unwrap(), vec![2, 0, 1]);
}

#[test]
fn a_cycle_is_reported_at_the_closing_reference() {
    // C0 = C1; C1 = C0
    let deps = vec![vec![(1, at(3))], vec![(0, at(7))]];
    let error = order_constants(&deps, &names(2)).unwrap_err();
    assert_eq!(error.message, "cyclic constant reference to C0");
    assert_eq!(error.span, Some(at(7)));
    let own = vec![vec![(0, at(4))]];
    assert_eq!(order_constants(&own, &names(1)).unwrap_err().message, "cyclic constant reference to C0");
}

#[test]
fn depth_is_bounded_at_128() {
    // C{i} = C{i+1}: a chain of 128 constants is fine, 129 or more is not
    let chain = |n: usize| -> Vec<Vec<(usize, Span)>> {
        (0..n).map(|i| if i + 1 < n { vec![(i + 1, at(i))] } else { vec![] }).collect()
    };
    assert_eq!(order_constants(&chain(128), &names(128)).unwrap().len(), 128);
    let error = order_constants(&chain(130), &names(130)).unwrap_err();
    assert_eq!(error.message, "constant dependency depth exceeds 128");
    assert_eq!(order_constants(&chain(129), &names(129)).unwrap_err().message, "constant dependency depth exceeds 128");
}

#[test]
fn a_chain_declared_leaf_first_is_walked_in_short_steps() {
    // C{i} = C{i-1}: the walk from C0 up finds every dependency finished
    let deps: Vec<Vec<(usize, Span)>> = (0..129).map(|i| if i > 0 { vec![(i - 1, at(i))] } else { vec![] }).collect();
    let order = order_constants(&deps, &names(129)).unwrap();
    assert_eq!(order, (0..129).collect::<Vec<usize>>());
}
