use wave_bench::scope::{collect_codes, count_vars, ScopeNode};

fn sample() -> Vec<ScopeNode<u64>> {
    vec![
        ScopeNode::Other,
        ScopeNode::Var(1),
        ScopeNode::Scope(vec![
            ScopeNode::Var(2),
            ScopeNode::Scope(vec![ScopeNode::Var(3), ScopeNode::Other]),
            ScopeNode::Var(4),
        ]),
        ScopeNode::Scope(vec![]),
        ScopeNode::Var(5),
    ]
}

#[test]
fn counts_nested_variables() {
    assert_eq!(count_vars(&sample()), 5);
    assert_eq!(count_vars::<u64>(&[]), 0);
    assert_eq!(count_vars(&[ScopeNode::<u64>::Other]), 0);
}

#[test]
fn collects_codes_in_header_order() {
    let mut codes = vec![99u64];
    collect_codes(&sample(), &mut codes);
    assert_eq!(codes, vec![99, 1, 2, 3, 4, 5]);
}
