//! The variable hierarchy of a trace header, as nested scopes, and the
//! variables it declares in header order.
use vstd::prelude::*;

verus! {

/// An item of a header's hierarchy: a variable with its identifier code, a
/// scope with its own items, or anything else (comments, attributes).
#[derive(Debug)]
pub enum ScopeNode<T> {
    Var(T),
    Scope(Vec<ScopeNode<T>>),
    Other,
}

/// The codes of the variables under `items`, in header order: each scope's
/// variables stand where the scope stands.
pub open spec fn vars_of<T>(items: Seq<ScopeNode<T>>) -> Seq<T>
    decreases items,
{
    if items.len() == 0 {
        Seq::empty()
    } else {
        let rest = vars_of(items.subrange(0, items.len() - 1));
        match items[items.len() - 1] {
            ScopeNode::Var(c) => rest.push(c),
            ScopeNode::Scope(children) => rest + vars_of(children@),
            ScopeNode::Other => rest,
        }
    }
}

/// Appends the codes of the variables under `items` to `codes`.
pub fn collect_codes<T: Copy>(items: &[ScopeNode<T>], codes: &mut Vec<T>)
    ensures
        final(codes)@ == old(codes)@ + vars_of(items@),
    decreases items@,
{
    let ghost start = codes@;
    let mut i: usize = 0;
    while i < items.len()
        invariant
            0 <= i <= items@.len(),
            codes@ == start + vars_of(items@.subrange(0, i as int)),
        decreases items@.len() - i,
    {
        let ghost prefix = items@.subrange(0, i + 1);
        assert(prefix.subrange(0, i as int) =~= items@.subrange(0, i as int));
        assert(prefix[i as int] == items@[i as int]);
        match &items[i] {
            ScopeNode::Var(c) => {
                codes.push(*c);
                assert(codes@ =~= start + vars_of(prefix));
            },
            ScopeNode::Scope(children) => {
                proof {
                    assert(decreases_to!(items@ => items@[i as int]));
                }
                collect_codes(children.as_slice(), codes);
                assert(codes@ =~= start + vars_of(prefix));
            },
            ScopeNode::Other => {
                assert(codes@ =~= start + vars_of(prefix));
            },
        }
        i = i + 1;
    }
    assert(items@.subrange(0, items@.len() as int) =~= items@);
}

/// Number of variables under `items`.
pub fn count_vars<T: Copy>(items: &[ScopeNode<T>]) -> (r: usize)
    ensures
        r == vars_of(items@).len(),
{
    let mut codes: Vec<T> = Vec::new();
    collect_codes(items, &mut codes);
    assert(codes@ =~= vars_of(items@));
    codes.len()
}

} // verus!
