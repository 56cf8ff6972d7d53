//! The order in which constant definitions are evaluated.
//!
//! Each constant lists the constants its defining expression refers to,
//! with the range of each reference. Constants are evaluated dependencies
//! first; the walk uses an explicit stack instead of the host's call stack,
//! and reports a reference cycle, or a dependency chain deeper than 128.
use vstd::prelude::*;
use crate::diagnostic::Diagnostic;
use crate::source::Span;
use crate::text::joined;

verus! {

/// The references of each constant: the id of the constant referred to, and where.
pub type Dependencies = Vec<Vec<(usize, Span)>>;

/// Every reference names a constant that exists.
pub open spec fn references_known(deps: Seq<Seq<(usize, Span)>>) -> bool {
    forall|a: int, k: int|
        0 <= a < deps.len() && 0 <= k < deps[a].len() ==> (#[trigger] deps[a][k]).0 < deps.len()
}

/// Constant `a`'s definition refers to constant `b`.
pub open spec fn refers_to(deps: Seq<Seq<(usize, Span)>>, a: int, b: int) -> bool {
    &&& 0 <= a < deps.len()
    &&& exists|k: int| 0 <= k < deps[a].len() && (#[trigger] deps[a][k]).0 == b
}

/// `path` follows references from its first constant to its last.
pub open spec fn is_chain(deps: Seq<Seq<(usize, Span)>>, path: Seq<int>) -> bool {
    forall|i: int| 0 <= i < path.len() - 1 ==> refers_to(deps, #[trigger] path[i], path[i + 1])
}

/// `path` is a chain of 129 distinct constants that starts at the first
/// constant and follows, from each of its first 128, that constant's first
/// reference.
pub open spec fn leads_deep_chain(deps: Seq<Seq<(usize, Span)>>, path: Seq<int>) -> bool {
    &&& path.len() == 129
    &&& path[0] == 0
    &&& forall|i: int| 0 <= i < path.len() ==> 0 <= #[trigger] path[i] < deps.len()
    &&& forall|i: int, j: int| 0 <= i < j < path.len() ==> path[i] != path[j]
    &&& forall|i: int| 0 <= i < 128 ==> deps[#[trigger] path[i]].len() > 0 && deps[path[i]][0].0 == path[i + 1]
}

/// Some chain `leads_deep_chain`.
pub open spec fn has_deep_chain(deps: Seq<Seq<(usize, Span)>>) -> bool {
    exists|path: Seq<int>| #[trigger] leads_deep_chain(deps, path)
}

/// `x` is among the first `count` constants of `path`.
pub open spec fn in_prefix(path: Seq<int>, count: int, x: int) -> bool {
    exists|k: int| 0 <= k < count && path[k] == x
}

/// The walk from the first constant has followed `path` as far as `stack`
/// reaches: each frame but the last has taken its first reference, and
/// exactly the constants on the stack are being walked.
#[verifier::opaque]
pub open spec fn deep_frame(path: Seq<int>, states: Seq<u8>, stack: Seq<(usize, usize)>) -> bool {
    &&& 1 <= stack.len()
    &&& forall|k: int| 0 <= k < stack.len() ==> (#[trigger] stack[k]).0 as int == path[k] && stack[k].1 == (if k
        == stack.len() - 1 {
        0usize
    } else {
        1usize
    })
    &&& forall|x: int|
        0 <= x < states.len() ==> (#[trigger] states[x] == 1 <==> in_prefix(path, stack.len() as int, x)) && states[x] <= 1
}

proof fn lemma_deep_start(deps: Seq<Seq<(usize, Span)>>, path: Seq<int>, states: Seq<u8>, stack: Seq<(usize, usize)>)
    requires
        leads_deep_chain(deps, path),
        states.len() == deps.len(),
        forall|x: int| 0 <= x < states.len() && x != 0 ==> states[x] == 0,
        states[0] == 1,
        stack == seq![(0usize, 0usize)],
    ensures
        deep_frame(path, states, stack),
{
    reveal(deep_frame);
    assert forall|x: int| 0 <= x < states.len() implies (#[trigger] states[x] == 1 <==> in_prefix(path, 1, x))
        && states[x] <= 1 by {
        if x == 0 {
            assert(path[0] == x);
        }
    }
}

proof fn lemma_deep_top(deps: Seq<Seq<(usize, Span)>>, path: Seq<int>, states: Seq<u8>, stack: Seq<(usize, usize)>)
    requires
        leads_deep_chain(deps, path),
        states.len() == deps.len(),
        deep_frame(path, states, stack),
        stack.len() <= 128,
    ensures
        stack.last().0 as int == path[stack.len() - 1],
        stack.last().1 == 0,
        deps[path[stack.len() - 1]].len() > 0,
        deps[path[stack.len() - 1]][0].0 == path[stack.len() as int],
        states[path[stack.len() as int]] == 0,
{
    reveal(deep_frame);
    let l = stack.len() as int;
    assert(stack[l - 1] == stack.last());
    if states[path[l]] == 1 {
        let k = choose|k: int| 0 <= k < l && path[k] == path[l];
        assert(path[k] == path[l]);
    }
}

proof fn lemma_deep_push(
    deps: Seq<Seq<(usize, Span)>>,
    path: Seq<int>,
    states: Seq<u8>,
    stack: Seq<(usize, usize)>,
    dependency: usize,
)
    requires
        leads_deep_chain(deps, path),
        states.len() == deps.len(),
        deep_frame(path, states, stack),
        stack.len() < 128,
        dependency as int == path[stack.len() as int],
    ensures
        deep_frame(
            path,
            states.update(dependency as int, 1),
            stack.update(stack.len() - 1, (stack.last().0, 1usize)).push((dependency, 0usize)),
        ),
{
    reveal(deep_frame);
    let l = stack.len() as int;
    let st = states.update(dependency as int, 1);
    let sk = stack.update(l - 1, (stack.last().0, 1usize)).push((dependency, 0usize));
    assert forall|k: int| 0 <= k < sk.len() implies (#[trigger] sk[k]).0 as int == path[k] && sk[k].1 == (if k
        == sk.len() - 1 {
        0usize
    } else {
        1usize
    }) by {
        if k < l - 1 {
            assert(sk[k] == stack[k]);
        } else if k == l - 1 {
            assert(stack[l - 1] == stack.last());
        }
    }
    assert forall|x: int| 0 <= x < st.len() implies (#[trigger] st[x] == 1 <==> in_prefix(path, sk.len() as int, x))
        && st[x] <= 1 by {
        if x == dependency as int {
            assert(path[l] == x);
        } else {
            assert(st[x] == states[x]);
            if in_prefix(path, l + 1, x) {
                let k = choose|k: int| 0 <= k < l + 1 && path[k] == x;
                assert(k < l);
            }
        }
    }
}

/// `path` is a reference chain that comes back to where it started.
pub open spec fn is_cycle(deps: Seq<Seq<(usize, Span)>>, path: Seq<int>) -> bool {
    &&& path.len() >= 2
    &&& is_chain(deps, path)
    &&& path[0] == path.last()
}

/// `order` lists every constant once, each after all the constants it refers to.
pub open spec fn is_evaluation_order(deps: Seq<Seq<(usize, Span)>>, order: Seq<usize>) -> bool {
    &&& order.len() == deps.len()
    &&& (forall|i: int| 0 <= i < order.len() ==> (#[trigger] order[i]) < deps.len())
    &&& (forall|i: int, j: int| 0 <= i < j < order.len() ==> order[i] != order[j])
    &&& dependencies_first(deps, order)
}

/// Each constant in `order` comes after every constant it refers to.
pub open spec fn dependencies_first(deps: Seq<Seq<(usize, Span)>>, order: Seq<usize>) -> bool {
    forall|i: int, k: int|
        0 <= i < order.len() && 0 <= k < deps[order[i] as int].len() ==> listed_before(
            order,
            (#[trigger] deps[order[i] as int][k]).0,
            i,
        )
}

/// `x` occurs among the first `i` entries of `order`.
pub open spec fn listed_before(order: Seq<usize>, x: usize, i: int) -> bool {
    exists|j: int| 0 <= j < i && order[j] == x
}

/// How many entries of `states` are still unvisited.
pub open spec fn unvisited(states: Seq<u8>) -> nat
    decreases states.len(),
{
    if states.len() == 0 {
        0
    } else {
        unvisited(states.drop_last()) + if states.last() == 0 { 1nat } else { 0nat }
    }
}

/// What is left to do for the frames on the stack.
pub open spec fn pending(deps: Seq<Seq<(usize, Span)>>, stack: Seq<(usize, usize)>) -> nat
    decreases stack.len(),
{
    if stack.len() == 0 {
        0
    } else {
        let (id, next) = stack.last();
        pending(deps, stack.drop_last()) + (deps[id as int].len() - next + 1) as nat
    }
}

proof fn lemma_unvisited_mark(states: Seq<u8>, i: int, v: u8)
    requires
        0 <= i < states.len(),
        states[i] == 0,
        v != 0,
    ensures
        unvisited(states.update(i, v)) + 1 == unvisited(states),
    decreases states.len(),
{
    if i < states.len() - 1 {
        lemma_unvisited_mark(states.drop_last(), i, v);
        assert(states.update(i, v).drop_last() =~= states.drop_last().update(i, v));
    } else {
        assert(states.update(i, v).drop_last() =~= states.drop_last());
    }
}

proof fn lemma_unvisited_keep(states: Seq<u8>, i: int, v: u8)
    requires
        0 <= i < states.len(),
        states[i] != 0,
        v != 0,
    ensures
        unvisited(states.update(i, v)) == unvisited(states),
    decreases states.len(),
{
    if i < states.len() - 1 {
        lemma_unvisited_keep(states.drop_last(), i, v);
        assert(states.update(i, v).drop_last() =~= states.drop_last().update(i, v));
    } else {
        assert(states.update(i, v).drop_last() =~= states.drop_last());
    }
}

/// The dependency walk's frame invariant: the stack is a reference chain
/// of distinct, in-progress constants; everything referred to before a
/// frame's cursor is finished, but for the child frame above it.
#[verifier::opaque]
spec fn frames_ok(
    deps: Seq<Seq<(usize, Span)>>,
    states: Seq<u8>,
    stack: Seq<(usize, usize)>,
) -> bool {
    &&& forall|m: int| 0 <= m < stack.len() ==> {
        &&& (#[trigger] stack[m]).0 < deps.len()
        &&& stack[m].1 <= deps[stack[m].0 as int].len()
        &&& states[stack[m].0 as int] == 1
    }
    &&& forall|m: int, p: int| 0 <= m < p < stack.len() ==> stack[m].0 != stack[p].0
    &&& forall|x: int| 0 <= x < deps.len() && states[x] == 1 ==> exists|m: int|
        0 <= m < stack.len() && (#[trigger] stack[m]).0 == x
    &&& forall|m: int| 0 <= m < stack.len() - 1 ==> {
        &&& (#[trigger] stack[m]).1 >= 1
        &&& deps[stack[m].0 as int][stack[m].1 - 1].0 == stack[m + 1].0
        &&& forall|j: int| 0 <= j < stack[m].1 - 1 ==> states[
            (#[trigger] deps[stack[m].0 as int][j]).0 as int] == 2
    }
    &&& stack.len() > 0 ==> forall|j: int| 0 <= j < stack.last().1 ==> states[
        (#[trigger] deps[stack.last().0 as int][j]).0 as int] == 2
}

/// The finished constants are exactly those in `order`, in dependency order.
#[verifier::opaque]
spec fn finished_ok(
    deps: Seq<Seq<(usize, Span)>>,
    states: Seq<u8>,
    order: Seq<usize>,
) -> bool {
    &&& states.len() == deps.len()
    &&& forall|x: int| 0 <= x < states.len() ==> states[x] <= 2
    &&& forall|i: int| 0 <= i < order.len() ==> (#[trigger] order[i]) < deps.len() && states[order[i] as int] == 2
    &&& forall|x: int| 0 <= x < deps.len() && states[x] == 2 ==> exists|i: int|
        0 <= i < order.len() && (#[trigger] order[i]) == x
    &&& forall|i: int, j: int| 0 <= i < j < order.len() ==> order[i] != order[j]
    &&& dependencies_first(deps, order)
}

proof fn lemma_chain_from_stack(
    deps: Seq<Seq<(usize, Span)>>,
    states: Seq<u8>,
    stack: Seq<(usize, usize)>,
    m: int,
    last: int,
) -> (path: Seq<int>)
    requires
        frames_ok(deps, states, stack),
        0 <= m < stack.len(),
        stack.last().1 < deps[stack.last().0 as int].len(),
        deps[stack.last().0 as int][stack.last().1 as int].0 == last,
    ensures
        path.len() == stack.len() - m + 1,
        path[0] == stack[m].0,
        path.last() == last,
        is_chain(deps, path),
        forall|i: int| #![trigger path[i]] 0 <= i < path.len() - 1 ==> path[i] == stack[m + i].0,
{
    reveal(frames_ok);
    reveal(finished_ok);
    let n = stack.len();
    let path = Seq::new((n - m + 1) as nat, |i: int| if i < n - m { stack[m + i].0 as int } else { last });
    assert forall|i: int| 0 <= i < path.len() - 1 implies refers_to(deps, #[trigger] path[i], path[i + 1]) by {
        let f = stack[m + i];
        if i < n - m - 1 {
            assert(deps[f.0 as int][f.1 - 1].0 == stack[m + i + 1].0);
        } else {
            assert(deps[f.0 as int][f.1 as int].0 == last);
        }
    }
    path
}

proof fn lemma_pending_pop(deps: Seq<Seq<(usize, Span)>>, stack: Seq<(usize, usize)>)
    requires
        stack.len() > 0,
        stack.last().1 <= deps[stack.last().0 as int].len(),
    ensures
        pending(deps, stack.drop_last()) < pending(deps, stack),
{
}

proof fn lemma_pending_step(
    deps: Seq<Seq<(usize, Span)>>,
    stack: Seq<(usize, usize)>,
    stepped: Seq<(usize, usize)>,
)
    requires
        stack.len() > 0,
        stack.last().1 < deps[stack.last().0 as int].len(),
        stepped.len() == stack.len(),
        stepped.drop_last() == stack.drop_last(),
        stepped.last().0 == stack.last().0,
        stepped.last().1 == stack.last().1 + 1,
    ensures
        pending(deps, stepped) < pending(deps, stack),
{
}

proof fn lemma_dependencies_first_push(deps: Seq<Seq<(usize, Span)>>, order: Seq<usize>, id: usize)
    requires
        dependencies_first(deps, order),
        forall|k: int|
            0 <= k < deps[id as int].len() ==> listed_before(order, (#[trigger] deps[id as int][k]).0, order.len() as int),
    ensures
        dependencies_first(deps, order.push(id)),
{
    let order1 = order.push(id);
    assert forall|i: int, k: int|
        0 <= i < order1.len() && 0 <= k < deps[order1[i] as int].len() implies listed_before(
            order1,
            (#[trigger] deps[order1[i] as int][k]).0,
            i,
        ) by {
        if i < order.len() {
            assert(order1[i] == order[i]);
            assert(deps[order[i] as int][k] == deps[order1[i] as int][k]);
            let j = choose|j: int| 0 <= j < i && order[j] == deps[order[i] as int][k].0;
            assert(order1[j] == order[j]);
        } else {
            assert(order1[i] == id);
            assert(deps[id as int][k] == deps[order1[i] as int][k]);
            let j = choose|j: int| 0 <= j < order.len() && order[j] == deps[id as int][k].0;
            assert(order1[j] == order[j]);
        }
    }
}

/// Finishing the top frame keeps both invariants.
proof fn lemma_finish_top(
    deps: Seq<Seq<(usize, Span)>>,
    states: Seq<u8>,
    stack: Seq<(usize, usize)>,
    order: Seq<usize>,
)
    requires
        finished_ok(deps, states, order),
        frames_ok(deps, states, stack),
        references_known(deps),
        stack.len() > 0,
        stack.last().1 == deps[stack.last().0 as int].len(),
    ensures
        finished_ok(deps, states.update(stack.last().0 as int, 2), order.push(stack.last().0)),
        frames_ok(deps, states.update(stack.last().0 as int, 2), stack.drop_last()),
{
    reveal(frames_ok);
    reveal(finished_ok);
    let id = stack.last().0;
    let states1 = states.update(id as int, 2);
    let order1 = order.push(id);
    let stack1 = stack.drop_last();
    assert(states[id as int] == 1);
    assert(states1.len() == deps.len());
    assert forall|x: int| 0 <= x < states1.len() implies states1[x] <= 2 by {}
    assert forall|k: int|
        0 <= k < deps[id as int].len() implies listed_before(order, (#[trigger] deps[id as int][k]).0, order.len() as int) by {
        let d = deps[id as int][k].0;
        assert(d < deps.len());
        assert(states[d as int] == 2);
    }
    lemma_dependencies_first_push(deps, order, id);
    assert(dependencies_first(deps, order1));
    assert forall|x: int| 0 <= x < deps.len() && states1[x] == 2 implies exists|i: int|
        0 <= i < order1.len() && (#[trigger] order1[i]) == x by {
        if x == id {
            assert(order1[order.len() as int] == x);
        } else {
            let i = choose|i: int| 0 <= i < order.len() && order[i] == x;
            assert(order1[i] == x);
        }
    }
    assert forall|i: int| 0 <= i < order1.len() implies (#[trigger] order1[i]) < deps.len()
        && states1[order1[i] as int] == 2 by {
        if i < order.len() {
            assert(order1[i] == order[i]);
        }
    }
    assert forall|i: int, j: int| 0 <= i < j < order1.len() implies order1[i] != order1[j] by {
        if j == order.len() {
            assert(states[order[i] as int] == 2);
        }
    }
    assert forall|x: int| 0 <= x < deps.len() && states1[x] == 1 implies exists|m: int|
        0 <= m < stack1.len() && (#[trigger] stack1[m]).0 == x by {
        let m = choose|m: int| 0 <= m < stack.len() && (#[trigger] stack[m]).0 == x;
        assert(m != stack.len() - 1);
        assert(stack1[m] == stack[m]);
    }
    assert forall|m: int| 0 <= m < stack1.len() implies {
        &&& (#[trigger] stack1[m]).0 < deps.len()
        &&& stack1[m].1 <= deps[stack1[m].0 as int].len()
        &&& states1[stack1[m].0 as int] == 1
    } by {
        assert(stack1[m] == stack[m]);
        assert(stack[m].0 != stack[stack.len() - 1].0);
    }
    assert forall|m: int| 0 <= m < stack1.len() - 1 implies {
        &&& (#[trigger] stack1[m]).1 >= 1
        &&& deps[stack1[m].0 as int][stack1[m].1 - 1].0 == stack1[m + 1].0
        &&& forall|j: int| 0 <= j < stack1[m].1 - 1 ==> states1[
            (#[trigger] deps[stack1[m].0 as int][j]).0 as int] == 2
    } by {
        assert(stack1[m] == stack[m]);
        assert(stack1[m + 1] == stack[m + 1]);
        assert forall|j: int| 0 <= j < stack1[m].1 - 1 implies states1[
            (#[trigger] deps[stack1[m].0 as int][j]).0 as int] == 2 by {
            assert(deps[stack[m].0 as int][j].0 < deps.len());
            assert(states[deps[stack[m].0 as int][j].0 as int] == 2);
        }
    }
    if stack1.len() > 0 {
        let t = stack1.last();
        assert(t == stack[stack.len() - 2]);
        assert forall|j: int| 0 <= j < t.1 implies states1[
            (#[trigger] deps[t.0 as int][j]).0 as int] == 2 by {
            if j < t.1 - 1 {
                assert(states[deps[t.0 as int][j].0 as int] == 2);
            } else {
                assert(deps[t.0 as int][j].0 == id);
            }
        }
    }
}

/// Stepping past a finished reference keeps the frame invariant.
proof fn lemma_skip_finished(
    deps: Seq<Seq<(usize, Span)>>,
    states: Seq<u8>,
    stack: Seq<(usize, usize)>,
    stepped: Seq<(usize, usize)>,
)
    requires
        frames_ok(deps, states, stack),
        stack.len() > 0,
        stack.last().1 < deps[stack.last().0 as int].len(),
        stack.last().1 + 1 <= usize::MAX,
        states[deps[stack.last().0 as int][stack.last().1 as int].0 as int] == 2,
        stepped == stack.update(stack.len() - 1, (stack.last().0, (stack.last().1 + 1) as usize)),
    ensures
        frames_ok(deps, states, stepped),
{
    reveal(frames_ok);
    reveal(finished_ok);
    let t = stack.last();
    assert forall|m: int| 0 <= m < stepped.len() - 1 implies stepped[m] == stack[m] by {}
    assert forall|x: int| 0 <= x < deps.len() && states[x] == 1 implies exists|m: int|
        0 <= m < stepped.len() && (#[trigger] stepped[m]).0 == x by {
        let m = choose|m: int| 0 <= m < stack.len() && (#[trigger] stack[m]).0 == x;
        assert(stepped[m].0 == stack[m].0);
    }
    assert forall|j: int| 0 <= j < stepped.last().1 implies states[
        (#[trigger] deps[stepped.last().0 as int][j]).0 as int] == 2 by {
        if j < t.1 {
        }
    }
}

/// Entering an unvisited reference keeps both invariants.
proof fn lemma_enter(
    deps: Seq<Seq<(usize, Span)>>,
    states: Seq<u8>,
    stack: Seq<(usize, usize)>,
    order: Seq<usize>,
    dependency: usize,
)
    requires
        finished_ok(deps, states, order),
        frames_ok(deps, states, stack),
        references_known(deps),
        stack.len() > 0,
        stack.last().1 < deps[stack.last().0 as int].len(),
        stack.last().1 + 1 <= usize::MAX,
        deps[stack.last().0 as int][stack.last().1 as int].0 == dependency,
        states[dependency as int] == 0,
    ensures
        finished_ok(deps, states.update(dependency as int, 1), order),
        frames_ok(
            deps,
            states.update(dependency as int, 1),
            stack.update(stack.len() - 1, (stack.last().0, (stack.last().1 + 1) as usize)).push(
                (dependency, 0usize),
            ),
        ),
{
    reveal(frames_ok);
    reveal(finished_ok);
    let t = stack.last();
    let states1 = states.update(dependency as int, 1);
    let stack1 = stack.update(stack.len() - 1, (t.0, (t.1 + 1) as usize)).push((dependency, 0usize));
    assert(dependency < deps.len());
    assert(states1.len() == deps.len());
    assert forall|x: int| 0 <= x < states1.len() implies states1[x] <= 2 by {}
    assert forall|i: int| 0 <= i < order.len() implies (#[trigger] order[i]) < deps.len()
        && states1[order[i] as int] == 2 by {
        assert(states[order[i] as int] == 2);
    }
    assert forall|x: int| 0 <= x < deps.len() && states1[x] == 2 implies exists|i: int|
        0 <= i < order.len() && (#[trigger] order[i]) == x by {
        assert(states[x] == 2);
    }
    assert forall|m: int| 0 <= m < stack1.len() implies {
        &&& (#[trigger] stack1[m]).0 < deps.len()
        &&& stack1[m].1 <= deps[stack1[m].0 as int].len()
        &&& states1[stack1[m].0 as int] == 1
    } by {
        if m < stack.len() {
            assert(stack1[m].0 == stack[m].0);
            assert(states[stack[m].0 as int] == 1);
        }
    }
    assert forall|m: int, p: int| 0 <= m < p < stack1.len() implies stack1[m].0 != stack1[p].0 by {
        if p == stack.len() {
            assert(states[stack[m].0 as int] == 1);
        } else {
            assert(stack1[m].0 == stack[m].0 && stack1[p].0 == stack[p].0);
        }
    }
    assert forall|x: int| 0 <= x < deps.len() && states1[x] == 1 implies exists|m: int|
        0 <= m < stack1.len() && (#[trigger] stack1[m]).0 == x by {
        if x == dependency {
            assert(stack1[stack.len() as int].0 == x);
        } else {
            let m = choose|m: int| 0 <= m < stack.len() && (#[trigger] stack[m]).0 == x;
            assert(stack1[m].0 == x);
        }
    }
    assert forall|m: int| 0 <= m < stack1.len() - 1 implies {
        &&& (#[trigger] stack1[m]).1 >= 1
        &&& deps[stack1[m].0 as int][stack1[m].1 - 1].0 == stack1[m + 1].0
        &&& forall|j: int| 0 <= j < stack1[m].1 - 1 ==> states1[
            (#[trigger] deps[stack1[m].0 as int][j]).0 as int] == 2
    } by {
        if m < stack.len() - 1 {
            assert(stack1[m] == stack[m]);
            assert(stack1[m + 1].0 == stack[m + 1].0);
            assert forall|j: int| 0 <= j < stack1[m].1 - 1 implies states1[
                (#[trigger] deps[stack1[m].0 as int][j]).0 as int] == 2 by {
                assert(deps[stack[m].0 as int][j].0 < deps.len());
                assert(states[deps[stack[m].0 as int][j].0 as int] == 2);
            }
        } else {
            assert(m == stack.len() - 1);
            assert(stack1[m] == (t.0, (t.1 + 1) as usize));
            assert(stack1[m + 1] == (dependency, 0usize));
            assert forall|j: int| 0 <= j < stack1[m].1 - 1 implies states1[
                (#[trigger] deps[stack1[m].0 as int][j]).0 as int] == 2 by {
                assert(deps[t.0 as int][j].0 < deps.len());
                assert(states[deps[t.0 as int][j].0 as int] == 2);
            }
        }
    }
}

/// The walk from a fresh root starts with one frame.
proof fn lemma_start(deps: Seq<Seq<(usize, Span)>>, states: Seq<u8>, order: Seq<usize>, root: usize)
    requires
        finished_ok(deps, states, order),
        0 <= root < deps.len(),
        states[root as int] == 0,
        forall|x: int| 0 <= x < deps.len() ==> states[x] != 1,
    ensures
        finished_ok(deps, states.update(root as int, 1), order),
        frames_ok(deps, states.update(root as int, 1), seq![(root, 0usize)]),
{
    reveal(frames_ok);
    reveal(finished_ok);
    let states1 = states.update(root as int, 1);
    let stack = seq![(root, 0usize)];
    assert forall|x: int| 0 <= x < deps.len() && states1[x] == 2 implies exists|i: int|
        0 <= i < order.len() && (#[trigger] order[i]) == x by {
        assert(states[x] == 2);
    }
    assert forall|i: int| 0 <= i < order.len() implies (#[trigger] order[i]) < deps.len()
        && states1[order[i] as int] == 2 by {
        assert(states[order[i] as int] == 2);
    }
    assert forall|x: int| 0 <= x < deps.len() && states1[x] == 1 implies exists|m: int|
        0 <= m < stack.len() && (#[trigger] stack[m]).0 == x by {
        assert(stack[0].0 == x);
    }
}

/// Facts about the top frame that the walk reads.
proof fn lemma_top(deps: Seq<Seq<(usize, Span)>>, states: Seq<u8>, stack: Seq<(usize, usize)>)
    requires
        frames_ok(deps, states, stack),
        stack.len() > 0,
    ensures
        stack.last().0 < deps.len(),
        stack.last().1 <= deps[stack.last().0 as int].len(),
        states[stack.last().0 as int] == 1,
{
    reveal(frames_ok);
    assert(stack[stack.len() - 1] == stack.last());
}

/// With no frames left, nothing is in progress.
proof fn lemma_done(deps: Seq<Seq<(usize, Span)>>, states: Seq<u8>)
    requires
        frames_ok(deps, states, Seq::empty()),
    ensures
        forall|x: int| 0 <= x < deps.len() ==> states[x] != 1,
{
    reveal(frames_ok);
}

/// A reference to a constant in progress closes a cycle.
proof fn lemma_cycle(
    deps: Seq<Seq<(usize, Span)>>,
    states: Seq<u8>,
    stack: Seq<(usize, usize)>,
    dependency: usize,
) -> (path: Seq<int>)
    requires
        frames_ok(deps, states, stack),
        stack.len() > 0,
        stack.last().1 < deps[stack.last().0 as int].len(),
        deps[stack.last().0 as int][stack.last().1 as int].0 == dependency,
        0 <= dependency < deps.len(),
        states[dependency as int] == 1,
    ensures
        is_cycle(deps, path),
        path[0] == dependency,
        path[path.len() - 2] == stack.last().0,
{
    reveal(frames_ok);
    let m = choose|m: int| 0 <= m < stack.len() && (#[trigger] stack[m]).0 == dependency;
    let path = lemma_chain_from_stack(deps, states, stack, m, dependency as int);
    assert(path[path.len() - 2] == stack[stack.len() - 1].0);
    path
}

/// A 129th nested reference makes a chain of 129 distinct constants.
proof fn lemma_stack_ids(deps: Seq<Seq<(usize, Span)>>, states: Seq<u8>, stack: Seq<(usize, usize)>) -> (ids: Seq<int>)
    requires
        frames_ok(deps, states, stack),
    ensures
        ids.len() == stack.len(),
        forall|m: int| 0 <= m < ids.len() ==> #[trigger] ids[m] == stack[m].0,
        forall|m: int, p: int| 0 <= m < p < ids.len() ==> ids[m] != ids[p],
        forall|m: int| 0 <= m < ids.len() ==> states[#[trigger] ids[m]] == 1,
{
    reveal(frames_ok);
    let ids = Seq::new(stack.len(), |m: int| stack[m].0 as int);
    assert forall|m: int, p: int| 0 <= m < p < ids.len() implies ids[m] != ids[p] by {
        assert(stack[m].0 != stack[p].0);
    }
    assert forall|m: int| 0 <= m < ids.len() implies states[#[trigger] ids[m]] == 1 by {
        assert(states[stack[m].0 as int] == 1);
    }
    ids
}

proof fn lemma_distinct_path(path: Seq<int>, ids: Seq<int>, states: Seq<u8>, dependency: int)
    requires
        path == ids.push(dependency),
        forall|m: int, p: int| 0 <= m < p < ids.len() ==> ids[m] != ids[p],
        forall|m: int| 0 <= m < ids.len() ==> states[#[trigger] ids[m]] == 1,
        0 <= dependency < states.len(),
        states[dependency] == 0,
    ensures
        forall|i: int, j: int| 0 <= i < j < path.len() ==> path[i] != path[j],
{
    assert forall|i: int, j: int| 0 <= i < j < path.len() implies path[i] != path[j] by {
        if j < path.len() - 1 {
            assert(path[i] == ids[i] && path[j] == ids[j]);
        } else {
            assert(path[i] == ids[i]);
            assert(states[ids[i]] == 1);
        }
    }
}

proof fn lemma_deep(
    deps: Seq<Seq<(usize, Span)>>,
    states: Seq<u8>,
    stack: Seq<(usize, usize)>,
    dependency: usize,
) -> (path: Seq<int>)
    requires
        frames_ok(deps, states, stack),
        stack.len() == 128,
        states.len() == deps.len(),
        stack.last().1 < deps[stack.last().0 as int].len(),
        deps[stack.last().0 as int][stack.last().1 as int].0 == dependency,
        0 <= dependency < deps.len(),
        states[dependency as int] == 0,
    ensures
        is_chain(deps, path),
        path.len() == 129,
        forall|i: int, j: int| 0 <= i < j < path.len() ==> path[i] != path[j],
{
    let path = lemma_chain_from_stack(deps, states, stack, 0, dependency as int);
    let ids = lemma_stack_ids(deps, states, stack);
    assert(path =~= ids.push(dependency as int));
    lemma_distinct_path(path, ids, states, dependency as int);
    path
}

/// When every constant is finished, the order lists each once.
proof fn lemma_finished_all(deps: Seq<Seq<(usize, Span)>>, states: Seq<u8>, order: Seq<usize>)
    requires
        finished_ok(deps, states, order),
        forall|x: int| 0 <= x < deps.len() ==> states[x] == 2,
    ensures
        is_evaluation_order(deps, order),
{
    reveal(finished_ok);
    assert forall|x: int| 0 <= x < deps.len() implies #[trigger] listed(order, x) by {
        assert(states[x] == 2);
    }
    lemma_complete_order(order, deps.len() as int);
}

spec fn listed(order: Seq<usize>, x: int) -> bool {
    exists|i: int| 0 <= i < order.len() && (#[trigger] order[i]) == x
}

proof fn lemma_complete_order(order: Seq<usize>, n: int)
    requires
        0 <= n,
        forall|i: int| 0 <= i < order.len() ==> (#[trigger] order[i]) < n,
        forall|i: int, j: int| 0 <= i < j < order.len() ==> order[i] != order[j],
        forall|x: int| 0 <= x < n ==> #[trigger] listed(order, x),
    ensures
        order.len() == n,
{
    let t = order.map_values(|x: usize| x as int);
    assert(t.no_duplicates()) by {
        assert forall|i: int, j: int| 0 <= i < t.len() && 0 <= j < t.len() && i != j implies t[i] != t[j] by {
            if i < j {
                assert(order[i] != order[j]);
            } else {
                assert(order[j] != order[i]);
            }
        }
    }
    t.unique_seq_to_set();
    assert(t.to_set() =~= vstd::set_lib::set_int_range(0, n)) by {
        assert forall|x: int| t.to_set().contains(x) implies 0 <= x < n by {
            let i = choose|i: int| 0 <= i < t.len() && t[i] == x;
            assert(order[i] < n);
        }
        assert forall|x: int| 0 <= x < n implies t.to_set().contains(x) by {
            assert(listed(order, x));
            let i = choose|i: int| 0 <= i < order.len() && (#[trigger] order[i]) == x;
            assert(t[i] == x);
        }
    }
    vstd::set_lib::lemma_int_range(0, n);
}

/// Orders the constants for evaluation.
///
/// On success every constant appears once, after all the constants it refers
/// to. A reference back to a constant still being walked is a cycle, reported
/// at that reference with the name of the constant it refers to; a chain of
/// more than 128 nested references is refused too. The walk starts at the
/// first constant and follows first references first, so a chain of 129
/// constants that it meets from there is always refused.
#[verifier::rlimit(60)]
pub fn order_constants(dependencies: &Dependencies, names: &Vec<String>) -> (r: Result<
    Vec<usize>,
    Diagnostic,
>)
    requires
        names@.len() == dependencies@.len(),
        references_known(dependencies@.map_values(|d: Vec<(usize, Span)>| d@)),
    ensures
        has_deep_chain(dependencies@.map_values(|d: Vec<(usize, Span)>| d@))
            ==> (r matches Err(e) && e.message@ == "constant dependency depth exceeds 128"@),
        ({
            let deps = dependencies@.map_values(|d: Vec<(usize, Span)>| d@);
            &&& r matches Ok(order) ==> is_evaluation_order(deps, order@)
            &&& r matches Err(e) ==> {
                ||| exists|path: Seq<int>, k: int| {
                    &&& is_cycle(deps, path)
                    &&& e.message@ == "cyclic constant reference to "@ + names@[path[0]]@
                    &&& 0 <= k < deps[path[path.len() - 2]].len()
                    &&& (#[trigger] deps[path[path.len() - 2]][k]).0 == path[0]
                    &&& e.span == Some(deps[path[path.len() - 2]][k].1)
                }
                ||| exists|path: Seq<int>| {
                    &&& #[trigger] is_chain(deps, path)
                    &&& path.len() == 129
                    &&& forall|i: int, j: int| 0 <= i < j < path.len() ==> path[i] != path[j]
                    &&& e.message@ == "constant dependency depth exceeds 128"@
                }
            }
        }),
{
    let ghost deps = dependencies@.map_values(|d: Vec<(usize, Span)>| d@);
    let ghost deep = has_deep_chain(dependencies@.map_values(|d: Vec<(usize, Span)>| d@));
    assert(deep == has_deep_chain(deps));
    let ghost path = choose|path: Seq<int>| #[trigger] leads_deep_chain(deps, path);
    let n = dependencies.len();
    let mut states: Vec<u8> = Vec::new();
    while states.len() < n
        invariant
            states@.len() <= n,
            forall|x: int| 0 <= x < states@.len() ==> states@[x] == 0,
        decreases n - states@.len(),
    {
        states.push(0);
    }
    let mut order: Vec<usize> = Vec::new();
    proof {
        reveal(finished_ok);
    }
    let mut root: usize = 0;
    while root < n
        invariant
            n == deps.len(),
            deps == dependencies@.map_values(|d: Vec<(usize, Span)>| d@),
            names@.len() == n,
            references_known(deps),
            root <= n,
            states@.len() == n,
            finished_ok(deps, states@, order@),
            forall|x: int| 0 <= x < n ==> states@[x] != 1,
            forall|x: int| 0 <= x < n ==> states@[x] <= 2,
            forall|x: int| 0 <= x < root ==> states@[x] == 2,
            deep ==> leads_deep_chain(deps, path) && root == 0 && forall|x: int| 0 <= x < n ==> states@[x] == 0,
            deep == has_deep_chain(dependencies@.map_values(|d: Vec<(usize, Span)>| d@)),
        decreases n - root,
    {
        if states[root] != 0 {
            root = root + 1;
            continue;
        }
        proof {
            lemma_start(deps, states@, order@, root);
        }
        states.set(root, 1);
        let mut stack: Vec<(usize, usize)> = Vec::new();
        stack.push((root, 0));
        assert(stack@ =~= seq![(root, 0usize)]);
        proof {
            if deep {
                lemma_deep_start(deps, path, states@, stack@);
            }
        }
        while stack.len() > 0
            invariant
                n == deps.len(),
                deps == dependencies@.map_values(|d: Vec<(usize, Span)>| d@),
                names@.len() == n,
                references_known(deps),
                root < n,
                states@.len() == n,
                finished_ok(deps, states@, order@),
                frames_ok(deps, states@, stack@),
                states@[root as int] != 0,
                stack@.len() <= 128,
                forall|x: int| 0 <= x < n ==> states@[x] <= 2,
                forall|x: int| 0 <= x < root ==> states@[x] == 2,
                deep == has_deep_chain(dependencies@.map_values(|d: Vec<(usize, Span)>| d@)),
                deep ==> leads_deep_chain(deps, path) && root == 0 && deep_frame(path, states@, stack@),
            decreases unvisited(states@), pending(deps, stack@),
        {
            let top = stack.len() - 1;
            let (id, next) = stack[top];
            proof {
                lemma_top(deps, states@, stack@);
                assert(stack@.last() == (id, next));
                if deep {
                    lemma_deep_top(deps, path, states@, stack@);
                }
            }
            assert(deps[id as int] == dependencies@[id as int]@);
            if next == dependencies[id].len() {
                proof {
                    lemma_pending_pop(deps, stack@);
                    lemma_unvisited_keep(states@, id as int, 2);
                    lemma_finish_top(deps, states@, stack@, order@);
                }
                stack.pop();
                states.set(id, 2);
                order.push(id);
                continue;
            }
            let (dependency, span) = dependencies[id][next];
            assert(deps[id as int][next as int] == (dependency, span));
            proof {
                if deep {
                    lemma_deep_top(deps, path, states@, stack@);
                    assert(stack@.last() == (id, next));
                    assert(dependency as int == path[stack@.len() as int]);
                }
            }
            if states[dependency] == 1 {
                assert(!deep);
                let ghost path = lemma_cycle(deps, states@, stack@, dependency);
                let e = Diagnostic::new(
                    joined("cyclic constant reference to ", names[dependency].as_str()),
                    span,
                );
                assert(deps[path[path.len() - 2]][next as int].0 == path[0]);
                return Err(e);
            }
            if states[dependency] == 0 && stack.len() >= 128 {
                let ghost path = lemma_deep(deps, states@, stack@, dependency);
                return Err(Diagnostic::new(
                    String::from_str("constant dependency depth exceeds 128"),
                    span,
                ));
            }
            let ghost before = stack@;
            stack.set(top, (id, next + 1));
            proof {
                assert(stack@.drop_last() =~= before.drop_last());
                lemma_pending_step(deps, before, stack@);
            }
            if states[dependency] == 2 {
                proof {
                    lemma_skip_finished(deps, states@, before, stack@);
                }
                continue;
            }
            proof {
                lemma_enter(deps, states@, before, order@, dependency);
                lemma_unvisited_mark(states@, dependency as int, 1);
            }
            let ghost old_states = states@;
            states.set(dependency, 1);
            stack.push((dependency, 0));
            proof {
                if deep {
                    lemma_deep_push(deps, path, old_states, before, dependency);
                    assert(stack@ =~= before.update(before.len() - 1, (before.last().0, 1usize)).push((dependency, 0usize)));
                }
            }
        }
        proof {
            if deep {
                reveal(deep_frame);
            }
            assert(stack@ =~= Seq::empty());
            lemma_done(deps, states@);
        }
        root = root + 1;
    }
    proof {
        lemma_finished_all(deps, states@, order@);
    }
    Ok(order)
}

} // verus!
