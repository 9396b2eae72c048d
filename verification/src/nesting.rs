//! Loop nesting: which `BeginLoop` belongs to which `EndLoop`.
//!
//! Everything here looks only at the kind of each instruction, never at the
//! jump target it carries, so the same definitions describe a program before
//! and after its targets have been filled in.

use vstd::prelude::*;
use crate::instruction::Instruction;

verus! {

/// How many loops are open after the first `n` instructions: the number of
/// `BeginLoop` among them minus the number of `EndLoop`.
pub open spec fn depth(code: Seq<Instruction>, n: int) -> int
    decreases n,
{
    if n <= 0 {
        0
    } else {
        depth(code, n - 1) + code[n - 1].nesting()
    }
}

/// No prefix closes more loops than it opens, and the whole program closes
/// every loop it opens.
pub open spec fn balanced(code: Seq<Instruction>) -> bool {
    &&& forall|k: int| 0 <= k <= code.len() ==> depth(code, k) >= 0
    &&& depth(code, code.len() as int) == 0
}

/// The `BeginLoop` at `open` and the `EndLoop` at `close` delimit one loop:
/// the depth is back to its value before `open` right after `close`, and
/// never earlier.
pub open spec fn paired(code: Seq<Instruction>, open: int, close: int) -> bool {
    &&& 0 <= open < close < code.len()
    &&& code[open] is BeginLoop
    &&& code[close] is EndLoop
    &&& depth(code, close + 1) == depth(code, open)
    &&& forall|k: int| open < k <= close ==> depth(code, k) > depth(code, open)
}

/// Every loop instruction carries the position of the instruction it is
/// paired with.
pub open spec fn resolved(code: Seq<Instruction>) -> bool {
    forall|i: int|
        0 <= i < code.len() ==> match #[trigger] code[i] {
            Instruction::BeginLoop(t) => paired(code, i, t as int),
            Instruction::EndLoop(t) => paired(code, t as int, i),
            _ => true,
        }
}

/// The `EndLoop` at `p` is the first instruction to close a loop that was
/// never opened.
pub open spec fn first_stray_close(code: Seq<Instruction>, p: int) -> bool {
    &&& 0 <= p < code.len()
    &&& depth(code, p + 1) < 0
    &&& forall|k: int| 0 <= k <= p ==> depth(code, k) >= 0
}

/// The `BeginLoop` at `i` is never closed.
pub open spec fn unclosed(code: Seq<Instruction>, i: int) -> bool {
    &&& 0 <= i < code.len()
    &&& code[i] is BeginLoop
    &&& forall|k: int| i < k <= code.len() ==> depth(code, k) > depth(code, i)
}

/// The `BeginLoop` at `p` is the first one that is never closed.
pub open spec fn first_unclosed(code: Seq<Instruction>, p: int) -> bool {
    &&& unclosed(code, p)
    &&& forall|i: int| 0 <= i < p ==> !unclosed(code, i)
}

/// Two programs have the same instructions up to jump targets.
pub open spec fn same_shape(a: Seq<Instruction>, b: Seq<Instruction>) -> bool {
    &&& a.len() == b.len()
    &&& forall|i: int|
        #![trigger a[i]]
        #![trigger b[i]]
        0 <= i < a.len() ==> a[i].bare() == b[i].bare()
}

/// Depth depends on the shape of a program alone.
pub proof fn lemma_depth_same_shape(a: Seq<Instruction>, b: Seq<Instruction>, n: int)
    requires
        same_shape(a, b),
        n <= a.len(),
    ensures
        depth(a, n) == depth(b, n),
    decreases n,
{
    if n > 0 {
        lemma_depth_same_shape(a, b, n - 1);
    }
}

/// Pairing depends on the shape of a program alone.
pub proof fn lemma_paired_same_shape(
    a: Seq<Instruction>,
    b: Seq<Instruction>,
    open: int,
    close: int,
)
    requires
        same_shape(a, b),
        paired(a, open, close),
    ensures
        paired(b, open, close),
{
    lemma_depth_same_shape(a, b, open);
    lemma_depth_same_shape(a, b, close + 1);
    assert forall|k: int| open < k <= close implies depth(b, k) > depth(b, open) by {
        lemma_depth_same_shape(a, b, k);
    }
}

/// A `BeginLoop` is paired with at most one `EndLoop`.
pub proof fn lemma_close_unique(code: Seq<Instruction>, open: int, c1: int, c2: int)
    requires
        paired(code, open, c1),
        paired(code, open, c2),
    ensures
        c1 == c2,
{
}

/// An `EndLoop` is paired with at most one `BeginLoop`.
pub proof fn lemma_open_unique(code: Seq<Instruction>, o1: int, o2: int, close: int)
    requires
        paired(code, o1, close),
        paired(code, o2, close),
    ensures
        o1 == o2,
{
}

/// In a resolved program the two targets of a loop point at each other:
/// following the target of a loop instruction, and then the target found
/// there, leads back to where one started.
pub proof fn lemma_targets_are_inverse(code: Seq<Instruction>, i: int)
    requires
        resolved(code),
        0 <= i < code.len(),
        code[i] is BeginLoop || code[i] is EndLoop,
    ensures
        0 <= code[i].target() < code.len(),
        code[i] is BeginLoop ==> code[code[i].target()] is EndLoop && i < code[i].target(),
        code[i] is EndLoop ==> code[code[i].target()] is BeginLoop && code[i].target() < i,
        code[code[i].target()].target() == i,
{
    let t = code[i].target();
    match code[i] {
        Instruction::BeginLoop(_) => {
            let back = code[t].target();
            lemma_open_unique(code, i, back, t);
        },
        Instruction::EndLoop(_) => {
            let back = code[t].target();
            lemma_close_unique(code, t, i, back);
        },
        _ => {},
    }
}

/// Two loops are nested or apart, never interleaved: a loop that begins
/// inside another one ends inside it.
pub proof fn lemma_loops_do_not_overlap(
    code: Seq<Instruction>,
    outer_open: int,
    outer_close: int,
    inner_open: int,
    inner_close: int,
)
    requires
        paired(code, outer_open, outer_close),
        paired(code, inner_open, inner_close),
        outer_open < inner_open < outer_close,
    ensures
        inner_close < outer_close,
{
    if inner_close == outer_close {
        lemma_open_unique(code, outer_open, inner_open, outer_close);
    }
}

/// In a resolved program no prefix closes more loops than it opens.
pub proof fn lemma_resolved_prefix_depth(code: Seq<Instruction>, n: int)
    requires
        resolved(code),
        0 <= n <= code.len(),
    ensures
        forall|k: int| 0 <= k <= n ==> depth(code, k) >= 0,
    decreases n,
{
    if n > 0 {
        lemma_resolved_prefix_depth(code, n - 1);
        assert(depth(code, n - 1) >= 0);
    }
}

/// Up to `n`, a resolved program has a last position at which no loop is
/// open.
proof fn lemma_resolved_returns_to_zero(code: Seq<Instruction>, n: int) -> (last: int)
    requires
        resolved(code),
        0 <= n <= code.len(),
    ensures
        0 <= last <= n,
        depth(code, last) == 0,
        forall|k: int| last < k <= n ==> depth(code, k) > 0,
    decreases n,
{
    lemma_resolved_prefix_depth(code, n);
    if n == 0 {
        0
    } else if depth(code, n) == 0 {
        n
    } else {
        lemma_resolved_returns_to_zero(code, n - 1)
    }
}

/// A resolved program is balanced.
pub proof fn lemma_resolved_is_balanced(code: Seq<Instruction>)
    requires
        resolved(code),
    ensures
        balanced(code),
{
    let n = code.len() as int;
    lemma_resolved_prefix_depth(code, n);
    let last = lemma_resolved_returns_to_zero(code, n);
    if last < n {
        assert(depth(code, last + 1) > 0);
    }
}

/// A shape has at most one resolved program.
pub proof fn lemma_resolved_unique(a: Seq<Instruction>, b: Seq<Instruction>)
    requires
        same_shape(a, b),
        resolved(a),
        resolved(b),
    ensures
        a == b,
{
    assert forall|i: int| 0 <= i < a.len() implies a[i] == b[i] by {
        match a[i] {
            Instruction::BeginLoop(t) => {
                let u = b[i].target();
                lemma_paired_same_shape(a, b, i, t as int);
                lemma_close_unique(b, i, t as int, u);
            },
            Instruction::EndLoop(t) => {
                let u = b[i].target();
                lemma_paired_same_shape(a, b, t as int, i);
                lemma_open_unique(b, t as int, u, i);
            },
            _ => {},
        }
    }
}

} // verus!
