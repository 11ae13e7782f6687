//! Laws of the emitter, proved against the emission model: what an
//! assignment clears and invalidates, what a borrow clears, what a
//! mutable borrow invalidates, and which edges a block contributes.

use vstd::prelude::*;

use crate::ast::{
    is_ref_ty, place_view, AccessKind, BasicBlock, Expr, Name, Place, Program, Statement,
    StatementKind,
};
use crate::facts::NodeKey;
use crate::model::{
    block_cfg, block_slots, default_label, expr_afacts, expr_borrows, exprs_afacts, exprs_borrows,
    is_node_of, label_of, linear_start, loan_origins, place_origins, plain_block_names,
    program_codes_ok, resolved_ty, simple_code, slots_sum, stmt_afacts, unique_block_names,
    with_node,
};
use crate::strutil::{dec_digits, digit_char, valid_char_code};

verus! {

/// At an assignment's node, the `clear_origin` facts are exactly the
/// assigned place's origins, in traversal order and with duplicates
/// preserved, followed by the clears of the right-hand side's
/// borrows.
pub proof fn lemma_clear_on_assign(
    program: Program,
    input: Seq<char>,
    block: Seq<char>,
    i: int,
    s: Statement,
    place: Place,
    e: Expr,
)
    requires
        s.kind == StatementKind::Assign(place, e),
    ensures
        stmt_afacts(program, input, block, i, s).clear_origin == with_node(
            place_origins(program, place),
            NodeKey { block, idx: i },
        ) + expr_afacts(program, e, NodeKey { block, idx: i }).clear_origin,
{
    let k = NodeKey { block, idx: i };
    assert(stmt_afacts(program, input, block, i, s).clear_origin =~= with_node(
        place_origins(program, place),
        k,
    ) + expr_afacts(program, e, k).clear_origin);
}

/// Every `Borrow` or `BorrowMut` subexpression produces exactly one
/// `clear_origin` fact of its origin at the enclosing node, whether
/// it stands on the right-hand side of an assignment or alone: the
/// clears of an expression are precisely its borrow origins in
/// evaluation order.
pub proof fn lemma_clear_on_borrow(program: Program, e: Expr, k: NodeKey)
    ensures
        expr_afacts(program, e, k).clear_origin == with_node(expr_borrows(e), k),
    decreases e,
{
    match e {
        Expr::Call { callee, arguments } => {
            lemma_clear_on_borrow_list(program, arguments@, arguments@.len() as int, k);
        },
        _ => {
            assert(expr_afacts(program, e, k).clear_origin =~= with_node(expr_borrows(e), k));
        },
    }
}

/// The clears of the first `n` expressions are their borrow origins.
pub proof fn lemma_clear_on_borrow_list(program: Program, es: Seq<Expr>, n: int, k: NodeKey)
    ensures
        exprs_afacts(program, es, n, k).clear_origin == with_node(exprs_borrows(es, n), k),
    decreases es, n,
{
    if n <= 0 || n > es.len() {
        assert(exprs_afacts(program, es, n, k).clear_origin =~= with_node(
            exprs_borrows(es, n),
            k,
        ));
    } else {
        lemma_clear_on_borrow_list(program, es, n - 1, k);
        lemma_clear_on_borrow(program, es[n - 1], k);
        assert(exprs_afacts(program, es, n, k).clear_origin =~= with_node(
            exprs_borrows(es, n),
            k,
        ));
    }
}

/// At an assignment to a place of non-reference type, the
/// `invalidate_origin` facts are one per loan recorded for that very
/// place, in program order, followed by the invalidations of the
/// right-hand side; an assignment to a reference-typed place
/// invalidates nothing itself.
pub proof fn lemma_invalidate_on_assign(
    program: Program,
    input: Seq<char>,
    block: Seq<char>,
    i: int,
    s: Statement,
    place: Place,
    e: Expr,
)
    requires
        s.kind == StatementKind::Assign(place, e),
    ensures
        !is_ref_ty(resolved_ty(program, place)) ==> stmt_afacts(
            program,
            input,
            block,
            i,
            s,
        ).invalidate_origin == with_node(
            loan_origins(program, place_view(place)),
            NodeKey { block, idx: i },
        ) + expr_afacts(program, e, NodeKey { block, idx: i }).invalidate_origin,
        is_ref_ty(resolved_ty(program, place)) ==> stmt_afacts(
            program,
            input,
            block,
            i,
            s,
        ).invalidate_origin == expr_afacts(program, e, NodeKey { block, idx: i }).invalidate_origin,
{
    let k = NodeKey { block, idx: i };
    if is_ref_ty(resolved_ty(program, place)) {
        assert(stmt_afacts(program, input, block, i, s).invalidate_origin =~= expr_afacts(
            program,
            e,
            k,
        ).invalidate_origin);
    } else {
        assert(stmt_afacts(program, input, block, i, s).invalidate_origin =~= with_node(
            loan_origins(program, place_view(place)),
            k,
        ) + expr_afacts(program, e, k).invalidate_origin);
    }
}

/// A mutable borrow is a write: it invalidates exactly the loans
/// recorded for the borrowed place, one `invalidate_origin` fact per
/// loan, in program order.
pub proof fn lemma_invalidate_on_borrow_mut(program: Program, o: Name, place: Place, k: NodeKey)
    ensures
        expr_afacts(
            program,
            (Expr::Access { kind: AccessKind::BorrowMut(o), place }),
            k,
        ).invalidate_origin == with_node(loan_origins(program, place_view(place)), k),
{
    assert(expr_afacts(
        program,
        (Expr::Access { kind: AccessKind::BorrowMut(o), place }),
        k,
    ).invalidate_origin =~= with_node(loan_origins(program, place_view(place)), k));
}

/// A block with `n` statements and `m` successors contributes
/// exactly `max(n - 1, 0) + m` control-flow edges: one between each
/// pair of consecutive statements, and one from the block's last
/// node to the first node of each successor, in declaration order.
/// An empty block has the single node at index `0`.
pub proof fn lemma_cfg_completeness(bb: BasicBlock)
    ensures
        block_cfg(bb).len() == (if bb.statements@.len() > 0 {
            bb.statements@.len() - 1
        } else {
            0int
        }) + bb.successors@.len(),
        forall|i: int|
            0 <= i < bb.statements@.len() - 1 ==> #[trigger] block_cfg(bb)[i] == (
                (NodeKey { block: bb.name@, idx: i }),
                (NodeKey { block: bb.name@, idx: i + 1 }),
            ),
        forall|j: int|
            0 <= j < bb.successors@.len() ==> block_cfg(bb)[(if bb.statements@.len() > 0 {
                bb.statements@.len() - 1
            } else {
                0int
            }) + j] == (
                (NodeKey { block: bb.name@, idx: block_slots(bb) - 1 }),
                (NodeKey { block: #[trigger] bb.successors@[j]@, idx: 0 }),
            ),
{
}

/// Every character of a decimal rendering is a digit.
proof fn lemma_dec_digits_are_digits(n: nat)
    ensures
        forall|j: int|
            0 <= j < dec_digits(n).len() ==> 48 <= #[trigger] dec_digits(n)[j] as int <= 57,
    decreases n,
{
    if n < 10 {
        assert(dec_digits(n)[0] as int == 48 + n);
    } else {
        lemma_dec_digits_are_digits(n / 10);
        assert forall|j: int|
            0 <= j < dec_digits(n).len() implies 48 <= #[trigger] dec_digits(n)[j] as int
            <= 57 by {
            if j < dec_digits(n / 10).len() {
                assert(dec_digits(n)[j] == dec_digits(n / 10)[j]);
            } else {
                assert(dec_digits(n)[j] == digit_char(n % 10));
                assert(digit_char(n % 10) as int == 48 + n % 10);
            }
        }
    }
}

/// Decimal renderings are never empty.
proof fn lemma_dec_digits_len(n: nat)
    ensures
        dec_digits(n).len() >= 1,
    decreases n,
{
    if n >= 10 {
        lemma_dec_digits_len(n / 10);
    }
}

/// Two numbers with the same decimal rendering are equal.
proof fn lemma_dec_digits_injective(a: nat, b: nat)
    requires
        dec_digits(a) == dec_digits(b),
    ensures
        a == b,
    decreases a,
{
    lemma_dec_digits_len(a);
    lemma_dec_digits_len(b);
    if a < 10 && b < 10 {
        assert(dec_digits(a)[0] == digit_char(a));
        assert(dec_digits(b)[0] == digit_char(b));
        assert(digit_char(a) as int == 48 + a);
        assert(digit_char(b) as int == 48 + b);
    } else if a < 10 {
        lemma_dec_digits_len(b / 10);
        assert(dec_digits(b).len() >= 2);
        assert(dec_digits(a).len() == 1);
        assert(false);
    } else if b < 10 {
        lemma_dec_digits_len(a / 10);
        assert(dec_digits(a).len() >= 2);
        assert(dec_digits(b).len() == 1);
        assert(false);
    } else {
        assert(dec_digits(a).last() == digit_char(a % 10));
        assert(dec_digits(b).last() == digit_char(b % 10));
        assert(digit_char(a % 10) as int == 48 + a % 10);
        assert(digit_char(b % 10) as int == 48 + b % 10);
        assert(a % 10 == b % 10);
        assert(dec_digits(a).drop_last() =~= dec_digits(a / 10));
        assert(dec_digits(b).drop_last() =~= dec_digits(b / 10));
        lemma_dec_digits_injective(a / 10, b / 10);
        assert(a == 10 * (a / 10) + a % 10) by {
            vstd::arithmetic::div_mod::lemma_fundamental_div_mod(a as int, 10);
        }
        assert(b == 10 * (b / 10) + b % 10) by {
            vstd::arithmetic::div_mod::lemma_fundamental_div_mod(b as int, 10);
        }
    }
}

/// Two equal default labels name the same block and index, provided
/// neither block name contains `[`.
proof fn lemma_default_label_injective(n1: Seq<char>, i1: int, n2: Seq<char>, i2: int)
    requires
        i1 >= 0,
        i2 >= 0,
        forall|j: int| 0 <= j < n1.len() ==> n1[j] != '[',
        forall|j: int| 0 <= j < n2.len() ==> n2[j] != '[',
        default_label(n1, i1) == default_label(n2, i2),
    ensures
        n1 == n2,
        i1 == i2,
{
    let l1 = default_label(n1, i1);
    let l2 = default_label(n2, i2);
    lemma_dec_digits_are_digits(i1 as nat);
    lemma_dec_digits_are_digits(i2 as nat);
    lemma_dec_digits_len(i1 as nat);
    lemma_dec_digits_len(i2 as nat);
    assert(l1[n1.len() as int] == '[');
    assert(l2[n2.len() as int] == '[');
    if n1.len() < n2.len() {
        assert(l2[n1.len() as int] == n2[n1.len() as int]);
        assert(false);
    }
    if n2.len() < n1.len() {
        assert(l1[n2.len() as int] == n1[n2.len() as int]);
        assert(false);
    }
    assert forall|j: int| 0 <= j < n1.len() implies #[trigger] n1[j] == n2[j] by {
        assert(l1[j] == n1[j]);
        assert(l2[j] == n2[j]);
    }
    assert(n1 =~= n2);
    assert(l1.len() == n1.len() + 1 + dec_digits(i1 as nat).len() + 1);
    assert(l2.len() == n2.len() + 1 + dec_digits(i2 as nat).len() + 1);
    assert(dec_digits(i1 as nat).len() == dec_digits(i2 as nat).len());
    assert forall|j: int| 0 <= j < dec_digits(i1 as nat).len() implies #[trigger] dec_digits(
        i1 as nat,
    )[j] == dec_digits(i2 as nat)[j] by {
        assert(l1[n1.len() + 1 + j] == dec_digits(i1 as nat)[j]);
        assert(l2[n2.len() + 1 + j] == dec_digits(i2 as nat)[j]);
    }
    assert(dec_digits(i1 as nat) =~= dec_digits(i2 as nat));
    lemma_dec_digits_injective(i1 as nat, i2 as nat);
}

/// The linearised start of the block at index `b` is the slot sum of
/// the blocks before it, provided no earlier block shares its name.
proof fn lemma_linear_start_at(blocks: Seq<crate::ast::BasicBlock>, b: int)
    requires
        0 <= b < blocks.len(),
        forall|j: int| 0 <= j < b ==> (#[trigger] blocks[j]).name@ != blocks[b].name@,
    ensures
        linear_start(blocks, blocks[b].name@) == slots_sum(blocks, b),
    decreases b,
{
    if b == 0 {
    } else {
        assert(blocks[0].name@ != blocks[b].name@);
        lemma_linear_start_at(blocks.skip(1), b - 1);
        assert(blocks.skip(1)[b - 1] == blocks[b]);
        lemma_slots_sum_skip(blocks, b);
    }
}

/// The slot sum decomposes over dropping the first block.
proof fn lemma_slots_sum_skip(blocks: Seq<crate::ast::BasicBlock>, n: int)
    requires
        1 <= n <= blocks.len(),
    ensures
        slots_sum(blocks, n) == block_slots(blocks[0]) + slots_sum(blocks.skip(1), n - 1),
    decreases n,
{
    if n == 1 {
        assert(slots_sum(blocks, 1) == slots_sum(blocks, 0) + block_slots(blocks[0]));
        assert(slots_sum(blocks.skip(1), 0) == 0);
    } else {
        lemma_slots_sum_skip(blocks, n - 1);
        assert(blocks.skip(1)[n - 2] == blocks[n - 1]);
        assert(slots_sum(blocks.skip(1), n - 1) == slots_sum(blocks.skip(1), n - 2) + block_slots(
            blocks.skip(1)[n - 2],
        ));
    }
}

/// Slot sums grow by at least one slot per block.
proof fn lemma_slots_sum_mono(blocks: Seq<crate::ast::BasicBlock>, a: int, b: int)
    requires
        0 <= a <= b <= blocks.len(),
    ensures
        slots_sum(blocks, a) <= slots_sum(blocks, b),
        a < b ==> slots_sum(blocks, a) + block_slots(blocks[a]) <= slots_sum(blocks, b),
    decreases b - a,
{
    if a < b {
        lemma_slots_sum_mono(blocks, a + 1, b);
    }
}

/// Running the emitter with simple node names yields the same facts
/// as the default mode modulo a bijective renaming of node labels:
/// both modes relabel the one position-keyed fact sequence of the
/// program, and on the program's nodes each labeling is injective,
/// so the correspondence between the two label sets is a bijection.
pub proof fn lemma_mode_round_trip(program: Program)
    requires
        unique_block_names(program),
        plain_block_names(program),
        program_codes_ok(program),
    ensures
        forall|k1: NodeKey, k2: NodeKey|
            is_node_of(program, k1) && is_node_of(program, k2) && #[trigger] label_of(
                program,
                true,
                k1,
            ) == #[trigger] label_of(program, true, k2) ==> k1 == k2,
        forall|k1: NodeKey, k2: NodeKey|
            is_node_of(program, k1) && is_node_of(program, k2) && #[trigger] label_of(
                program,
                false,
                k1,
            ) == #[trigger] label_of(program, false, k2) ==> k1 == k2,
{
    let blocks = program.basic_blocks@;
    assert forall|k1: NodeKey, k2: NodeKey|
        is_node_of(program, k1) && is_node_of(program, k2) && #[trigger] label_of(program, true, k1)
            == #[trigger] label_of(program, true, k2) implies k1 == k2 by {
        let b1 = choose|b: int|
            0 <= b < blocks.len() && (#[trigger] blocks[b]).name@ == k1.block && 0 <= k1.idx
                < block_slots(blocks[b]);
        let b2 = choose|b: int|
            0 <= b < blocks.len() && (#[trigger] blocks[b]).name@ == k2.block && 0 <= k2.idx
                < block_slots(blocks[b]);
        lemma_linear_start_at(blocks, b1);
        lemma_linear_start_at(blocks, b2);
        let c1 = simple_code(program, k1.block, k1.idx);
        let c2 = simple_code(program, k2.block, k2.idx);
        assert(valid_char_code(c1) && valid_char_code(c2));
        assert(label_of(program, true, k1)[0] == c1 as char);
        assert(label_of(program, true, k2)[0] == c2 as char);
        assert((c1 as char) as int == c1);
        assert((c2 as char) as int == c2);
        assert(c1 == c2);
        if b1 < b2 {
            lemma_slots_sum_mono(blocks, b1, b2);
            assert(false);
        }
        if b2 < b1 {
            lemma_slots_sum_mono(blocks, b2, b1);
            assert(false);
        }
        assert(k1 =~= k2);
    }
    assert forall|k1: NodeKey, k2: NodeKey|
        is_node_of(program, k1) && is_node_of(program, k2) && #[trigger] label_of(
            program,
            false,
            k1,
        ) == #[trigger] label_of(program, false, k2) implies k1 == k2 by {
        let b1 = choose|b: int|
            0 <= b < blocks.len() && (#[trigger] blocks[b]).name@ == k1.block && 0 <= k1.idx
                < block_slots(blocks[b]);
        let b2 = choose|b: int|
            0 <= b < blocks.len() && (#[trigger] blocks[b]).name@ == k2.block && 0 <= k2.idx
                < block_slots(blocks[b]);
        lemma_default_label_injective(k1.block, k1.idx, k2.block, k2.idx);
        assert(k1 =~= k2);
    }
}

} // verus!
