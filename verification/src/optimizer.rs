use crate::builtins::{
    is_foldable_binary_selector, is_unary_selector, spec_binary, spec_unary, apply_binary,
    apply_unary, ops,
};
use crate::byte_code::{ByteCode, OpCode};
use vstd::prelude::*;

verus! {

/// The fixed iteration cap of the folding loop: a deliberate safety valve
/// that bounds folding depth.
pub const MAX_OPTIMIZE_LOOPS: i32 = 32;

/// First position at or after `i` that does not hold a `Bump`.
pub open spec fn bump_run_end(code: Seq<ByteCode>, i: int) -> int
    decreases code.len() - i when 0 <= i <= code.len()
{
    if i < code.len() && code[i].op_code == OpCode::Bump {
        bump_run_end(code, i + 1)
    } else {
        i
    }
}

/// The run of `Bump`s starting at `i`: every instruction before its end is
/// a `Bump`, and the instruction at its end, if any, is not.
pub proof fn lemma_bump_run_end(code: Seq<ByteCode>, i: int)
    requires
        0 <= i <= code.len(),
    ensures
        i <= bump_run_end(code, i) <= code.len(),
        bump_run_end(code, i) < code.len() ==> code[bump_run_end(code, i)].op_code
            != OpCode::Bump,
        forall|m: int|
            i <= m < bump_run_end(code, i) ==> (#[trigger] code[m]).op_code == OpCode::Bump,
    decreases code.len() - i,
{
    if i < code.len() && code[i].op_code == OpCode::Bump {
        lemma_bump_run_end(code, i + 1);
    }
}

/// Easy-constant folding from position `i` on: a `Push0` followed by one or
/// more `Bump`s collapses into a single `PushConst` holding the bump count;
/// a lone `Push0` is kept untouched; everything else is copied through.
pub open spec fn fold_easy_from(code: Seq<ByteCode>, i: int) -> Seq<ByteCode>
    decreases code.len() - i when 0 <= i <= code.len() via fold_easy_from_decreases
{
    if i >= code.len() {
        Seq::empty()
    } else if code[i].op_code == OpCode::Push0 {
        let e = bump_run_end(code, i + 1);
        let head = if e > i + 1 {
            ByteCode { op_code: OpCode::PushConst, arg: (e - i - 1) as i32 }
        } else {
            code[i]
        };
        seq![head] + fold_easy_from(code, e)
    } else {
        seq![code[i]] + fold_easy_from(code, i + 1)
    }
}

#[via_fn]
proof fn fold_easy_from_decreases(code: Seq<ByteCode>, i: int) {
    if 0 <= i < code.len() {
        lemma_bump_run_end(code, i + 1);
    }
}

pub open spec fn fold_easy(code: Seq<ByteCode>) -> Seq<ByteCode> {
    fold_easy_from(code, 0)
}

/// Whether the three instructions at `i` are a foldable unary pattern:
/// `PushConst(v), PushConst(f), Func` with `f` a unary arithmetic selector.
pub open spec fn is_unary_fold_at(code: Seq<ByteCode>, i: int) -> bool {
    &&& 0 <= i
    &&& i + 3 <= code.len()
    &&& code[i].op_code == OpCode::PushConst
    &&& code[i + 1].op_code == OpCode::PushConst
    &&& code[i + 2].op_code == OpCode::Func
    &&& is_unary_selector(code[i + 1].arg)
}

/// Unary arithmetic folding from position `i` on.
pub open spec fn fold_unary_from(code: Seq<ByteCode>, i: int) -> Seq<ByteCode>
    decreases code.len() - i when 0 <= i <= code.len()
{
    if i >= code.len() {
        Seq::empty()
    } else if is_unary_fold_at(code, i) {
        seq![
            ByteCode {
                op_code: OpCode::PushConst,
                arg: spec_unary(code[i + 1].arg, code[i].arg),
            },
        ] + fold_unary_from(code, i + 3)
    } else {
        seq![code[i]] + fold_unary_from(code, i + 1)
    }
}

pub open spec fn fold_unary(code: Seq<ByteCode>) -> Seq<ByteCode> {
    fold_unary_from(code, 0)
}

/// Whether the four instructions at `i` are a foldable binary pattern:
/// `PushConst(v1), PushConst(v0), PushConst(f), Func` with `f` a foldable
/// binary selector. A division or modulo by a zero constant is left alone,
/// so that running the output still faults exactly where the input does.
pub open spec fn is_binary_fold_at(code: Seq<ByteCode>, i: int) -> bool {
    &&& 0 <= i
    &&& i + 4 <= code.len()
    &&& code[i].op_code == OpCode::PushConst
    &&& code[i + 1].op_code == OpCode::PushConst
    &&& code[i + 2].op_code == OpCode::PushConst
    &&& code[i + 3].op_code == OpCode::Func
    &&& is_foldable_binary_selector(code[i + 2].arg)
    &&& (code[i + 2].arg == ops::DIVIDE || code[i + 2].arg == ops::MOD_) ==> code[i + 1].arg
        != 0
}

/// Binary arithmetic folding from position `i` on. The earlier push is the
/// bottom operand.
pub open spec fn fold_binary_from(code: Seq<ByteCode>, i: int) -> Seq<ByteCode>
    decreases code.len() - i when 0 <= i <= code.len()
{
    if i >= code.len() {
        Seq::empty()
    } else if is_binary_fold_at(code, i) {
        seq![
            ByteCode {
                op_code: OpCode::PushConst,
                arg: spec_binary(code[i + 2].arg, code[i].arg, code[i + 1].arg),
            },
        ] + fold_binary_from(code, i + 4)
    } else {
        seq![code[i]] + fold_binary_from(code, i + 1)
    }
}

pub open spec fn fold_binary(code: Seq<ByteCode>) -> Seq<ByteCode> {
    fold_binary_from(code, 0)
}

/// One round of the folding loop: the unary pass, then the binary pass, each
/// adopted only when it shrank its input.
pub open spec fn fold_round(code: Seq<ByteCode>) -> Seq<ByteCode> {
    let c1 = if fold_unary(code).len() < code.len() {
        fold_unary(code)
    } else {
        code
    };
    if fold_binary(c1).len() < c1.len() {
        fold_binary(c1)
    } else {
        c1
    }
}

/// Up to `n` further rounds, stopping at the first round that no longer
/// shrinks the sequence.
pub open spec fn fold_iter(code: Seq<ByteCode>, n: nat) -> Seq<ByteCode>
    decreases n,
{
    if n == 0 {
        code
    } else {
        let r = fold_round(code);
        if r.len() < code.len() {
            fold_iter(r, (n - 1) as nat)
        } else {
            r
        }
    }
}

/// The whole optimizer: easy-constant folding once, then the alternating
/// arithmetic folding rounds to a fixed point or the iteration cap.
pub open spec fn spec_optimize(code: Seq<ByteCode>) -> Seq<ByteCode> {
    fold_iter(fold_easy(code), MAX_OPTIMIZE_LOOPS as nat)
}

/// No `Push0` stands immediately before a `Bump`: the shape the easy pass
/// leaves behind, and the arithmetic passes preserve.
pub open spec fn no_push0_bump(code: Seq<ByteCode>) -> bool {
    forall|j: int|
        0 <= j < code.len() - 1 ==> !((#[trigger] code[j]).op_code == OpCode::Push0 && (
        #[trigger] code[j + 1]).op_code == OpCode::Bump)
}

proof fn lemma_fold_easy_from_first(code: Seq<ByteCode>, i: int)
    requires
        0 <= i < code.len(),
    ensures
        fold_easy_from(code, i).len() > 0,
        fold_easy_from(code, i)[0].op_code == OpCode::PushConst || fold_easy_from(code, i)[0]
            == code[i],
{
    if code[i].op_code == OpCode::Push0 {
        lemma_bump_run_end(code, i + 1);
    }
}

#[verifier::rlimit(50)]
proof fn lemma_fold_easy_from_no_pb(code: Seq<ByteCode>, i: int)
    requires
        0 <= i <= code.len(),
    ensures
        no_push0_bump(fold_easy_from(code, i)),
    decreases code.len() - i,
{
    if i < code.len() {
        let out = fold_easy_from(code, i);
        if code[i].op_code == OpCode::Push0 {
            let e = bump_run_end(code, i + 1);
            lemma_bump_run_end(code, i + 1);
            lemma_fold_easy_from_no_pb(code, e);
            let rest = fold_easy_from(code, e);
            let head = if e > i + 1 {
                ByteCode { op_code: OpCode::PushConst, arg: (e - i - 1) as i32 }
            } else {
                code[i]
            };
            assert(out == seq![head] + rest);
            assert(out[0] == head);
            assert forall|j: int|
                0 <= j < out.len() - 1 implies !((#[trigger] out[j]).op_code == OpCode::Push0
                && (#[trigger] out[j + 1]).op_code == OpCode::Bump) by {
                if j == 0 {
                    if head.op_code == OpCode::Push0 {
                        // The run had no bumps, so the next source
                        // instruction is not a `Bump`.
                        assert(e == i + 1);
                        assert(e < code.len());
                        assert(code[e].op_code != OpCode::Bump);
                        lemma_fold_easy_from_first(code, e);
                        assert(out[1] == rest[0]);
                    }
                } else {
                    assert(out[j] == rest[j - 1]);
                    assert(out[j + 1] == rest[j]);
                    assert(!(rest[j - 1].op_code == OpCode::Push0 && rest[(j - 1)
                        + 1].op_code == OpCode::Bump));
                }
            };
        } else {
            lemma_fold_easy_from_no_pb(code, i + 1);
            let rest = fold_easy_from(code, i + 1);
            assert(out == seq![code[i]] + rest);
            assert forall|j: int|
                0 <= j < out.len() - 1 implies !((#[trigger] out[j]).op_code == OpCode::Push0
                && (#[trigger] out[j + 1]).op_code == OpCode::Bump) by {
                if j == 0 {
                    assert(out[0] == code[i]);
                } else {
                    assert(out[j] == rest[j - 1]);
                    assert(out[j + 1] == rest[j]);
                    assert(!(rest[j - 1].op_code == OpCode::Push0 && rest[(j - 1)
                        + 1].op_code == OpCode::Bump));
                }
            };
        }
    }
}

proof fn lemma_no_pb_fold_easy_identity(code: Seq<ByteCode>, i: int)
    requires
        0 <= i <= code.len(),
        no_push0_bump(code),
    ensures
        fold_easy_from(code, i) == code.subrange(i, code.len() as int),
    decreases code.len() - i,
{
    if i >= code.len() {
        assert(fold_easy_from(code, i) =~= code.subrange(i, code.len() as int));
    } else {
        if code[i].op_code == OpCode::Push0 {
            if i + 1 < code.len() {
                assert(!(code[i].op_code == OpCode::Push0 && code[i + 1].op_code
                    == OpCode::Bump));
            }
            assert(bump_run_end(code, i + 1) == i + 1);
        }
        lemma_no_pb_fold_easy_identity(code, i + 1);
        assert(seq![code[i]] + code.subrange(i + 1, code.len() as int) =~= code.subrange(
            i,
            code.len() as int,
        ));
    }
}

proof fn lemma_fold_unary_from_first(code: Seq<ByteCode>, i: int)
    requires
        0 <= i < code.len(),
    ensures
        fold_unary_from(code, i).len() > 0,
        fold_unary_from(code, i)[0].op_code == OpCode::PushConst || fold_unary_from(code, i)[0]
            == code[i],
{
}

#[verifier::rlimit(50)]
proof fn lemma_fold_unary_from_no_pb(code: Seq<ByteCode>, i: int)
    requires
        0 <= i <= code.len(),
        no_push0_bump(code),
    ensures
        no_push0_bump(fold_unary_from(code, i)),
    decreases code.len() - i,
{
    if i < code.len() {
        let out = fold_unary_from(code, i);
        let next = if is_unary_fold_at(code, i) {
            i + 3
        } else {
            i + 1
        };
        lemma_fold_unary_from_no_pb(code, next);
        let rest = fold_unary_from(code, next);
        assert forall|j: int|
            0 <= j < out.len() - 1 implies !((#[trigger] out[j]).op_code == OpCode::Push0
            && (#[trigger] out[j + 1]).op_code == OpCode::Bump) by {
            if j == 0 {
                if out[0].op_code == OpCode::Push0 {
                    assert(!is_unary_fold_at(code, i));
                    assert(out[0] == code[i]);
                    assert(next < code.len());
                    assert(!(code[i].op_code == OpCode::Push0 && code[i + 1].op_code
                        == OpCode::Bump));
                    lemma_fold_unary_from_first(code, next);
                    assert(out[1] == rest[0]);
                }
            } else {
                assert(out[j] == rest[j - 1]);
                assert(out[j + 1] == rest[j]);
                assert(!(rest[j - 1].op_code == OpCode::Push0 && rest[(j - 1)
                    + 1].op_code == OpCode::Bump));
            }
        };
    }
}

proof fn lemma_fold_binary_from_first(code: Seq<ByteCode>, i: int)
    requires
        0 <= i < code.len(),
    ensures
        fold_binary_from(code, i).len() > 0,
        fold_binary_from(code, i)[0].op_code == OpCode::PushConst || fold_binary_from(
            code,
            i,
        )[0] == code[i],
{
}

#[verifier::rlimit(50)]
proof fn lemma_fold_binary_from_no_pb(code: Seq<ByteCode>, i: int)
    requires
        0 <= i <= code.len(),
        no_push0_bump(code),
    ensures
        no_push0_bump(fold_binary_from(code, i)),
    decreases code.len() - i,
{
    if i < code.len() {
        let out = fold_binary_from(code, i);
        let next = if is_binary_fold_at(code, i) {
            i + 4
        } else {
            i + 1
        };
        lemma_fold_binary_from_no_pb(code, next);
        let rest = fold_binary_from(code, next);
        assert forall|j: int|
            0 <= j < out.len() - 1 implies !((#[trigger] out[j]).op_code == OpCode::Push0
            && (#[trigger] out[j + 1]).op_code == OpCode::Bump) by {
            if j == 0 {
                if out[0].op_code == OpCode::Push0 {
                    assert(!is_binary_fold_at(code, i));
                    assert(out[0] == code[i]);
                    assert(next < code.len());
                    assert(!(code[i].op_code == OpCode::Push0 && code[i + 1].op_code
                        == OpCode::Bump));
                    lemma_fold_binary_from_first(code, next);
                    assert(out[1] == rest[0]);
                }
            } else {
                assert(out[j] == rest[j - 1]);
                assert(out[j + 1] == rest[j]);
                assert(!(rest[j - 1].op_code == OpCode::Push0 && rest[(j - 1)
                    + 1].op_code == OpCode::Bump));
            }
        };
    }
}

#[verifier::rlimit(50)]
proof fn lemma_fold_round_no_pb(code: Seq<ByteCode>)
    requires
        no_push0_bump(code),
    ensures
        no_push0_bump(fold_round(code)),
{
    lemma_fold_unary_from_no_pb(code, 0);
    let c1 = if fold_unary(code).len() < code.len() {
        fold_unary(code)
    } else {
        code
    };
    lemma_fold_binary_from_no_pb(c1, 0);
}

proof fn lemma_fold_iter_no_pb(code: Seq<ByteCode>, n: nat)
    requires
        no_push0_bump(code),
    ensures
        no_push0_bump(fold_iter(code, n)),
    decreases n,
{
    if n > 0 {
        lemma_fold_round_no_pb(code);
        let r = fold_round(code);
        if r.len() < code.len() {
            lemma_fold_iter_no_pb(r, (n - 1) as nat);
        }
    }
}

/// Fold idempotence: once the folding loop has stabilized — its final round
/// shrank nothing — running the whole optimizer again on its own output
/// returns that output unchanged, so re-optimization never shortens it
/// further.
#[verifier::rlimit(50)]
pub proof fn lemma_optimize_idempotent(code: Seq<ByteCode>)
    requires
        fold_round(spec_optimize(code)) == spec_optimize(code),
    ensures
        spec_optimize(spec_optimize(code)) == spec_optimize(code),
{
    let r = spec_optimize(code);
    lemma_fold_easy_from_no_pb(code, 0);
    lemma_fold_iter_no_pb(fold_easy(code), MAX_OPTIMIZE_LOOPS as nat);
    lemma_no_pb_fold_easy_identity(r, 0);
    assert(r.subrange(0, r.len() as int) =~= r);
    assert(fold_easy(r) == r);
    assert(fold_iter(r, MAX_OPTIMIZE_LOOPS as nat) == r);
}

/// The subsequence of `Label` instructions, in order, identifiers included.
pub open spec fn labels_of(code: Seq<ByteCode>) -> Seq<ByteCode>
    decreases code.len(),
{
    if code.len() == 0 {
        Seq::empty()
    } else if code[0].op_code == OpCode::Label {
        seq![code[0]] + labels_of(code.drop_first())
    } else {
        labels_of(code.drop_first())
    }
}

proof fn lemma_labels_of_cons(h: ByteCode, rest: Seq<ByteCode>)
    ensures
        labels_of(seq![h] + rest) == (if h.op_code == OpCode::Label {
            seq![h] + labels_of(rest)
        } else {
            labels_of(rest)
        }),
{
    let out = seq![h] + rest;
    assert(out[0] == h);
    assert(out.drop_first() =~= rest);
}

proof fn lemma_fold_easy_from_labels(code: Seq<ByteCode>, i: int)
    requires
        0 <= i <= code.len(),
    ensures
        labels_of(fold_easy_from(code, i)) == labels_of(code.skip(i)),
    decreases code.len() - i,
{
    if i == code.len() {
        assert(code.skip(i) =~= Seq::<ByteCode>::empty());
        assert(fold_easy_from(code, i) =~= Seq::<ByteCode>::empty());
    } else if code[i].op_code == OpCode::Push0 {
        let e = bump_run_end(code, i + 1);
        lemma_bump_run_end(code, i + 1);
        let rest = fold_easy_from(code, e);
        let head = if e > i + 1 {
            ByteCode { op_code: OpCode::PushConst, arg: (e - i - 1) as i32 }
        } else {
            code[i]
        };
        lemma_labels_of_cons(head, rest);
        lemma_fold_easy_from_labels(code, e);
        // The source run holds only the push and its bumps: no labels.
        lemma_labels_of_skip_non_label(code, i, e);
    } else {
        let rest = fold_easy_from(code, i + 1);
        lemma_labels_of_cons(code[i], rest);
        lemma_fold_easy_from_labels(code, i + 1);
        assert(code.skip(i)[0] == code[i]);
        assert(code.skip(i).drop_first() =~= code.skip(i + 1));
        lemma_labels_of_cons(code[i], code.skip(i + 1));
        assert(code.skip(i) =~= seq![code[i]] + code.skip(i + 1));
    }
}

/// Dropping instructions that are not labels leaves the label subsequence
/// alone.
proof fn lemma_labels_of_skip_non_label(code: Seq<ByteCode>, i: int, e: int)
    requires
        0 <= i <= e <= code.len(),
        forall|m: int| i <= m < e ==> (#[trigger] code[m]).op_code != OpCode::Label,
    ensures
        labels_of(code.skip(i)) == labels_of(code.skip(e)),
    decreases e - i,
{
    if i < e {
        assert(code.skip(i)[0] == code[i]);
        assert(code.skip(i).drop_first() =~= code.skip(i + 1));
        lemma_labels_of_cons(code[i], code.skip(i + 1));
        assert(code.skip(i) =~= seq![code[i]] + code.skip(i + 1));
        lemma_labels_of_skip_non_label(code, i + 1, e);
    }
}

proof fn lemma_fold_unary_from_labels(code: Seq<ByteCode>, i: int)
    requires
        0 <= i <= code.len(),
    ensures
        labels_of(fold_unary_from(code, i)) == labels_of(code.skip(i)),
    decreases code.len() - i,
{
    if i == code.len() {
        assert(code.skip(i) =~= Seq::<ByteCode>::empty());
        assert(fold_unary_from(code, i) =~= Seq::<ByteCode>::empty());
    } else if is_unary_fold_at(code, i) {
        let folded = ByteCode {
            op_code: OpCode::PushConst,
            arg: spec_unary(code[i + 1].arg, code[i].arg),
        };
        lemma_labels_of_cons(folded, fold_unary_from(code, i + 3));
        lemma_fold_unary_from_labels(code, i + 3);
        lemma_labels_of_skip_non_label(code, i, i + 3);
    } else {
        lemma_labels_of_cons(code[i], fold_unary_from(code, i + 1));
        lemma_fold_unary_from_labels(code, i + 1);
        assert(code.skip(i)[0] == code[i]);
        assert(code.skip(i).drop_first() =~= code.skip(i + 1));
        lemma_labels_of_cons(code[i], code.skip(i + 1));
        assert(code.skip(i) =~= seq![code[i]] + code.skip(i + 1));
    }
}

proof fn lemma_fold_binary_from_labels(code: Seq<ByteCode>, i: int)
    requires
        0 <= i <= code.len(),
    ensures
        labels_of(fold_binary_from(code, i)) == labels_of(code.skip(i)),
    decreases code.len() - i,
{
    if i == code.len() {
        assert(code.skip(i) =~= Seq::<ByteCode>::empty());
        assert(fold_binary_from(code, i) =~= Seq::<ByteCode>::empty());
    } else if is_binary_fold_at(code, i) {
        let folded = ByteCode {
            op_code: OpCode::PushConst,
            arg: spec_binary(code[i + 2].arg, code[i].arg, code[i + 1].arg),
        };
        lemma_labels_of_cons(folded, fold_binary_from(code, i + 4));
        lemma_fold_binary_from_labels(code, i + 4);
        lemma_labels_of_skip_non_label(code, i, i + 4);
    } else {
        lemma_labels_of_cons(code[i], fold_binary_from(code, i + 1));
        lemma_fold_binary_from_labels(code, i + 1);
        assert(code.skip(i)[0] == code[i]);
        assert(code.skip(i).drop_first() =~= code.skip(i + 1));
        lemma_labels_of_cons(code[i], code.skip(i + 1));
        assert(code.skip(i) =~= seq![code[i]] + code.skip(i + 1));
    }
}

proof fn lemma_fold_iter_labels(code: Seq<ByteCode>, n: nat)
    ensures
        labels_of(fold_iter(code, n)) == labels_of(code),
    decreases n,
{
    if n > 0 {
        lemma_fold_unary_from_labels(code, 0);
        assert(code.skip(0) =~= code);
        let c1 = if fold_unary(code).len() < code.len() {
            fold_unary(code)
        } else {
            code
        };
        lemma_fold_binary_from_labels(c1, 0);
        assert(c1.skip(0) =~= c1);
        let r = fold_round(code);
        if r.len() < code.len() {
            lemma_fold_iter_labels(r, (n - 1) as nat);
        }
    }
}

/// Folding never adds, drops, reorders or renumbers `Label` instructions:
/// the optimized sequence holds exactly the label subsequence of its input,
/// so every jump target that exists before optimization exists after it.
pub proof fn lemma_optimize_keeps_labels(code: Seq<ByteCode>)
    ensures
        labels_of(spec_optimize(code)) == labels_of(code),
{
    lemma_fold_easy_from_labels(code, 0);
    assert(code.skip(0) =~= code);
    lemma_fold_iter_labels(fold_easy(code), MAX_OPTIMIZE_LOOPS as nat);
}

/// Constant-folds the bytecode into an equivalent, typically shorter,
/// sequence. Total: optimization never fails.
pub fn optimize(code: &Vec<ByteCode>) -> (r: Vec<ByteCode>)
    requires
        code@.len() < 0x7fff_ffff,
    ensures
        r@ == spec_optimize(code@),
{
    // Must fold easy constants before attempting to fold arithmetic.
    let mut result = optimize_easy_constants(code);

    let mut counter: i32 = 0;
    let mut is_optimizing = true;

    while is_optimizing && counter < MAX_OPTIMIZE_LOOPS
        invariant
            0 <= counter <= MAX_OPTIMIZE_LOOPS,
            is_optimizing ==> spec_optimize(code@) == fold_iter(
                result@,
                (MAX_OPTIMIZE_LOOPS - counter) as nat,
            ),
            !is_optimizing ==> spec_optimize(code@) == result@,
        decreases MAX_OPTIMIZE_LOOPS - counter,
    {
        let ghost before = result@;
        is_optimizing = false;

        match optimize_1_arg_arithmetic(&result) {
            Some(optimized) => {
                is_optimizing = true;
                result = optimized;
            },
            None => (),
        }

        match optimize_2_arg_arithmetic(&result) {
            Some(optimized) => {
                is_optimizing = true;
                result = optimized;
            },
            None => (),
        }

        proof {
            assert(result@ == fold_round(before));
        }

        counter = counter + 1;
    }

    result
}

/// Collapses each `Push0` and its following chain of `Bump`s into a single
/// `PushConst` of the bump count, leaving a lone `Push0` untouched.
pub fn optimize_easy_constants(code: &Vec<ByteCode>) -> (r: Vec<ByteCode>)
    requires
        code@.len() < 0x7fff_ffff,
    ensures
        r@ == fold_easy(code@),
{
    let n = code.len();
    let mut result: Vec<ByteCode> = Vec::new();
    let mut i: usize = 0;

    proof {
        assert(result@ + fold_easy_from(code@, 0) =~= fold_easy_from(code@, 0));
    }

    while i < n
        invariant
            i <= n == code@.len(),
            n < 0x7fff_ffff,
            fold_easy(code@) == result@ + fold_easy_from(code@, i as int),
        decreases n - i,
    {
        if code[i].op_code == OpCode::Push0 {
            let mut j = i + 1;
            while j < n && code[j].op_code == OpCode::Bump
                invariant
                    i + 1 <= j <= n == code@.len(),
                    bump_run_end(code@, i + 1) == bump_run_end(code@, j as int),
                decreases n - j,
            {
                j += 1;
            }
            assert(bump_run_end(code@, i + 1) == j);
            let head = if j > i + 1 {
                ByteCode { op_code: OpCode::PushConst, arg: (j - i - 1) as i32 }
            } else {
                code[i]
            };
            proof {
                let rest = fold_easy_from(code@, j as int);
                assert(result@ + (seq![head] + rest) =~= result@.push(head) + rest);
            }
            result.push(head);
            i = j;
        } else {
            let head = code[i];
            proof {
                let rest = fold_easy_from(code@, i + 1);
                assert(result@ + (seq![head] + rest) =~= result@.push(head) + rest);
            }
            result.push(head);
            i += 1;
        }
    }

    proof {
        assert(result@ + Seq::<ByteCode>::empty() =~= result@);
    }
    result
}

/// Whether `byte_code` is a `Func` and `func_num` selects a unary
/// arithmetic builtin.
pub fn is_one_arg_arithmetic(byte_code: &ByteCode, func_num: i32) -> (r: bool)
    ensures
        r == (byte_code.op_code == OpCode::Func && is_unary_selector(func_num)),
{
    byte_code.op_code == OpCode::Func && (func_num == ops::DOUBLE_VAL || func_num == ops::NEGATE
        || func_num == ops::SQUARE)
}

/// Whether `byte_code` is a `Func` and `func_num` selects a foldable binary
/// builtin.
pub fn is_two_arg_arithmetic(byte_code: &ByteCode, func_num: i32) -> (r: bool)
    ensures
        r == (byte_code.op_code == OpCode::Func && is_foldable_binary_selector(func_num)),
{
    byte_code.op_code == OpCode::Func && (func_num == ops::ADD || func_num == ops::SUBTRACT
        || func_num == ops::DIVIDE || func_num == ops::MOD_)
}

/// One unary folding pass: `Some` of the folded sequence when it is shorter
/// than the input, `None` when the pass shrank nothing.
pub fn optimize_1_arg_arithmetic(code: &Vec<ByteCode>) -> (r: Option<Vec<ByteCode>>)
    ensures
        match r {
            Some(o) => o@ == fold_unary(code@) && o@.len() < code@.len(),
            None => fold_unary(code@).len() >= code@.len(),
        },
{
    let n = code.len();
    let mut result: Vec<ByteCode> = Vec::new();
    let mut i: usize = 0;

    proof {
        assert(result@ + fold_unary_from(code@, 0) =~= fold_unary_from(code@, 0));
    }

    while i < n
        invariant
            i <= n == code@.len(),
            fold_unary(code@) == result@ + fold_unary_from(code@, i as int),
        decreases n - i,
    {
        if n >= 3 && i <= n - 3 && code[i].op_code == OpCode::PushConst && code[i
            + 1].op_code == OpCode::PushConst && is_one_arg_arithmetic(&code[i + 2], code[i
            + 1].arg) {
            let head = ByteCode {
                op_code: OpCode::PushConst,
                arg: apply_unary(code[i + 1].arg, code[i].arg),
            };
            proof {
                let rest = fold_unary_from(code@, i + 3);
                assert(result@ + (seq![head] + rest) =~= result@.push(head) + rest);
            }
            result.push(head);
            i += 3;
        } else {
            let head = code[i];
            proof {
                assert(!is_unary_fold_at(code@, i as int));
                let rest = fold_unary_from(code@, i + 1);
                assert(result@ + (seq![head] + rest) =~= result@.push(head) + rest);
            }
            result.push(head);
            i += 1;
        }
    }

    proof {
        assert(result@ + Seq::<ByteCode>::empty() =~= result@);
    }
    if result.len() < code.len() {
        Some(result)
    } else {
        None
    }
}

/// One binary folding pass: `Some` of the folded sequence when it is shorter
/// than the input, `None` when the pass shrank nothing.
pub fn optimize_2_arg_arithmetic(code: &Vec<ByteCode>) -> (r: Option<Vec<ByteCode>>)
    ensures
        match r {
            Some(o) => o@ == fold_binary(code@) && o@.len() < code@.len(),
            None => fold_binary(code@).len() >= code@.len(),
        },
{
    let n = code.len();
    let mut result: Vec<ByteCode> = Vec::new();
    let mut i: usize = 0;

    proof {
        assert(result@ + fold_binary_from(code@, 0) =~= fold_binary_from(code@, 0));
    }

    while i < n
        invariant
            i <= n == code@.len(),
            fold_binary(code@) == result@ + fold_binary_from(code@, i as int),
        decreases n - i,
    {
        let mut folded = false;
        if n >= 4 && i <= n - 4 && code[i].op_code == OpCode::PushConst && code[i
            + 1].op_code == OpCode::PushConst && code[i + 2].op_code == OpCode::PushConst
            && is_two_arg_arithmetic(&code[i + 3], code[i + 2].arg) {
            let func_num = code[i + 2].arg;
            if !((func_num == ops::DIVIDE || func_num == ops::MOD_) && code[i + 1].arg == 0) {
                folded = true;
                let head = ByteCode {
                    op_code: OpCode::PushConst,
                    arg: apply_binary(func_num, code[i].arg, code[i + 1].arg),
                };
                proof {
                    let rest = fold_binary_from(code@, i + 4);
                    assert(result@ + (seq![head] + rest) =~= result@.push(head) + rest);
                }
                result.push(head);
                i += 4;
            }
        }
        if !folded {
            let head = code[i];
            proof {
                assert(!is_binary_fold_at(code@, i as int));
                let rest = fold_binary_from(code@, i + 1);
                assert(result@ + (seq![head] + rest) =~= result@.push(head) + rest);
            }
            result.push(head);
            i += 1;
        }
    }

    proof {
        assert(result@ + Seq::<ByteCode>::empty() =~= result@);
    }
    if result.len() < code.len() {
        Some(result)
    } else {
        None
    }
}

} // verus!
