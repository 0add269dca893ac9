//! Correctness of the generated programs under the reference interpreter.
//!
//! Running the emitted constraints from the operand-bit environment binds
//! every stage signal to its stage value from `semantics`; in particular the
//! terminal `res` signal of each compared pair carries the comparison
//! indicator.  Each stage block is handled by one lemma; the program theorem
//! chains them in pipeline order, the two operand pairs of range mode
//! writing into disjoint signal families.

use vstd::prelude::*;
use crate::circuit::{
    acc_block, acc_step, bit_sig, chk_block, chk_con, diff_block, diff_con, fdiff_block, fdiff_con,
    program_cons, res_block, res_sig, res_step, seg, sig, Constraint, Family, Role, Signal,
};
use crate::eval::{con_value, eval_factor, init_env, lemma_run_append, run};
use crate::fp251::{b2i, f_add, f_mul, is_elem, lemma_mul_one, or3, sq_diff};
use crate::semantics::{
    acc_aux_v, acc_v, chk_v, diff_v, fdiff_v, is_bits, lemma_res_is_gt, res_aux_v, res_v, val,
};

verus! {

/// The environment binds `s` to `v`.
pub open spec fn env_has(env: Map<Signal, int>, s: Signal, v: int) -> bool {
    env.dom().contains(s) && env[s] == v
}

/// The environment binds a family's operand bits.
pub open spec fn has_bits(env: Map<Signal, int>, fam: Family, bits: Seq<u8>) -> bool {
    forall|i: int| 0 <= i < bits.len() ==> env_has(env, #[trigger] bit_sig(fam, i), bits[i] as int)
}

/// The environment binds a family's `Diff` signals to their stage values.
pub open spec fn has_diffs(env: Map<Signal, int>, a: Seq<u8>, yb: Seq<u8>, fam: Family) -> bool {
    forall|i: int|
        0 <= i < a.len() ==> env_has(env, #[trigger] sig(fam, Role::Diff, i), diff_v(a, yb, i))
}

/// The environment binds a family's `Acc` signals to their stage values.
pub open spec fn has_accs(env: Map<Signal, int>, a: Seq<u8>, yb: Seq<u8>, fam: Family) -> bool {
    forall|i: int|
        0 <= i < a.len() ==> env_has(env, #[trigger] sig(fam, Role::Acc, i), acc_v(a, yb, i))
}

/// The environment binds a family's `Fdiff` signals to their stage values.
pub open spec fn has_fdiffs(env: Map<Signal, int>, a: Seq<u8>, yb: Seq<u8>, fam: Family) -> bool {
    forall|i: int|
        0 <= i < a.len() ==> env_has(env, #[trigger] sig(fam, Role::Fdiff, i), fdiff_v(a, yb, i))
}

/// The environment binds a family's `Chk` signals to their stage values.
pub open spec fn has_chks(env: Map<Signal, int>, a: Seq<u8>, yb: Seq<u8>, fam: Family) -> bool {
    forall|i: int|
        0 <= i < a.len() ==> env_has(env, #[trigger] sig(fam, Role::Chk, i), chk_v(a, yb, i))
}

/// Bindings added by the first `k` `Diff` constraints of a family.
pub open spec fn diff_map(a: Seq<u8>, yb: Seq<u8>, fam: Family, k: int) -> Map<Signal, int> {
    Map::new(
        |s: Signal| s.family == fam && s.role == Role::Diff && (s.index as int) < k,
        |s: Signal| diff_v(a, yb, s.index as int),
    )
}

/// Bindings added by the first `k` `Acc` steps of a family: `Acc` from
/// position `n-1` down to `n-k`, with the product helper below `n-1`.
pub open spec fn acc_map(a: Seq<u8>, yb: Seq<u8>, fam: Family, n: int, k: int) -> Map<
    Signal,
    int,
> {
    Map::new(
        |s: Signal|
            s.family == fam && ((s.role == Role::Acc && n - k <= (s.index as int) < n) || (s.role
                == Role::AccAux && n - k <= (s.index as int) < n - 1)),
        |s: Signal|
            if s.role == Role::Acc {
                acc_v(a, yb, s.index as int)
            } else {
                acc_aux_v(a, yb, s.index as int)
            },
    )
}

/// Bindings added by the first `k` `Fdiff` constraints of a family.
pub open spec fn fdiff_map(a: Seq<u8>, yb: Seq<u8>, fam: Family, n: int, k: int) -> Map<
    Signal,
    int,
> {
    Map::new(
        |s: Signal| s.family == fam && s.role == Role::Fdiff && n - k <= (s.index as int) < n,
        |s: Signal| fdiff_v(a, yb, s.index as int),
    )
}

/// Bindings added by the first `k` `Chk` constraints of a family.
pub open spec fn chk_map(a: Seq<u8>, yb: Seq<u8>, fam: Family, k: int) -> Map<Signal, int> {
    Map::new(
        |s: Signal| s.family == fam && s.role == Role::Chk && (s.index as int) < k,
        |s: Signal| chk_v(a, yb, s.index as int),
    )
}

/// Bindings added by the first `k` `Res` steps of a family.
pub open spec fn res_map(a: Seq<u8>, yb: Seq<u8>, fam: Family, n: int, k: int) -> Map<
    Signal,
    int,
> {
    Map::new(
        |s: Signal|
            s.family == fam && ((s.role == Role::Res && n - k <= (s.index as int) < n) || (s.role
                == Role::ResAux && n - k <= (s.index as int) < n - 1)),
        |s: Signal|
            if s.role == Role::Res {
                res_v(a, yb, s.index as int)
            } else {
                res_aux_v(a, yb, s.index as int)
            },
    )
}

/// Running a single constraint is one insertion.
proof fn lemma_run_one(env: Map<Signal, int>, c: Constraint)
    ensures
        run(env, seq![c]) == env.insert(c.target, con_value(env, c)),
{
    reveal_with_fuel(run, 2);
    assert(seq![c][0] == c);
    assert(seq![c].drop_first() =~= Seq::<Constraint>::empty());
}

/// Field values produced by sums and products are canonical.
proof fn lemma_ops_elem(p: int, q: int)
    ensures
        is_elem(f_add(p, q)),
        is_elem(f_mul(p, q)),
{
}

/// Running a family's `Diff` block extends the environment by exactly the
/// `Diff` bindings.
proof fn lemma_run_diff_block(
    env: Map<Signal, int>,
    a: Seq<u8>,
    yb: Seq<u8>,
    fam: Family,
    k: int,
)
    requires
        a.len() == yb.len(),
        a.len() <= usize::MAX,
        0 <= k <= a.len(),
        has_bits(env, Family::A, a),
        has_bits(env, fam, yb),
        fam != Family::A,
    ensures
        run(env, diff_block(fam, k as nat)) == env.union_prefer_right(diff_map(a, yb, fam, k)),
    decreases k,
{
    if k == 0 {
        assert(env.union_prefer_right(diff_map(a, yb, fam, 0)) =~= env);
    } else {
        lemma_run_diff_block(env, a, yb, fam, k - 1);
        let pre = diff_block(fam, (k - 1) as nat);
        let con = diff_con(fam, k - 1);
        assert(diff_block(fam, k as nat) =~= pre + seq![con]);
        lemma_run_append(env, pre, seq![con]);
        let env1 = env.union_prefer_right(diff_map(a, yb, fam, k - 1));
        lemma_run_one(env1, con);
        let sa = bit_sig(Family::A, k - 1);
        let sy = bit_sig(fam, k - 1);
        assert(env_has(env, sa, a[k - 1] as int));
        assert(env_has(env, sy, yb[k - 1] as int));
        assert(env1[sa] == a[k - 1] as int);
        assert(env1[sy] == yb[k - 1] as int);
        assert(con_value(env1, con) == diff_v(a, yb, k - 1));
        assert(env1.insert(sig(fam, Role::Diff, k - 1), diff_v(a, yb, k - 1))
            =~= env.union_prefer_right(diff_map(a, yb, fam, k)));
    }
}

/// Running a family's `Acc` block extends the environment by exactly the
/// `Acc` and helper bindings.
proof fn lemma_run_acc_block(
    env: Map<Signal, int>,
    a: Seq<u8>,
    yb: Seq<u8>,
    fam: Family,
    n: int,
    k: int,
)
    requires
        a.len() == yb.len(),
        a.len() <= usize::MAX,
        n == a.len(),
        1 <= n,
        0 <= k <= n,
        has_diffs(env, a, yb, fam),
    ensures
        run(env, acc_block(fam, n, k as nat)) == env.union_prefer_right(acc_map(a, yb, fam, n, k)),
    decreases k,
{
    if k == 0 {
        assert(env.union_prefer_right(acc_map(a, yb, fam, n, 0)) =~= env);
    } else {
        lemma_run_acc_block(env, a, yb, fam, n, k - 1);
        let pre = acc_block(fam, n, (k - 1) as nat);
        let i = n - k;
        lemma_run_append(env, pre, acc_step(fam, n, i));
        let env1 = env.union_prefer_right(acc_map(a, yb, fam, n, k - 1));
        let sd = sig(fam, Role::Diff, i);
        assert(env_has(env, sd, diff_v(a, yb, i)));
        assert(env1[sd] == diff_v(a, yb, i));
        if i == n - 1 {
            let con = acc_step(fam, n, i)[0];
            assert(acc_step(fam, n, i) =~= seq![con]);
            lemma_run_one(env1, con);
            lemma_ops_elem(0, 0);
            assert(is_elem(diff_v(a, yb, i)));
            lemma_mul_one(diff_v(a, yb, i));
            assert(con_value(env1, con) == diff_v(a, yb, i));
            assert(acc_v(a, yb, i) == diff_v(a, yb, i));
            assert(env1.insert(sig(fam, Role::Acc, i), acc_v(a, yb, i)) =~= env.union_prefer_right(
                acc_map(a, yb, fam, n, k),
            ));
        } else {
            let caux = acc_step(fam, n, i)[0];
            let cmain = acc_step(fam, n, i)[1];
            assert(acc_step(fam, n, i) =~= seq![caux] + seq![cmain]);
            lemma_run_append(env1, seq![caux], seq![cmain]);
            lemma_run_one(env1, caux);
            let sacc1 = sig(fam, Role::Acc, i + 1);
            assert(acc_map(a, yb, fam, n, k - 1).dom().contains(sacc1));
            assert(env1[sacc1] == acc_v(a, yb, i + 1));
            assert(con_value(env1, caux) == acc_aux_v(a, yb, i));
            let env2 = env1.insert(sig(fam, Role::AccAux, i), acc_aux_v(a, yb, i));
            lemma_run_one(env2, cmain);
            assert(env2[sacc1] == acc_v(a, yb, i + 1));
            assert(env2[sd] == diff_v(a, yb, i));
            assert(env2[sig(fam, Role::AccAux, i)] == acc_aux_v(a, yb, i));
            assert(eval_factor(env2, cmain.right) == or3(acc_v(a, yb, i + 1), diff_v(a, yb, i)));
            assert(is_elem(or3(acc_v(a, yb, i + 1), diff_v(a, yb, i))));
            lemma_mul_one(or3(acc_v(a, yb, i + 1), diff_v(a, yb, i)));
            assert(con_value(env2, cmain) == acc_v(a, yb, i));
            assert(env2.insert(sig(fam, Role::Acc, i), acc_v(a, yb, i)) =~= env.union_prefer_right(
                acc_map(a, yb, fam, n, k),
            ));
        }
    }
}

/// Running a family's `Fdiff` block extends the environment by exactly the
/// `Fdiff` bindings.
proof fn lemma_run_fdiff_block(
    env: Map<Signal, int>,
    a: Seq<u8>,
    yb: Seq<u8>,
    fam: Family,
    n: int,
    k: int,
)
    requires
        a.len() == yb.len(),
        a.len() <= usize::MAX,
        n == a.len(),
        1 <= n,
        0 <= k <= n,
        has_accs(env, a, yb, fam),
    ensures
        run(env, fdiff_block(fam, n, k as nat)) == env.union_prefer_right(
            fdiff_map(a, yb, fam, n, k),
        ),
    decreases k,
{
    if k == 0 {
        assert(env.union_prefer_right(fdiff_map(a, yb, fam, n, 0)) =~= env);
    } else {
        lemma_run_fdiff_block(env, a, yb, fam, n, k - 1);
        let pre = fdiff_block(fam, n, (k - 1) as nat);
        let i = n - k;
        let con = fdiff_con(fam, n, i);
        assert(fdiff_block(fam, n, k as nat) =~= pre + seq![con]);
        lemma_run_append(env, pre, seq![con]);
        let env1 = env.union_prefer_right(fdiff_map(a, yb, fam, n, k - 1));
        lemma_run_one(env1, con);
        let sacc = sig(fam, Role::Acc, i);
        assert(env_has(env, sacc, acc_v(a, yb, i)));
        assert(env1[sacc] == acc_v(a, yb, i));
        if i == n - 1 {
            assert(is_elem(acc_v(a, yb, i))) by {
                lemma_ops_elem(0, 0);
            }
            lemma_mul_one(acc_v(a, yb, i));
            assert(con_value(env1, con) == fdiff_v(a, yb, i));
        } else {
            let sacc1 = sig(fam, Role::Acc, i + 1);
            assert(env_has(env, sacc1, acc_v(a, yb, i + 1)));
            assert(env1[sacc1] == acc_v(a, yb, i + 1));
            assert(con_value(env1, con) == sq_diff(acc_v(a, yb, i + 1), acc_v(a, yb, i)));
            assert(con_value(env1, con) == fdiff_v(a, yb, i));
        }
        assert(env1.insert(sig(fam, Role::Fdiff, i), fdiff_v(a, yb, i)) =~= env.union_prefer_right(
            fdiff_map(a, yb, fam, n, k),
        ));
    }
}

/// Running a family's `Chk` block extends the environment by exactly the
/// `Chk` bindings.
proof fn lemma_run_chk_block(
    env: Map<Signal, int>,
    a: Seq<u8>,
    yb: Seq<u8>,
    fam: Family,
    k: int,
)
    requires
        a.len() == yb.len(),
        a.len() <= usize::MAX,
        0 <= k <= a.len(),
        has_bits(env, fam, yb),
        has_fdiffs(env, a, yb, fam),
        fam != Family::A,
    ensures
        run(env, chk_block(fam, k as nat)) == env.union_prefer_right(chk_map(a, yb, fam, k)),
    decreases k,
{
    if k == 0 {
        assert(env.union_prefer_right(chk_map(a, yb, fam, 0)) =~= env);
    } else {
        lemma_run_chk_block(env, a, yb, fam, k - 1);
        let pre = chk_block(fam, (k - 1) as nat);
        let con = chk_con(fam, k - 1);
        assert(chk_block(fam, k as nat) =~= pre + seq![con]);
        lemma_run_append(env, pre, seq![con]);
        let env1 = env.union_prefer_right(chk_map(a, yb, fam, k - 1));
        lemma_run_one(env1, con);
        let sy = bit_sig(fam, k - 1);
        let sf = sig(fam, Role::Fdiff, k - 1);
        assert(env_has(env, sy, yb[k - 1] as int));
        assert(env_has(env, sf, fdiff_v(a, yb, k - 1)));
        assert(env1[sy] == yb[k - 1] as int);
        assert(env1[sf] == fdiff_v(a, yb, k - 1));
        assert(con_value(env1, con) == chk_v(a, yb, k - 1));
        assert(env1.insert(sig(fam, Role::Chk, k - 1), chk_v(a, yb, k - 1))
            =~= env.union_prefer_right(chk_map(a, yb, fam, k)));
    }
}

/// Running a family's `Res` block extends the environment by exactly the
/// `Res` and helper bindings.
#[verifier::rlimit(100)]
proof fn lemma_run_res_block(
    env: Map<Signal, int>,
    a: Seq<u8>,
    yb: Seq<u8>,
    fam: Family,
    n: int,
    k: int,
)
    requires
        a.len() == yb.len(),
        a.len() <= usize::MAX,
        n == a.len(),
        1 <= n,
        0 <= k <= n,
        has_chks(env, a, yb, fam),
    ensures
        run(env, res_block(fam, n, k as nat)) == env.union_prefer_right(res_map(a, yb, fam, n, k)),
    decreases k,
{
    if k == 0 {
        assert(env.union_prefer_right(res_map(a, yb, fam, n, 0)) =~= env);
    } else {
        lemma_run_res_block(env, a, yb, fam, n, k - 1);
        let pre = res_block(fam, n, (k - 1) as nat);
        let i = n - k;
        lemma_run_append(env, pre, res_step(fam, n, i));
        let env1 = env.union_prefer_right(res_map(a, yb, fam, n, k - 1));
        let sc = sig(fam, Role::Chk, i);
        assert(env_has(env, sc, chk_v(a, yb, i)));
        assert(env1[sc] == chk_v(a, yb, i));
        if i == n - 1 {
            let con = res_step(fam, n, i)[0];
            assert(res_step(fam, n, i) =~= seq![con]);
            lemma_run_one(env1, con);
            lemma_ops_elem(0, 0);
            assert(is_elem(chk_v(a, yb, i)));
            lemma_mul_one(chk_v(a, yb, i));
            assert(con_value(env1, con) == chk_v(a, yb, i));
            assert(res_v(a, yb, i) == chk_v(a, yb, i));
            assert(env1.insert(sig(fam, Role::Res, i), res_v(a, yb, i)) =~= env.union_prefer_right(
                res_map(a, yb, fam, n, k),
            ));
        } else {
            let caux = res_step(fam, n, i)[0];
            let cmain = res_step(fam, n, i)[1];
            assert(res_step(fam, n, i) =~= seq![caux] + seq![cmain]);
            lemma_run_append(env1, seq![caux], seq![cmain]);
            lemma_run_one(env1, caux);
            let sres1 = sig(fam, Role::Res, i + 1);
            assert(res_map(a, yb, fam, n, k - 1).dom().contains(sres1));
            assert(env1[sres1] == res_v(a, yb, i + 1));
            assert(con_value(env1, caux) == res_aux_v(a, yb, i));
            let env2 = env1.insert(sig(fam, Role::ResAux, i), res_aux_v(a, yb, i));
            lemma_run_one(env2, cmain);
            assert(env2[sres1] == res_v(a, yb, i + 1));
            assert(env2[sc] == chk_v(a, yb, i));
            assert(env2[sig(fam, Role::ResAux, i)] == res_aux_v(a, yb, i));
            assert(eval_factor(env2, cmain.right) == or3(res_v(a, yb, i + 1), chk_v(a, yb, i)));
            assert(is_elem(or3(res_v(a, yb, i + 1), chk_v(a, yb, i))));
            lemma_mul_one(or3(res_v(a, yb, i + 1), chk_v(a, yb, i)));
            assert(con_value(env2, cmain) == res_v(a, yb, i));
            assert(env2.insert(sig(fam, Role::Res, i), res_v(a, yb, i)) =~= env.union_prefer_right(
                res_map(a, yb, fam, n, k),
            ));
        }
    }
}

/// Running the whole program from the operand-bit environment yields the
/// union of the initial bindings with every stage binding of the `B` pair
/// and, in range mode, of the `C` pair, in pipeline order.
#[verifier::rlimit(100)]
proof fn lemma_run_program(a: Seq<u8>, b: Seq<u8>, c: Seq<u8>, q: int, n: int)
    requires
        q == 2 || q == 3,
        n == a.len(),
        a.len() == b.len(),
        q == 3 ==> c.len() == n,
        q == 2 ==> c.len() == 0,
        1 <= n,
        n <= usize::MAX,
    ensures
        q == 2 ==> run(init_env(a, b, c), program_cons(q, n)) == init_env(
            a,
            b,
            c,
        ).union_prefer_right(diff_map(a, b, Family::B, n)).union_prefer_right(
            acc_map(a, b, Family::B, n, n),
        ).union_prefer_right(fdiff_map(a, b, Family::B, n, n)).union_prefer_right(
            chk_map(a, b, Family::B, n),
        ).union_prefer_right(res_map(a, b, Family::B, n, n)),
        q == 3 ==> run(init_env(a, b, c), program_cons(q, n)) == init_env(
            a,
            b,
            c,
        ).union_prefer_right(diff_map(a, b, Family::B, n)).union_prefer_right(
            diff_map(a, c, Family::C, n),
        ).union_prefer_right(acc_map(a, b, Family::B, n, n)).union_prefer_right(
            acc_map(a, c, Family::C, n, n),
        ).union_prefer_right(fdiff_map(a, b, Family::B, n, n)).union_prefer_right(
            fdiff_map(a, c, Family::C, n, n),
        ).union_prefer_right(chk_map(a, b, Family::B, n)).union_prefer_right(
            chk_map(a, c, Family::C, n),
        ).union_prefer_right(res_map(a, b, Family::B, n, n)).union_prefer_right(
            res_map(a, c, Family::C, n, n),
        ),
{
    let e0 = init_env(a, b, c);
    let s1 = seg(q, diff_block(Family::B, n as nat), diff_block(Family::C, n as nat));
    let s2 = seg(q, acc_block(Family::B, n, n as nat), acc_block(Family::C, n, n as nat));
    let s3 = seg(q, fdiff_block(Family::B, n, n as nat), fdiff_block(Family::C, n, n as nat));
    let s4 = seg(q, chk_block(Family::B, n as nat), chk_block(Family::C, n as nat));
    let s5 = seg(q, res_block(Family::B, n, n as nat), res_block(Family::C, n, n as nat));
    assert(program_cons(q, n) == s1 + s2 + s3 + s4 + s5);
    lemma_run_append(e0, s1 + s2 + s3 + s4, s5);
    lemma_run_append(e0, s1 + s2 + s3, s4);
    lemma_run_append(e0, s1 + s2, s3);
    lemma_run_append(e0, s1, s2);
    assert(has_bits(e0, Family::A, a));
    assert(has_bits(e0, Family::B, b));
    if q == 3 {
        assert(has_bits(e0, Family::C, c));
    }
    if q == 2 {
        lemma_run_diff_block(e0, a, b, Family::B, n);
        let e1 = e0.union_prefer_right(diff_map(a, b, Family::B, n));
        assert(has_diffs(e1, a, b, Family::B)) by {
            assert forall|i: int| 0 <= i < n implies env_has(
                e1,
                #[trigger] sig(Family::B, Role::Diff, i),
                diff_v(a, b, i),
            ) by {
                assert(diff_map(a, b, Family::B, n).dom().contains(sig(Family::B, Role::Diff, i)));
            }
        }
        lemma_run_acc_block(e1, a, b, Family::B, n, n);
        let e2 = e1.union_prefer_right(acc_map(a, b, Family::B, n, n));
        assert(has_accs(e2, a, b, Family::B)) by {
            assert forall|i: int| 0 <= i < n implies env_has(
                e2,
                #[trigger] sig(Family::B, Role::Acc, i),
                acc_v(a, b, i),
            ) by {
                assert(acc_map(a, b, Family::B, n, n).dom().contains(sig(Family::B, Role::Acc, i)));
            }
        }
        lemma_run_fdiff_block(e2, a, b, Family::B, n, n);
        let e3 = e2.union_prefer_right(fdiff_map(a, b, Family::B, n, n));
        assert(has_bits(e3, Family::B, b)) by {
            assert forall|i: int| 0 <= i < n implies env_has(
                e3,
                #[trigger] bit_sig(Family::B, i),
                b[i] as int,
            ) by {
                assert(env_has(e0, bit_sig(Family::B, i), b[i] as int));
            }
        }
        assert(has_fdiffs(e3, a, b, Family::B)) by {
            assert forall|i: int| 0 <= i < n implies env_has(
                e3,
                #[trigger] sig(Family::B, Role::Fdiff, i),
                fdiff_v(a, b, i),
            ) by {
                assert(fdiff_map(a, b, Family::B, n, n).dom().contains(
                    sig(Family::B, Role::Fdiff, i),
                ));
            }
        }
        lemma_run_chk_block(e3, a, b, Family::B, n);
        let e4 = e3.union_prefer_right(chk_map(a, b, Family::B, n));
        assert(has_chks(e4, a, b, Family::B)) by {
            assert forall|i: int| 0 <= i < n implies env_has(
                e4,
                #[trigger] sig(Family::B, Role::Chk, i),
                chk_v(a, b, i),
            ) by {
                assert(chk_map(a, b, Family::B, n).dom().contains(sig(Family::B, Role::Chk, i)));
            }
        }
        lemma_run_res_block(e4, a, b, Family::B, n, n);
    } else {
        lemma_run_append(e0, diff_block(Family::B, n as nat), diff_block(Family::C, n as nat));
        lemma_run_diff_block(e0, a, b, Family::B, n);
        let e1b = e0.union_prefer_right(diff_map(a, b, Family::B, n));
        assert(has_bits(e1b, Family::A, a)) by {
            assert forall|i: int| 0 <= i < n implies env_has(
                e1b,
                #[trigger] bit_sig(Family::A, i),
                a[i] as int,
            ) by {
                assert(env_has(e0, bit_sig(Family::A, i), a[i] as int));
            }
        }
        assert(has_bits(e1b, Family::C, c)) by {
            assert forall|i: int| 0 <= i < n implies env_has(
                e1b,
                #[trigger] bit_sig(Family::C, i),
                c[i] as int,
            ) by {
                assert(env_has(e0, bit_sig(Family::C, i), c[i] as int));
            }
        }
        lemma_run_diff_block(e1b, a, c, Family::C, n);
        let e1 = e1b.union_prefer_right(diff_map(a, c, Family::C, n));
        assert(has_diffs(e1, a, b, Family::B)) by {
            assert forall|i: int| 0 <= i < n implies env_has(
                e1,
                #[trigger] sig(Family::B, Role::Diff, i),
                diff_v(a, b, i),
            ) by {
                assert(diff_map(a, b, Family::B, n).dom().contains(sig(Family::B, Role::Diff, i)));
                assert(!diff_map(a, c, Family::C, n).dom().contains(sig(Family::B, Role::Diff, i)));
            }
        }
        assert(has_diffs(e1, a, c, Family::C)) by {
            assert forall|i: int| 0 <= i < n implies env_has(
                e1,
                #[trigger] sig(Family::C, Role::Diff, i),
                diff_v(a, c, i),
            ) by {
                assert(diff_map(a, c, Family::C, n).dom().contains(sig(Family::C, Role::Diff, i)));
            }
        }
        lemma_run_append(e1, acc_block(Family::B, n, n as nat), acc_block(Family::C, n, n as nat));
        lemma_run_acc_block(e1, a, b, Family::B, n, n);
        let e2b = e1.union_prefer_right(acc_map(a, b, Family::B, n, n));
        assert(has_diffs(e2b, a, c, Family::C)) by {
            assert forall|i: int| 0 <= i < n implies env_has(
                e2b,
                #[trigger] sig(Family::C, Role::Diff, i),
                diff_v(a, c, i),
            ) by {
                assert(env_has(e1, sig(Family::C, Role::Diff, i), diff_v(a, c, i)));
                assert(!acc_map(a, b, Family::B, n, n).dom().contains(
                    sig(Family::C, Role::Diff, i),
                ));
            }
        }
        lemma_run_acc_block(e2b, a, c, Family::C, n, n);
        let e2 = e2b.union_prefer_right(acc_map(a, c, Family::C, n, n));
        assert(has_accs(e2, a, b, Family::B)) by {
            assert forall|i: int| 0 <= i < n implies env_has(
                e2,
                #[trigger] sig(Family::B, Role::Acc, i),
                acc_v(a, b, i),
            ) by {
                assert(acc_map(a, b, Family::B, n, n).dom().contains(sig(Family::B, Role::Acc, i)));
                assert(!acc_map(a, c, Family::C, n, n).dom().contains(
                    sig(Family::B, Role::Acc, i),
                ));
            }
        }
        assert(has_accs(e2, a, c, Family::C)) by {
            assert forall|i: int| 0 <= i < n implies env_has(
                e2,
                #[trigger] sig(Family::C, Role::Acc, i),
                acc_v(a, c, i),
            ) by {
                assert(acc_map(a, c, Family::C, n, n).dom().contains(sig(Family::C, Role::Acc, i)));
            }
        }
        lemma_run_append(
            e2,
            fdiff_block(Family::B, n, n as nat),
            fdiff_block(Family::C, n, n as nat),
        );
        lemma_run_fdiff_block(e2, a, b, Family::B, n, n);
        let e3b = e2.union_prefer_right(fdiff_map(a, b, Family::B, n, n));
        assert(has_accs(e3b, a, c, Family::C)) by {
            assert forall|i: int| 0 <= i < n implies env_has(
                e3b,
                #[trigger] sig(Family::C, Role::Acc, i),
                acc_v(a, c, i),
            ) by {
                assert(env_has(e2, sig(Family::C, Role::Acc, i), acc_v(a, c, i)));
                assert(!fdiff_map(a, b, Family::B, n, n).dom().contains(
                    sig(Family::C, Role::Acc, i),
                ));
            }
        }
        lemma_run_fdiff_block(e3b, a, c, Family::C, n, n);
        let e3 = e3b.union_prefer_right(fdiff_map(a, c, Family::C, n, n));
        assert(has_bits(e3, Family::B, b)) by {
            assert forall|i: int| 0 <= i < n implies env_has(
                e3,
                #[trigger] bit_sig(Family::B, i),
                b[i] as int,
            ) by {
                assert(env_has(e0, bit_sig(Family::B, i), b[i] as int));
            }
        }
        assert(has_bits(e3, Family::C, c)) by {
            assert forall|i: int| 0 <= i < n implies env_has(
                e3,
                #[trigger] bit_sig(Family::C, i),
                c[i] as int,
            ) by {
                assert(env_has(e0, bit_sig(Family::C, i), c[i] as int));
            }
        }
        assert(has_fdiffs(e3, a, b, Family::B)) by {
            assert forall|i: int| 0 <= i < n implies env_has(
                e3,
                #[trigger] sig(Family::B, Role::Fdiff, i),
                fdiff_v(a, b, i),
            ) by {
                assert(fdiff_map(a, b, Family::B, n, n).dom().contains(
                    sig(Family::B, Role::Fdiff, i),
                ));
                assert(!fdiff_map(a, c, Family::C, n, n).dom().contains(
                    sig(Family::B, Role::Fdiff, i),
                ));
            }
        }
        assert(has_fdiffs(e3, a, c, Family::C)) by {
            assert forall|i: int| 0 <= i < n implies env_has(
                e3,
                #[trigger] sig(Family::C, Role::Fdiff, i),
                fdiff_v(a, c, i),
            ) by {
                assert(fdiff_map(a, c, Family::C, n, n).dom().contains(
                    sig(Family::C, Role::Fdiff, i),
                ));
            }
        }
        lemma_run_append(e3, chk_block(Family::B, n as nat), chk_block(Family::C, n as nat));
        lemma_run_chk_block(e3, a, b, Family::B, n);
        let e4b = e3.union_prefer_right(chk_map(a, b, Family::B, n));
        assert(has_bits(e4b, Family::C, c)) by {
            assert forall|i: int| 0 <= i < n implies env_has(
                e4b,
                #[trigger] bit_sig(Family::C, i),
                c[i] as int,
            ) by {
                assert(env_has(e3, bit_sig(Family::C, i), c[i] as int));
                assert(!chk_map(a, b, Family::B, n).dom().contains(bit_sig(Family::C, i)));
            }
        }
        assert(has_fdiffs(e4b, a, c, Family::C)) by {
            assert forall|i: int| 0 <= i < n implies env_has(
                e4b,
                #[trigger] sig(Family::C, Role::Fdiff, i),
                fdiff_v(a, c, i),
            ) by {
                assert(env_has(e3, sig(Family::C, Role::Fdiff, i), fdiff_v(a, c, i)));
                assert(!chk_map(a, b, Family::B, n).dom().contains(
                    sig(Family::C, Role::Fdiff, i),
                ));
            }
        }
        lemma_run_chk_block(e4b, a, c, Family::C, n);
        let e4 = e4b.union_prefer_right(chk_map(a, c, Family::C, n));
        assert(has_chks(e4, a, b, Family::B)) by {
            assert forall|i: int| 0 <= i < n implies env_has(
                e4,
                #[trigger] sig(Family::B, Role::Chk, i),
                chk_v(a, b, i),
            ) by {
                assert(chk_map(a, b, Family::B, n).dom().contains(sig(Family::B, Role::Chk, i)));
                assert(!chk_map(a, c, Family::C, n).dom().contains(sig(Family::B, Role::Chk, i)));
            }
        }
        assert(has_chks(e4, a, c, Family::C)) by {
            assert forall|i: int| 0 <= i < n implies env_has(
                e4,
                #[trigger] sig(Family::C, Role::Chk, i),
                chk_v(a, c, i),
            ) by {
                assert(chk_map(a, c, Family::C, n).dom().contains(sig(Family::C, Role::Chk, i)));
            }
        }
        lemma_run_append(e4, res_block(Family::B, n, n as nat), res_block(Family::C, n, n as nat));
        lemma_run_res_block(e4, a, b, Family::B, n, n);
        let e5b = e4.union_prefer_right(res_map(a, b, Family::B, n, n));
        assert(has_chks(e5b, a, c, Family::C)) by {
            assert forall|i: int| 0 <= i < n implies env_has(
                e5b,
                #[trigger] sig(Family::C, Role::Chk, i),
                chk_v(a, c, i),
            ) by {
                assert(env_has(e4, sig(Family::C, Role::Chk, i), chk_v(a, c, i)));
                assert(!res_map(a, b, Family::B, n, n).dom().contains(
                    sig(Family::C, Role::Chk, i),
                ));
            }
        }
        lemma_run_res_block(e5b, a, c, Family::C, n, n);
    }
}

/// Semantic correctness of the generated programs: evaluating the emitted
/// constraints on operand bit vectors binds each pair's terminal `res`
/// signal to 1 exactly when the compared operand's unsigned value exceeds
/// the shared operand's, and to 0 otherwise.  In range mode the two results
/// are each independently correct against the shared operand.
pub proof fn lemma_program_correct(a: Seq<u8>, b: Seq<u8>, c: Seq<u8>, q: int, n: int)
    requires
        q == 2 || q == 3,
        n == a.len(),
        a.len() == b.len(),
        q == 3 ==> c.len() == n,
        q == 2 ==> c.len() == 0,
        1 <= n,
        n <= usize::MAX,
        is_bits(a),
        is_bits(b),
        is_bits(c),
    ensures
        env_has(run(init_env(a, b, c), program_cons(q, n)), res_sig(Family::B), b2i(val(b) > val(a))),
        q == 3 ==> env_has(
            run(init_env(a, b, c), program_cons(q, n)),
            res_sig(Family::C),
            b2i(val(c) > val(a)),
        ),
{
    lemma_run_program(a, b, c, q, n);
    lemma_res_is_gt(a, b);
    let sb = res_sig(Family::B);
    assert(res_map(a, b, Family::B, n, n).dom().contains(sb));
    assert(res_map(a, b, Family::B, n, n)[sb] == res_v(a, b, 0));
    if q == 3 {
        lemma_res_is_gt(a, c);
        let sc = res_sig(Family::C);
        assert(res_map(a, c, Family::C, n, n).dom().contains(sc));
        assert(res_map(a, c, Family::C, n, n)[sc] == res_v(a, c, 0));
        assert(!res_map(a, c, Family::C, n, n).dom().contains(sb));
    }
}

} // verus!
