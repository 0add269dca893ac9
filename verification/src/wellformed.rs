//! Structural well-formedness of the generated programs.
//!
//! Every constraint of a generated program reads only declared inputs or
//! targets of strictly earlier constraints: the emission order is the
//! dependency order, with no forward references.  The declared lists have
//! the documented shapes: `q*n` inputs, `q-1` outputs, and `(q-1)*(n+1)`
//! publicly verified signals.

use vstd::prelude::*;
use crate::circuit::{
    acc_block, acc_step, bit_sig, chk_block, chk_con, diff_block, diff_con, fdiff_block,
    fdiff_con, in_sigs, out_sigs, program_cons, res_block, res_step, seg, sig, verify_sigs,
    Constraint, Family, Role, Signal,
};
use crate::eval::{con_reads, init_env, targets, wf_from};

verus! {

/// The declared input signals of a generated program, as a set.
pub open spec fn input_set(q: int, n: int) -> Set<Signal> {
    Set::new(
        |s: Signal|
            s.role == Role::Bit && (s.index as int) < n && (s.family == Family::A || s.family
                == Family::B || (q == 3 && s.family == Family::C)),
    )
}

/// Targets of a concatenation are the union of the halves' targets.
proof fn lemma_targets_append(u: Seq<Constraint>, v: Seq<Constraint>)
    ensures
        targets(u + v) =~= targets(u).union(targets(v)),
{
    assert forall|s: Signal| targets(u + v).contains(s) implies targets(u).union(
        targets(v),
    ).contains(s) by {
        let k = choose|k: int| 0 <= k < (u + v).len() && (#[trigger] (u + v)[k].target) == s;
        if k < u.len() {
            assert(u[k].target == s);
        } else {
            assert(v[k - u.len()].target == s);
        }
    }
    assert forall|s: Signal| targets(u).union(targets(v)).contains(s) implies targets(
        u + v,
    ).contains(s) by {
        if targets(u).contains(s) {
            let k = choose|k: int| 0 <= k < u.len() && (#[trigger] u[k].target) == s;
            assert((u + v)[k].target == s);
        } else {
            let k = choose|k: int| 0 <= k < v.len() && (#[trigger] v[k].target) == s;
            assert((u + v)[u.len() + k].target == s);
        }
    }
}

/// Well-formedness composes over concatenation when the second half may
/// additionally read the first half's targets.
proof fn lemma_wf_append(dom: Set<Signal>, s1: Seq<Constraint>, s2: Seq<Constraint>)
    requires
        wf_from(dom, s1),
        wf_from(dom.union(targets(s1)), s2),
    ensures
        wf_from(dom, s1 + s2),
{
    assert forall|j: int| 0 <= j < (s1 + s2).len() implies (#[trigger] con_reads(
        (s1 + s2)[j],
    )).subset_of(dom.union(targets((s1 + s2).take(j)))) by {
        if j < s1.len() {
            assert((s1 + s2)[j] == s1[j]);
            assert((s1 + s2).take(j) =~= s1.take(j));
            assert(con_reads(s1[j]).subset_of(dom.union(targets(s1.take(j)))));
        } else {
            let j2 = j - s1.len();
            assert((s1 + s2)[j] == s2[j2]);
            assert((s1 + s2).take(j) =~= s1 + s2.take(j2));
            lemma_targets_append(s1, s2.take(j2));
            assert(con_reads(s2[j2]).subset_of(
                dom.union(targets(s1)).union(targets(s2.take(j2))),
            ));
            assert(dom.union(targets(s1)).union(targets(s2.take(j2))) =~= dom.union(
                targets(s1).union(targets(s2.take(j2))),
            ));
        }
    }
}

/// A single constraint is well formed exactly when its reads lie in `dom`.
proof fn lemma_wf_single(dom: Set<Signal>, c: Constraint)
    requires
        con_reads(c).subset_of(dom),
    ensures
        wf_from(dom, seq![c]),
{
    assert forall|j: int| 0 <= j < seq![c].len() implies (#[trigger] con_reads(
        seq![c][j],
    )).subset_of(dom.union(targets(seq![c].take(j)))) by {
        assert(seq![c][j] == c);
        assert(con_reads(c).subset_of(dom.union(targets(seq![c].take(j)))));
    }
}

/// A `Diff` block is well formed over any domain holding both operands'
/// bits, and targets every `Diff` signal it emits.
proof fn lemma_wf_diff_block(dom: Set<Signal>, fam: Family, k: int)
    requires
        0 <= k,
        forall|i: int| 0 <= i < k ==> dom.contains(#[trigger] bit_sig(Family::A, i)),
        forall|i: int| 0 <= i < k ==> dom.contains(#[trigger] bit_sig(fam, i)),
    ensures
        wf_from(dom, diff_block(fam, k as nat)),
        forall|i: int|
            0 <= i < k ==> targets(diff_block(fam, k as nat)).contains(
                #[trigger] sig(fam, Role::Diff, i),
            ),
    decreases k,
{
    if k == 0 {
    } else {
        lemma_wf_diff_block(dom, fam, k - 1);
        let pre = diff_block(fam, (k - 1) as nat);
        let con = diff_con(fam, k - 1);
        assert(diff_block(fam, k as nat) =~= pre + seq![con]);
        assert forall|x: Signal| con_reads(con).contains(x) implies dom.union(
            targets(pre),
        ).contains(x) by {
            assert(x == bit_sig(Family::A, k - 1) || x == bit_sig(fam, k - 1));
        }
        lemma_wf_single(dom.union(targets(pre)), con);
        lemma_wf_append(dom, pre, seq![con]);
        lemma_targets_append(pre, seq![con]);
        assert(seq![con][0].target == sig(fam, Role::Diff, k - 1));
        assert(targets(seq![con]).contains(sig(fam, Role::Diff, k - 1)));
    }
}

/// An `Acc` block is well formed over any domain holding the family's
/// `Diff` signals, and targets every `Acc` signal it emits.
proof fn lemma_wf_acc_block(dom: Set<Signal>, fam: Family, n: int, k: int)
    requires
        1 <= n,
        0 <= k <= n,
        forall|i: int| 0 <= i < n ==> dom.contains(#[trigger] sig(fam, Role::Diff, i)),
    ensures
        wf_from(dom, acc_block(fam, n, k as nat)),
        forall|i: int|
            n - k <= i < n ==> targets(acc_block(fam, n, k as nat)).contains(
                #[trigger] sig(fam, Role::Acc, i),
            ),
    decreases k,
{
    if k == 0 {
    } else {
        lemma_wf_acc_block(dom, fam, n, k - 1);
        let pre = acc_block(fam, n, (k - 1) as nat);
        let i = n - k;
        let step = acc_step(fam, n, i);
        let dom1 = dom.union(targets(pre));
        if i == n - 1 {
            let con = step[0];
            assert(step =~= seq![con]);
            assert forall|x: Signal| con_reads(con).contains(x) implies dom1.contains(x) by {
                assert(x == sig(fam, Role::Diff, i));
            }
            lemma_wf_single(dom1, con);
        } else {
            let caux = step[0];
            let cmain = step[1];
            assert(targets(pre).contains(sig(fam, Role::Acc, i + 1)));
            assert forall|j: int| 0 <= j < step.len() implies (#[trigger] con_reads(
                step[j],
            )).subset_of(dom1.union(targets(step.take(j)))) by {
                if j == 0 {
                    assert forall|x: Signal| con_reads(caux).contains(x) implies dom1.union(
                        targets(step.take(0)),
                    ).contains(x) by {
                        assert(x == sig(fam, Role::Acc, i + 1) || x == sig(fam, Role::Diff, i));
                    }
                } else {
                    assert(step.take(1) =~= seq![caux]);
                    assert(seq![caux][0].target == sig(fam, Role::AccAux, i));
                    assert(targets(seq![caux]).contains(sig(fam, Role::AccAux, i)));
                    assert forall|x: Signal| con_reads(cmain).contains(x) implies dom1.union(
                        targets(step.take(1)),
                    ).contains(x) by {
                        assert(x == sig(fam, Role::Acc, i + 1) || x == sig(fam, Role::Diff, i)
                            || x == sig(fam, Role::AccAux, i));
                    }
                }
            }
        }
        lemma_wf_append(dom, pre, step);
        lemma_targets_append(pre, step);
        if i == n - 1 {
            assert(step[0].target == sig(fam, Role::Acc, i));
            assert(targets(step).contains(sig(fam, Role::Acc, i)));
        } else {
            assert(step[1].target == sig(fam, Role::Acc, i));
            assert(targets(step).contains(sig(fam, Role::Acc, i)));
        }
    }
}

/// An `Fdiff` block is well formed over any domain holding the family's
/// `Acc` signals, and targets every `Fdiff` signal it emits.
proof fn lemma_wf_fdiff_block(dom: Set<Signal>, fam: Family, n: int, k: int)
    requires
        1 <= n,
        0 <= k <= n,
        forall|i: int| 0 <= i < n ==> dom.contains(#[trigger] sig(fam, Role::Acc, i)),
    ensures
        wf_from(dom, fdiff_block(fam, n, k as nat)),
        forall|i: int|
            n - k <= i < n ==> targets(fdiff_block(fam, n, k as nat)).contains(
                #[trigger] sig(fam, Role::Fdiff, i),
            ),
    decreases k,
{
    if k == 0 {
    } else {
        lemma_wf_fdiff_block(dom, fam, n, k - 1);
        let pre = fdiff_block(fam, n, (k - 1) as nat);
        let i = n - k;
        let con = fdiff_con(fam, n, i);
        assert(fdiff_block(fam, n, k as nat) =~= pre + seq![con]);
        assert forall|x: Signal| con_reads(con).contains(x) implies dom.union(
            targets(pre),
        ).contains(x) by {
            assert(x == sig(fam, Role::Acc, i) || (i < n - 1 && x == sig(fam, Role::Acc, i + 1)));
        }
        lemma_wf_single(dom.union(targets(pre)), con);
        lemma_wf_append(dom, pre, seq![con]);
        lemma_targets_append(pre, seq![con]);
        assert(seq![con][0].target == sig(fam, Role::Fdiff, i));
        assert(targets(seq![con]).contains(sig(fam, Role::Fdiff, i)));
    }
}

/// A `Chk` block is well formed over any domain holding the family's bits
/// and `Fdiff` signals, and targets every `Chk` signal it emits.
proof fn lemma_wf_chk_block(dom: Set<Signal>, fam: Family, k: int)
    requires
        0 <= k,
        forall|i: int| 0 <= i < k ==> dom.contains(#[trigger] bit_sig(fam, i)),
        forall|i: int| 0 <= i < k ==> dom.contains(#[trigger] sig(fam, Role::Fdiff, i)),
    ensures
        wf_from(dom, chk_block(fam, k as nat)),
        forall|i: int|
            0 <= i < k ==> targets(chk_block(fam, k as nat)).contains(
                #[trigger] sig(fam, Role::Chk, i),
            ),
    decreases k,
{
    if k == 0 {
    } else {
        lemma_wf_chk_block(dom, fam, k - 1);
        let pre = chk_block(fam, (k - 1) as nat);
        let con = chk_con(fam, k - 1);
        assert(chk_block(fam, k as nat) =~= pre + seq![con]);
        assert forall|x: Signal| con_reads(con).contains(x) implies dom.union(
            targets(pre),
        ).contains(x) by {
            assert(x == bit_sig(fam, k - 1) || x == sig(fam, Role::Fdiff, k - 1));
        }
        lemma_wf_single(dom.union(targets(pre)), con);
        lemma_wf_append(dom, pre, seq![con]);
        lemma_targets_append(pre, seq![con]);
        assert(seq![con][0].target == sig(fam, Role::Chk, k - 1));
        assert(targets(seq![con]).contains(sig(fam, Role::Chk, k - 1)));
    }
}

/// A `Res` block is well formed over any domain holding the family's `Chk`
/// signals, and targets every `Res` signal it emits.
proof fn lemma_wf_res_block(dom: Set<Signal>, fam: Family, n: int, k: int)
    requires
        1 <= n,
        0 <= k <= n,
        forall|i: int| 0 <= i < n ==> dom.contains(#[trigger] sig(fam, Role::Chk, i)),
    ensures
        wf_from(dom, res_block(fam, n, k as nat)),
        forall|i: int|
            n - k <= i < n ==> targets(res_block(fam, n, k as nat)).contains(
                #[trigger] sig(fam, Role::Res, i),
            ),
    decreases k,
{
    if k == 0 {
    } else {
        lemma_wf_res_block(dom, fam, n, k - 1);
        let pre = res_block(fam, n, (k - 1) as nat);
        let i = n - k;
        let step = res_step(fam, n, i);
        let dom1 = dom.union(targets(pre));
        if i == n - 1 {
            let con = step[0];
            assert(step =~= seq![con]);
            assert forall|x: Signal| con_reads(con).contains(x) implies dom1.contains(x) by {
                assert(x == sig(fam, Role::Chk, i));
            }
            lemma_wf_single(dom1, con);
        } else {
            let caux = step[0];
            let cmain = step[1];
            assert(targets(pre).contains(sig(fam, Role::Res, i + 1)));
            assert forall|j: int| 0 <= j < step.len() implies (#[trigger] con_reads(
                step[j],
            )).subset_of(dom1.union(targets(step.take(j)))) by {
                if j == 0 {
                    assert forall|x: Signal| con_reads(caux).contains(x) implies dom1.union(
                        targets(step.take(0)),
                    ).contains(x) by {
                        assert(x == sig(fam, Role::Res, i + 1) || x == sig(fam, Role::Chk, i));
                    }
                } else {
                    assert(step.take(1) =~= seq![caux]);
                    assert(seq![caux][0].target == sig(fam, Role::ResAux, i));
                    assert(targets(seq![caux]).contains(sig(fam, Role::ResAux, i)));
                    assert forall|x: Signal| con_reads(cmain).contains(x) implies dom1.union(
                        targets(step.take(1)),
                    ).contains(x) by {
                        assert(x == sig(fam, Role::Res, i + 1) || x == sig(fam, Role::Chk, i) || x
                            == sig(fam, Role::ResAux, i));
                    }
                }
            }
        }
        lemma_wf_append(dom, pre, step);
        lemma_targets_append(pre, step);
        if i == n - 1 {
            assert(step[0].target == sig(fam, Role::Res, i));
            assert(targets(step).contains(sig(fam, Role::Res, i)));
        } else {
            assert(step[1].target == sig(fam, Role::Res, i));
            assert(targets(step).contains(sig(fam, Role::Res, i)));
        }
    }
}

/// Block lengths: the `Diff` and `Chk` stages emit one constraint per bit,
/// the fold stages one at the top bit and two per remaining bit.
proof fn lemma_block_lens(fam: Family, n: int, k: int)
    requires
        1 <= n,
        0 <= k <= n,
    ensures
        diff_block(fam, k as nat).len() == k,
        chk_block(fam, k as nat).len() == k,
        fdiff_block(fam, n, k as nat).len() == k,
        acc_block(fam, n, k as nat).len() == (if k == 0 { 0int } else { 2 * k - 1 }),
        res_block(fam, n, k as nat).len() == (if k == 0 { 0int } else { 2 * k - 1 }),
    decreases k,
{
    if k > 0 {
        lemma_block_lens(fam, n, k - 1);
    }
}

/// One stage segment is well formed and targets both families' stage
/// signals.  Helper for chaining: runs the `B` lemma, then the `C` lemma
/// over the extended domain.
proof fn lemma_wf_seg(dom: Set<Signal>, q: int, b: Seq<Constraint>, c: Seq<Constraint>)
    requires
        q == 2 || q == 3,
        wf_from(dom, b),
        q == 3 ==> wf_from(dom.union(targets(b)), c),
    ensures
        wf_from(dom, seg(q, b, c)),
{
    if q == 3 {
        lemma_wf_append(dom, b, c);
    }
}

/// No forward references in a generated program: every signal a constraint
/// reads is a declared input or the target of an earlier constraint.
#[verifier::rlimit(100)]
pub proof fn lemma_program_wf(q: int, n: int)
    requires
        q == 2 || q == 3,
        1 <= n,
        n <= usize::MAX,
    ensures
        wf_from(input_set(q, n), program_cons(q, n)),
{
    let dom0 = input_set(q, n);
    let s1 = seg(q, diff_block(Family::B, n as nat), diff_block(Family::C, n as nat));
    let s2 = seg(q, acc_block(Family::B, n, n as nat), acc_block(Family::C, n, n as nat));
    let s3 = seg(q, fdiff_block(Family::B, n, n as nat), fdiff_block(Family::C, n, n as nat));
    let s4 = seg(q, chk_block(Family::B, n as nat), chk_block(Family::C, n as nat));
    let s5 = seg(q, res_block(Family::B, n, n as nat), res_block(Family::C, n, n as nat));
    assert(program_cons(q, n) == s1 + s2 + s3 + s4 + s5);

    // Stage 1: Diff blocks read only input bits.
    lemma_wf_diff_block(dom0, Family::B, n);
    if q == 3 {
        lemma_wf_diff_block(dom0.union(targets(diff_block(Family::B, n as nat))), Family::C, n);
        lemma_targets_append(diff_block(Family::B, n as nat), diff_block(Family::C, n as nat));
    }
    lemma_wf_seg(dom0, q, diff_block(Family::B, n as nat), diff_block(Family::C, n as nat));
    let dom1 = dom0.union(targets(s1));
    assert(forall|i: int|
        0 <= i < n ==> dom1.contains(#[trigger] sig(Family::B, Role::Diff, i)));
    if q == 3 {
        assert(forall|i: int|
            0 <= i < n ==> dom1.contains(#[trigger] sig(Family::C, Role::Diff, i)));
    }

    // Stage 2: Acc blocks read Diff signals and their own earlier targets.
    lemma_wf_acc_block(dom1, Family::B, n, n);
    if q == 3 {
        lemma_wf_acc_block(dom1.union(targets(acc_block(Family::B, n, n as nat))), Family::C, n, n);
        lemma_targets_append(acc_block(Family::B, n, n as nat), acc_block(Family::C, n, n as nat));
    }
    lemma_wf_seg(dom1, q, acc_block(Family::B, n, n as nat), acc_block(Family::C, n, n as nat));
    lemma_targets_append(s1, s2);
    let dom2 = dom1.union(targets(s2));
    assert(forall|i: int| 0 <= i < n ==> dom2.contains(#[trigger] sig(Family::B, Role::Acc, i)));
    if q == 3 {
        assert(forall|i: int|
            0 <= i < n ==> dom2.contains(#[trigger] sig(Family::C, Role::Acc, i)));
    }

    // Stage 3: Fdiff blocks read Acc signals.
    lemma_wf_fdiff_block(dom2, Family::B, n, n);
    if q == 3 {
        lemma_wf_fdiff_block(
            dom2.union(targets(fdiff_block(Family::B, n, n as nat))),
            Family::C,
            n,
            n,
        );
        lemma_targets_append(
            fdiff_block(Family::B, n, n as nat),
            fdiff_block(Family::C, n, n as nat),
        );
    }
    lemma_wf_seg(dom2, q, fdiff_block(Family::B, n, n as nat), fdiff_block(Family::C, n, n as nat));
    lemma_targets_append(s1 + s2, s3);
    let dom3 = dom2.union(targets(s3));
    assert(forall|i: int| 0 <= i < n ==> dom3.contains(#[trigger] sig(Family::B, Role::Fdiff, i)));
    assert(forall|i: int| 0 <= i < n ==> dom3.contains(#[trigger] bit_sig(Family::B, i)));
    if q == 3 {
        assert(forall|i: int|
            0 <= i < n ==> dom3.contains(#[trigger] sig(Family::C, Role::Fdiff, i)));
        assert(forall|i: int| 0 <= i < n ==> dom3.contains(#[trigger] bit_sig(Family::C, i)));
    }

    // Stage 4: Chk blocks read the family's bits and Fdiff signals.
    lemma_wf_chk_block(dom3, Family::B, n);
    if q == 3 {
        lemma_wf_chk_block(dom3.union(targets(chk_block(Family::B, n as nat))), Family::C, n);
        lemma_targets_append(chk_block(Family::B, n as nat), chk_block(Family::C, n as nat));
    }
    lemma_wf_seg(dom3, q, chk_block(Family::B, n as nat), chk_block(Family::C, n as nat));
    lemma_targets_append(s1 + s2 + s3, s4);
    let dom4 = dom3.union(targets(s4));
    assert(forall|i: int| 0 <= i < n ==> dom4.contains(#[trigger] sig(Family::B, Role::Chk, i)));
    if q == 3 {
        assert(forall|i: int|
            0 <= i < n ==> dom4.contains(#[trigger] sig(Family::C, Role::Chk, i)));
    }

    // Stage 5: Res blocks read Chk signals and their own earlier targets.
    lemma_wf_res_block(dom4, Family::B, n, n);
    if q == 3 {
        lemma_wf_res_block(dom4.union(targets(res_block(Family::B, n, n as nat))), Family::C, n, n);
        lemma_targets_append(res_block(Family::B, n, n as nat), res_block(Family::C, n, n as nat));
    }
    lemma_wf_seg(dom4, q, res_block(Family::B, n, n as nat), res_block(Family::C, n, n as nat));

    // Chain the five stages.
    lemma_wf_append(dom0, s1, s2);
    lemma_wf_append(dom0, s1 + s2, s3);
    lemma_wf_append(dom0, s1 + s2 + s3, s4);
    lemma_wf_append(dom0, s1 + s2 + s3 + s4, s5);
}

/// The starting environment of the interpreter binds exactly the declared
/// input signals.
pub proof fn lemma_init_env_dom(a: Seq<u8>, b: Seq<u8>, c: Seq<u8>, q: int, n: int)
    requires
        q == 2 || q == 3,
        a.len() == n,
        b.len() == n,
        q == 3 ==> c.len() == n,
        q == 2 ==> c.len() == 0,
    ensures
        init_env(a, b, c).dom() =~= input_set(q, n),
{
}

/// Shapes of the declared lists: `q*n` inputs (`A`'s bits, then the
/// compared operands'), `q-1` outputs, and for each compared pair its
/// result and its `n` public bits in the verified list.  The declared
/// inputs are exactly the `input_set` signals.
pub proof fn lemma_program_structure(q: int, n: int)
    requires
        q == 2 || q == 3,
        1 <= n,
        n <= usize::MAX,
    ensures
        in_sigs(q, n).len() == q * n,
        out_sigs(q).len() == q - 1,
        verify_sigs(q, n).len() == (q - 1) * (n + 1),
        program_cons(q, n).len() == (q - 1) * (7 * n - 2),
        forall|s: Signal| in_sigs(q, n).contains(s) <==> input_set(q, n).contains(s),
{
    lemma_block_lens(Family::B, n, n);
    lemma_block_lens(Family::C, n, n);
    assert forall|s: Signal| in_sigs(q, n).contains(s) implies input_set(q, n).contains(s) by {
        let k = choose|k: int| 0 <= k < in_sigs(q, n).len() && in_sigs(q, n)[k] == s;
        if k < n {
            assert(s == bit_sig(Family::A, k));
        } else if k < 2 * n {
            assert(s == bit_sig(Family::B, k - n));
        } else {
            assert(s == bit_sig(Family::C, k - 2 * n));
        }
    }
    assert forall|s: Signal| input_set(q, n).contains(s) implies in_sigs(q, n).contains(s) by {
        let i = s.index as int;
        if s.family == Family::A {
            assert(in_sigs(q, n)[i] == bit_sig(Family::A, i));
            assert(bit_sig(Family::A, i) == s);
        } else if s.family == Family::B {
            assert(in_sigs(q, n)[n + i] == bit_sig(Family::B, i));
            assert(bit_sig(Family::B, i) == s);
        } else {
            assert(in_sigs(q, n)[2 * n + i] == bit_sig(Family::C, i));
            assert(bit_sig(Family::C, i) == s);
        }
    }
}

} // verus!
