//! Reference interpreter for circuit programs.
//!
//! The meaning of a program is given by `run`: starting from an environment
//! that assigns the raw operand bits, each constraint in order binds its
//! target to the field product of its two factors.  The executable
//! interpreter mirrors `run` exactly and succeeds precisely on programs
//! whose constraints read only declared inputs or earlier targets.

use vstd::prelude::*;
use crate::circuit::{Constraint, Factor, Family, Role, Signal};
use crate::fp251::{add251, f_add, f_mul, is_elem, mul251};

verus! {

/// Value of a factor under an environment.
pub open spec fn eval_factor(env: Map<Signal, int>, f: Factor) -> int {
    match f {
        Factor::One => 1,
        Factor::Var(s) => env[s],
        Factor::SubSum(s1, s2) => f_add(env[s1], f_mul(250, env[s2])),
        Factor::OrSum(s1, s2, s3) => f_add(f_add(env[s1], env[s2]), f_mul(250, env[s3])),
    }
}

/// The value a constraint assigns to its target.
pub open spec fn con_value(env: Map<Signal, int>, c: Constraint) -> int {
    f_mul(eval_factor(env, c.left), eval_factor(env, c.right))
}

/// Environment after executing the constraints in order.
pub open spec fn run(env: Map<Signal, int>, cs: Seq<Constraint>) -> Map<Signal, int>
    decreases cs.len(),
{
    if cs.len() == 0 {
        env
    } else {
        run(env.insert(cs[0].target, con_value(env, cs[0])), cs.drop_first())
    }
}

/// The signals a factor reads.
pub open spec fn factor_reads(f: Factor) -> Set<Signal> {
    match f {
        Factor::One => Set::empty(),
        Factor::Var(s) => set![s],
        Factor::SubSum(s1, s2) => set![s1, s2],
        Factor::OrSum(s1, s2, s3) => set![s1, s2, s3],
    }
}

/// The signals a constraint reads.
pub open spec fn con_reads(c: Constraint) -> Set<Signal> {
    factor_reads(c.left).union(factor_reads(c.right))
}

/// The targets of a constraint sequence.
pub open spec fn targets(cs: Seq<Constraint>) -> Set<Signal> {
    Set::new(|s: Signal| exists|k: int| 0 <= k < cs.len() && (#[trigger] cs[k].target) == s)
}

/// No forward references: every constraint reads only signals of `dom` or
/// targets of strictly earlier constraints.
pub open spec fn wf_from(dom: Set<Signal>, cs: Seq<Constraint>) -> bool {
    forall|j: int|
        0 <= j < cs.len() ==> (#[trigger] con_reads(cs[j])).subset_of(
            dom.union(targets(cs.take(j))),
        )
}

/// Every bound value is a canonical field element.
pub open spec fn bounded(m: Map<Signal, int>) -> bool {
    forall|s: Signal| m.dom().contains(s) ==> is_elem(#[trigger] m[s])
}

/// Peeling the first constraint off a target set.
pub proof fn lemma_targets_unfold(cs: Seq<Constraint>)
    requires
        cs.len() > 0,
    ensures
        targets(cs) =~= targets(cs.drop_first()).insert(cs[0].target),
{
    assert forall|s: Signal| targets(cs).contains(s) implies targets(
        cs.drop_first(),
    ).insert(cs[0].target).contains(s) by {
        let k = choose|k: int| 0 <= k < cs.len() && (#[trigger] cs[k].target) == s;
        if k > 0 {
            assert(cs.drop_first()[k - 1].target == s);
        }
    }
    assert forall|s: Signal|
        targets(cs.drop_first()).insert(cs[0].target).contains(s) implies targets(cs).contains(
        s,
    ) by {
        if s == cs[0].target {
            assert(cs[0].target == s);
        } else {
            let k = choose|k: int|
                0 <= k < cs.drop_first().len() && (#[trigger] cs.drop_first()[k].target) == s;
            assert(cs[k + 1].target == s);
        }
    }
}

/// Running a concatenation runs the two halves in order.
pub proof fn lemma_run_append(env: Map<Signal, int>, s1: Seq<Constraint>, s2: Seq<Constraint>)
    ensures
        run(env, s1 + s2) == run(run(env, s1), s2),
    decreases s1.len(),
{
    if s1.len() == 0 {
        assert(s1 + s2 =~= s2);
    } else {
        assert((s1 + s2)[0] == s1[0]);
        assert((s1 + s2).drop_first() =~= s1.drop_first() + s2);
        let env1 = env.insert(s1[0].target, con_value(env, s1[0]));
        lemma_run_append(env1, s1.drop_first(), s2);
    }
}

/// Running binds exactly the targets on top of the initial domain.
pub proof fn lemma_run_dom(env: Map<Signal, int>, cs: Seq<Constraint>)
    ensures
        run(env, cs).dom() =~= env.dom().union(targets(cs)),
    decreases cs.len(),
{
    if cs.len() == 0 {
        assert(targets(cs) =~= Set::<Signal>::empty());
    } else {
        lemma_targets_unfold(cs);
        let env1 = env.insert(cs[0].target, con_value(env, cs[0]));
        lemma_run_dom(env1, cs.drop_first());
    }
}

/// An executable signal environment: an insertion log whose view is the
/// map built by the inserts in order, later bindings winning.
pub struct SigEnv {
    entries: Vec<(Signal, u8)>,
}

/// The map denoted by an insertion log.
pub open spec fn env_map(entries: Seq<(Signal, u8)>) -> Map<Signal, int>
    decreases entries.len(),
{
    if entries.len() == 0 {
        Map::empty()
    } else {
        env_map(entries.drop_last()).insert(entries.last().0, entries.last().1 as int)
    }
}

impl View for SigEnv {
    type V = Map<Signal, int>;

    closed spec fn view(&self) -> Map<Signal, int> {
        env_map(self.entries@)
    }
}

impl SigEnv {
    /// The empty environment.
    pub fn new() -> (env: SigEnv)
        ensures
            env@ == Map::<Signal, int>::empty(),
    {
        SigEnv { entries: Vec::new() }
    }

    /// Binds a signal, shadowing any earlier binding.
    pub fn set(&mut self, s: Signal, v: u8)
        ensures
            final(self)@ == old(self)@.insert(s, v as int),
    {
        self.entries.push((s, v));
        proof {
            assert(self.entries@.drop_last() =~= old(self).entries@);
        }
    }

    /// Looks a signal up.
    pub fn get(&self, s: &Signal) -> (r: Option<u8>)
        ensures
            r matches Some(v) ==> (self@.dom().contains(*s) && self@[*s] == v as int),
            r is None ==> !self@.dom().contains(*s),
    {
        let mut j: usize = self.entries.len();
        proof {
            assert(self.entries@.take(self.entries@.len() as int) =~= self.entries@);
        }
        while j > 0
            invariant
                j <= self.entries.len(),
                self@.dom().contains(*s) == env_map(
                    self.entries@.take(j as int),
                ).dom().contains(*s),
                self@.dom().contains(*s) ==> self@[*s] == env_map(
                    self.entries@.take(j as int),
                )[*s],
            decreases j,
        {
            let pair: (Signal, u8) = self.entries[j - 1];
            proof {
                assert(self.entries@.take(j as int).drop_last() =~= self.entries@.take(j - 1));
                assert(self.entries@.take(j as int).last() == pair);
            }
            if pair.0 == *s {
                return Some(pair.1);
            }
            j = j - 1;
        }
        proof {
            assert(self.entries@.take(0) =~= Seq::<(Signal, u8)>::empty());
        }
        None
    }
}

/// Evaluates one factor; `None` exactly when it reads an unbound signal.
fn eval_factor_exec(env: &SigEnv, f: &Factor) -> (r: Option<u8>)
    requires
        bounded(env@),
    ensures
        r is Some <==> factor_reads(*f).subset_of(env@.dom()),
        r matches Some(v) ==> (v as int == eval_factor(env@, *f) && is_elem(v as int)),
{
    match f {
        Factor::One => Some(1),
        Factor::Var(s) => {
            let r = env.get(s);
            proof {
                if r is Some {
                    assert(factor_reads(*f) =~= set![*s]);
                } else {
                    assert(factor_reads(*f).contains(*s));
                }
            }
            r
        },
        Factor::SubSum(s1, s2) => {
            let r1 = env.get(s1);
            let r2 = env.get(s2);
            match (r1, r2) {
                (Some(v1), Some(v2)) => {
                    proof {
                        assert forall|x: Signal| factor_reads(*f).contains(x) implies env@
                            .dom().contains(x) by {
                            assert(x == *s1 || x == *s2);
                        }
                    }
                    Some(add251(v1, mul251(250, v2)))
                },
                _ => {
                    proof {
                        assert(factor_reads(*f).contains(*s1));
                        assert(factor_reads(*f).contains(*s2));
                    }
                    None
                },
            }
        },
        Factor::OrSum(s1, s2, s3) => {
            let r1 = env.get(s1);
            let r2 = env.get(s2);
            let r3 = env.get(s3);
            match (r1, r2, r3) {
                (Some(v1), Some(v2), Some(v3)) => {
                    proof {
                        assert forall|x: Signal| factor_reads(*f).contains(x) implies env@
                            .dom().contains(x) by {
                            assert(x == *s1 || x == *s2 || x == *s3);
                        }
                    }
                    Some(add251(add251(v1, v2), mul251(250, v3)))
                },
                _ => {
                    proof {
                        assert(factor_reads(*f).contains(*s1));
                        assert(factor_reads(*f).contains(*s2));
                        assert(factor_reads(*f).contains(*s3));
                    }
                    None
                },
            }
        },
    }
}

/// Executes the constraints in order.  Succeeds exactly when the sequence
/// has no forward reference out of the starting environment, and then the
/// final environment is `run` of the starting one.
pub fn run_constraints(env: &mut SigEnv, cs: &Vec<Constraint>) -> (ok: bool)
    requires
        bounded(old(env)@),
    ensures
        ok <==> wf_from(old(env)@.dom(), cs@),
        ok ==> final(env)@ == run(old(env)@, cs@),
        bounded(final(env)@),
{
    let ghost env0 = env@;
    let mut j: usize = 0;
    while j < cs.len()
        invariant
            j <= cs.len(),
            bounded(env@),
            env0 == old(env)@,
            bounded(env0),
            env@ == run(env0, cs@.take(j as int)),
            forall|i: int|
                0 <= i < j ==> (#[trigger] con_reads(cs@[i])).subset_of(
                    env0.dom().union(targets(cs@.take(i))),
                ),
        decreases cs.len() - j,
    {
        let c = cs[j];
        let lv = eval_factor_exec(env, &c.left);
        let rv = eval_factor_exec(env, &c.right);
        proof {
            lemma_run_dom(env0, cs@.take(j as int));
        }
        match (lv, rv) {
            (Some(v1), Some(v2)) => {
                let v = mul251(v1, v2);
                proof {
                    assert(con_reads(c).subset_of(env0.dom().union(targets(cs@.take(j as int)))));
                    assert(cs@.take(j + 1) =~= cs@.take(j as int) + seq![c]);
                    lemma_run_append(env0, cs@.take(j as int), seq![c]);
                    reveal_with_fuel(run, 2);
                    assert(seq![c][0] == c);
                    assert(seq![c].drop_first() =~= Seq::<Constraint>::empty());
                    assert(run(env@, seq![c]) == env@.insert(c.target, con_value(env@, c)));
                    assert(v as int == con_value(env@, c));
                }
                env.set(c.target, v);
            },
            _ => {
                proof {
                    assert(!con_reads(c).subset_of(env@.dom()));
                    assert(!wf_from(env0.dom(), cs@));
                }
                return false;
            },
        }
        j = j + 1;
    }
    proof {
        assert(cs@.take(cs@.len() as int) =~= cs@);
    }
    true
}

/// The starting environment: each family's raw operand bits at their bit
/// signals, and nothing else.
pub open spec fn init_env_partial(
    a: Seq<u8>,
    b: Seq<u8>,
    c: Seq<u8>,
    na: int,
    nb: int,
    nc: int,
) -> Map<Signal, int> {
    Map::new(
        |s: Signal|
            s.role == Role::Bit && match s.family {
                Family::A => s.index < na,
                Family::B => s.index < nb,
                Family::C => s.index < nc,
            },
        |s: Signal|
            match s.family {
                Family::A => a[s.index as int] as int,
                Family::B => b[s.index as int] as int,
                Family::C => c[s.index as int] as int,
            },
    )
}

/// The starting environment over full operand vectors.
pub open spec fn init_env(a: Seq<u8>, b: Seq<u8>, c: Seq<u8>) -> Map<Signal, int> {
    init_env_partial(a, b, c, a.len() as int, b.len() as int, c.len() as int)
}

/// Builds the starting environment from the three operand bit vectors; the
/// `C` vector is empty in comparator mode.
pub fn init_bits_env(a: &Vec<u8>, b: &Vec<u8>, c: &Vec<u8>) -> (env: SigEnv)
    ensures
        env@ == init_env(a@, b@, c@),
{
    let mut env = SigEnv::new();
    let mut i: usize = 0;
    while i < a.len()
        invariant
            i <= a.len(),
            env@ =~= init_env_partial(a@, b@, c@, i as int, 0, 0),
        decreases a.len() - i,
    {
        env.set(Signal { family: Family::A, role: Role::Bit, index: i }, a[i]);
        proof {
            assert(env@ =~= init_env_partial(a@, b@, c@, i + 1, 0, 0));
        }
        i = i + 1;
    }
    let mut i: usize = 0;
    while i < b.len()
        invariant
            i <= b.len(),
            env@ =~= init_env_partial(a@, b@, c@, a@.len() as int, i as int, 0),
        decreases b.len() - i,
    {
        env.set(Signal { family: Family::B, role: Role::Bit, index: i }, b[i]);
        proof {
            assert(env@ =~= init_env_partial(a@, b@, c@, a@.len() as int, i + 1, 0));
        }
        i = i + 1;
    }
    let mut i: usize = 0;
    while i < c.len()
        invariant
            i <= c.len(),
            env@ =~= init_env_partial(a@, b@, c@, a@.len() as int, b@.len() as int, i as int),
        decreases c.len() - i,
    {
        env.set(Signal { family: Family::C, role: Role::Bit, index: i }, c[i]);
        proof {
            assert(env@ =~= init_env_partial(
                a@,
                b@,
                c@,
                a@.len() as int,
                b@.len() as int,
                i + 1,
            ));
        }
        i = i + 1;
    }
    proof {
        assert(env@ =~= init_env(a@, b@, c@));
    }
    env
}

} // verus!
