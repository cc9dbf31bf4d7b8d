use vstd::prelude::*;

verus! {

/// The two-argument Ackermann function.
pub open spec fn ackermann(m: nat, n: nat) -> nat
    decreases m, n,
{
    if m == 0 {
        n + 1
    } else if n == 0 {
        ackermann((m - 1) as nat, 1)
    } else {
        ackermann((m - 1) as nat, ackermann(m, (n - 1) as nat))
    }
}

/// Ackermann's value always exceeds its second argument.
proof fn lemma_ackermann_gt_n(m: nat, n: nat)
    ensures
        ackermann(m, n) > n,
    decreases m, n,
{
    if m == 0 {
    } else if n == 0 {
        lemma_ackermann_gt_n((m - 1) as nat, 1);
    } else {
        lemma_ackermann_gt_n(m, (n - 1) as nat);
        lemma_ackermann_gt_n((m - 1) as nat, ackermann(m, (n - 1) as nat));
    }
}

/// The number of iterations the stack evaluation spends on one pair.
spec fn steps(m: nat, n: nat) -> nat
    decreases m, n,
{
    if m == 0 {
        1
    } else if n == 0 {
        1 + steps((m - 1) as nat, 1)
    } else {
        1 + steps(m, (n - 1) as nat) + steps((m - 1) as nat, ackermann(m, (n - 1) as nat))
    }
}

/// The value a stack of pending arguments denotes: repeatedly replace the
/// top pair by the Ackermann value it stands for, until one number is left.
spec fn stack_eval(s: Seq<nat>) -> nat
    decreases s.len(),
{
    if s.len() == 0 {
        0
    } else if s.len() == 1 {
        s[0]
    } else {
        stack_eval(s.take(s.len() - 2).push(ackermann(s[s.len() - 2], s[s.len() - 1])))
    }
}

/// The number of iterations left until the stack holds one number.
spec fn stack_work(s: Seq<nat>) -> nat
    decreases s.len(),
{
    if s.len() <= 1 {
        0
    } else {
        steps(s[s.len() - 2], s[s.len() - 1]) + stack_work(
            s.take(s.len() - 2).push(ackermann(s[s.len() - 2], s[s.len() - 1])),
        )
    }
}

/// A stack never denotes less than its topmost entry.
proof fn lemma_stack_eval_ge_last(s: Seq<nat>)
    requires
        s.len() >= 1,
    ensures
        stack_eval(s) >= s.last(),
    decreases s.len(),
{
    if s.len() >= 2 {
        let t = s.take(s.len() - 2).push(ackermann(s[s.len() - 2], s[s.len() - 1]));
        lemma_stack_eval_ge_last(t);
        lemma_ackermann_gt_n(s[s.len() - 2], s[s.len() - 1]);
    }
}

/// The numbers a `u128` stack stands for.
spec fn nat_view(s: Seq<u128>) -> Seq<nat> {
    s.map_values(|v: u128| v as nat)
}

/// Evaluate Ackermann iteratively, with an explicit stack of pending
/// arguments in place of recursion.
pub fn ackermann_2ary_iter(m: u128, n: u128) -> (r: u128)
    requires
        ackermann(m as nat, n as nat) <= u128::MAX,
    ensures
        r == ackermann(m as nat, n as nat),
{
    let ghost target = ackermann(m as nat, n as nat);
    let mut stack: Vec<u128> = Vec::new();
    stack.push(m);
    stack.push(n);
    proof {
        assert(nat_view(stack@) =~= seq![m as nat, n as nat]);
        let sv = nat_view(stack@);
        assert(sv.len() == 2);
        let t = sv.take(sv.len() - 2).push(ackermann(sv[sv.len() - 2], sv[sv.len() - 1]));
        assert(stack_eval(sv) == stack_eval(t));
        assert(t =~= seq![ackermann(m as nat, n as nat)]);
        assert(stack_eval(t) == t[0]);
        assert(stack_eval(sv) == target);
    }
    while stack.len() >= 2
        invariant
            1 <= stack@.len(),
            stack_eval(nat_view(stack@)) == target,
            target <= u128::MAX,
        decreases stack_work(nat_view(stack@)),
    {
        let ghost s0 = nat_view(stack@);
        let ghost rest = s0.take(s0.len() - 2);
        let n_top = match stack.pop() {
            Some(v) => v,
            None => 0,
        };
        let m_top = match stack.pop() {
            Some(v) => v,
            None => 0,
        };
        let ghost a = m_top as nat;
        let ghost b = n_top as nat;
        proof {
            assert(nat_view(stack@) =~= rest);
            assert(a == s0[s0.len() - 2] && b == s0[s0.len() - 1]);
            assert(stack_eval(s0) == stack_eval(rest.push(ackermann(a, b))));
            assert(stack_work(s0) == steps(a, b) + stack_work(rest.push(ackermann(a, b))));
        }
        if m_top == 0 {
            // A(0, n) => n + 1
            proof {
                let s1 = rest.push((b + 1) as nat);
                assert(ackermann(a, b) == b + 1);
                lemma_stack_eval_ge_last(s1);
                assert(b + 1 <= target);
            }
            stack.push(n_top + 1);
            proof {
                assert(nat_view(stack@) =~= rest.push(ackermann(a, b)));
                assert(stack_work(s0) == 1 + stack_work(nat_view(stack@)));
            }
        } else if n_top == 0 {
            // A(m, 0) => A(m - 1, 1)
            stack.push(m_top - 1);
            stack.push(1);
            proof {
                let s1 = nat_view(stack@);
                assert(s1 =~= rest.push((a - 1) as nat).push(1nat));
                assert(s1.take(s1.len() - 2) =~= rest);
                assert(stack_eval(s1) == stack_eval(rest.push(ackermann((a - 1) as nat, 1))));
                assert(ackermann((a - 1) as nat, 1) == ackermann(a, b));
                assert(stack_eval(s1) == target);
                assert(stack_work(s1) == steps((a - 1) as nat, 1) + stack_work(
                    rest.push(ackermann(a, b)),
                ));
                assert(steps(a, b) == 1 + steps((a - 1) as nat, 1));
                assert(stack_work(s0) == 1 + stack_work(s1));
            }
        } else {
            // A(m, n) => A(m - 1, A(m, n - 1))
            stack.push(m_top - 1);
            stack.push(m_top);
            stack.push(n_top - 1);
            proof {
                let inner = ackermann(a, (b - 1) as nat);
                let s1 = nat_view(stack@);
                assert(s1 =~= rest.push((a - 1) as nat).push(a).push((b - 1) as nat));
                // one reduction step on the top pair (a, b - 1)
                assert(s1.take(s1.len() - 2) =~= rest.push((a - 1) as nat));
                let s2 = rest.push((a - 1) as nat).push(inner);
                assert(stack_eval(s1) == stack_eval(s2));
                assert(stack_work(s1) == steps(a, (b - 1) as nat) + stack_work(s2));
                // and one more on (a - 1, inner)
                assert(s2.take(s2.len() - 2) =~= rest);
                assert(stack_eval(s2) == stack_eval(
                    rest.push(ackermann((a - 1) as nat, inner)),
                ));
                assert(stack_work(s2) == steps((a - 1) as nat, inner) + stack_work(
                    rest.push(ackermann((a - 1) as nat, inner)),
                ));
                assert(ackermann((a - 1) as nat, inner) == ackermann(a, b));
                assert(stack_eval(s1) == target);
                assert(steps(a, b) == 1 + steps(a, (b - 1) as nat) + steps((a - 1) as nat, inner));
                assert(stack_work(s0) == 1 + stack_work(s1));
            }
        }
    }
    let r = stack[0];
    proof {
        assert(nat_view(stack@).len() == 1);
        assert(stack_eval(nat_view(stack@)) == nat_view(stack@)[0]);
    }
    r
}

} // verus!
