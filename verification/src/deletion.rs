use vstd::prelude::*;
use crate::ids::Uid;
use crate::impl_model::{
    ImplStep, MethodImplementation, find_data, find_step, lemma_data_index_unique, lemma_step_index_unique,
};
use crate::flow_model::{lemma_concat_contains, lemma_push_contains};

verus! {

impl MethodImplementation {
    /// The data nodes that the step `s` produces.
    pub open spec fn outputs_of(&self, s: Uid) -> Seq<Uid> {
        self.steps@[self.step_index(s)].spec_outputs()
    }

    /// The steps that consume the data node `d`.
    pub open spec fn downstream_of(&self, d: Uid) -> Seq<Uid> {
        self.data@[self.data_index(d)].downstream_steps@
    }

    /// `rank` decreases along every step → output → consuming step link: the
    /// data flow downstream of any step has no cycle.
    pub open spec fn downstream_ranked(&self, rank: spec_fn(Uid) -> nat) -> bool {
        forall|s: Uid, k: int, j: int|
            #![trigger self.outputs_of(s)[k], self.downstream_of(self.outputs_of(s)[k])[j]]
            self.has_step(s) && 0 <= k < self.outputs_of(s).len()
                && 0 <= j < self.downstream_of(self.outputs_of(s)[k]).len()
                ==> rank(self.downstream_of(self.outputs_of(s)[k])[j]) < rank(s)
    }

    /// The data flow downstream of the steps has no cycle.
    pub open spec fn downstream_acyclic(&self) -> bool {
        exists|rank: spec_fn(Uid) -> nat| self.downstream_ranked(rank)
    }

    /// Deleting the step `s` deletes `x` within `fuel` levels: `x` is `s`, an
    /// output of `s`, or deleted with a step consuming such an output.
    pub open spec fn deletes_within(&self, s: Uid, x: Uid, fuel: nat) -> bool
        decreases fuel,
    {
        if fuel == 0 {
            false
        } else {
            x == s || exists|k: int| 0 <= k < self.outputs_of(s).len() && (
                x == #[trigger] self.outputs_of(s)[k] || exists|j: int| 0 <= j < self.downstream_of(self.outputs_of(s)[k]).len()
                    && self.deletes_within(#[trigger] self.downstream_of(self.outputs_of(s)[k])[j], x, (fuel - 1) as nat))
        }
    }

    /// Deleting the step `s` deletes `x`.
    pub open spec fn deletes(&self, s: Uid, x: Uid) -> bool {
        exists|fuel: nat| #[trigger] self.deletes_within(s, x, fuel)
    }
}

/// Appends what deleting the step `s` deletes, in order, to `out`.
fn delete_step(m: &MethodImplementation, s: Uid, Ghost(rank): Ghost<spec_fn(Uid) -> nat>, out: &mut Vec<Uid>)
    requires
        m.ids_wf(),
        m.downstream_ranked(rank),
        m.has_step(s),
    ensures
        forall|x: Uid| #[trigger] final(out)@.contains(x) <==> (old(out)@.contains(x) || m.deletes(s, x)),
    decreases rank(s),
{
    let ghost start = old(out)@;
    out.push(s);
    proof {
        assert forall|x: Uid| #[trigger] out@.contains(x) <==> (start.contains(x) || x == s) by {
            if out@.contains(x) && x != s {
                let i = choose|i: int| 0 <= i < out@.len() && out@[i] == x;
                assert(start[i] == x);
            }
            if start.contains(x) {
                let i = choose|i: int| 0 <= i < start.len() && start[i] == x;
                assert(out@[i] == x);
            }
            if x == s {
                assert(out@[start.len() as int] == x);
            }
        }
    }
    let si = find_step(m, s);
    proof {
        lemma_step_index_unique(m, si as int, s);
    }
    let outputs = m.steps[si].outputs();
    let mut k: usize = 0;
    while k < outputs.len()
        invariant
            m.ids_wf(),
            m.downstream_ranked(rank),
            m.has_step(s),
            si < m.steps@.len(),
            si as int == m.step_index(s),
            outputs@ == m.outputs_of(s),
            k <= outputs@.len(),
            forall|x: Uid| #[trigger] out@.contains(x) <==> (start.contains(x) || x == s
                || exists|kk: int| 0 <= kk < k && (x == #[trigger] m.outputs_of(s)[kk]
                    || exists|j: int| 0 <= j < m.downstream_of(m.outputs_of(s)[kk]).len()
                        && m.deletes(#[trigger] m.downstream_of(m.outputs_of(s)[kk])[j], x))),
        decreases outputs@.len() - k,
    {
        let o = outputs[k];
        assert(m.has_data(m.steps@[si as int].spec_outputs()[k as int]));
        let ghost pre = out@;
        out.push(o);
        proof {
            assert forall|x: Uid| #[trigger] out@.contains(x) <==> (pre.contains(x) || x == o) by {
                if out@.contains(x) && x != o {
                    let i = choose|i: int| 0 <= i < out@.len() && out@[i] == x;
                    assert(pre[i] == x);
                }
                if pre.contains(x) {
                    let i = choose|i: int| 0 <= i < pre.len() && pre[i] == x;
                    assert(out@[i] == x);
                }
                if x == o {
                    assert(out@[pre.len() as int] == x);
                }
            }
        }
        let di = find_data(m, o);
        proof {
            lemma_data_index_unique(m, di as int, o);
        }
        let down = &m.data[di].downstream_steps;
        let mut j: usize = 0;
        while j < down.len()
            invariant
                m.ids_wf(),
                m.downstream_ranked(rank),
                m.has_step(s),
                outputs@ == m.outputs_of(s),
                k < outputs@.len(),
                o == m.outputs_of(s)[k as int],
                di < m.data@.len(),
                di as int == m.data_index(o),
                down@ == m.downstream_of(o),
                j <= down@.len(),
                forall|x: Uid| #[trigger] out@.contains(x) <==> (pre.contains(x) || x == o
                    || exists|jj: int| 0 <= jj < j && m.deletes(#[trigger] down@[jj], x)),
            decreases down@.len() - j,
        {
            let t = down[j];
            assert(rank(m.downstream_of(m.outputs_of(s)[k as int])[j as int]) < rank(s));
            assert(m.has_step(m.data@[di as int].downstream_steps@[j as int]));
            let ghost pre2 = out@;
            delete_step(m, t, Ghost(rank), out);
            proof {
                assert forall|x: Uid| #[trigger] out@.contains(x) <==> (pre.contains(x) || x == o
                    || exists|jj: int| 0 <= jj < j + 1 && m.deletes(#[trigger] down@[jj], x)) by {
                    assert(out@.contains(x) <==> (pre2.contains(x) || m.deletes(t, x)));
                    if exists|jj: int| 0 <= jj < j + 1 && m.deletes(#[trigger] down@[jj], x) {
                        let jj = choose|jj: int| 0 <= jj < j + 1 && m.deletes(#[trigger] down@[jj], x);
                        if jj == j {
                            assert(m.deletes(t, x));
                        }
                    }
                    if m.deletes(t, x) {
                        assert(m.deletes(down@[j as int], x));
                    }
                    if pre2.contains(x) && !pre.contains(x) && x != o {
                        assert(exists|jj: int| 0 <= jj < j && m.deletes(#[trigger] down@[jj], x));
                    }
                    if pre.contains(x) {
                        assert(pre2.contains(x));
                    }
                    if x == o {
                        assert(pre2.contains(x));
                    }
                }
            }
            j = j + 1;
        }
        proof {
            assert forall|x: Uid| #[trigger] out@.contains(x) <==> (start.contains(x) || x == s
                || exists|kk: int| 0 <= kk < k + 1 && (x == #[trigger] m.outputs_of(s)[kk]
                    || exists|jj: int| 0 <= jj < m.downstream_of(m.outputs_of(s)[kk]).len()
                        && m.deletes(#[trigger] m.downstream_of(m.outputs_of(s)[kk])[jj], x))) by {
                if exists|kk: int| 0 <= kk < k + 1 && (x == #[trigger] m.outputs_of(s)[kk]
                    || exists|jj: int| 0 <= jj < m.downstream_of(m.outputs_of(s)[kk]).len()
                        && m.deletes(#[trigger] m.downstream_of(m.outputs_of(s)[kk])[jj], x)) {
                    let kk = choose|kk: int| 0 <= kk < k + 1 && (x == #[trigger] m.outputs_of(s)[kk]
                        || exists|jj: int| 0 <= jj < m.downstream_of(m.outputs_of(s)[kk]).len()
                            && m.deletes(#[trigger] m.downstream_of(m.outputs_of(s)[kk])[jj], x));
                    if kk == k {
                        if x != o {
                            let jj = choose|jj: int| 0 <= jj < m.downstream_of(m.outputs_of(s)[kk]).len()
                                && m.deletes(#[trigger] m.downstream_of(m.outputs_of(s)[kk])[jj], x);
                            assert(m.deletes(down@[jj], x));
                        }
                    }
                }
            }
        }
        k = k + 1;
    }
    proof {
        assert forall|x: Uid| #[trigger] out@.contains(x) <==> (start.contains(x) || m.deletes(s, x)) by {
            if m.deletes(s, x) {
                let f = choose|f: nat| #[trigger] m.deletes_within(s, x, f);
                if x != s {
                    let kk = choose|kk: int| 0 <= kk < m.outputs_of(s).len() && (
                        x == #[trigger] m.outputs_of(s)[kk] || exists|j: int| 0 <= j < m.downstream_of(m.outputs_of(s)[kk]).len()
                            && m.deletes_within(#[trigger] m.downstream_of(m.outputs_of(s)[kk])[j], x, (f - 1) as nat));
                    if x != m.outputs_of(s)[kk] {
                        let j = choose|j: int| 0 <= j < m.downstream_of(m.outputs_of(s)[kk]).len()
                            && m.deletes_within(#[trigger] m.downstream_of(m.outputs_of(s)[kk])[j], x, (f - 1) as nat);
                        assert(m.deletes(m.downstream_of(m.outputs_of(s)[kk])[j], x));
                    }
                }
            }
            if out@.contains(x) && !start.contains(x) {
                if x == s {
                    assert(m.deletes_within(s, x, 1));
                } else {
                    let kk = choose|kk: int| 0 <= kk < k && (x == #[trigger] m.outputs_of(s)[kk]
                        || exists|jj: int| 0 <= jj < m.downstream_of(m.outputs_of(s)[kk]).len()
                            && m.deletes(#[trigger] m.downstream_of(m.outputs_of(s)[kk])[jj], x));
                    if x == m.outputs_of(s)[kk] {
                        assert(m.deletes_within(s, x, 1));
                    } else {
                        let jj = choose|jj: int| 0 <= jj < m.downstream_of(m.outputs_of(s)[kk]).len()
                            && m.deletes(#[trigger] m.downstream_of(m.outputs_of(s)[kk])[jj], x);
                        let f = choose|f: nat| #[trigger] m.deletes_within(m.downstream_of(m.outputs_of(s)[kk])[jj], x, f);
                        assert(m.deletes_within(s, x, f + 1));
                    }
                }
            }
        }
    }
}

/// Everything that deleting the given steps deletes with them, in order: each
/// step, then each data node it produces followed by what deleting the steps
/// that consume that data node deletes.
pub fn follow_and_delete_downstream(m: &MethodImplementation, steps: &Vec<Uid>) -> (r: Vec<Uid>)
    requires
        m.ids_wf(),
        m.downstream_acyclic(),
        forall|k: int| 0 <= k < steps@.len() ==> m.has_step(#[trigger] steps@[k]),
    ensures
        forall|x: Uid| #[trigger] r@.contains(x) <==> exists|k: int| 0 <= k < steps@.len() && m.deletes(#[trigger] steps@[k], x),
{
    let ghost rank = choose|rank: spec_fn(Uid) -> nat| m.downstream_ranked(rank);
    let mut out: Vec<Uid> = Vec::new();
    let mut k: usize = 0;
    while k < steps.len()
        invariant
            m.ids_wf(),
            m.downstream_ranked(rank),
            forall|k: int| 0 <= k < steps@.len() ==> m.has_step(#[trigger] steps@[k]),
            k <= steps@.len(),
            forall|x: Uid| #[trigger] out@.contains(x) <==> exists|kk: int| 0 <= kk < k && m.deletes(#[trigger] steps@[kk], x),
        decreases steps@.len() - k,
    {
        let ghost pre = out@;
        delete_step(m, steps[k], Ghost(rank), &mut out);
        proof {
            assert forall|x: Uid| #[trigger] out@.contains(x) <==> exists|kk: int| 0 <= kk < k + 1 && m.deletes(#[trigger] steps@[kk], x) by {
                assert(out@.contains(x) <==> (pre.contains(x) || m.deletes(steps@[k as int], x)));
                if exists|kk: int| 0 <= kk < k + 1 && m.deletes(#[trigger] steps@[kk], x) {
                    let kk = choose|kk: int| 0 <= kk < k + 1 && m.deletes(#[trigger] steps@[kk], x);
                    if kk < k {
                        assert(pre.contains(x));
                    }
                }
            }
        }
        k = k + 1;
    }
    out
}

impl MethodImplementation {
    /// The data node that the `MapFromInput` step `t` maps the input into.
    pub open spec fn mapped_in(&self, t: Uid) -> Uid {
        self.outputs_of(t)[0]
    }

    /// Deleting the input terminal `t` deletes `x`: `x` is `t`, or is deleted
    /// with a step that consumes the data node `t` maps the input into.
    pub open spec fn input_terminal_deletes(&self, t: Uid, x: Uid) -> bool {
        x == t || exists|j: int| 0 <= j < self.downstream_of(self.mapped_in(t)).len()
            && self.deletes(#[trigger] self.downstream_of(self.mapped_in(t))[j], x)
    }

    /// Every listed input terminal is a `MapFromInput` step of the
    /// implementation.
    pub open spec fn input_terminals_wf(&self) -> bool {
        forall|k: int| 0 <= k < self.map_from_inputs@.len() ==> self.has_step(#[trigger] self.map_from_inputs@[k])
            && self.steps@[self.step_index(self.map_from_inputs@[k])] is MapFromInput
    }
}

/// Everything that deleting the method implementation `impl_id` deletes: the
/// implementation itself, each of its output terminals, and for each input
/// terminal, what deleting the steps that consume its data node deletes,
/// then the terminal itself.
pub fn delete_method_implementation(m: &MethodImplementation, impl_id: Uid) -> (r: Vec<Uid>)
    requires
        m.ids_wf(),
        m.downstream_acyclic(),
        m.input_terminals_wf(),
    ensures
        forall|x: Uid| #[trigger] r@.contains(x) <==> (x == impl_id || m.map_to_outputs@.contains(x)
            || exists|k: int| 0 <= k < m.map_from_inputs@.len() && m.input_terminal_deletes(#[trigger] m.map_from_inputs@[k], x)),
{
    let mut r: Vec<Uid> = vec![impl_id];
    let mut k: usize = 0;
    proof {
        assert(r@ =~= seq![impl_id] + m.map_to_outputs@.take(0));
    }
    while k < m.map_to_outputs.len()
        invariant
            k <= m.map_to_outputs@.len(),
            r@ == seq![impl_id] + m.map_to_outputs@.take(k as int),
        decreases m.map_to_outputs@.len() - k,
    {
        r.push(m.map_to_outputs[k]);
        proof {
            assert(m.map_to_outputs@.take(k + 1) =~= m.map_to_outputs@.take(k as int).push(m.map_to_outputs@[k as int]));
            assert(r@ =~= seq![impl_id] + m.map_to_outputs@.take(k + 1));
        }
        k = k + 1;
    }
    proof {
        assert(m.map_to_outputs@.take(k as int) =~= m.map_to_outputs@);
        lemma_concat_contains(seq![impl_id], m.map_to_outputs@);
        assert forall|x: Uid| #[trigger] seq![impl_id].contains(x) <==> x == impl_id by {
            if x == impl_id {
                assert(seq![impl_id][0] == x);
            }
        }
    }
    let mut i: usize = 0;
    while i < m.map_from_inputs.len()
        invariant
            m.ids_wf(),
            m.downstream_acyclic(),
            m.input_terminals_wf(),
            i <= m.map_from_inputs@.len(),
            forall|x: Uid| #[trigger] r@.contains(x) <==> (x == impl_id || m.map_to_outputs@.contains(x)
                || exists|k: int| 0 <= k < i && m.input_terminal_deletes(#[trigger] m.map_from_inputs@[k], x)),
        decreases m.map_from_inputs@.len() - i,
    {
        let t = m.map_from_inputs[i];
        assert(m.has_step(m.map_from_inputs@[i as int]));
        let si = find_step(m, t);
        proof {
            lemma_step_index_unique(m, si as int, t);
        }
        let o = match &m.steps[si] {
            ImplStep::MapFromInput { output, .. } => *output,
            _ => 0,
        };
        assert(o == m.mapped_in(t));
        assert(m.has_data(m.steps@[si as int].spec_outputs()[0]));
        let di = find_data(m, o);
        proof {
            lemma_data_index_unique(m, di as int, o);
            assert forall|j: int| 0 <= j < m.data@[di as int].downstream_steps@.len()
                implies m.has_step(#[trigger] m.data@[di as int].downstream_steps@[j]) by {}
        }
        let mut more = follow_and_delete_downstream(m, &m.data[di].downstream_steps);
        let ghost pre = r@;
        let ghost gained = more@;
        r.append(&mut more);
        r.push(t);
        proof {
            assert(r@ == (pre + gained).push(t));
            lemma_concat_contains(pre, gained);
            lemma_push_contains(pre + gained, t);
            assert(m.downstream_of(o) == m.data@[di as int].downstream_steps@);
            assert forall|x: Uid| #[trigger] r@.contains(x) <==> (x == impl_id || m.map_to_outputs@.contains(x)
                || exists|k: int| 0 <= k < i + 1 && m.input_terminal_deletes(#[trigger] m.map_from_inputs@[k], x)) by {
                assert(r@.contains(x) <==> (pre.contains(x) || gained.contains(x) || x == t));
                assert(m.input_terminal_deletes(t, x) <==> (gained.contains(x) || x == t));
                if exists|k: int| 0 <= k < i + 1 && m.input_terminal_deletes(#[trigger] m.map_from_inputs@[k], x) {
                    let k = choose|k: int| 0 <= k < i + 1 && m.input_terminal_deletes(#[trigger] m.map_from_inputs@[k], x);
                    if k < i {
                        assert(pre.contains(x));
                    } else {
                        assert(m.input_terminal_deletes(t, x));
                    }
                }
                if gained.contains(x) || x == t {
                    assert(m.input_terminal_deletes(m.map_from_inputs@[i as int], x));
                }
            }
        }
        i = i + 1;
    }
    r
}

} // verus!
