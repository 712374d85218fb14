//! The state graph of a law: which states a transition leads to, which
//! states can be reached from the initial one, and cycles of automatic
//! transitions.
use vstd::prelude::*;

use crate::error::{concat3, CompileError, CompileErrorV};
use crate::json::{
    key_index, lemma_key_index_absent, lemma_key_index_bounds, lemma_key_index_found, lookup,
    str_eq,
};
use crate::law::{LawSource, StateSource, TransitionSource};

verus! {

/// The states of a law, keyed by name.
pub open spec fn state_pairs(states: Seq<StateSource>) -> Seq<(Seq<char>, StateSource)> {
    states.map_values(|s: StateSource| (s.name@, s))
}

/// The first state named `n`.
pub open spec fn state_named(states: Seq<StateSource>, n: Seq<char>) -> Option<StateSource> {
    lookup(state_pairs(states), n)
}

/// Some state is named `n`.
pub open spec fn has_state(states: Seq<StateSource>, n: Seq<char>) -> bool {
    exists|i: int| 0 <= i < states.len() && (#[trigger] states[i]).name@ == n
}

pub proof fn lemma_state_named(states: Seq<StateSource>, n: Seq<char>)
    ensures
        state_named(states, n) is Some <==> has_state(states, n),
        state_named(states, n) matches Some(s) ==> exists|i: int|
            0 <= i < states.len() && states[i] == s && s.name@ == n,
{
    let p = state_pairs(states);
    lemma_key_index_bounds(p, n);
    if has_state(states, n) {
        let i = choose|i: int| 0 <= i < states.len() && (#[trigger] states[i]).name@ == n;
        assert(p[i].0 == n);
    }
    if key_index(p, n) < p.len() {
        let k = key_index(p, n);
        assert(states[k].name@ == p[k].0);
    }
}

/// Looks up the first state named `name`.
pub fn find_state<'a>(states: &'a Vec<StateSource>, name: &str) -> (r: Option<&'a StateSource>)
    ensures
        match r {
            Some(s) => state_named(states@, name@) == Some(*s),
            None => state_named(states@, name@) is None,
        },
{
    let ghost p = state_pairs(states@);
    let mut i: usize = 0;
    while i < states.len()
        invariant
            i <= states.len(),
            p == state_pairs(states@),
            forall|j: int| 0 <= j < i ==> #[trigger] p[j].0 != name@,
        decreases states.len() - i,
    {
        assert(p[i as int].0 == states@[i as int].name@);
        if str_eq(states[i].name.as_str(), name) {
            proof {
                lemma_key_index_found(p, name@, i as int);
            }
            return Some(&states[i]);
        }
        i = i + 1;
    }
    proof {
        lemma_key_index_absent(p, name@);
    }
    None
}

pub open spec fn is_auto_tick(t: TransitionSource) -> bool {
    t.action@ == "AUTO_TICK"@
}

/// A transition of the state named `u` leads to `v`.
pub open spec fn edge(states: Seq<StateSource>, u: Seq<char>, v: Seq<char>) -> bool {
    match state_named(states, u) {
        Some(s) => exists|k: int|
            0 <= k < s.transitions@.len() && (#[trigger] s.transitions@[k]).to@ == v,
        None => false,
    }
}

/// An `AUTO_TICK` transition of the state named `u` leads to `v`.
pub open spec fn auto_edge(states: Seq<StateSource>, u: Seq<char>, v: Seq<char>) -> bool {
    match state_named(states, u) {
        Some(s) => exists|k: int|
            0 <= k < s.transitions@.len() && is_auto_tick(#[trigger] s.transitions@[k])
                && s.transitions@[k].to@ == v,
        None => false,
    }
}

pub open spec fn is_path(states: Seq<StateSource>, p: Seq<Seq<char>>) -> bool {
    forall|i: int| #![trigger p[i]] 0 <= i < p.len() - 1 ==> edge(states, p[i], p[i + 1])
}

pub open spec fn is_auto_path(states: Seq<StateSource>, p: Seq<Seq<char>>) -> bool {
    forall|i: int| #![trigger p[i]] 0 <= i < p.len() - 1 ==> auto_edge(states, p[i], p[i + 1])
}

/// The state named `x` lies on a cycle of `AUTO_TICK` transitions.
pub open spec fn on_auto_cycle(states: Seq<StateSource>, x: Seq<char>) -> bool {
    exists|p: Seq<Seq<char>>|
        #![trigger is_auto_path(states, p)]
        p.len() >= 2 && p[0] == x && p.last() == x && is_auto_path(states, p)
}

/// Some state lies on a cycle of `AUTO_TICK` transitions.
pub open spec fn has_auto_cycle(states: Seq<StateSource>) -> bool {
    exists|x: Seq<char>| on_auto_cycle(states, x)
}

/// The name `n` is reached from `start` along transitions.
pub open spec fn reachable(states: Seq<StateSource>, start: Seq<char>, n: Seq<char>) -> bool {
    exists|p: Seq<Seq<char>>|
        #![trigger is_path(states, p)]
        p.len() >= 1 && p[0] == start && p.last() == n && is_path(states, p)
}

/// The message of an `AUTO_TICK` cycle through the state named `x`.
pub open spec fn auto_cycle_message(x: Seq<char>) -> Seq<char> {
    "AUTO_TICK cycle detected involving state '"@ + x + "'"@
}

/// Every name a law mentions: its states' names and their targets.
pub open spec fn universe(states: Seq<StateSource>) -> Seq<Seq<char>>
    decreases states.len(),
{
    if states.len() == 0 {
        Seq::empty()
    } else {
        universe(states.drop_last()).push(states.last().name@) + states.last().transitions@.map_values(
            |t: TransitionSource| t.to@,
        )
    }
}

proof fn lemma_universe(states: Seq<StateSource>)
    ensures
        forall|i: int| 0 <= i < states.len() ==> universe(states).contains(#[trigger] states[i].name@),
        forall|i: int, k: int|
            0 <= i < states.len() && 0 <= k < states[i].transitions@.len() ==> universe(
                states,
            ).contains(#[trigger] states[i].transitions@[k].to@),
    decreases states.len(),
{
    if states.len() > 0 {
        let p = states.drop_last();
        lemma_universe(p);
        let u = universe(states);
        let up = universe(p);
        let last = states.last();
        let tail = last.transitions@.map_values(|t: TransitionSource| t.to@);
        assert(u == up.push(last.name@) + tail);
        assert forall|i: int| 0 <= i < states.len() implies u.contains(#[trigger] states[i].name@) by {
            if i < states.len() - 1 {
                assert(p[i] == states[i]);
                let j = choose|j: int| 0 <= j < up.len() && up[j] == p[i].name@;
                assert(u[j] == up[j]);
            } else {
                assert(u[up.len() as int] == last.name@);
            }
        }
        assert forall|i: int, k: int|
            0 <= i < states.len() && 0 <= k < states[i].transitions@.len() implies u.contains(
                #[trigger] states[i].transitions@[k].to@,
            ) by {
            if i < states.len() - 1 {
                assert(p[i] == states[i]);
                assert(up.contains(p[i].transitions@[k].to@));
                let j = choose|j: int| 0 <= j < up.len() && up[j] == p[i].transitions@[k].to@;
                assert(u[j] == up[j]);
            } else {
                assert(u[up.len() + 1 + k] == tail[k]);
            }
        }
    }
}

pub open spec fn names_of(v: Seq<String>) -> Seq<Seq<char>> {
    v.map_values(|s: String| s@)
}

proof fn lemma_unique_within(s: Seq<Seq<char>>, u: Seq<Seq<char>>)
    requires
        s.no_duplicates(),
        forall|i: int| 0 <= i < s.len() ==> u.contains(#[trigger] s[i]),
    ensures
        s.len() <= u.len(),
{
    s.unique_seq_to_set();
    u.lemma_cardinality_of_set();
    vstd::seq_lib::seq_to_set_is_finite(u);
    assert(s.to_set().subset_of(u.to_set())) by {
        assert forall|x: Seq<char>| s.to_set().contains(x) implies u.to_set().contains(x) by {
            let i = choose|i: int| 0 <= i < s.len() && s[i] == x;
            assert(u.contains(s[i]));
        }
    }
    vstd::set_lib::lemma_len_subset(s.to_set(), u.to_set());
}

pub(crate) fn holds_name(v: &Vec<String>, name: &str) -> (r: bool)
    ensures
        r == names_of(v@).contains(name@),
{
    let mut i: usize = 0;
    while i < v.len()
        invariant
            i <= v.len(),
            forall|j: int| 0 <= j < i ==> #[trigger] names_of(v@)[j] != name@,
        decreases v.len() - i,
    {
        if str_eq(v[i].as_str(), name) {
            assert(names_of(v@)[i as int] == name@);
            return true;
        }
        i = i + 1;
    }
    false
}

/// Every successor of a finished name finished before it.
pub open spec fn finished_in_order(states: Seq<StateSource>, done: Seq<Seq<char>>) -> bool {
    forall|i: int, v: Seq<char>|
        0 <= i < done.len() && #[trigger] auto_edge(states, done[i], v) ==> exists|j: int|
            0 <= j < i && done[j] == v
}

pub open spec fn prefix_of(a: Seq<Seq<char>>, b: Seq<Seq<char>>) -> bool {
    a.len() <= b.len() && forall|i: int| 0 <= i < a.len() ==> #[trigger] a[i] == b[i]
}

pub open spec fn disjoint_names(a: Seq<Seq<char>>, b: Seq<Seq<char>>) -> bool {
    forall|x: Seq<char>| a.contains(x) ==> !b.contains(x)
}

/// Where a depth-first search for `AUTO_TICK` cycles ends: with the names
/// it has finished, in the order it finished them, or at the state where it
/// met a name it was still expanding.
pub enum DfsOutcome {
    Done(Seq<Seq<char>>),
    Cycle(Seq<char>),
}

/// The search from the name `n`, while `visiting` is being expanded and
/// `visited` is finished; `fuel` bounds the depth.
pub open spec fn dfs_from(
    states: Seq<StateSource>,
    n: Seq<char>,
    visiting: Seq<Seq<char>>,
    visited: Seq<Seq<char>>,
    fuel: nat,
) -> DfsOutcome
    decreases fuel, 0int, 0int,
{
    if visited.contains(n) {
        DfsOutcome::Done(visited)
    } else if visiting.contains(n) {
        DfsOutcome::Cycle(n)
    } else if fuel == 0 {
        DfsOutcome::Done(visited)
    } else {
        match state_named(states, n) {
            None => DfsOutcome::Done(visited.push(n)),
            Some(s) => match dfs_children(
                states,
                s.transitions@,
                0,
                visiting.push(n),
                visited,
                (fuel - 1) as nat,
            ) {
                DfsOutcome::Done(v) => DfsOutcome::Done(v.push(n)),
                DfsOutcome::Cycle(x) => DfsOutcome::Cycle(x),
            },
        }
    }
}

/// The search through the targets of the `AUTO_TICK` transitions among
/// `ts`, from the `k`th on.
pub open spec fn dfs_children(
    states: Seq<StateSource>,
    ts: Seq<TransitionSource>,
    k: nat,
    visiting: Seq<Seq<char>>,
    visited: Seq<Seq<char>>,
    fuel: nat,
) -> DfsOutcome
    decreases fuel, 1int, ts.len() - k,
{
    if k >= ts.len() {
        DfsOutcome::Done(visited)
    } else if is_auto_tick(ts[k as int]) {
        match dfs_from(states, ts[k as int].to@, visiting, visited, fuel) {
            DfsOutcome::Done(v) => dfs_children(states, ts, k + 1, visiting, v, fuel),
            DfsOutcome::Cycle(x) => DfsOutcome::Cycle(x),
        }
    } else {
        dfs_children(states, ts, k + 1, visiting, visited, fuel)
    }
}

/// The search from each state in turn, from the `i`th on.
pub open spec fn roots_search(states: Seq<StateSource>, i: nat, visited: Seq<Seq<char>>) -> DfsOutcome
    decreases states.len() - i,
{
    if i >= states.len() {
        DfsOutcome::Done(visited)
    } else {
        match dfs_from(states, states[i as int].name@, Seq::empty(), visited, universe(states).len()) {
            DfsOutcome::Done(v) => roots_search(states, i + 1, v),
            DfsOutcome::Cycle(x) => DfsOutcome::Cycle(x),
        }
    }
}

/// The state at which the search from the states of a law, in order,
/// first meets an `AUTO_TICK` cycle.
pub open spec fn auto_tick_cycle_state(states: Seq<StateSource>) -> Option<Seq<char>> {
    match roots_search(states, 0, Seq::empty()) {
        DfsOutcome::Cycle(x) => Some(x),
        DfsOutcome::Done(_) => None,
    }
}

fn dfs(
    states: &Vec<StateSource>,
    name: &str,
    visiting: &mut Vec<String>,
    visited: &mut Vec<String>,
    Ghost(u): Ghost<Seq<Seq<char>>>,
) -> (r: Result<(), CompileError>)
    requires
        u == universe(states@),
        u.contains(name@),
        forall|i: int| 0 <= i < old(visiting)@.len() ==> u.contains(#[trigger] names_of(old(visiting)@)[i]),
        names_of(old(visiting)@).no_duplicates(),
        names_of(old(visited)@).no_duplicates(),
        is_auto_path(states@, names_of(old(visiting)@)),
        old(visiting)@.len() > 0 ==> auto_edge(states@, names_of(old(visiting)@).last(), name@),
        disjoint_names(names_of(old(visiting)@), names_of(old(visited)@)),
        finished_in_order(states@, names_of(old(visited)@)),
    ensures
        match r {
            Ok(()) => {
                &&& dfs_from(
                    states@,
                    name@,
                    names_of(old(visiting)@),
                    names_of(old(visited)@),
                    (u.len() - old(visiting)@.len()) as nat,
                ) == DfsOutcome::Done(names_of(final(visited)@))
                &&& final(visiting)@ == old(visiting)@
                &&& prefix_of(names_of(old(visited)@), names_of(final(visited)@))
                &&& names_of(final(visited)@).contains(name@)
                &&& names_of(final(visited)@).no_duplicates()
                &&& disjoint_names(names_of(final(visiting)@), names_of(final(visited)@))
                &&& finished_in_order(states@, names_of(final(visited)@))
            },
            Err(e) => dfs_from(
                states@,
                name@,
                names_of(old(visiting)@),
                names_of(old(visited)@),
                (u.len() - old(visiting)@.len()) as nat,
            ) matches DfsOutcome::Cycle(x) && e@ == CompileErrorV::InvalidLaw(auto_cycle_message(x))
                && on_auto_cycle(states@, x),
        },
    decreases u.len() - old(visiting)@.len(),
{
    if holds_name(visited, name) {
        return Ok(());
    }
    if holds_name(visiting, name) {
        let ghost s = names_of(visiting@);
        proof {
            let i = choose|i: int| 0 <= i < s.len() && s[i] == name@;
            let p = s.subrange(i, s.len() as int).push(name@);
            assert forall|j: int| #![trigger p[j]] 0 <= j < p.len() - 1 implies auto_edge(
                states@,
                p[j],
                p[j + 1],
            ) by {
                if j < p.len() - 2 {
                    assert(p[j] == s[i + j]);
                    assert(p[j + 1] == s[i + j + 1]);
                    assert(auto_edge(states@, s[i + j], s[i + j + 1]));
                } else {
                    assert(p[j] == s.last());
                }
            }
            assert(is_auto_path(states@, p));
            assert(on_auto_cycle(states@, name@));
        }
        return Err(
            CompileError::InvalidLaw(concat3("AUTO_TICK cycle detected involving state '", name, "'")),
        );
    }
    let ghost vis0 = names_of(visiting@);
    let ghost vd0 = names_of(visited@);
    proof {
        lemma_unique_within(vis0.push(name@), u);
    }
    let ghost vv0 = visiting@;
    let owned = name.to_owned();
    let ghost og = owned;
    visiting.push(owned);
    assert(names_of(visiting@) =~= vis0.push(name@));
    match find_state(states, name) {
        Some(state) => {
            proof {
                lemma_state_named(states@, name@);
                lemma_universe(states@);
            }
            let ghost done0 = names_of(visited@);
            let ghost f1: nat = (u.len() - vis0.len() - 1) as nat;
            let ghost ts = state.transitions@;
            let ghost inner = dfs_children(states@, ts, 0, vis0.push(name@), done0, f1);
            let mut k: usize = 0;
            while k < state.transitions.len()
                invariant
                    k <= state.transitions.len(),
                    ts == state.transitions@,
                    inner == dfs_children(states@, ts, 0, vis0.push(name@), done0, f1),
                    inner == dfs_children(states@, ts, k as nat, vis0.push(name@), names_of(visited@), f1),
                    f1 == (u.len() - vis0.len() - 1) as nat,
                    vis0 == names_of(old(visiting)@),
                    done0 == vd0,
                    vd0 == names_of(old(visited)@),
                    !vd0.contains(name@),
                    !vis0.contains(name@),
                    u == universe(states@),
                    state_named(states@, name@) == Some(*state),
                    exists|i: int| 0 <= i < states@.len() && states@[i] == *state,
                    forall|i: int, kk: int|
                        0 <= i < states@.len() && 0 <= kk < states@[i].transitions@.len() ==> u.contains(
                            #[trigger] states@[i].transitions@[kk].to@,
                        ),
                    names_of(visiting@) == vis0.push(name@),
                    visiting@ == vv0.push(og),
                    vis0.len() + 1 <= u.len(),
                    vv0.len() == vis0.len(),
                    vv0 == old(visiting)@,
                    vis0.push(name@).no_duplicates(),
                    forall|i: int| 0 <= i < vis0.push(name@).len() ==> u.contains(#[trigger] vis0.push(name@)[i]),
                    is_auto_path(states@, vis0.push(name@)),
                    names_of(visited@).no_duplicates(),
                    prefix_of(done0, names_of(visited@)),
                    disjoint_names(names_of(visiting@), names_of(visited@)),
                    finished_in_order(states@, names_of(visited@)),
                    forall|kk: int|
                        0 <= kk < k && is_auto_tick(#[trigger] state.transitions@[kk]) ==> names_of(
                            visited@,
                        ).contains(state.transitions@[kk].to@),
                decreases state.transitions.len() - k,
            {
                let t = &state.transitions[k];
                if str_eq(t.action.as_str(), "AUTO_TICK") {
                    proof {
                        let i = choose|i: int| 0 <= i < states@.len() && states@[i] == *state;
                        assert(u.contains(states@[i].transitions@[k as int].to@));
                        assert(auto_edge(states@, name@, t.to@));
                        assert(names_of(visiting@).last() == name@);
                    }
                    let ghost before = names_of(visited@);
                    proof {
                        assert(names_of(visiting@).len() == vis0.len() + 1);
                    }
                    match dfs(states, t.to.as_str(), visiting, visited, Ghost(u)) {
                        Ok(()) => {},
                        Err(e) => {
                            proof {
                                assert(is_auto_tick(ts[k as int]));
                                assert(dfs_children(states@, ts, k as nat, vis0.push(name@), before, f1)
                                    == dfs_children(states@, ts, k as nat, vis0.push(name@), before, f1));
                                assert(inner is Cycle);
                                assert(u.len() - old(visiting)@.len() == f1 + 1);
                            }
                            return Err(e);
                        },
                    }
                    proof {
                        assert(is_auto_tick(ts[k as int]));
                        assert(inner == dfs_children(states@, ts, (k + 1) as nat, vis0.push(name@), names_of(visited@), f1));
                        assert(prefix_of(done0, names_of(visited@))) by {
                            assert forall|j: int| 0 <= j < done0.len() implies #[trigger] done0[j] == names_of(visited@)[j] by {
                                assert(done0[j] == before[j]);
                            }
                        }
                        assert forall|kk: int|
                            0 <= kk <= k && is_auto_tick(#[trigger] state.transitions@[kk]) implies names_of(
                                visited@,
                            ).contains(state.transitions@[kk].to@) by {
                            if kk < k {
                                let j = choose|j: int| 0 <= j < before.len() && before[j] == state.transitions@[kk].to@;
                                assert(names_of(visited@)[j] == before[j]);
                            }
                        }
                    }
                } else {
                    proof {
                        assert(!is_auto_tick(ts[k as int]));
                    }
                }
                k = k + 1;
            }
            proof {
                assert(inner == DfsOutcome::Done(names_of(visited@)));
            }
        },
        None => {},
    }
    let ghost done1 = names_of(visited@);
    assert(prefix_of(vd0, done1));
    assert(visiting@ == vv0.push(og));
    visiting.pop();
    assert(visiting@ =~= vv0);
    assert(names_of(visiting@) =~= vis0);
    visited.push(name.to_owned());
    proof {
        let d = names_of(visited@);
        assert(d =~= done1.push(name@));
        assert(!done1.contains(name@)) by {
            assert(vis0.push(name@).contains(name@)) by {
                assert(vis0.push(name@)[vis0.len() as int] == name@);
            }
        }
        assert forall|i: int, v: Seq<char>|
            0 <= i < d.len() && #[trigger] auto_edge(states@, d[i], v) implies exists|j: int|
                0 <= j < i && d[j] == v by {
            if i < done1.len() {
                assert(d[i] == done1[i]);
                let j = choose|j: int| 0 <= j < i && done1[j] == v;
                assert(d[j] == done1[j]);
            } else {
                assert(d[i] == name@);
                lemma_state_named(states@, name@);
                let s = state_named(states@, name@)->Some_0;
                let kk = choose|kk: int|
                    0 <= kk < s.transitions@.len() && is_auto_tick(#[trigger] s.transitions@[kk])
                        && s.transitions@[kk].to@ == v;
                assert(done1.contains(v));
                let j = choose|j: int| 0 <= j < done1.len() && done1[j] == v;
                assert(d[j] == done1[j]);
            }
        }
        assert(d.contains(name@)) by {
            assert(d[done1.len() as int] == name@);
        }
        assert forall|x: Seq<char>| names_of(visiting@).contains(x) implies !d.contains(x) by {
            if d.contains(x) {
                let j = choose|j: int| 0 <= j < d.len() && d[j] == x;
                if j < done1.len() {
                    assert(done1[j] == x);
                    assert(vis0.push(name@).contains(x)) by {
                        let a = choose|a: int| 0 <= a < vis0.len() && vis0[a] == x;
                        assert(vis0.push(name@)[a] == x);
                    }
                } else {
                    assert(vis0.push(name@).no_duplicates());
                    let a = choose|a: int| 0 <= a < vis0.len() && vis0[a] == x;
                    assert(vis0.push(name@)[a] == vis0.push(name@)[vis0.len() as int]);
                }
            }
        }
        assert forall|a: int, b: int| 0 <= a < d.len() && 0 <= b < d.len() && a != b implies d[a] != d[b] by {
            if a < done1.len() && b < done1.len() {
            } else if a < done1.len() {
                assert(done1.contains(d[a]));
            } else if b < done1.len() {
                assert(done1.contains(d[b]));
            }
        }
        assert(prefix_of(vd0, d)) by {
            assert forall|j: int| 0 <= j < vd0.len() implies #[trigger] vd0[j] == d[j] by {
                assert(d[j] == done1[j]);
            }
        }
    }
    Ok(())
}

proof fn lemma_path_ranks(states: Seq<StateSource>, done: Seq<Seq<char>>, p: Seq<Seq<char>>, a: int, i: int)
    requires
        finished_in_order(states, done),
        0 <= a < done.len(),
        p.len() >= 2,
        done[a] == p[0],
        is_auto_path(states, p),
        1 <= i < p.len(),
    ensures
        exists|b: int| 0 <= b < a && done[b] == p[i],
    decreases i,
{
    if i == 1 {
        assert(auto_edge(states, p[0], p[1]));
        assert(auto_edge(states, done[a], p[1]));
    } else {
        lemma_path_ranks(states, done, p, a, i - 1);
        let b1 = choose|b: int| 0 <= b < a && done[b] == p[i - 1];
        assert(auto_edge(states, p[i - 1], p[i]));
        assert(auto_edge(states, done[b1], p[i]));
        let b = choose|j: int| 0 <= j < b1 && done[j] == p[i];
    }
}

proof fn lemma_no_auto_cycle(states: Seq<StateSource>, done: Seq<Seq<char>>)
    requires
        finished_in_order(states, done),
        done.no_duplicates(),
        forall|i: int| 0 <= i < states.len() ==> done.contains(#[trigger] states[i].name@),
    ensures
        !has_auto_cycle(states),
{
    if has_auto_cycle(states) {
        let x = choose|x: Seq<char>| on_auto_cycle(states, x);
        let p = choose|p: Seq<Seq<char>>|
            #![trigger is_auto_path(states, p)]
            p.len() >= 2 && p[0] == x && p.last() == x && is_auto_path(states, p);
        assert(auto_edge(states, p[0], p[1]));
        lemma_state_named(states, p[0]);
        let i = choose|i: int| 0 <= i < states.len() && (#[trigger] states[i]).name@ == p[0];
        assert(done.contains(states[i].name@));
        let a = choose|a: int| 0 <= a < done.len() && done[a] == p[0];
        lemma_path_ranks(states, done, p, a, p.len() - 1);
        let b = choose|b: int| 0 <= b < a && done[b] == p[p.len() - 1];
        assert(done[b] == done[a]);
    }
}

/// Checks that no state lies on a cycle of `AUTO_TICK` transitions.
pub fn validate_auto_tick_cycles(law: &LawSource) -> (r: Result<(), CompileError>)
    ensures
        r is Ok <==> !has_auto_cycle(law.states@),
        r is Ok <==> auto_tick_cycle_state(law.states@) is None,
        r matches Err(e) ==> auto_tick_cycle_state(law.states@) matches Some(x) && e@
            == CompileErrorV::InvalidLaw(auto_cycle_message(x)) && on_auto_cycle(law.states@, x),
{
    let ghost u = universe(law.states@);
    proof {
        lemma_universe(law.states@);
    }
    let mut visiting: Vec<String> = Vec::new();
    let mut visited: Vec<String> = Vec::new();
    let mut i: usize = 0;
    proof {
        assert(names_of(visiting@) =~= Seq::<Seq<char>>::empty());
        assert(names_of(visited@) =~= Seq::<Seq<char>>::empty());
    }
    assert(u.len() - visiting@.len() == universe(law.states@).len());
    while i < law.states.len()
        invariant
            i <= law.states.len(),
            u == universe(law.states@),
            forall|k: int| 0 <= k < law.states@.len() ==> u.contains(#[trigger] law.states@[k].name@),
            visiting@.len() == 0,
            names_of(visited@).no_duplicates(),
            finished_in_order(law.states@, names_of(visited@)),
            forall|k: int| 0 <= k < i ==> names_of(visited@).contains(#[trigger] law.states@[k].name@),
            roots_search(law.states@, 0, Seq::empty()) == roots_search(law.states@, i as nat, names_of(visited@)),
        decreases law.states.len() - i,
    {
        let ghost before = names_of(visited@);
        proof {
            assert(names_of(visiting@) =~= Seq::<Seq<char>>::empty());
        }
        match dfs(&law.states, law.states[i].name.as_str(), &mut visiting, &mut visited, Ghost(u)) {
            Ok(()) => {},
            Err(e) => {
                proof {
                    assert(roots_search(law.states@, i as nat, before) is Cycle);
                }
                return Err(e);
            },
        }
        proof {
            assert forall|k: int| 0 <= k <= i implies names_of(visited@).contains(#[trigger] law.states@[k].name@) by {
                if k < i {
                    let j = choose|j: int| 0 <= j < before.len() && before[j] == law.states@[k].name@;
                    assert(names_of(visited@)[j] == before[j]);
                }
            }
        }
        i = i + 1;
    }
    proof {
        lemma_no_auto_cycle(law.states@, names_of(visited@));
        assert(roots_search(law.states@, i as nat, names_of(visited@)) is Done);
    }
    Ok(())
}

/// The warning for a state that cannot be reached.
pub open spec fn unreachable_message(n: Seq<char>) -> Seq<char> {
    "state '"@ + n + "' is unreachable"@
}

/// The warnings for the states of `prefix` that cannot be reached from
/// `start` in the graph of `states`, in order.
pub open spec fn unreachable_warnings(
    states: Seq<StateSource>,
    start: Seq<char>,
    prefix: Seq<StateSource>,
) -> Seq<Seq<char>>
    decreases prefix.len(),
{
    if prefix.len() == 0 {
        Seq::empty()
    } else {
        let rest = unreachable_warnings(states, start, prefix.drop_last());
        if reachable(states, start, prefix.last().name@) {
            rest
        } else {
            rest.push(unreachable_message(prefix.last().name@))
        }
    }
}

proof fn lemma_path_extend(states: Seq<StateSource>, p: Seq<Seq<char>>, v: Seq<char>)
    requires
        p.len() >= 1,
        is_path(states, p),
        edge(states, p.last(), v),
    ensures
        is_path(states, p.push(v)),
{
    let q = p.push(v);
    assert forall|i: int| #![trigger q[i]] 0 <= i < q.len() - 1 implies edge(states, q[i], q[i + 1]) by {
        if i < p.len() - 1 {
            assert(q[i] == p[i]);
            assert(q[i + 1] == p[i + 1]);
            assert(edge(states, p[i], p[i + 1]));
        } else {
            assert(q[i] == p.last());
        }
    }
}

proof fn lemma_closed_reach(states: Seq<StateSource>, done: Seq<Seq<char>>, p: Seq<Seq<char>>, i: int)
    requires
        forall|j: int, v: Seq<char>|
            0 <= j < done.len() && #[trigger] edge(states, done[j], v) ==> done.contains(v),
        p.len() >= 1,
        done.contains(p[0]),
        is_path(states, p),
        0 <= i < p.len(),
    ensures
        done.contains(p[i]),
    decreases i,
{
    if i > 0 {
        lemma_closed_reach(states, done, p, i - 1);
        let j = choose|j: int| 0 <= j < done.len() && done[j] == p[i - 1];
        assert(edge(states, p[i - 1], p[i]));
        assert(edge(states, done[j], p[i]));
    }
}

/// Warns of each state that no chain of transitions leads to from the
/// initial state.
pub fn find_unreachable_states(law: &LawSource) -> (r: Vec<String>)
    ensures
        names_of(r@) == unreachable_warnings(law.states@, law.initial_state@, law.states@),
{
    let ghost states = law.states@;
    let ghost start = law.initial_state@;
    let ghost u = universe(states).push(start);
    proof {
        lemma_universe(states);
        assert forall|i: int, k: int|
            0 <= i < states.len() && 0 <= k < states[i].transitions@.len() implies u.contains(
                #[trigger] states[i].transitions@[k].to@,
            ) by {
            let j = choose|j: int| 0 <= j < universe(states).len() && universe(states)[j] == states[i].transitions@[k].to@;
            assert(u[j] == universe(states)[j]);
        }
        assert(u[u.len() - 1] == start);
        let p0 = seq![start];
        assert(is_path(states, p0));
        assert(reachable(states, start, start));
    }
    let mut visited: Vec<String> = Vec::new();
    let mut queue: Vec<String> = Vec::new();
    queue.push(law.initial_state.clone());
    let mut head: usize = 0;
    proof {
        assert(names_of(visited@) =~= Seq::<Seq<char>>::empty());
        assert(names_of(queue@)[0] == start);
    }
    while head < queue.len()
        invariant
            head <= queue.len(),
            states == law.states@,
            start == law.initial_state@,
            u == universe(states).push(start),
            forall|i: int, k: int|
                0 <= i < states.len() && 0 <= k < states[i].transitions@.len() ==> u.contains(
                    #[trigger] states[i].transitions@[k].to@,
                ),
            names_of(visited@).no_duplicates(),
            forall|j: int| 0 <= j < visited@.len() ==> u.contains(#[trigger] names_of(visited@)[j]),
            forall|j: int| 0 <= j < queue@.len() ==> u.contains(#[trigger] names_of(queue@)[j]),
            forall|j: int|
                0 <= j < visited@.len() ==> reachable(states, start, #[trigger] names_of(visited@)[j]),
            forall|j: int|
                head <= j < queue@.len() ==> reachable(states, start, #[trigger] names_of(queue@)[j]),
            names_of(visited@).contains(start) || exists|j: int|
                head <= j < queue@.len() && #[trigger] names_of(queue@)[j] == start,
            forall|j: int, v: Seq<char>|
                0 <= j < visited@.len() && #[trigger] edge(states, names_of(visited@)[j], v)
                    ==> names_of(visited@).contains(v) || exists|k: int|
                    head <= k < queue@.len() && #[trigger] names_of(queue@)[k] == v,
        decreases u.len() - visited@.len(), queue@.len() - head,
    {
        let name = queue[head].clone();
        let ghost q0 = names_of(queue@);
        let ghost h0 = head as int;
        proof {
            assert(name@ == q0[h0]);
            lemma_unique_within(names_of(visited@), u);
        }
        head = head + 1;
        if holds_name(&visited, name.as_str()) {
            proof {
                assert forall|j: int, v: Seq<char>|
                    0 <= j < visited@.len() && #[trigger] edge(states, names_of(visited@)[j], v)
                        implies names_of(visited@).contains(v) || exists|k: int|
                        head <= k < queue@.len() && #[trigger] names_of(queue@)[k] == v by {
                    if !names_of(visited@).contains(v) {
                        let k = choose|k: int| h0 <= k < queue@.len() && #[trigger] names_of(queue@)[k] == v;
                        assert(k != h0);
                    }
                }
                if !names_of(visited@).contains(start) {
                    let k = choose|k: int| h0 <= k < queue@.len() && #[trigger] names_of(queue@)[k] == start;
                    assert(k != h0);
                }
            }
            continue;
        }
        let ghost vis0 = names_of(visited@);
        proof {
            assert(reachable(states, start, name@));
            assert(u.contains(name@));
            lemma_unique_within(vis0.push(name@), u);
        }
        match find_state(&law.states, name.as_str()) {
            Some(state) => {
                proof {
                    lemma_state_named(states, name@);
                }
                let mut k: usize = 0;
                while k < state.transitions.len()
                    invariant
                        k <= state.transitions.len(),
                        head <= queue.len(),
                        head == h0 + 1,
                        states == law.states@,
                        state_named(states, name@) == Some(*state),
                        exists|i: int| 0 <= i < states.len() && states[i] == *state,
                        reachable(states, start, name@),
                        forall|i: int, kk: int|
                            0 <= i < states.len() && 0 <= kk < states[i].transitions@.len() ==> u.contains(
                                #[trigger] states[i].transitions@[kk].to@,
                            ),
                        prefix_of(q0, names_of(queue@)),
                        forall|j: int| 0 <= j < queue@.len() ==> u.contains(#[trigger] names_of(queue@)[j]),
                        forall|j: int|
                            head <= j < queue@.len() ==> reachable(states, start, #[trigger] names_of(queue@)[j]),
                        forall|kk: int|
                            0 <= kk < k ==> exists|j: int|
                                head <= j < queue@.len() && #[trigger] names_of(queue@)[j]
                                    == (#[trigger] state.transitions@[kk]).to@,
                    decreases state.transitions.len() - k,
                {
                    let ghost qb = names_of(queue@);
                    let to = state.transitions[k].to.clone();
                    proof {
                        let i = choose|i: int| 0 <= i < states.len() && states[i] == *state;
                        assert(u.contains(states[i].transitions@[k as int].to@));
                        let p = choose|p: Seq<Seq<char>>|
                            #![trigger is_path(states, p)]
                            p.len() >= 1 && p[0] == start && p.last() == name@ && is_path(states, p);
                        assert(edge(states, name@, to@));
                        lemma_path_extend(states, p, to@);
                        assert(p.push(to@).last() == to@);
                        assert(reachable(states, start, to@));
                    }
                    queue.push(to);
                    proof {
                        let qn = names_of(queue@);
                        assert(qn =~= qb.push(state.transitions@[k as int].to@));
                        assert forall|kk: int|
                            0 <= kk <= k implies exists|j: int|
                                head <= j < queue@.len() && #[trigger] names_of(queue@)[j]
                                    == (#[trigger] state.transitions@[kk]).to@ by {
                            if kk < k {
                                let j = choose|j: int|
                                    head <= j < qb.len() && #[trigger] qb[j] == state.transitions@[kk].to@;
                                assert(qn[j] == qb[j]);
                            } else {
                                assert(qn[qb.len() as int] == state.transitions@[kk].to@);
                            }
                        }
                        assert forall|j: int| 0 <= j < q0.len() implies #[trigger] q0[j] == qn[j] by {
                            assert(q0[j] == qb[j]);
                        }
                    }
                    k = k + 1;
                }
                proof {
                    assert forall|v: Seq<char>| #[trigger] edge(states, name@, v) implies exists|j: int|
                        head <= j < queue@.len() && #[trigger] names_of(queue@)[j] == v by {
                        let kk = choose|kk: int|
                            0 <= kk < state.transitions@.len() && (#[trigger] state.transitions@[kk]).to@ == v;
                    }
                }
            },
            None => {
                proof {
                    assert(prefix_of(q0, names_of(queue@)));
                }
            },
        }
        let ghost qn = names_of(queue@);
        visited.push(name);
        proof {
            let d = names_of(visited@);
            assert(d =~= vis0.push(name@));
            assert(d[vis0.len() as int] == name@);
            assert forall|j: int, v: Seq<char>|
                0 <= j < d.len() && #[trigger] edge(states, d[j], v) implies d.contains(v) || exists|k: int|
                    head <= k < qn.len() && #[trigger] qn[k] == v by {
                if j < vis0.len() {
                    assert(d[j] == vis0[j]);
                    if vis0.contains(v) {
                        let a = choose|a: int| 0 <= a < vis0.len() && vis0[a] == v;
                        assert(d[a] == vis0[a]);
                    } else {
                        let k = choose|k: int| h0 <= k < q0.len() && #[trigger] q0[k] == v;
                        assert(qn[k] == q0[k]);
                        if k == h0 {
                            assert(d.contains(v));
                        }
                    }
                }
            }
            assert forall|j: int| 0 <= j < d.len() implies reachable(states, start, #[trigger] d[j]) by {
                if j < vis0.len() {
                    assert(d[j] == vis0[j]);
                }
            }
            assert forall|j: int| 0 <= j < d.len() implies u.contains(#[trigger] d[j]) by {
                if j < vis0.len() {
                    assert(d[j] == vis0[j]);
                }
            }
            assert forall|j: int| head <= j < qn.len() implies reachable(states, start, #[trigger] qn[j]) by {
                if j < q0.len() {
                    assert(qn[j] == q0[j]);
                }
            }
            if !d.contains(start) {
                if vis0.contains(start) {
                    let a = choose|a: int| 0 <= a < vis0.len() && vis0[a] == start;
                    assert(d[a] == vis0[a]);
                }
                let k = choose|k: int| h0 <= k < q0.len() && #[trigger] q0[k] == start;
                assert(qn[k] == q0[k]);
            }
        }
    }
    let ghost done = names_of(visited@);
    proof {
        assert forall|n: Seq<char>| reachable(states, start, n) implies #[trigger] done.contains(n) by {
            let p = choose|p: Seq<Seq<char>>|
                #![trigger is_path(states, p)]
                p.len() >= 1 && p[0] == start && p.last() == n && is_path(states, p);
            lemma_closed_reach(states, done, p, p.len() - 1);
        }
        assert forall|n: Seq<char>| #[trigger] done.contains(n) implies reachable(states, start, n) by {
            let j = choose|j: int| 0 <= j < done.len() && done[j] == n;
        }
    }
    let mut out: Vec<String> = Vec::new();
    let mut i: usize = 0;
    proof {
        assert(names_of(out@) =~= Seq::<Seq<char>>::empty());
        assert(states.take(0) =~= Seq::<StateSource>::empty());
    }
    while i < law.states.len()
        invariant
            i <= law.states.len(),
            states == law.states@,
            done == names_of(visited@),
            forall|n: Seq<char>| #[trigger] done.contains(n) <==> reachable(states, start, n),
            names_of(out@) == unreachable_warnings(states, start, states.take(i as int)),
        decreases law.states.len() - i,
    {
        let ghost before = names_of(out@);
        proof {
            assert(states.take(i as int + 1).drop_last() =~= states.take(i as int));
            assert(states.take(i as int + 1).last() == states[i as int]);
        }
        if !holds_name(&visited, law.states[i].name.as_str()) {
            out.push(concat3("state '", law.states[i].name.as_str(), "' is unreachable"));
            assert(names_of(out@) =~= before.push(unreachable_message(states[i as int].name@)));
        }
        i = i + 1;
    }
    proof {
        assert(states.take(states.len() as int) =~= states);
    }
    out
}

} // verus!
