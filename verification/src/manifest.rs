//! State manifests: what the host must load before a turn from each state.
use vstd::prelude::*;

use crate::json::{
    key_index, lemma_key_index_absent, lemma_key_index_bounds, lemma_key_index_found, lookup,
    str_eq, JsonMap, JsonV,
};
use crate::law::{GuardSource, LawSource, StateSource, TransitionSource};
use crate::registry::{
    build_result, builtin_factory, get_str_param, get_u64_param, guard_requirements, str_param,
    u64_param, GuardFactory,
};
use crate::types::{
    ContextRequirement, ContextRequirementV, GuardRequirementsV, HistoryRequirement,
    HistoryRequirementV, StateManifest, StateManifestV,
};

verus! {

/// `s` with `x` appended, unless `s` already holds it.
pub open spec fn push_unique<T>(s: Seq<T>, x: T) -> Seq<T> {
    if s.contains(x) {
        s
    } else {
        s.push(x)
    }
}

/// `s` with each element of `xs` appended in turn, unless `s` holds it
/// already.
pub open spec fn add_all<T>(s: Seq<T>, xs: Seq<T>) -> Seq<T>
    decreases xs.len(),
{
    if xs.len() == 0 {
        s
    } else {
        push_unique(add_all(s, xs.drop_last()), xs.last())
    }
}

/// No element occurs twice.
pub open spec fn no_dups<T>(s: Seq<T>) -> bool {
    forall|i: int, j: int| 0 <= i < j < s.len() ==> s[i] != s[j]
}

/// The field named by the string parameter `key`, when there is one.
pub open spec fn path_need(params: Seq<(Seq<char>, JsonV)>, key: Seq<char>) -> Seq<
    ContextRequirementV,
> {
    match str_param(params, key) {
        Some(path) => seq![ContextRequirementV::Field(path)],
        None => Seq::empty(),
    }
}

/// The context a guard reads, in the order its guard type reads it: the
/// `path` of a `GreaterThan`, `Equals`, `Exists`, `MissingField`, `InSet` or
/// `NotInSet` guard, both paths of a `FieldsEqual` guard, and `sys.now` for a
/// `TimeElapsed` guard.
pub open spec fn guard_context_needs(g: GuardSource) -> Seq<ContextRequirementV> {
    let p = g.params@;
    match builtin_factory(g.guard_type@) {
        Some(GuardFactory::GreaterThan) => path_need(p, "path"@),
        Some(GuardFactory::Equals) => path_need(p, "path"@),
        Some(GuardFactory::TimeElapsed) => seq![ContextRequirementV::SystemField("sys.now"@)],
        Some(GuardFactory::FieldsEqual) => path_need(p, "left_path"@) + path_need(p, "right_path"@),
        Some(GuardFactory::Exists) => path_need(p, "path"@),
        Some(GuardFactory::MissingField) => path_need(p, "path"@),
        Some(GuardFactory::InSet) => path_need(p, "path"@),
        Some(GuardFactory::NotInSet) => path_need(p, "path"@),
        _ => Seq::empty(),
    }
}

/// The history a guard reads: the window of an `OccurredWithin` guard, the
/// last transition for a `TimeElapsed` guard.
pub open spec fn guard_history_needs(g: GuardSource) -> Seq<HistoryRequirementV> {
    let p = g.params@;
    match builtin_factory(g.guard_type@) {
        Some(GuardFactory::OccurredWithin) => match (
            str_param(p, "target_action"@),
            u64_param(p, "window_seconds"@),
        ) {
            (Some(action), Some(w)) => seq![
                HistoryRequirementV::EventsInWindow { action, duration_seconds: w },
            ],
            _ => Seq::empty(),
        },
        Some(GuardFactory::TimeElapsed) => seq![HistoryRequirementV::LastTransition],
        _ => Seq::empty(),
    }
}

/// The manifest every state starts from: the last transition, no fields.
pub open spec fn initial_manifest() -> StateManifestV {
    StateManifestV {
        history_requirements: seq![HistoryRequirementV::LastTransition],
        context_requirements: Seq::empty(),
    }
}

pub open spec fn manifest_step(m: StateManifestV, g: GuardSource) -> StateManifestV {
    StateManifestV {
        history_requirements: add_all(m.history_requirements, guard_history_needs(g)),
        context_requirements: add_all(m.context_requirements, guard_context_needs(g)),
    }
}

/// The guards of the transitions `ts`, in order.
pub open spec fn guards_of(ts: Seq<TransitionSource>) -> Seq<GuardSource>
    decreases ts.len(),
{
    if ts.len() == 0 {
        Seq::empty()
    } else {
        guards_of(ts.drop_last()) + ts.last().guards@
    }
}

pub open spec fn manifest_fold(gs: Seq<GuardSource>) -> StateManifestV
    decreases gs.len(),
{
    if gs.len() == 0 {
        initial_manifest()
    } else {
        manifest_step(manifest_fold(gs.drop_last()), gs.last())
    }
}

/// The manifest of one state: its guards' needs, each once, in the order the
/// guards come.
pub open spec fn state_manifest(s: StateSource) -> StateManifestV {
    manifest_fold(guards_of(s.transitions@))
}

/// `s` with `v` stored under `k`: in place of the entry of `k`, or appended.
pub open spec fn map_insert<V>(s: Seq<(Seq<char>, V)>, k: Seq<char>, v: V) -> Seq<(Seq<char>, V)> {
    if key_index(s, k) < s.len() {
        s.update(key_index(s, k), (k, v))
    } else {
        s.push((k, v))
    }
}

/// The manifests of a law, one per state name; a later state of the same
/// name replaces an earlier one.
pub open spec fn manifests_of(states: Seq<StateSource>) -> Seq<(Seq<char>, StateManifestV)>
    decreases states.len(),
{
    if states.len() == 0 {
        Seq::empty()
    } else {
        map_insert(
            manifests_of(states.drop_last()),
            states.last().name@,
            state_manifest(states.last()),
        )
    }
}

/// State manifests, keyed by state name.
#[derive(Clone, Debug)]
pub struct ManifestMap {
    pub entries: Vec<(String, StateManifest)>,
}

impl View for ManifestMap {
    type V = Seq<(Seq<char>, StateManifestV)>;

    open spec fn view(&self) -> Seq<(Seq<char>, StateManifestV)> {
        self.entries@.map_values(|e: (String, StateManifest)| (e.0@, e.1@))
    }
}

impl ManifestMap {
    /// No state name occurs twice.
    pub open spec fn well_formed(&self) -> bool {
        forall|i: int, j: int| 0 <= i < j < self@.len() ==> #[trigger] self@[i].0 != #[trigger] self@[j].0
    }

    pub fn new() -> (r: ManifestMap)
        ensures
            r@ == Seq::<(Seq<char>, StateManifestV)>::empty(),
            r.well_formed(),
    {
        let r = ManifestMap { entries: Vec::new() };
        assert(r@ =~= Seq::<(Seq<char>, StateManifestV)>::empty());
        r
    }

    pub fn len(&self) -> (r: usize)
        ensures
            r == self@.len(),
    {
        self.entries.len()
    }

    fn find(&self, key: &str) -> (r: usize)
        ensures
            r == key_index(self@, key@),
            r <= self.entries.len(),
    {
        let ghost v = self@;
        let mut i: usize = 0;
        while i < self.entries.len()
            invariant
                i <= self.entries.len(),
                v == self@,
                v.len() == self.entries.len(),
                forall|j: int| 0 <= j < i ==> #[trigger] v[j].0 != key@,
            decreases self.entries.len() - i,
        {
            assert(v[i as int].0 == self.entries@[i as int].0@);
            if str_eq(self.entries[i].0.as_str(), key) {
                proof {
                    lemma_key_index_found(v, key@, i as int);
                }
                return i;
            }
            i = i + 1;
        }
        proof {
            lemma_key_index_absent(v, key@);
        }
        i
    }

    /// The manifest stored for the state `key`.
    pub fn get(&self, key: &str) -> (r: Option<&StateManifest>)
        ensures
            match r {
                Some(m) => lookup(self@, key@) == Some(m@),
                None => lookup(self@, key@) is None,
            },
    {
        let i = self.find(key);
        if i < self.entries.len() {
            assert(self@[i as int].1 == self.entries@[i as int].1@);
            Some(&self.entries[i].1)
        } else {
            None
        }
    }

    pub fn contains_key(&self, key: &str) -> (r: bool)
        ensures
            r == lookup(self@, key@) is Some,
    {
        let i = self.find(key);
        i < self.entries.len()
    }

    /// Stores `m` for the state `key`, in place of any manifest stored for it.
    pub fn insert(&mut self, key: String, m: StateManifest)
        ensures
            final(self)@ == map_insert(old(self)@, key@, m@),
            old(self).well_formed() ==> final(self).well_formed(),
    {
        let i = self.find(key.as_str());
        proof {
            lemma_key_index_bounds(self@, key@);
        }
        let ghost kv = key@;
        let ghost mv = m@;
        if i < self.entries.len() {
            self.entries.set(i, (key, m));
            assert(self@ =~= old(self)@.update(i as int, (kv, mv)));
        } else {
            self.entries.push((key, m));
            assert(self@ =~= old(self)@.push((kv, mv)));
        }
    }

    /// A copy of the map.
    pub fn copy(&self) -> (r: ManifestMap)
        ensures
            r@ == self@,
    {
        let mut out: Vec<(String, StateManifest)> = Vec::new();
        let mut i: usize = 0;
        while i < self.entries.len()
            invariant
                i <= self.entries.len(),
                out.len() == i,
                forall|j: int|
                    0 <= j < i ==> (#[trigger] out@[j]).0@ == self.entries@[j].0@ && out@[j].1@
                        == self.entries@[j].1@,
            decreases self.entries.len() - i,
        {
            out.push((self.entries[i].0.clone(), copy_manifest(&self.entries[i].1)));
            i = i + 1;
        }
        let r = ManifestMap { entries: out };
        assert(r@ =~= self@);
        r
    }
}

fn copy_history(v: &Vec<HistoryRequirement>) -> (r: Vec<HistoryRequirement>)
    ensures
        r@.map_values(|h: HistoryRequirement| h@) == v@.map_values(|h: HistoryRequirement| h@),
{
    let mut out: Vec<HistoryRequirement> = Vec::new();
    let mut i: usize = 0;
    while i < v.len()
        invariant
            i <= v.len(),
            out.len() == i,
            forall|j: int| 0 <= j < i ==> (#[trigger] out@[j])@ == v@[j]@,
        decreases v.len() - i,
    {
        out.push(v[i].copy());
        i = i + 1;
    }
    assert(out@.map_values(|h: HistoryRequirement| h@) =~= v@.map_values(
        |h: HistoryRequirement| h@,
    ));
    out
}

fn copy_context(v: &Vec<ContextRequirement>) -> (r: Vec<ContextRequirement>)
    ensures
        r@.map_values(|c: ContextRequirement| c@) == v@.map_values(|c: ContextRequirement| c@),
{
    let mut out: Vec<ContextRequirement> = Vec::new();
    let mut i: usize = 0;
    while i < v.len()
        invariant
            i <= v.len(),
            out.len() == i,
            forall|j: int| 0 <= j < i ==> (#[trigger] out@[j])@ == v@[j]@,
        decreases v.len() - i,
    {
        out.push(v[i].copy());
        i = i + 1;
    }
    assert(out@.map_values(|c: ContextRequirement| c@) =~= v@.map_values(
        |c: ContextRequirement| c@,
    ));
    out
}

/// A copy of a manifest.
pub fn copy_manifest(m: &StateManifest) -> (r: StateManifest)
    ensures
        r@ == m@,
{
    StateManifest {
        history_requirements: copy_history(&m.history_requirements),
        context_requirements: copy_context(&m.context_requirements),
    }
}

/// The built-in guard type named `t`.
fn builtin_kind(t: &str) -> (r: Option<GuardFactory>)
    ensures
        r == builtin_factory(t@),
{
    if str_eq(t, "Default") {
        Some(GuardFactory::Default)
    } else if str_eq(t, "GreaterThan") {
        Some(GuardFactory::GreaterThan)
    } else if str_eq(t, "Equals") {
        Some(GuardFactory::Equals)
    } else if str_eq(t, "OccurredWithin") {
        Some(GuardFactory::OccurredWithin)
    } else if str_eq(t, "TimeElapsed") {
        Some(GuardFactory::TimeElapsed)
    } else if str_eq(t, "FieldsEqual") {
        Some(GuardFactory::FieldsEqual)
    } else if str_eq(t, "Exists") {
        Some(GuardFactory::Exists)
    } else if str_eq(t, "MissingField") {
        Some(GuardFactory::MissingField)
    } else if str_eq(t, "InSet") {
        Some(GuardFactory::InSet)
    } else if str_eq(t, "NotInSet") {
        Some(GuardFactory::NotInSet)
    } else {
        None
    }
}

/// Appends the field named by the string parameter `key`, when there is one.
fn push_path(params: &JsonMap, key: &str, out: &mut Vec<ContextRequirement>)
    ensures
        final(out)@.map_values(|c: ContextRequirement| c@) == old(out)@.map_values(
            |c: ContextRequirement| c@,
        ) + path_need(params@, key@),
{
    let ghost s = out@.map_values(|c: ContextRequirement| c@);
    match get_str_param(params, key) {
        Some(path) => {
            let ghost pv = path@;
            out.push(ContextRequirement::Field(path));
            assert(out@.map_values(|c: ContextRequirement| c@) =~= s + seq![
                ContextRequirementV::Field(pv),
            ]);
        },
        None => {
            assert(s + Seq::<ContextRequirementV>::empty() =~= s);
        },
    }
}

/// The context a guard reads.
fn context_needs(g: &GuardSource) -> (r: Vec<ContextRequirement>)
    ensures
        r@.map_values(|c: ContextRequirement| c@) == guard_context_needs(*g),
{
    let mut out: Vec<ContextRequirement> = Vec::new();
    let ghost e = Seq::<ContextRequirementV>::empty();
    proof {
        assert(out@.map_values(|c: ContextRequirement| c@) =~= e);
    }
    match builtin_kind(g.guard_type.as_str()) {
        Some(GuardFactory::FieldsEqual) => {
            push_path(&g.params, "left_path", &mut out);
            push_path(&g.params, "right_path", &mut out);
            assert(e + path_need(g.params@, "left_path"@) =~= path_need(g.params@, "left_path"@));
        },
        Some(GuardFactory::TimeElapsed) => {
            out.push(ContextRequirement::SystemField(String::from_str("sys.now")));
            assert(out@.map_values(|c: ContextRequirement| c@) =~= seq![
                ContextRequirementV::SystemField("sys.now"@),
            ]);
        },
        Some(GuardFactory::Default) => {},
        Some(GuardFactory::OccurredWithin) => {},
        None => {},
        Some(_) => {
            push_path(&g.params, "path", &mut out);
            assert(e + path_need(g.params@, "path"@) =~= path_need(g.params@, "path"@));
        },
    }
    out
}

/// The history a guard reads.
fn history_needs(g: &GuardSource) -> (r: Vec<HistoryRequirement>)
    ensures
        r@.map_values(|h: HistoryRequirement| h@) == guard_history_needs(*g),
{
    let mut out: Vec<HistoryRequirement> = Vec::new();
    match builtin_kind(g.guard_type.as_str()) {
        Some(GuardFactory::OccurredWithin) => {
            let action = get_str_param(&g.params, "target_action");
            let window = get_u64_param(&g.params, "window_seconds");
            match (action, window) {
                (Some(action), Some(w)) => {
                    out.push(HistoryRequirement::EventsInWindow { action, duration_seconds: w });
                },
                _ => {},
            }
        },
        Some(GuardFactory::TimeElapsed) => {
            out.push(HistoryRequirement::LastTransition);
        },
        _ => {},
    }
    assert(out@.map_values(|h: HistoryRequirement| h@) =~= guard_history_needs(*g));
    out
}

fn holds_history(v: &Vec<HistoryRequirement>, x: &HistoryRequirement) -> (r: bool)
    ensures
        r == v@.map_values(|h: HistoryRequirement| h@).contains(x@),
{
    let ghost s = v@.map_values(|h: HistoryRequirement| h@);
    let mut i: usize = 0;
    while i < v.len()
        invariant
            i <= v.len(),
            s == v@.map_values(|h: HistoryRequirement| h@),
            forall|j: int| 0 <= j < i ==> s[j] != x@,
        decreases v.len() - i,
    {
        if v[i].same_as(x) {
            assert(s[i as int] == x@);
            return true;
        }
        i = i + 1;
    }
    false
}

fn holds_context(v: &Vec<ContextRequirement>, x: &ContextRequirement) -> (r: bool)
    ensures
        r == v@.map_values(|c: ContextRequirement| c@).contains(x@),
{
    let ghost s = v@.map_values(|c: ContextRequirement| c@);
    let mut i: usize = 0;
    while i < v.len()
        invariant
            i <= v.len(),
            s == v@.map_values(|c: ContextRequirement| c@),
            forall|j: int| 0 <= j < i ==> s[j] != x@,
        decreases v.len() - i,
    {
        if v[i].same_as(x) {
            assert(s[i as int] == x@);
            return true;
        }
        i = i + 1;
    }
    false
}

fn add_histories(v: &mut Vec<HistoryRequirement>, xs: Vec<HistoryRequirement>)
    ensures
        final(v)@.map_values(|h: HistoryRequirement| h@) == add_all(
            old(v)@.map_values(|h: HistoryRequirement| h@),
            xs@.map_values(|h: HistoryRequirement| h@),
        ),
{
    let ghost s0 = v@.map_values(|h: HistoryRequirement| h@);
    let ghost xv = xs@.map_values(|h: HistoryRequirement| h@);
    let mut i: usize = 0;
    proof {
        assert(xv.take(0) =~= Seq::<HistoryRequirementV>::empty());
    }
    while i < xs.len()
        invariant
            i <= xs.len(),
            xv == xs@.map_values(|h: HistoryRequirement| h@),
            v@.map_values(|h: HistoryRequirement| h@) == add_all(s0, xv.take(i as int)),
        decreases xs.len() - i,
    {
        let x = &xs[i];
        if !holds_history(v, x) {
            let ghost s = v@.map_values(|h: HistoryRequirement| h@);
            v.push(x.copy());
            assert(v@.map_values(|h: HistoryRequirement| h@) =~= s.push(x@));
        }
        proof {
            assert(xv.take(i as int + 1).drop_last() =~= xv.take(i as int));
            assert(xv.take(i as int + 1).last() == x@);
        }
        i = i + 1;
    }
    proof {
        assert(xv.take(xs.len() as int) =~= xv);
    }
}

fn add_contexts(v: &mut Vec<ContextRequirement>, xs: Vec<ContextRequirement>)
    ensures
        final(v)@.map_values(|c: ContextRequirement| c@) == add_all(
            old(v)@.map_values(|c: ContextRequirement| c@),
            xs@.map_values(|c: ContextRequirement| c@),
        ),
{
    let ghost s0 = v@.map_values(|c: ContextRequirement| c@);
    let ghost xv = xs@.map_values(|c: ContextRequirement| c@);
    let mut i: usize = 0;
    proof {
        assert(xv.take(0) =~= Seq::<ContextRequirementV>::empty());
    }
    while i < xs.len()
        invariant
            i <= xs.len(),
            xv == xs@.map_values(|c: ContextRequirement| c@),
            v@.map_values(|c: ContextRequirement| c@) == add_all(s0, xv.take(i as int)),
        decreases xs.len() - i,
    {
        let x = &xs[i];
        if !holds_context(v, x) {
            let ghost s = v@.map_values(|c: ContextRequirement| c@);
            v.push(x.copy());
            assert(v@.map_values(|c: ContextRequirement| c@) =~= s.push(x@));
        }
        proof {
            assert(xv.take(i as int + 1).drop_last() =~= xv.take(i as int));
            assert(xv.take(i as int + 1).last() == x@);
        }
        i = i + 1;
    }
    proof {
        assert(xv.take(xs.len() as int) =~= xv);
    }
}

proof fn lemma_guards_of_step(ts: Seq<TransitionSource>, i: int)
    requires
        0 <= i < ts.len(),
    ensures
        guards_of(ts.take(i + 1)) == guards_of(ts.take(i)) + ts[i].guards@,
{
    assert(ts.take(i + 1).drop_last() =~= ts.take(i));
}

/// The manifest of one state.
pub fn build_state_manifest(state: &StateSource) -> (r: StateManifest)
    ensures
        r@ == state_manifest(*state),
{
    let mut hist: Vec<HistoryRequirement> = Vec::new();
    hist.push(HistoryRequirement::LastTransition);
    let mut ctx: Vec<ContextRequirement> = Vec::new();
    let ghost ts = state.transitions@;
    proof {
        assert(hist@.map_values(|h: HistoryRequirement| h@) =~= initial_manifest().history_requirements);
        assert(ctx@.map_values(|c: ContextRequirement| c@) =~= initial_manifest().context_requirements);
        assert(ts.take(0) =~= Seq::<TransitionSource>::empty());
    }
    let mut i: usize = 0;
    while i < state.transitions.len()
        invariant
            i <= state.transitions.len(),
            ts == state.transitions@,
            (StateManifestV {
                history_requirements: hist@.map_values(|h: HistoryRequirement| h@),
                context_requirements: ctx@.map_values(|c: ContextRequirement| c@),
            }) == manifest_fold(guards_of(ts.take(i as int))),
        decreases state.transitions.len() - i,
    {
        let t = &state.transitions[i];
        let ghost before = guards_of(ts.take(i as int));
        let mut j: usize = 0;
        proof {
            assert(before + t.guards@.take(0) =~= before);
        }
        while j < t.guards.len()
            invariant
                j <= t.guards.len(),
                (StateManifestV {
                    history_requirements: hist@.map_values(|h: HistoryRequirement| h@),
                    context_requirements: ctx@.map_values(|c: ContextRequirement| c@),
                }) == manifest_fold(before + t.guards@.take(j as int)),
            decreases t.guards.len() - j,
        {
            let g = &t.guards[j];
            let h = history_needs(g);
            let c = context_needs(g);
            add_histories(&mut hist, h);
            add_contexts(&mut ctx, c);
            proof {
                let p = before + t.guards@.take(j as int + 1);
                assert(p.drop_last() =~= before + t.guards@.take(j as int));
                assert(p.last() == t.guards@[j as int]);
            }
            j = j + 1;
        }
        proof {
            lemma_guards_of_step(ts, i as int);
            assert(t.guards@.take(t.guards@.len() as int) =~= t.guards@);
        }
        i = i + 1;
    }
    proof {
        assert(ts.take(ts.len() as int) =~= ts);
    }
    StateManifest { history_requirements: hist, context_requirements: ctx }
}

/// The manifests of all states of a law, keyed by state name.
pub fn build_manifests(law: &LawSource) -> (r: ManifestMap)
    ensures
        r@ == manifests_of(law.states@),
        r.well_formed(),
        manifests_cover_built_guards(law.states@, r@),
{
    let mut out = ManifestMap::new();
    let ghost ss = law.states@;
    proof {
        assert(ss.take(0) =~= Seq::<StateSource>::empty());
    }
    let mut i: usize = 0;
    while i < law.states.len()
        invariant
            i <= law.states.len(),
            ss == law.states@,
            out@ == manifests_of(ss.take(i as int)),
            out.well_formed(),
        decreases law.states.len() - i,
    {
        let m = build_state_manifest(&law.states[i]);
        out.insert(law.states[i].name.clone(), m);
        proof {
            assert(ss.take(i as int + 1).drop_last() =~= ss.take(i as int));
        }
        i = i + 1;
    }
    proof {
        assert(ss.take(ss.len() as int) =~= ss);
        law_manifests_cover_built_guards(ss);
    }
    out
}

proof fn lemma_push_unique<T>(s: Seq<T>, x: T)
    ensures
        push_unique(s, x).contains(x),
        forall|y: T| s.contains(y) ==> push_unique(s, x).contains(y),
        no_dups(s) ==> no_dups(push_unique(s, x)),
        s.len() > 0 ==> push_unique(s, x).len() > 0 && push_unique(s, x)[0] == s[0],
{
    if !s.contains(x) {
        let t = s.push(x);
        assert(t[s.len() as int] == x);
        assert forall|y: T| s.contains(y) implies t.contains(y) by {
            let k = choose|k: int| 0 <= k < s.len() && s[k] == y;
            assert(t[k] == y);
        }
        if no_dups(s) {
            assert forall|i: int, j: int| 0 <= i < j < t.len() implies t[i] != t[j] by {
                if j == s.len() {
                    assert(s[i] == t[i]);
                }
            }
        }
    }
}

proof fn lemma_add_all<T>(s: Seq<T>, xs: Seq<T>)
    ensures
        forall|n: int| 0 <= n < xs.len() ==> add_all(s, xs).contains(#[trigger] xs[n]),
        forall|y: T| s.contains(y) ==> add_all(s, xs).contains(y),
        no_dups(s) ==> no_dups(add_all(s, xs)),
        s.len() > 0 ==> add_all(s, xs).len() > 0 && add_all(s, xs)[0] == s[0],
    decreases xs.len(),
{
    if xs.len() > 0 {
        let p = xs.drop_last();
        lemma_add_all(s, p);
        lemma_push_unique(add_all(s, p), xs.last());
        assert forall|n: int| 0 <= n < xs.len() implies add_all(s, xs).contains(#[trigger] xs[n]) by {
            if n < xs.len() - 1 {
                assert(xs[n] == p[n]);
            }
        }
    }
}

proof fn lemma_manifest_fold(gs: Seq<GuardSource>)
    ensures
        manifest_fold(gs).history_requirements.len() > 0,
        manifest_fold(gs).history_requirements[0] == HistoryRequirementV::LastTransition,
        no_dups(manifest_fold(gs).history_requirements),
        no_dups(manifest_fold(gs).context_requirements),
        forall|j: int, n: int|
            0 <= j < gs.len() && 0 <= n < guard_context_needs(gs[j]).len()
                ==> manifest_fold(gs).context_requirements.contains(
                #[trigger] guard_context_needs(gs[j])[n],
            ),
        forall|j: int, n: int|
            0 <= j < gs.len() && 0 <= n < guard_history_needs(gs[j]).len()
                ==> manifest_fold(gs).history_requirements.contains(
                #[trigger] guard_history_needs(gs[j])[n],
            ),
    decreases gs.len(),
{
    if gs.len() > 0 {
        let p = gs.drop_last();
        lemma_manifest_fold(p);
        let m = manifest_fold(p);
        lemma_add_all(m.history_requirements, guard_history_needs(gs.last()));
        lemma_add_all(m.context_requirements, guard_context_needs(gs.last()));
        assert forall|j: int, n: int|
            0 <= j < gs.len() && 0 <= n < guard_context_needs(gs[j]).len() implies manifest_fold(
            gs,
        ).context_requirements.contains(#[trigger] guard_context_needs(gs[j])[n]) by {
            if j < gs.len() - 1 {
                assert(gs[j] == p[j]);
            }
        }
        assert forall|j: int, n: int|
            0 <= j < gs.len() && 0 <= n < guard_history_needs(gs[j]).len() implies manifest_fold(
            gs,
        ).history_requirements.contains(#[trigger] guard_history_needs(gs[j])[n]) by {
            if j < gs.len() - 1 {
                assert(gs[j] == p[j]);
            }
        }
    } else {
        let h = manifest_fold(gs).history_requirements;
        assert(h.len() == 1);
    }
}

proof fn lemma_guards_of_index(ts: Seq<TransitionSource>, i: int, k: int)
    requires
        0 <= i < ts.len(),
        0 <= k < ts[i].guards@.len(),
    ensures
        exists|j: int| 0 <= j < guards_of(ts).len() && guards_of(ts)[j] == ts[i].guards@[k],
    decreases ts.len(),
{
    let p = ts.drop_last();
    if i == ts.len() - 1 {
        let j = guards_of(p).len() + k;
        assert(guards_of(ts)[j] == ts[i].guards@[k]);
    } else {
        assert(p[i] == ts[i]);
        lemma_guards_of_index(p, i, k);
        let j = choose|j: int| 0 <= j < guards_of(p).len() && guards_of(p)[j] == ts[i].guards@[k];
        assert(guards_of(ts)[j] == guards_of(p)[j]);
    }
}

/// Every state manifest asks first for the state's last transition.
pub proof fn law_manifest_starts_with_last_transition(s: StateSource)
    ensures
        state_manifest(s).history_requirements.len() > 0,
        state_manifest(s).history_requirements[0] == HistoryRequirementV::LastTransition,
{
    lemma_manifest_fold(guards_of(s.transitions@));
}

/// A state manifest names each requirement once.
pub proof fn law_manifest_requirements_unique(s: StateSource)
    ensures
        no_dups(state_manifest(s).history_requirements),
        no_dups(state_manifest(s).context_requirements),
{
    lemma_manifest_fold(guards_of(s.transitions@));
}

/// A state manifest covers what every guard of the state's transitions
/// reads: every field and every piece of history that the guard's type
/// reads from its parameters.
pub proof fn law_manifest_covers_guards(s: StateSource, i: int, k: int)
    requires
        0 <= i < s.transitions@.len(),
        0 <= k < s.transitions@[i].guards@.len(),
    ensures
        forall|c: ContextRequirementV|
            #[trigger] guard_context_needs(s.transitions@[i].guards@[k]).contains(c)
                ==> state_manifest(s).context_requirements.contains(c),
        forall|h: HistoryRequirementV|
            #[trigger] guard_history_needs(s.transitions@[i].guards@[k]).contains(h)
                ==> state_manifest(s).history_requirements.contains(h),
{
    let gs = guards_of(s.transitions@);
    let gd = s.transitions@[i].guards@[k];
    lemma_guards_of_index(s.transitions@, i, k);
    let j = choose|j: int| 0 <= j < gs.len() && gs[j] == gd;
    lemma_manifest_fold(gs);
    assert forall|c: ContextRequirementV| #[trigger] guard_context_needs(gd).contains(c) implies state_manifest(
        s,
    ).context_requirements.contains(c) by {
        let n = choose|n: int| 0 <= n < guard_context_needs(gd).len() && guard_context_needs(gd)[n] == c;
        assert(guard_context_needs(gs[j])[n] == c);
    }
    assert forall|h: HistoryRequirementV| #[trigger] guard_history_needs(gd).contains(h) implies state_manifest(
        s,
    ).history_requirements.contains(h) by {
        let n = choose|n: int| 0 <= n < guard_history_needs(gd).len() && guard_history_needs(gd)[n] == h;
        assert(guard_history_needs(gs[j])[n] == h);
    }
}

/// What the guard `g` reads once its built-in factory has built it; `None`
/// where its type is not built in or its parameters do not build it.
pub open spec fn built_requirements(g: GuardSource) -> Option<GuardRequirementsV> {
    match builtin_factory(g.guard_type@) {
        Some(f) => match build_result(f, g.params@) {
            Ok(gv) => Some(guard_requirements(gv)),
            Err(_) => None,
        },
        None => None,
    }
}

/// Every field and every piece of history that `r` names is listed in `m`.
pub open spec fn lists_requirements(m: StateManifestV, r: GuardRequirementsV) -> bool {
    &&& forall|c: ContextRequirementV| #[trigger] r.context.contains(c) ==> m.context_requirements.contains(c)
    &&& forall|h: HistoryRequirementV| #[trigger] r.history.contains(h) ==> m.history_requirements.contains(h)
}

/// `m` lists all that the built guards of the transitions of `s` read.
pub open spec fn covers_built_guards(s: StateSource, m: StateManifestV) -> bool {
    forall|k: int, g: int|
        0 <= k < s.transitions@.len() && 0 <= g < s.transitions@[k].guards@.len()
            ==> (#[trigger] built_requirements(s.transitions@[k].guards@[g]) matches Some(r)
            ==> lists_requirements(m, r))
}

/// For each state that no later state of the same name replaces, `ms`
/// holds a manifest under its name that lists all its built guards read.
pub open spec fn manifests_cover_built_guards(
    states: Seq<StateSource>,
    ms: Seq<(Seq<char>, StateManifestV)>,
) -> bool {
    forall|i: int|
        0 <= i < states.len() && (forall|j: int| i < j < states.len() ==> states[j].name@ != states[i].name@)
            ==> (#[trigger] lookup(ms, states[i].name@) matches Some(m) && covers_built_guards(
            states[i],
            m,
        ))
}

/// What a guard type reads from its parameters is what the guard it
/// builds from them declares.
proof fn lemma_needs_match_requirements(g: GuardSource)
    ensures
        built_requirements(g) matches Some(r) ==> r.context == guard_context_needs(g)
            && r.history == guard_history_needs(g),
{
    let p = g.params@;
    if let Some(r) = built_requirements(g) {
        match builtin_factory(g.guard_type@) {
            Some(GuardFactory::FieldsEqual) => {
                assert(r.context =~= guard_context_needs(g));
            },
            _ => {
                assert(r.context =~= guard_context_needs(g));
                assert(r.history =~= guard_history_needs(g));
            },
        }
    }
}

/// The manifest of a state lists everything that every built guard of its
/// transitions reads.
pub proof fn law_state_manifest_covers_built_guards(s: StateSource)
    ensures
        covers_built_guards(s, state_manifest(s)),
{
    assert forall|k: int, g: int|
        0 <= k < s.transitions@.len() && 0 <= g < s.transitions@[k].guards@.len() implies (
        #[trigger] built_requirements(s.transitions@[k].guards@[g]) matches Some(r)
            ==> lists_requirements(state_manifest(s), r)) by {
        let gd = s.transitions@[k].guards@[g];
        lemma_needs_match_requirements(gd);
        law_manifest_covers_guards(s, k, g);
    }
}

proof fn lemma_map_insert_lookup<V>(s: Seq<(Seq<char>, V)>, k: Seq<char>, v: V, q: Seq<char>)
    ensures
        lookup(map_insert(s, k, v), q) == if q == k {
            Some(v)
        } else {
            lookup(s, q)
        },
{
    let t = map_insert(s, k, v);
    let ki = key_index(s, k);
    lemma_key_index_bounds(s, k);
    lemma_key_index_bounds(s, q);
    lemma_key_index_bounds(t, q);
    if q == k {
        lemma_key_index_found(t, q, ki);
    } else {
        let qi = key_index(s, q);
        if qi < s.len() {
            assert forall|j: int| 0 <= j < qi implies #[trigger] t[j].0 != q by {
                if j != ki {
                    assert(t[j] == s[j]);
                }
            }
            assert(t[qi] == s[qi]);
            lemma_key_index_found(t, q, qi);
        } else {
            assert forall|j: int| 0 <= j < t.len() implies #[trigger] t[j].0 != q by {
                if j < s.len() && j != ki {
                    assert(t[j] == s[j]);
                }
            }
            lemma_key_index_absent(t, q);
        }
    }
}

/// The manifests of a law hold one entry for each state name, and the entry
/// of a name is the manifest of the last state of that name.
pub proof fn law_manifests_by_name(states: Seq<StateSource>, name: Seq<char>)
    ensures
        (lookup(manifests_of(states), name) is None) <==> (forall|i: int|
            0 <= i < states.len() ==> (#[trigger] states[i]).name@ != name),
        forall|i: int|
            0 <= i < states.len() && (#[trigger] states[i]).name@ == name && (forall|j: int|
                i < j < states.len() ==> states[j].name@ != name) ==> lookup(manifests_of(states), name)
                == Some(state_manifest(states[i])),
    decreases states.len(),
{
    if states.len() == 0 {
        lemma_key_index_bounds(manifests_of(states), name);
    } else {
        let p = states.drop_last();
        law_manifests_by_name(p, name);
        lemma_map_insert_lookup(manifests_of(p), states.last().name@, state_manifest(states.last()), name);
        assert forall|i: int| 0 <= i < p.len() implies p[i] == states[i] by {}
        if states.last().name@ != name {
            assert forall|i: int|
                0 <= i < states.len() && (#[trigger] states[i]).name@ == name && (forall|j: int|
                    i < j < states.len() ==> states[j].name@ != name) implies lookup(manifests_of(states), name)
                    == Some(state_manifest(states[i])) by {
                assert(i < states.len() - 1);
                assert(p[i] == states[i]);
                assert forall|j: int| i < j < p.len() implies p[j].name@ != name by {
                    assert(p[j] == states[j]);
                }
            }
            if lookup(manifests_of(states), name) is None {
                assert forall|i: int| 0 <= i < states.len() implies (#[trigger] states[i]).name@ != name by {
                    if i < states.len() - 1 {
                        assert(p[i] == states[i]);
                    }
                }
            } else {
                let w = choose|i: int| 0 <= i < p.len() && (#[trigger] p[i]).name@ == name;
                assert(states[w] == p[w]);
            }
        } else {
            assert(states[states.len() - 1].name@ == name);
        }
    }
}

/// Under the name of each state that no later state of the same name
/// replaces, the manifests of a law list everything that the built guards
/// of that state's transitions read.
pub proof fn law_manifests_cover_built_guards(states: Seq<StateSource>)
    ensures
        manifests_cover_built_guards(states, manifests_of(states)),
{
    assert forall|i: int|
        0 <= i < states.len() && (forall|j: int| i < j < states.len() ==> states[j].name@ != states[i].name@)
            implies (#[trigger] lookup(manifests_of(states), states[i].name@) matches Some(m)
            && covers_built_guards(states[i], m)) by {
        law_manifests_by_name(states, states[i].name@);
        law_state_manifest_covers_built_guards(states[i]);
    }
}

} // verus!
