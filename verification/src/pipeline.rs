//! Routing of a transform pipeline's outputs. Unnamed transforms chain, each
//! consuming the previous unnamed output; a named transform runs on the
//! current chained batch, publishes its output under its name and leaves the
//! chain where it was. The final chained batch is published under
//! [`FINAL_OUTPUT_KEY`].

use vstd::prelude::*;

verus! {

/// Key under which the final pipeline output is always published.
pub const FINAL_OUTPUT_KEY: &'static str = "__final__";

/// A map from output names to batches in which a later insert under the same
/// name replaces the earlier one.
#[derive(Debug, Clone)]
pub struct NamedOutputs<B> {
    entries: Vec<(String, B)>,
}

impl<B> NamedOutputs<B> {
    /// No name occurs twice among the entries.
    pub closed spec fn wf(&self) -> bool {
        forall|i: int, j: int| 0 <= i < j < self.entries.len() ==> #[trigger] self.entries@[i].0@ != #[trigger] self.entries@[j].0@
    }

    /// The outputs as a map from names to batches.
    pub closed spec fn view(&self) -> Map<Seq<char>, B> {
        Map::new(
            |k: Seq<char>| exists|i: int| 0 <= i < self.entries.len() && self.entries@[i].0@ == k,
            |k: Seq<char>| self.entries@[choose|i: int| 0 <= i < self.entries.len() && self.entries@[i].0@ == k].1,
        )
    }

    /// An empty map.
    pub fn new() -> (r: Self)
        ensures
            r.wf(),
            r.view() == Map::<Seq<char>, B>::empty(),
    {
        let r = NamedOutputs { entries: Vec::new() };
        assert(r.view() =~= Map::<Seq<char>, B>::empty());
        r
    }

    /// Number of names.
    pub fn len(&self) -> (r: usize)
        requires
            self.wf(),
        ensures
            r == self.view().len(),
    {
        proof { self.lemma_len(); }
        self.entries.len()
    }

    proof fn lemma_len(&self)
        requires
            self.wf(),
        ensures
            self.view().dom().finite(),
            self.view().len() == self.entries.len(),
        decreases self.entries.len(),
    {
        let keys = self.entries@.map_values(|e: (String, B)| e.0@);
        assert forall|k: Seq<char>| #[trigger] self.view().dom().contains(k) <==> keys.to_set().contains(k) by {
            if self.view().dom().contains(k) {
                let w = choose|i: int| 0 <= i < self.entries.len() && self.entries@[i].0@ == k;
                assert(keys[w] == k);
            }
            if keys.to_set().contains(k) {
                assert(keys.contains(k));
                let w = choose|i: int| 0 <= i < keys.len() && keys[i] == k;
                assert(self.entries@[w].0@ == k);
            }
        }
        assert(self.view().dom() =~= keys.to_set());
        assert(keys.no_duplicates()) by {
            assert forall|i: int, j: int| 0 <= i < keys.len() && 0 <= j < keys.len() && i != j implies keys[i] != keys[j] by {
                if i < j {
                    assert(self.entries@[i].0@ != self.entries@[j].0@);
                } else {
                    assert(self.entries@[j].0@ != self.entries@[i].0@);
                }
            }
        }
        keys.unique_seq_to_set();
    }

    /// The published pairs, each name once with the batch published last
    /// under it.
    pub fn into_entries(self) -> (r: Vec<(String, B)>)
        requires
            self.wf(),
        ensures
            forall|i: int, j: int| 0 <= i < j < r.len() ==> #[trigger] r@[i].0@ != #[trigger] r@[j].0@,
            forall|i: int| 0 <= i < r.len() ==> #[trigger] self.view().contains_key(r@[i].0@)
                && self.view()[r@[i].0@] == r@[i].1,
            forall|k: Seq<char>| #[trigger] self.view().contains_key(k) ==> exists|i: int| 0 <= i < r.len() && r@[i].0@ == k,
    {
        let ghost v = self.view();
        let ghost e = self.entries@;
        proof {
            assert forall|i: int| 0 <= i < e.len() implies #[trigger] v.contains_key(e[i].0@) && v[e[i].0@] == e[i].1 by {
                let w = choose|j: int| 0 <= j < e.len() && e[j].0@ == e[i].0@;
                if w != i {
                    if w < i { assert(e[w].0@ != e[i].0@); } else { assert(e[i].0@ != e[w].0@); }
                }
            }
        }
        self.entries
    }

    /// Position of the entry named `name`.
    fn position(&self, name: &str) -> (r: Option<usize>)
        requires
            self.wf(),
        ensures
            match r {
                Some(i) => i < self.entries.len() && self.entries@[i as int].0@ == name@,
                None => forall|i: int| 0 <= i < self.entries.len() ==> #[trigger] self.entries@[i].0@ != name@,
            },
    {
        let target = String::from_str(name);
        let mut i: usize = 0;
        while i < self.entries.len()
            invariant
                target@ == name@,
                0 <= i <= self.entries.len(),
                forall|j: int| 0 <= j < i ==> #[trigger] self.entries@[j].0@ != name@,
            decreases self.entries.len() - i,
        {
            if self.entries[i].0.eq(&target) {
                return Some(i);
            }
            i = i + 1;
        }
        None
    }

    /// The batch published under `name`.
    pub fn get(&self, name: &str) -> (r: Option<&B>)
        requires
            self.wf(),
        ensures
            match r {
                Some(b) => self.view().contains_key(name@) && self.view()[name@] == *b,
                None => !self.view().contains_key(name@),
            },
    {
        match self.position(name) {
            Some(i) => {
                proof {
                    let w = choose|j: int| 0 <= j < self.entries.len() && self.entries@[j].0@ == name@;
                    if w != i {
                        if w < i {
                            assert(self.entries@[w].0@ != self.entries@[i as int].0@);
                        } else {
                            assert(self.entries@[i as int].0@ != self.entries@[w].0@);
                        }
                    }
                }
                Some(&self.entries[i].1)
            },
            None => None,
        }
    }

    /// Publish `b` under `name`, replacing an earlier batch of that name.
    pub fn insert(&mut self, name: String, b: B)
        requires
            old(self).wf(),
        ensures
            final(self).wf(),
            final(self).view() == old(self).view().insert(name@, b),
    {
        let ghost old_entries = self.entries@;
        let ghost old_view = self.view();
        match self.position(name.as_str()) {
            Some(i) => {
                self.entries.set(i, (name, b));
                proof {
                    assert(self.entries@ == old_entries.update(i as int, self.entries@[i as int]));
                    assert forall|p: int, q: int| 0 <= p < q < self.entries.len() implies #[trigger] self.entries@[p].0@ != #[trigger] self.entries@[q].0@ by {
                        assert(old_entries[p].0@ != old_entries[q].0@);
                    }
                    assert forall|k: Seq<char>| #[trigger] self.view().contains_key(k) <==> old_view.insert(name@, b).contains_key(k) by {
                        if k != name@ && old_view.contains_key(k) {
                            let w = choose|j: int| 0 <= j < old_entries.len() && old_entries[j].0@ == k;
                            assert(self.entries@[w].0@ == k);
                        }
                        if self.view().contains_key(k) && k != name@ {
                            let w = choose|j: int| 0 <= j < self.entries.len() && self.entries@[j].0@ == k;
                            assert(old_entries[w].0@ == k);
                        }
                        if k == name@ {
                            assert(self.entries@[i as int].0@ == k);
                        }
                    }
                    assert forall|k: Seq<char>| #[trigger] self.view().contains_key(k) implies self.view()[k] == old_view.insert(name@, b)[k] by {
                        let w = choose|j: int| 0 <= j < self.entries.len() && self.entries@[j].0@ == k;
                        if k == name@ {
                            if w != i {
                                if w < i { assert(self.entries@[w].0@ != self.entries@[i as int].0@); }
                                else { assert(self.entries@[i as int].0@ != self.entries@[w].0@); }
                            }
                        } else {
                            assert(old_entries[w].0@ == k);
                            let w2 = choose|j: int| 0 <= j < old_entries.len() && old_entries[j].0@ == k;
                            if w2 != w {
                                if w2 < w { assert(old_entries[w2].0@ != old_entries[w].0@); }
                                else { assert(old_entries[w].0@ != old_entries[w2].0@); }
                            }
                        }
                    }
                    assert(self.view() =~= old_view.insert(name@, b));
                }
            },
            None => {
                self.entries.push((name, b));
                proof {
                    let n = old_entries.len() as int;
                    assert forall|p: int, q: int| 0 <= p < q < self.entries.len() implies #[trigger] self.entries@[p].0@ != #[trigger] self.entries@[q].0@ by {
                        if q < n {
                            assert(old_entries[p].0@ != old_entries[q].0@);
                        }
                    }
                    assert forall|k: Seq<char>| #[trigger] self.view().contains_key(k) <==> old_view.insert(name@, b).contains_key(k) by {
                        if k != name@ && old_view.contains_key(k) {
                            let w = choose|j: int| 0 <= j < old_entries.len() && old_entries[j].0@ == k;
                            assert(self.entries@[w].0@ == k);
                        }
                        if self.view().contains_key(k) && k != name@ {
                            let w = choose|j: int| 0 <= j < self.entries.len() && self.entries@[j].0@ == k;
                            assert(old_entries[w].0@ == k);
                        }
                        if k == name@ {
                            assert(self.entries@[n].0@ == k);
                        }
                    }
                    assert forall|k: Seq<char>| #[trigger] self.view().contains_key(k) implies self.view()[k] == old_view.insert(name@, b)[k] by {
                        let w = choose|j: int| 0 <= j < self.entries.len() && self.entries@[j].0@ == k;
                        if k == name@ {
                            if w != n {
                                assert(self.entries@[w].0@ != self.entries@[n].0@);
                            }
                        } else {
                            assert(old_entries[w].0@ == k);
                            let w2 = choose|j: int| 0 <= j < old_entries.len() && old_entries[j].0@ == k;
                            if w2 != w {
                                if w2 < w { assert(old_entries[w2].0@ != old_entries[w].0@); }
                                else { assert(old_entries[w].0@ != old_entries[w2].0@); }
                            }
                        }
                    }
                    assert(self.view() =~= old_view.insert(name@, b));
                }
            },
        }
    }
}

/// Publish each `(name, batch)` of `s` in order.
pub open spec fn insert_all<B>(m: Map<Seq<char>, B>, s: Seq<(Seq<char>, B)>) -> Map<Seq<char>, B>
    decreases s.len(),
{
    if s.len() == 0 {
        m
    } else {
        insert_all(m.insert(s[0].0, s[0].1), s.drop_first())
    }
}

/// What one transform of a pipeline did: its name, the batch it returned and
/// the secondary outputs it published.
pub struct StepRecord<B> {
    pub name: Option<Seq<char>>,
    pub result: B,
    pub secondary: Seq<(Seq<char>, B)>,
}

/// The pipeline state after a step: a named step publishes its secondary
/// outputs and then its result under its name (so the name wins a
/// collision) and keeps the chained batch; an unnamed step replaces the
/// chained batch by its result and publishes its secondary outputs.
pub open spec fn spec_step<B>(chained: B, published: Map<Seq<char>, B>, s: StepRecord<B>) -> (B, Map<Seq<char>, B>) {
    match s.name {
        Some(n) => (chained, insert_all(published, s.secondary).insert(n, s.result)),
        None => (s.result, insert_all(published, s.secondary)),
    }
}

/// The state after running `steps` from `input` with nothing published.
pub open spec fn spec_run<B>(input: B, steps: Seq<StepRecord<B>>) -> (B, Map<Seq<char>, B>)
    decreases steps.len(),
{
    if steps.len() == 0 {
        (input, Map::empty())
    } else {
        let prev = spec_run(input, steps.drop_last());
        spec_step(prev.0, prev.1, steps.last())
    }
}

/// The result of the last unnamed step, or `input` when every step is named.
pub open spec fn spec_chain_tail<B>(input: B, steps: Seq<StepRecord<B>>) -> B
    decreases steps.len(),
{
    if steps.len() == 0 {
        input
    } else if steps.last().name is None {
        steps.last().result
    } else {
        spec_chain_tail(input, steps.drop_last())
    }
}

/// The outputs of a finished pipeline: what the steps published, plus the
/// final chained batch under [`FINAL_OUTPUT_KEY`].
pub open spec fn spec_pipeline_outputs<B>(input: B, steps: Seq<StepRecord<B>>) -> Map<Seq<char>, B> {
    let st = spec_run(input, steps);
    st.1.insert(FINAL_OUTPUT_KEY@, st.0)
}

/// Named transforms do not advance the chain: after any steps the chained
/// batch is the result of the last unnamed transform, or the input when
/// there is none.
pub proof fn lemma_chain_is_last_unnamed<B>(input: B, steps: Seq<StepRecord<B>>)
    ensures
        spec_run(input, steps).0 == spec_chain_tail(input, steps),
    decreases steps.len(),
{
    if steps.len() > 0 {
        lemma_chain_is_last_unnamed(input, steps.drop_last());
    }
}

/// The final output of a finished pipeline is the chained tail: the result of
/// the last unnamed transform, or the unchanged input when no unnamed
/// transform ran (an empty pipeline returns its input).
pub proof fn lemma_final_output_is_chain_tail<B>(input: B, steps: Seq<StepRecord<B>>)
    ensures
        spec_pipeline_outputs(input, steps)[FINAL_OUTPUT_KEY@] == spec_chain_tail(input, steps),
        steps.len() == 0 ==> spec_pipeline_outputs(input, steps)[FINAL_OUTPUT_KEY@] == input,
{
    lemma_chain_is_last_unnamed(input, steps);
}

/// A named transform's own name wins over a secondary output of the same
/// name: right after the step its name maps to its result.
pub proof fn lemma_name_wins<B>(input: B, steps: Seq<StepRecord<B>>)
    requires
        steps.len() > 0,
        steps.last().name is Some,
    ensures
        spec_run(input, steps).1.contains_key(steps.last().name->0),
        spec_run(input, steps).1[steps.last().name->0] == steps.last().result,
{
}

/// A running pipeline: the current chained batch and the outputs published so
/// far.
pub struct PipelineRun<B> {
    current: B,
    outputs: NamedOutputs<B>,
}

impl<B> PipelineRun<B> {
    /// The state is well formed.
    pub closed spec fn wf(&self) -> bool {
        self.outputs.wf()
    }

    /// The batch the next transform runs on.
    pub closed spec fn chained(&self) -> B {
        self.current
    }

    /// The outputs published so far.
    pub closed spec fn published(&self) -> Map<Seq<char>, B> {
        self.outputs.view()
    }

    /// Start a pipeline on `input`.
    pub fn start(input: B) -> (r: Self)
        ensures
            r.wf(),
            r.chained() == input,
            r.published() == Map::<Seq<char>, B>::empty(),
    {
        PipelineRun { current: input, outputs: NamedOutputs::new() }
    }

    /// The batch the next transform runs on.
    pub fn current(&self) -> (r: &B)
        ensures
            *r == self.chained(),
    {
        &self.current
    }

    /// The outputs published so far (what the next transform may look up).
    pub fn outputs(&self) -> (r: &NamedOutputs<B>)
        requires
            self.wf(),
        ensures
            r.wf(),
            r.view() == self.published(),
    {
        &self.outputs
    }

    /// Record a finished transform: its name, its result and its secondary
    /// outputs.
    pub fn record_step(&mut self, name: Option<String>, result: B, secondary: Vec<(String, B)>)
        requires
            old(self).wf(),
        ensures
            final(self).wf(),
            (final(self).chained(), final(self).published()) == spec_step(old(self).chained(), old(self).published(),
                StepRecord { name: match name { Some(n) => Some(n@), None => None }, result, secondary: secondary@.map_values(|e: (String, B)| (e.0@, e.1)) }),
    {
        let ghost sec = secondary@.map_values(|e: (String, B)| (e.0@, e.1));
        let ghost start = self.outputs.view();
        let ghost cur = self.current;
        let n_sec = secondary.len();
        let mut secondary = secondary;
        let mut rest: Vec<(String, B)> = Vec::new();
        // publish in order: take from the back into `rest`, then pop from `rest`
        while secondary.len() > 0
            invariant
                sec.len() == n_sec,
                rest@.len() + secondary@.len() == sec.len(),
                forall|j: int| 0 <= j < secondary@.len() ==> (#[trigger] secondary@[j]).0@ == sec[j].0 && secondary@[j].1 == sec[j].1,
                forall|j: int| 0 <= j < rest@.len() ==> (#[trigger] rest@[j]).0@ == sec[sec.len() - 1 - j].0 && rest@[j].1 == sec[sec.len() - 1 - j].1,
            decreases secondary.len(),
        {
            let e = secondary.pop().unwrap();
            rest.push(e);
        }
        let mut done: usize = 0;
        assert(sec.skip(0) =~= sec);
        while rest.len() > 0
            invariant
                sec.len() == n_sec,
                self.current == cur,
                self.outputs.wf(),
                done + rest@.len() == sec.len(),
                forall|j: int| 0 <= j < rest@.len() ==> (#[trigger] rest@[j]).0@ == sec[sec.len() - 1 - j].0 && rest@[j].1 == sec[sec.len() - 1 - j].1,
                insert_all(start, sec) == insert_all(self.outputs.view(), sec.skip(done as int)),
            decreases rest.len(),
        {
            let (k, b) = rest.pop().unwrap();
            proof {
                assert(sec.skip(done as int)[0] == sec[done as int]);
                assert(sec.skip(done as int).drop_first() =~= sec.skip(done + 1));
            }
            self.outputs.insert(k, b);
            done = done + 1;
        }
        assert(sec.skip(done as int) =~= Seq::<(Seq<char>, B)>::empty());
        match name {
            Some(n) => {
                self.outputs.insert(n, result);
            },
            None => {
                self.current = result;
            },
        }
    }

    /// Finish the pipeline: the published outputs plus the final chained
    /// batch under [`FINAL_OUTPUT_KEY`].
    pub fn finish(self) -> (r: NamedOutputs<B>)
        requires
            self.wf(),
        ensures
            r.wf(),
            r.view() == self.published().insert(FINAL_OUTPUT_KEY@, self.chained()),
    {
        let mut outputs = self.outputs;
        outputs.insert(String::from_str(FINAL_OUTPUT_KEY), self.current);
        outputs
    }
}


/// What a transform may read besides its input: the pixel size of the panel
/// it is drawn in, if known, and the named outputs published by the earlier
/// steps of the same run.
#[derive(Debug, Clone)]
pub struct TransformContext<B> {
    pub panel_pixel_size: Option<(u32, u32)>,
    pub named_outputs: NamedOutputs<B>,
}

impl<B> Default for TransformContext<B> {
    /// No panel size and no named output.
    fn default() -> (r: Self)
        ensures
            r.panel_pixel_size is None,
            r.named_outputs.wf(),
            r.named_outputs.view() == Map::<Seq<char>, B>::empty(),
    {
        TransformContext { panel_pixel_size: None, named_outputs: NamedOutputs::new() }
    }
}

} // verus!
