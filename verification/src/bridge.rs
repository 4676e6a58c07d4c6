use vstd::prelude::*;

use std::collections::HashMap;
use std::collections::VecDeque;

use crate::audio::{
    consumed_samples, extract_sliding_frames, frame_count, window_frames, window_rest,
};

verus! {

broadcast use vstd::std_specs::hash::group_hash_axioms;

/// Whether a detector can be made with these settings: a positive sample
/// rate and frame size, and a hop of at least one sample and at most a frame.
pub open spec fn valid_config(sample_rate: u32, frame_size: usize, hop_size: usize) -> bool {
    sample_rate > 0 && frame_size > 0 && hop_size > 0 && hop_size <= frame_size
}

pub fn is_valid_config(sample_rate: u32, frame_size: usize, hop_size: usize) -> (r: bool)
    ensures
        r == valid_config(sample_rate, frame_size, hop_size),
{
    sample_rate > 0 && frame_size > 0 && hop_size > 0 && hop_size <= frame_size
}

/// The settings a detector was made with.
#[derive(Debug, Clone, Copy, PartialEq, Eq, Structural)]
pub struct BridgeConfig {
    pub sample_rate: u32,
    pub frame_size: usize,
    pub hop_size: usize,
}

impl BridgeConfig {
    pub open spec fn is_valid(self) -> bool {
        valid_config(self.sample_rate, self.frame_size, self.hop_size)
    }
}

/// One registered detector: the detector itself, its settings, the samples
/// that do not yet fill a frame, and the results not yet read.
#[derive(Debug)]
pub struct DetectorHandle<D, S, O> {
    pub detector: D,
    pub config: BridgeConfig,
    pub pending_samples: Vec<S>,
    pub outputs: VecDeque<O>,
}

/// The id that follows `id`: ids count up from 1, wrap past the largest
/// `u32` to 1, and never take the value 0.
pub open spec fn next_in_cycle(id: u32) -> u32 {
    if id == u32::MAX {
        1
    } else {
        (id + 1) as u32
    }
}

/// The id `k` steps after `id`.
pub open spec fn cycle_step(id: u32, k: nat) -> u32
    decreases k,
{
    if k == 0 {
        id
    } else {
        next_in_cycle(cycle_step(id, (k - 1) as nat))
    }
}

/// How many steps lead from the nonzero id `from` to the nonzero id `to`.
spec fn cycle_distance(from: u32, to: u32) -> int {
    if to >= from {
        to - from
    } else {
        to + u32::MAX - from
    }
}

/// Detectors by id, with the last id handed out.
#[derive(Debug)]
pub struct DetectorRegistry<D, S, O> {
    next_id: u32,
    detectors: HashMap<u32, DetectorHandle<D, S, O>>,
}

impl<D, S, O> DetectorRegistry<D, S, O> {
    /// The registered detectors, by id.
    pub closed spec fn handles(&self) -> Map<u32, DetectorHandle<D, S, O>> {
        self.detectors@
    }

    /// The id handed out last, or 0 before the first.
    pub closed spec fn last_id(&self) -> u32 {
        self.next_id
    }

    /// Some nonzero id is free, so that a new one can be found.
    pub open spec fn has_free_id(&self) -> bool {
        exists|f: u32| f != 0 && !self.handles().contains_key(f)
    }

    /// Every registered detector has valid settings.
    pub open spec fn configs_valid(&self) -> bool {
        forall|id: u32| #[trigger]
            self.handles().contains_key(id) ==> self.handles()[id].config.is_valid()
    }

    /// The samples still waiting for a full frame at `id`.
    pub open spec fn pending(&self, id: u32) -> Seq<S> {
        self.handles()[id].pending_samples@
    }

    /// The results not yet read at `id`, oldest first.
    pub open spec fn queued(&self, id: u32) -> Seq<O> {
        self.handles()[id].outputs@
    }

    /// An empty registry that has handed out no id.
    pub fn new() -> (r: Self)
        ensures
            r.handles() == Map::<u32, DetectorHandle<D, S, O>>::empty(),
            r.last_id() == 0,
            r.configs_valid(),
    {
        DetectorRegistry { next_id: 0, detectors: HashMap::new() }
    }

    /// The next free id after the last one handed out, in the order of
    /// `next_in_cycle`.
    fn allocate_id(&mut self) -> (r: u32)
        requires
            old(self).has_free_id(),
        ensures
            r != 0,
            !old(self).handles().contains_key(r),
            exists|k: nat|
                k >= 1 && r == cycle_step(old(self).last_id(), k) && (forall|j: nat|
                    1 <= j < k ==> old(self).handles().contains_key(
                        #[trigger] cycle_step(old(self).last_id(), j),
                    )),
            final(self).handles() == old(self).handles(),
            final(self).last_id() == r,
    {
        let ghost start = self.next_id;
        let ghost free = choose|f: u32| f != 0 && !self.detectors@.contains_key(f);
        self.next_id = self.next_id.wrapping_add(1);
        if self.next_id == 0 {
            self.next_id = 1;
        }
        let ghost mut k: nat = 1;
        assert(cycle_step(start, 1) == next_in_cycle(cycle_step(start, 0)));
        while self.detectors.contains_key(&self.next_id)
            invariant
                self.next_id != 0,
                free != 0,
                !self.detectors@.contains_key(free),
                k >= 1,
                self.next_id == cycle_step(start, k),
                forall|j: nat|
                    1 <= j < k ==> self.detectors@.contains_key(#[trigger] cycle_step(start, j)),
                self.detectors@ == old(self).detectors@,
                start == old(self).next_id,
            decreases cycle_distance(self.next_id, free),
        {
            let ghost before = self.next_id;
            self.next_id = self.next_id.wrapping_add(1);
            if self.next_id == 0 {
                self.next_id = 1;
            }
            proof {
                assert(before != free);
                k = k + 1;
                assert(cycle_step(start, k) == next_in_cycle(cycle_step(start, (k - 1) as nat)));
            }
        }
        assert(start == old(self).last_id());
        assert(k >= 1 && self.next_id == cycle_step(old(self).last_id(), k) && (forall|j: nat|
            1 <= j < k ==> old(self).handles().contains_key(
                #[trigger] cycle_step(old(self).last_id(), j),
            )));
        self.next_id
    }

    /// Registers `detector` with its settings and gives its id, or gives 0
    /// and registers nothing when the settings are not valid.
    pub fn new_detector(
        &mut self,
        sample_rate: u32,
        frame_size: usize,
        hop_size: usize,
        detector: D,
    ) -> (id: u32)
        requires
            old(self).has_free_id(),
        ensures
            !valid_config(sample_rate, frame_size, hop_size) ==> id == 0 && final(self).handles()
                == old(self).handles() && final(self).last_id() == old(self).last_id(),
            valid_config(sample_rate, frame_size, hop_size) ==> {
                &&& id != 0
                &&& !old(self).handles().contains_key(id)
                &&& exists|k: nat|
                    k >= 1 && id == cycle_step(old(self).last_id(), k) && (forall|j: nat|
                        1 <= j < k ==> old(self).handles().contains_key(
                            #[trigger] cycle_step(old(self).last_id(), j),
                        ))
                &&& final(self).last_id() == id
                &&& final(self).handles().dom() == old(self).handles().dom().insert(id)
                &&& forall|other: u32|
                    other != id && old(self).handles().contains_key(other)
                        ==> #[trigger] final(self).handles()[other] == old(self).handles()[other]
                &&& final(self).handles()[id].detector == detector
                &&& final(self).handles()[id].config == (BridgeConfig {
                    sample_rate,
                    frame_size,
                    hop_size,
                })
                &&& final(self).pending(id).len() == 0
                &&& final(self).queued(id).len() == 0
            },
            old(self).configs_valid() ==> final(self).configs_valid(),
    {
        if !is_valid_config(sample_rate, frame_size, hop_size) {
            return 0;
        }
        let id = self.allocate_id();
        let config = BridgeConfig { sample_rate, frame_size, hop_size };
        let handle = DetectorHandle {
            detector,
            config,
            pending_samples: Vec::new(),
            outputs: VecDeque::new(),
        };
        self.detectors.insert(id, handle);
        id
    }

    /// The detector registered at `id`.
    pub fn detector(&self, id: u32) -> (r: Option<&D>)
        ensures
            r matches Some(d) ==> self.handles().contains_key(id) && *d
                == self.handles()[id].detector,
            r is None ==> !self.handles().contains_key(id),
    {
        match self.detectors.get(&id) {
            Some(handle) => Some(&handle.detector),
            None => None,
        }
    }

    /// The settings of the detector at `id`.
    pub fn config(&self, id: u32) -> (r: Option<BridgeConfig>)
        ensures
            r matches Some(c) ==> self.handles().contains_key(id) && c
                == self.handles()[id].config,
            r is None ==> !self.handles().contains_key(id),
    {
        match self.detectors.get(&id) {
            Some(handle) => Some(handle.config),
            None => None,
        }
    }
}


impl<D, S, O> DetectorRegistry<D, S, O> {
    /// Takes the oldest result waiting at `id`; `None` when no detector has
    /// that id or no result waits.
    pub fn next_output(&mut self, id: u32) -> (r: Option<O>)
        ensures
            final(self).last_id() == old(self).last_id(),
            final(self).handles().dom() == old(self).handles().dom(),
            forall|other: u32|
                other != id && old(self).handles().contains_key(other)
                    ==> #[trigger] final(self).handles()[other] == old(self).handles()[other],
            !old(self).handles().contains_key(id) ==> r is None && final(self).handles()
                == old(self).handles(),
            old(self).handles().contains_key(id) ==> {
                &&& final(self).pending(id) == old(self).pending(id)
                &&& final(self).handles()[id].detector == old(self).handles()[id].detector
                &&& final(self).handles()[id].config == old(self).handles()[id].config
                &&& old(self).queued(id).len() == 0 ==> r is None && final(self).queued(id)
                    == old(self).queued(id)
                &&& old(self).queued(id).len() > 0 ==> r == Some(old(self).queued(id)[0])
                    && final(self).queued(id) == old(self).queued(id).drop_first()
            },
            old(self).configs_valid() ==> final(self).configs_valid(),
    {
        match self.detectors.remove(&id) {
            Some(handle) => {
                let mut handle = handle;
                let out = handle.outputs.pop_front();
                proof {
                    if old(self).queued(id).len() > 0 {
                        assert(handle.outputs@ =~= old(self).queued(id).drop_first());
                    }
                }
                self.detectors.insert(id, handle);
                out
            },
            None => {
                proof {
                    assert(self.detectors@ =~= old(self).detectors@);
                }
                None
            },
        }
    }

    /// Puts `detector`, made afresh, in place of the one at `id` and drops
    /// its waiting samples and results; false, with nothing changed, when no
    /// detector has that id.
    pub fn reset(&mut self, id: u32, detector: D) -> (r: bool)
        ensures
            r == old(self).handles().contains_key(id),
            final(self).last_id() == old(self).last_id(),
            final(self).handles().dom() == old(self).handles().dom(),
            forall|other: u32|
                other != id && old(self).handles().contains_key(other)
                    ==> #[trigger] final(self).handles()[other] == old(self).handles()[other],
            r ==> final(self).handles()[id].detector == detector,
            r ==> final(self).handles()[id].config == old(self).handles()[id].config,
            r ==> final(self).pending(id).len() == 0,
            r ==> final(self).queued(id).len() == 0,
            !r ==> final(self).handles() == old(self).handles(),
            old(self).configs_valid() ==> final(self).configs_valid(),
    {
        match self.detectors.remove(&id) {
            Some(handle) => {
                let mut handle = handle;
                handle.detector = detector;
                handle.pending_samples.clear();
                handle.outputs.clear();
                self.detectors.insert(id, handle);
                true
            },
            None => {
                proof {
                    assert(self.detectors@ =~= old(self).detectors@);
                }
                false
            },
        }
    }

    /// Removes the detector at `id`; false when there was none.
    pub fn shutdown(&mut self, id: u32) -> (r: bool)
        ensures
            r == old(self).handles().contains_key(id),
            final(self).handles() == old(self).handles().remove(id),
            final(self).last_id() == old(self).last_id(),
            old(self).configs_valid() ==> final(self).configs_valid(),
    {
        let removed = self.detectors.remove(&id);
        removed.is_some()
    }
}

/// The values of the `Some` entries of `results`, in order.
pub open spec fn some_values<O>(results: Seq<Option<O>>) -> Seq<O>
    decreases results.len(),
{
    if results.len() == 0 {
        Seq::empty()
    } else {
        some_values(results.drop_last()) + match results.last() {
            Some(o) => seq![o],
            None => Seq::empty(),
        }
    }
}

impl<D, S, O> DetectorRegistry<D, S, O> {
    /// Ends a push at `id`: puts `detector`, as it stands after working
    /// through the pushed frames, in place of the old one, appends in order the
    /// readings among `results` (one per frame, `None` where a frame gave
    /// none) to the queue, and gives how many it appended. Gives 0, with
    /// nothing changed, when no detector has that id.
    pub fn record_readings(&mut self, id: u32, detector: D, results: Vec<Option<O>>) -> (count:
        usize)
        ensures
            final(self).last_id() == old(self).last_id(),
            final(self).handles().dom() == old(self).handles().dom(),
            forall|other: u32|
                other != id && old(self).handles().contains_key(other)
                    ==> #[trigger] final(self).handles()[other] == old(self).handles()[other],
            !old(self).handles().contains_key(id) ==> count == 0 && final(self).handles()
                == old(self).handles(),
            old(self).handles().contains_key(id) ==> {
                &&& count == some_values(results@).len()
                &&& final(self).queued(id) == old(self).queued(id) + some_values(results@)
                &&& final(self).pending(id) == old(self).pending(id)
                &&& final(self).handles()[id].detector == detector
                &&& final(self).handles()[id].config == old(self).handles()[id].config
            },
            old(self).configs_valid() ==> final(self).configs_valid(),
    {
        let mut handle = match self.detectors.remove(&id) {
            Some(handle) => handle,
            None => {
                proof {
                    assert(self.detectors@ =~= old(self).detectors@);
                }
                return 0;
            },
        };
        let ghost original = results@;
        let ghost old_queue = handle.outputs@;
        let ghost old_handle = handle;
        assert(original.len() == results.len());
        let mut results = results;
        let mut count: usize = 0;
        let mut i: usize = 0;
        assert(original.take(0) =~= Seq::<Option<O>>::empty());
        assert(original.skip(0) =~= original);
        while results.len() > 0
            invariant
                i <= original.len(),
                original.len() <= usize::MAX,
                results@ == original.skip(i as int),
                handle.outputs@ == old_queue + some_values(original.take(i as int)),
                count == some_values(original.take(i as int)).len(),
                count <= i,
                handle.config == old_handle.config,
                handle.pending_samples == old_handle.pending_samples,
            decreases results@.len(),
        {
            let r = results.remove(0);
            proof {
                assert(r == original[i as int]);
                assert(original.take(i + 1).drop_last() =~= original.take(i as int));
                assert(original.take(i + 1).last() == original[i as int]);
            }
            match r {
                Some(o) => {
                    handle.outputs.push_back(o);
                    count = count + 1;
                },
                None => {},
            }
            i = i + 1;
            proof {
                assert(results@ =~= original.skip(i as int));
                assert(handle.outputs@ =~= old_queue + some_values(original.take(i as int)));
            }
        }
        assert(original.take(i as int) =~= original);
        handle.detector = detector;
        self.detectors.insert(id, handle);
        count
    }
}

/// A detector can be made exactly when the sample rate is positive and the
/// hop lies between one sample and the frame size; the sample rate has no
/// upper bound.
pub proof fn lemma_valid_config(sample_rate: u32, frame_size: usize, hop_size: usize)
    ensures
        valid_config(sample_rate, frame_size, hop_size) <==> (sample_rate >= 1 && 1 <= hop_size
            <= frame_size),
{
}

/// Every reading is kept, in order: the readings of two runs of results
/// joined are the readings of the first followed by those of the second; a
/// single reading is kept and a frame without one adds nothing.
pub proof fn lemma_some_values<O>(a: Seq<Option<O>>, b: Seq<Option<O>>, x: O)
    ensures
        some_values(Seq::<Option<O>>::empty()) == Seq::<O>::empty(),
        some_values(seq![Some(x)]) == seq![x],
        some_values(seq![None::<O>]) == Seq::<O>::empty(),
        some_values(a + b) == some_values(a) + some_values(b),
        some_values(a).len() <= a.len(),
    decreases b.len(),
{
    assert(some_values(Seq::<Option<O>>::empty()) =~= Seq::<O>::empty());
    assert(seq![Some(x)].drop_last() =~= Seq::<Option<O>>::empty());
    assert(seq![None::<O>].drop_last() =~= Seq::<Option<O>>::empty());
    assert(some_values(seq![Some(x)]) =~= seq![x]);
    assert(some_values(seq![None::<O>]) =~= Seq::<O>::empty());
    if b.len() == 0 {
        assert(a + b =~= a);
        assert(some_values(a) + some_values(b) =~= some_values(a));
    } else {
        lemma_some_values(a, b.drop_last(), x);
        assert((a + b).drop_last() =~= a + b.drop_last());
        assert((a + b).last() == b.last());
        assert(some_values(a + b) =~= some_values(a) + some_values(b));
    }
    lemma_some_values_len(a);
}

proof fn lemma_some_values_len<O>(a: Seq<Option<O>>)
    ensures
        some_values(a).len() <= a.len(),
    decreases a.len(),
{
    if a.len() > 0 {
        lemma_some_values_len(a.drop_last());
    }
}

/// Once a detector is shut down its id is unknown, so shutting it down again
/// reports that nothing was removed.
pub proof fn lemma_shutdown_forgets<D, S, O>(handles: Map<u32, DetectorHandle<D, S, O>>, id: u32)
    ensures
        !handles.remove(id).contains_key(id),
{
}

/// Results come out in the order they were recorded: two results recorded
/// behind a queue are read after it, the first before the second.
pub proof fn lemma_outputs_in_order<O>(queue: Seq<O>, first: O, second: O)
    ensures
        queue.push(first).push(second).len() == queue.len() + 2,
        queue.push(first).push(second)[queue.len() as int] == first,
        queue.push(first).push(second)[queue.len() as int + 1] == second,
        queue.push(first).push(second).skip(queue.len() as int) == seq![first, second],
{
    assert(queue.push(first).push(second).skip(queue.len() as int) =~= seq![first, second]);
}

/// The samples a detector works through on a push: those waiting, then the
/// new ones.
pub open spec fn stream_after_push<S>(pending: Seq<S>, samples: Seq<S>) -> Seq<S> {
    pending + samples
}

impl<D, S: Copy, O> DetectorRegistry<D, S, O> {
    /// Adds `samples` to those waiting at `id` and takes every full frame from
    /// them, as `extract_sliding_frames` does with the detector's frame size
    /// and hop. Gives `None`, with nothing changed, when `id` is 0,
    /// `samples` is empty, no detector has that id, or its settings are not
    /// valid.
    pub fn push_samples(&mut self, id: u32, samples: &[S]) -> (r: Option<Vec<Vec<S>>>)
        ensures
            final(self).last_id() == old(self).last_id(),
            final(self).handles().dom() == old(self).handles().dom(),
            forall|other: u32|
                other != id && old(self).handles().contains_key(other)
                    ==> #[trigger] final(self).handles()[other] == old(self).handles()[other],
            !(id != 0 && samples@.len() > 0 && old(self).handles().contains_key(id)
                && old(self).handles()[id].config.is_valid()) ==> r is None
                && final(self).handles() == old(self).handles(),
            (id != 0 && samples@.len() > 0 && old(self).handles().contains_key(id)
                && old(self).handles()[id].config.is_valid()) ==> (r matches Some(frames) && {
                let config = old(self).handles()[id].config;
                let stream = stream_after_push(old(self).pending(id), samples@);
                &&& frames@.len() == frame_count(
                    stream.len(),
                    config.frame_size as nat,
                    config.hop_size as nat,
                )
                &&& forall|j: int|
                    0 <= j < frames@.len() ==> (#[trigger] frames@[j])@ == stream.subrange(
                        j * config.hop_size,
                        j * config.hop_size + config.frame_size,
                    )
                &&& final(self).pending(id) == stream.skip(
                    consumed_samples(
                        stream.len(),
                        config.frame_size as nat,
                        config.hop_size as nat,
                    ) as int,
                )
                &&& frames@.map_values(|v: Vec<S>| v@) == window_frames(
                    stream,
                    config.frame_size as nat,
                    config.hop_size as nat,
                )
                &&& final(self).pending(id) == window_rest(
                    stream,
                    config.frame_size as nat,
                    config.hop_size as nat,
                )
                &&& final(self).queued(id) == old(self).queued(id)
                &&& final(self).handles()[id].detector == old(self).handles()[id].detector
                &&& final(self).handles()[id].config == config
            }),
            old(self).configs_valid() ==> final(self).configs_valid(),
    {
        if id == 0 || samples.len() == 0 {
            return None;
        }
        let mut handle = match self.detectors.remove(&id) {
            Some(handle) => handle,
            None => {
                proof {
                    assert(self.detectors@ =~= old(self).detectors@);
                }
                return None;
            },
        };
        if !is_valid_config(
            handle.config.sample_rate,
            handle.config.frame_size,
            handle.config.hop_size,
        ) {
            self.detectors.insert(id, handle);
            proof {
                assert(self.detectors@ =~= old(self).detectors@);
            }
            return None;
        }
        let ghost old_pending = handle.pending_samples@;
        let ghost old_handle = handle;
        let mut i: usize = 0;
        while i < samples.len()
            invariant
                i <= samples@.len(),
                handle.pending_samples@ == old_pending + samples@.take(i as int),
                handle.config == old_handle.config,
                handle.detector == old_handle.detector,
                handle.outputs == old_handle.outputs,
            decreases samples@.len() - i,
        {
            handle.pending_samples.push(samples[i]);
            i = i + 1;
            assert(handle.pending_samples@ =~= old_pending + samples@.take(i as int));
        }
        assert(samples@.take(i as int) =~= samples@);
        let frames = extract_sliding_frames(
            &mut handle.pending_samples,
            handle.config.frame_size,
            handle.config.hop_size,
        );
        self.detectors.insert(id, handle);
        Some(frames)
    }
}

} // verus!
