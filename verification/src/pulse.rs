//! Signal-propagation network simulator.
//!
//! A network is a directed graph of named modules that exchange boolean
//! pulses.  One *trigger* (button press) injects a single low pulse into the
//! entry module and processes the resulting cascade to quiescence in strict
//! first-in-first-out causal order, counting pulses by polarity.
//!
//! The abstract behaviour is a small-step machine over ghost state
//! ([`SimState`], [`step`], [`steps`]); the executable engine is proved to
//! compute exactly the counts and final module states that machine reaches.
//! Since the machine is a mathematical function of the initial state, the
//! simulation is deterministic by construction, and that fact is available to
//! callers as [`lemma_run_deterministic`].

use vstd::prelude::*;
use vstd::string::StringSliceAdditionalSpecFns;

verus! {

/// A pulse polarity.
#[derive(Clone, Copy, PartialEq, Eq, Structural, Debug)]
pub enum Pulse {
    Lo,
    Hi,
}

/// One queued pulse event: `src` sent `pulse` to `dst`.  Modules are named by
/// dense indices into the network tables.
#[derive(Clone, Copy, PartialEq, Eq, Structural, Debug)]
pub struct Event {
    pub src: usize,
    pub pulse: Pulse,
    pub dst: usize,
}

/// A stateful logic module.
///
/// `Broad` re-emits every pulse it receives; `Flip` holds one bit, ignores
/// high pulses and toggles on low ones; `Conj` remembers the last polarity
/// received from each inbound sender and emits low exactly when all are high.
/// `Sink` stands for a name that only ever appears as a destination: it
/// absorbs pulses and emits nothing.
#[derive(Debug)]
pub enum Module {
    Broad,
    Flip { on: bool },
    Conj { senders: Vec<usize>, memory: Vec<Pulse> },
    Sink,
}

/// The mathematical value of a [`Module`].
pub enum ModuleV {
    Broad,
    Flip { on: bool },
    Conj { senders: Seq<usize>, memory: Seq<Pulse> },
    Sink,
}

impl View for Module {
    type V = ModuleV;

    open spec fn view(&self) -> ModuleV {
        match self {
            Module::Broad => ModuleV::Broad,
            Module::Flip { on } => ModuleV::Flip { on: *on },
            Module::Conj { senders, memory } => ModuleV::Conj {
                senders: senders@,
                memory: memory@,
            },
            Module::Sink => ModuleV::Sink,
        }
    }
}

/// Whether every remembered polarity is high.
pub open spec fn all_hi(memory: Seq<Pulse>) -> bool {
    forall|i: int| 0 <= i < memory.len() ==> #[trigger] memory[i] is Hi
}

/// The first index of `x` in `s` (meaningful when `s` contains `x`).
pub open spec fn first_occurrence(s: Seq<usize>, x: usize) -> int
    decreases s.len(),
{
    if s.len() == 0 {
        0
    } else if s[0] == x {
        0
    } else {
        1 + first_occurrence(s.drop_first(), x)
    }
}

pub proof fn lemma_first_occurrence(s: Seq<usize>, x: usize)
    requires
        s.contains(x),
    ensures
        0 <= first_occurrence(s, x) < s.len(),
        s[first_occurrence(s, x)] == x,
        forall|j: int| 0 <= j < first_occurrence(s, x) ==> s[j] != x,
    decreases s.len(),
{
    if s[0] == x {
    } else {
        let t = s.drop_first();
        assert(t.contains(x)) by {
            let i = choose|i: int| 0 <= i < s.len() && s[i] == x;
            assert(t[i - 1] == x);
        }
        lemma_first_occurrence(t, x);
        assert(forall|j: int| 0 <= j < first_occurrence(s, x) ==> s[j] != x) by {
            assert(forall|j: int| 1 <= j < first_occurrence(s, x) ==> s[j] == t[j - 1]);
        }
    }
}

/// What a module does with one received pulse: its new state, and the pulse
/// it emits to all of its destinations (or nothing).
pub open spec fn receive_v(m: ModuleV, src: usize, p: Pulse) -> (ModuleV, Option<Pulse>) {
    match m {
        ModuleV::Broad => (m, Some(p)),
        ModuleV::Flip { on } => {
            if p is Hi {
                (m, None)
            } else {
                (
                    ModuleV::Flip { on: !on },
                    Some(if !on { Pulse::Hi } else { Pulse::Lo }),
                )
            }
        },
        ModuleV::Conj { senders, memory } => {
            if senders.contains(src) {
                let mem2 = memory.update(first_occurrence(senders, src), p);
                (
                    ModuleV::Conj { senders, memory: mem2 },
                    Some(if all_hi(mem2) { Pulse::Lo } else { Pulse::Hi }),
                )
            } else {
                (m, None)
            }
        },
        ModuleV::Sink => (m, None),
    }
}

impl Module {
    /// A conjunction keeps one remembered polarity per inbound sender.
    pub open spec fn wf(&self) -> bool {
        self@ matches ModuleV::Conj { senders, memory } ==> senders.len() == memory.len()
    }

    /// Receives one pulse from `sender`, mutating the module's state, and
    /// returns the pulse to pass on to every destination, if any.
    ///
    /// A conjunction may only be handed pulses from senders it was built to
    /// remember; the network builder establishes that invariant.
    pub fn send_pulse(&mut self, sender: usize, received_pulse: Pulse) -> (r: Option<Pulse>)
        requires
            old(self).wf(),
            old(self)@ matches ModuleV::Conj { senders, .. } ==> senders.contains(sender),
        ensures
            final(self).wf(),
            final(self)@ == receive_v(old(self)@, sender, received_pulse).0,
            r == receive_v(old(self)@, sender, received_pulse).1,
    {
        match self {
            Module::Broad => Some(received_pulse),
            Module::Flip { on } => {
                if received_pulse == Pulse::Hi {
                    None
                } else {
                    *on = !*on;
                    if *on {
                        Some(Pulse::Hi)
                    } else {
                        Some(Pulse::Lo)
                    }
                }
            },
            Module::Conj { senders, memory } => {
                proof {
                    lemma_first_occurrence(senders@, sender);
                }
                let mut i: usize = 0;
                while i < senders.len() && senders[i] != sender
                    invariant
                        0 <= i <= senders@.len(),
                        senders@.contains(sender),
                        forall|j: int| 0 <= j < i ==> senders@[j] != sender,
                    decreases senders@.len() - i,
                {
                    i = i + 1;
                }
                proof {
                    lemma_first_occurrence(senders@, sender);
                    assert(i < senders@.len()) by {
                        if i == senders@.len() {
                            let w = choose|w: int|
                                0 <= w < senders@.len() && senders@[w] == sender;
                            assert(senders@[w] != sender);
                        }
                    }
                    assert(i as int == first_occurrence(senders@, sender)) by {
                        let f = first_occurrence(senders@, sender);
                        if f < i {
                            assert(senders@[f] != sender);
                        }
                        if i < f {
                            assert(senders@[i as int] != sender);
                        }
                    }
                }
                memory[i] = received_pulse;
                let mut all = true;
                let mut j: usize = 0;
                while j < memory.len()
                    invariant
                        0 <= j <= memory@.len(),
                        all == (forall|k: int| 0 <= k < j ==> #[trigger] memory@[k] is Hi),
                    decreases memory@.len() - j,
                {
                    let keep = match memory[j] {
                        Pulse::Hi => true,
                        Pulse::Lo => false,
                    };
                    all = all && keep;
                    j = j + 1;
                }
                if all {
                    Some(Pulse::Lo)
                } else {
                    Some(Pulse::Hi)
                }
            },
            Module::Sink => None,
        }
    }
}

} // verus!

verus! {

/// Ghost state of the propagation machine: module states, the pending event
/// queue, and the pulse counters.
#[verifier::ext_equal]
pub struct SimState {
    pub mods: Seq<ModuleV>,
    pub queue: Seq<Event>,
    pub lo: nat,
    pub hi: nat,
}

/// The events a module emits to all of its destinations, in wiring order.
pub open spec fn fanout(topo: Seq<Seq<usize>>, src: usize, p: Pulse) -> Seq<Event> {
    topo[src as int].map(|i: int, d: usize| Event { src: src, pulse: p, dst: d })
}

/// One step of the machine: dequeue the oldest event, count it, deliver it,
/// and append whatever the receiver emits.
pub open spec fn step(topo: Seq<Seq<usize>>, st: SimState) -> SimState {
    if st.queue.len() == 0 {
        st
    } else {
        let ev = st.queue[0];
        let rest = st.queue.drop_first();
        let lo2 = st.lo + if ev.pulse is Lo { 1nat } else { 0nat };
        let hi2 = st.hi + if ev.pulse is Hi { 1nat } else { 0nat };
        if ev.dst < st.mods.len() {
            let m2 = receive_v(st.mods[ev.dst as int], ev.src, ev.pulse).0;
            let out = receive_v(st.mods[ev.dst as int], ev.src, ev.pulse).1;
            let mods2 = st.mods.update(ev.dst as int, m2);
            let queue2 = match out {
                Option::None => rest,
                Option::Some(p) => rest + fanout(topo, ev.dst, p),
            };
            SimState { mods: mods2, queue: queue2, lo: lo2, hi: hi2 }
        } else {
            SimState { mods: st.mods, queue: rest, lo: lo2, hi: hi2 }
        }
    }
}

/// `k` steps of the machine.
pub open spec fn steps(topo: Seq<Seq<usize>>, st: SimState, k: nat) -> SimState
    decreases k,
{
    if k == 0 {
        st
    } else {
        step(topo, steps(topo, st, (k - 1) as nat))
    }
}

/// The initial state of one trigger run: a single low seed pulse addressed to
/// the entry module, and zeroed counters.
pub open spec fn init_state(mods: Seq<ModuleV>, entry: usize) -> SimState {
    SimState {
        mods: mods,
        queue: seq![Event { src: entry, pulse: Pulse::Lo, dst: entry }],
        lo: 0,
        hi: 0,
    }
}

/// Structural well-formedness of a wired network: every wire stays in range,
/// every conjunction has one memory cell per sender, and every module that
/// feeds a conjunction is among that conjunction's remembered senders.
pub open spec fn wf_net(topo: Seq<Seq<usize>>, mods: Seq<ModuleV>) -> bool {
    &&& topo.len() == mods.len()
    &&& forall|u: int, j: int|
        0 <= u < topo.len() && 0 <= j < topo[u].len() ==> (#[trigger] topo[u][j]) < mods.len()
    &&& forall|v: int|
        0 <= v < mods.len() ==> ((#[trigger] mods[v]) matches ModuleV::Conj { senders, memory }
            ==> senders.len() == memory.len())
    &&& forall|u: int, j: int|
        0 <= u < topo.len() && 0 <= j < topo[u].len() ==> ((mods[#[trigger] topo[u][j] as int])
            matches ModuleV::Conj { senders, .. } ==> senders.contains(u as usize))
}

/// An event that can be delivered safely: its receiver exists, and if the
/// receiver is a conjunction it remembers the event's sender.
pub open spec fn wf_event(mods: Seq<ModuleV>, ev: Event) -> bool {
    &&& ev.dst < mods.len()
    &&& (mods[ev.dst as int] matches ModuleV::Conj { senders, .. } ==> senders.contains(ev.src))
}

pub open spec fn wf_queue(mods: Seq<ModuleV>, q: Seq<Event>) -> bool {
    forall|i: int| 0 <= i < q.len() ==> wf_event(mods, #[trigger] q[i])
}

pub open spec fn wf_state(topo: Seq<Seq<usize>>, st: SimState) -> bool {
    &&& wf_net(topo, st.mods)
    &&& wf_queue(st.mods, st.queue)
}

/// Delivering a pulse never changes a module's kind, its sender list, or the
/// length of its memory.
pub proof fn lemma_receive_shape(m: ModuleV, src: usize, p: Pulse)
    requires
        m matches ModuleV::Conj { senders, memory } ==> senders.len() == memory.len(),
    ensures
        receive_v(m, src, p).0 matches ModuleV::Conj { senders, memory } ==> (m matches
            ModuleV::Conj { senders: s0, memory: m0 } && s0 == senders && m0.len()
            == memory.len()),
        m matches ModuleV::Conj { .. } ==> receive_v(m, src, p).0 matches ModuleV::Conj { .. },
{
    match m {
        ModuleV::Conj { senders, memory } => {
            if senders.contains(src) {
                lemma_first_occurrence(senders, src);
            }
        },
        _ => {},
    }
}

/// One machine step preserves well-formedness.
pub proof fn lemma_step_preserves_wf(topo: Seq<Seq<usize>>, st: SimState)
    requires
        wf_state(topo, st),
    ensures
        wf_state(topo, step(topo, st)),
        step(topo, st).mods.len() == st.mods.len(),
{
    if st.queue.len() == 0 {
    } else {
        let ev = st.queue[0];
        assert(wf_event(st.mods, ev));
        if ev.dst < st.mods.len() {
            let m = st.mods[ev.dst as int];
            let m2 = receive_v(m, ev.src, ev.pulse).0;
            let out = receive_v(m, ev.src, ev.pulse).1;
            let mods2 = st.mods.update(ev.dst as int, m2);
            lemma_receive_shape(m, ev.src, ev.pulse);
            assert(wf_net(topo, mods2));
            let st2 = step(topo, st);
            assert forall|i: int| 0 <= i < st2.queue.len() implies wf_event(
                mods2,
                #[trigger] st2.queue[i],
            ) by {
                let rest = st.queue.drop_first();
                if i < rest.len() {
                    assert(rest[i] == st.queue[i + 1]);
                    assert(wf_event(st.mods, st.queue[i + 1]));
                } else {
                    match out {
                        Option::Some(p) => {
                            let f = fanout(topo, ev.dst, p);
                            assert(st2.queue[i] == f[i - rest.len()]);
                            assert(f[i - rest.len()].dst == topo[ev.dst as int][i - rest.len()]);
                        },
                        Option::None => {},
                    }
                }
            }
        } else {
            assert forall|i: int| 0 <= i < step(topo, st).queue.len() implies wf_event(
                step(topo, st).mods,
                #[trigger] step(topo, st).queue[i],
            ) by {
                assert(step(topo, st).queue[i] == st.queue[i + 1]);
            }
        }
    }
}

/// Well-formedness is preserved along any number of steps.
pub proof fn lemma_steps_preserve_wf(topo: Seq<Seq<usize>>, st: SimState, k: nat)
    requires
        wf_state(topo, st),
    ensures
        wf_state(topo, steps(topo, st, k)),
        steps(topo, st, k).mods.len() == st.mods.len(),
    decreases k,
{
    if k > 0 {
        lemma_steps_preserve_wf(topo, st, (k - 1) as nat);
        lemma_step_preserves_wf(topo, steps(topo, st, (k - 1) as nat));
    }
}

/// Once the queue has drained, further steps change nothing.
pub proof fn lemma_steps_stable(topo: Seq<Seq<usize>>, st: SimState, k: nat, k2: nat)
    requires
        steps(topo, st, k).queue.len() == 0,
        k <= k2,
    ensures
        steps(topo, st, k2) == steps(topo, st, k),
    decreases k2 - k,
{
    if k < k2 {
        lemma_steps_stable(topo, st, k, (k2 - 1) as nat);
    }
}

/// Determinism: two drained runs from one initial state agree exactly, in
/// their counts and in every module's final state.  The machine is a
/// function of the initial state, so there is nothing else they could do;
/// this records the fact for callers.
pub proof fn lemma_run_deterministic(topo: Seq<Seq<usize>>, st: SimState, k1: nat, k2: nat)
    requires
        steps(topo, st, k1).queue.len() == 0,
        steps(topo, st, k2).queue.len() == 0,
    ensures
        steps(topo, st, k1) == steps(topo, st, k2),
{
    if k1 <= k2 {
        lemma_steps_stable(topo, st, k1, k2);
    } else {
        lemma_steps_stable(topo, st, k2, k1);
    }
}

/// The immutable wiring of a network: module names, each module's
/// destination list, and the index of the entry module.
pub struct Network {
    pub names: Vec<Vec<u8>>,
    pub dests: Vec<Vec<usize>>,
    pub broadcaster: usize,
}

/// The views of a table of modules.
pub open spec fn mods_view(mods: Seq<Module>) -> Seq<ModuleV> {
    mods.map_values(|m: Module| m@)
}

impl Network {
    /// The wiring as a mathematical adjacency table.
    pub open spec fn topo(&self) -> Seq<Seq<usize>> {
        self.dests@.map_values(|v: Vec<usize>| v@)
    }

    pub open spec fn wf(&self) -> bool {
        &&& self.names@.len() == self.dests@.len()
        &&& self.broadcaster < self.dests@.len()
    }
}

/// Outcome of a drained trigger run started from `st0`: after `k` steps the
/// queue is empty, the modules are in states `mods`, and `lo`/`hi` pulses of
/// each polarity were counted (the seed pulse included).
pub open spec fn run_result(
    topo: Seq<Seq<usize>>,
    st0: SimState,
    k: nat,
    mods: Seq<ModuleV>,
    lo: nat,
    hi: nat,
) -> bool {
    let end = steps(topo, st0, k);
    &&& end.queue.len() == 0
    &&& end.mods == mods
    &&& end.lo == lo
    &&& end.hi == hi
}

/// A drained trigger run from `st0` ends with module states `mods` and
/// counts `lo`/`hi`, after however many steps the drain took.
pub open spec fn drained_run(
    topo: Seq<Seq<usize>>,
    st0: SimState,
    mods: Seq<ModuleV>,
    lo: nat,
    hi: nat,
) -> bool {
    exists|k: nat| run_result(topo, st0, k, mods, lo, hi)
}

} // verus!

verus! {

/// Whether the event processed at step `i` (if any) is `w` emitting low.
pub open spec fn fired_at(topo: Seq<Seq<usize>>, st0: SimState, w: usize, i: nat) -> bool {
    let s = steps(topo, st0, i);
    s.queue.len() > 0 && s.queue[0].src == w && s.queue[0].pulse is Lo
}

/// Whether `w` emits a low pulse at any of the first `k` steps.
pub open spec fn fired_before(topo: Seq<Seq<usize>>, st0: SimState, w: usize, k: nat) -> bool {
    exists|i: nat| i < k && fired_at(topo, st0, w, i)
}

/// A drained trigger run from `st0` ending in `mods` with counts `lo`/`hi`,
/// during which watcher `w` did (`fired`) or did not emit a low pulse.
pub open spec fn observed_run(
    topo: Seq<Seq<usize>>,
    st0: SimState,
    mods: Seq<ModuleV>,
    lo: nat,
    hi: nat,
    w: usize,
    fired: bool,
) -> bool {
    exists|k: nat|
        run_result(topo, st0, k, mods, lo, hi) && fired == fired_before(topo, st0, w, k)
}

/// Once drained, the fired-observation is also stable.
pub proof fn lemma_fired_stable(topo: Seq<Seq<usize>>, st0: SimState, w: usize, k: nat, k2: nat)
    requires
        steps(topo, st0, k).queue.len() == 0,
        k <= k2,
    ensures
        fired_before(topo, st0, w, k2) == fired_before(topo, st0, w, k),
{
    if fired_before(topo, st0, w, k2) {
        let i = choose|i: nat| i < k2 && fired_at(topo, st0, w, i);
        if i >= k {
            lemma_steps_stable(topo, st0, k, i);
            assert(!fired_at(topo, st0, w, i));
        }
        assert(fired_before(topo, st0, w, k));
    }
}

/// Runs one trigger: seeds a single low pulse into the entry module and
/// drains the queue in first-in-first-out order, mutating the module states
/// in place.  Returns `(low, high)` pulse counts, seed included.
///
/// The result and the final module states are exactly those of the abstract
/// machine run to quiescence (`run_result`), and at least the low seed pulse
/// is always counted.
pub fn run_trigger_watch(modules: &mut Vec<Module>, net: &Network, watch: usize) -> (r: (
    (usize, usize),
    bool,
))
    requires
        net.wf(),
        old(modules)@.len() == net.dests@.len(),
        wf_state(net.topo(), init_state(mods_view(old(modules)@), net.broadcaster)),
    ensures
        final(modules)@.len() == old(modules)@.len(),
        drained_run(
            net.topo(),
            init_state(mods_view(old(modules)@), net.broadcaster),
            mods_view(final(modules)@),
            r.0.0 as nat,
            r.0.1 as nat,
        ),
        observed_run(
            net.topo(),
            init_state(mods_view(old(modules)@), net.broadcaster),
            mods_view(final(modules)@),
            r.0.0 as nat,
            r.0.1 as nat,
            watch,
            r.1,
        ),
        r.0.0 >= 1,
{
    let mut fired = false;
    let ghost topo = net.topo();
    let ghost st0 = init_state(mods_view(old(modules)@), net.broadcaster);
    let mut queue: Vec<Event> = Vec::new();
    queue.push(Event { src: net.broadcaster, pulse: Pulse::Lo, dst: net.broadcaster });
    let mut head: usize = 0;
    let mut lo: usize = 0;
    let mut hi: usize = 0;
    proof {
        assert(steps(topo, st0, 0) == st0);
        assert(st0.queue =~= queue@.skip(0));
    }
    while head < queue.len()
        invariant
            net.wf(),
            modules@.len() == net.dests@.len(),
            topo == net.topo(),
            st0 == init_state(mods_view(old(modules)@), net.broadcaster),
            head <= queue@.len(),
            queue@.len() >= 1,
            lo + hi == head,
            head >= 1 ==> lo >= 1,
            wf_state(topo, steps(topo, st0, head as nat)),
            steps(topo, st0, head as nat).mods == mods_view(modules@),
            steps(topo, st0, head as nat).queue == queue@.skip(head as int),
            steps(topo, st0, head as nat).lo == lo,
            steps(topo, st0, head as nat).hi == hi,
            fired == fired_before(topo, st0, watch, head as nat),
        decreases usize::MAX - head,
    {
        let ghost cur = steps(topo, st0, head as nat);
        let ev = queue[head];
        proof {
            assert(cur.queue[0] == queue@.skip(head as int)[0]);
            assert(wf_event(cur.mods, cur.queue[0]));
            assert(cur.queue.drop_first() =~= queue@.skip(head as int + 1));
            lemma_step_preserves_wf(topo, cur);
        }
        let ghost old_head = head as nat;
        let ghost old_fired = fired;
        head = head + 1;
        match ev.pulse {
            Pulse::Lo => {
                lo = lo + 1;
            },
            Pulse::Hi => {
                hi = hi + 1;
            },
        }
        if ev.src == watch && ev.pulse == Pulse::Lo {
            fired = true;
        }
        proof {
            if fired {
                if old_fired {
                    let i = choose|i: nat| i < old_head && fired_at(topo, st0, watch, i);
                    assert(i < head as nat && fired_at(topo, st0, watch, i));
                } else {
                    assert(fired_at(topo, st0, watch, old_head));
                    assert(old_head < head as nat);
                }
                assert(fired_before(topo, st0, watch, head as nat));
            } else {
                assert(!fired_at(topo, st0, watch, old_head));
                assert forall|i: nat| i < head as nat implies !fired_at(topo, st0, watch, i) by {
                    if i < old_head {
                        assert(!fired_before(topo, st0, watch, old_head));
                        assert(!fired_at(topo, st0, watch, i));
                    }
                }
            }
        }
        assert(ev.dst < modules.len());
        proof {
            assert(mods_view(modules@)[ev.dst as int] == modules@[ev.dst as int]@);
        }
        let m = &mut modules[ev.dst];
        let out = m.send_pulse(ev.src, ev.pulse);
        proof {
            assert(mods_view(modules@) =~= cur.mods.update(
                ev.dst as int,
                receive_v(cur.mods[ev.dst as int], ev.src, ev.pulse).0,
            ));
        }
        match out {
            Option::Some(p) => {
                let ghost qbase = queue@;
                let dlist = &net.dests[ev.dst];
                let dn = dlist.len();
                proof {
                    assert(topo[ev.dst as int] == dlist@);
                }
                let mut j: usize = 0;
                while j < dn
                    invariant
                        j <= dn,
                        dn == dlist@.len(),
                        dlist@ == topo[ev.dst as int],
                        queue@ =~= qbase + fanout(topo, ev.dst, p).take(j as int),
                        fanout(topo, ev.dst, p).len() == dn,
                    decreases dn - j,
                {
                    let d = dlist[j];
                    queue.push(Event { src: ev.dst, pulse: p, dst: d });
                    proof {
                        assert(fanout(topo, ev.dst, p)[j as int] == Event {
                            src: ev.dst,
                            pulse: p,
                            dst: dlist@[j as int],
                        });
                        assert(queue@ =~= qbase + fanout(topo, ev.dst, p).take(j as int + 1));
                    }
                    j = j + 1;
                }
                proof {
                    assert(fanout(topo, ev.dst, p).take(dn as int) =~= fanout(topo, ev.dst, p));
                    assert(queue@.skip(head as int) =~= qbase.skip(head as int) + fanout(
                        topo,
                        ev.dst,
                        p,
                    ));
                    assert(steps(topo, st0, head as nat) == step(topo, cur));
                    assert(step(topo, cur).queue =~= queue@.skip(head as int));
                }
            },
            Option::None => {
                proof {
                    assert(steps(topo, st0, head as nat) == step(topo, cur));
                }
            },
        }
    }
    proof {
        assert(steps(topo, st0, head as nat).queue.len() == 0);
        assert(run_result(
            net.topo(),
            init_state(mods_view(old(modules)@), net.broadcaster),
            head as nat,
            mods_view(modules@),
            lo as nat,
            hi as nat,
        ));
        assert(drained_run(
            net.topo(),
            init_state(mods_view(old(modules)@), net.broadcaster),
            mods_view(modules@),
            lo as nat,
            hi as nat,
        ));
        assert(observed_run(
            net.topo(),
            init_state(mods_view(old(modules)@), net.broadcaster),
            mods_view(modules@),
            lo as nat,
            hi as nat,
            watch,
            fired,
        ));
    }
    ((lo, hi), fired)
}

/// Runs one trigger to quiescence and returns `(low, high)` pulse counts,
/// seed included: the counts and final states of the abstract machine's
/// drained run, with at least the one low seed pulse counted.
pub fn simulate(modules: &mut Vec<Module>, net: &Network) -> (r: (usize, usize))
    requires
        net.wf(),
        old(modules)@.len() == net.dests@.len(),
        wf_state(net.topo(), init_state(mods_view(old(modules)@), net.broadcaster)),
    ensures
        final(modules)@.len() == old(modules)@.len(),
        drained_run(
            net.topo(),
            init_state(mods_view(old(modules)@), net.broadcaster),
            mods_view(final(modules)@),
            r.0 as nat,
            r.1 as nat,
        ),
        r.0 >= 1,
{
    let (counts, _) = run_trigger_watch(modules, net, 0);
    counts
}

} // verus!

verus! {

/// A flip-flop never changes state on a high pulse: it stays silent and its
/// bit is untouched, however many high pulses arrive in a row.
pub proof fn lemma_flip_flop_ignores_high(m: ModuleV, src: usize, src2: usize)
    requires
        m matches ModuleV::Flip { .. },
    ensures
        receive_v(m, src, Pulse::Hi).0 == m,
        receive_v(m, src, Pulse::Hi).1 is None,
        receive_v(receive_v(m, src, Pulse::Hi).0, src2, Pulse::Hi).0 == m,
{
}

/// A flip-flop toggles its state on every low pulse, and emits high exactly
/// when the pulse just turned it on.
pub proof fn lemma_flip_flop_toggles(on: bool, src: usize)
    ensures
        receive_v(ModuleV::Flip { on: on }, src, Pulse::Lo).0 == (ModuleV::Flip { on: !on }),
        receive_v(ModuleV::Flip { on: on }, src, Pulse::Lo).1 == Some(
            if !on {
                Pulse::Hi
            } else {
                Pulse::Lo
            },
        ),
{
}

/// A conjunction always answers, and it answers low exactly when, after
/// recording the incoming pulse, every remembered sender is high.  In
/// particular a conjunction whose memory is all-high emits low when the next
/// pulse is high, and emits high as soon as any remembered polarity is low.
pub proof fn lemma_conjunction_emits(senders: Seq<usize>, memory: Seq<Pulse>, src: usize, p: Pulse)
    requires
        senders.len() == memory.len(),
        senders.contains(src),
    ensures
        receive_v(ModuleV::Conj { senders, memory }, src, p).1 is Some,
        receive_v(ModuleV::Conj { senders, memory }, src, p).1 == Some(Pulse::Lo) <==> all_hi(
            memory.update(first_occurrence(senders, src), p),
        ),
        all_hi(memory) && p is Hi ==> receive_v(ModuleV::Conj { senders, memory }, src, p).1
            == Some(Pulse::Lo),
        p is Lo ==> receive_v(ModuleV::Conj { senders, memory }, src, p).1 == Some(Pulse::Hi),
{
    lemma_first_occurrence(senders, src);
    let f = first_occurrence(senders, src);
    let mem2 = memory.update(f, p);
    if all_hi(memory) && p is Hi {
        assert forall|i: int| 0 <= i < mem2.len() implies #[trigger] mem2[i] is Hi by {
            if i != f {
                assert(mem2[i] == memory[i]);
            }
        }
    }
    if p is Lo {
        assert(mem2[f] is Lo);
        assert(!all_hi(mem2));
    }
}

} // verus!

verus! {

/// Why a network failed to build: a declaration line without the wire arrow,
/// a declaration whose kind tag is not recognized, or no entry module.
#[derive(Clone, Copy, PartialEq, Eq, Structural, Debug)]
pub enum BuildError {
    MalformedLine,
    UnknownPrefix,
    MissingBroadcaster,
}

/// The wire arrow that separates a declaration's name from its destinations.
pub open spec fn arrow_bytes() -> Seq<u8> {
    seq![32u8, 45u8, 62u8, 32u8]
}

/// The entry module's name, `broadcaster`.
pub open spec fn entry_bytes() -> Seq<u8> {
    seq![98u8, 114u8, 111u8, 97u8, 100u8, 99u8, 97u8, 115u8, 116u8, 101u8, 114u8]
}

/// Whether `pat` occurs in `s` at position `i`.
pub open spec fn occurs_at(s: Seq<u8>, pat: Seq<u8>, i: int) -> bool {
    0 <= i && i + pat.len() <= s.len() && s.subrange(i, i + pat.len()) =~= pat
}

/// Whether the line holds the wire arrow at all.
pub open spec fn has_arrow(line: Seq<u8>) -> bool {
    exists|i: int| occurs_at(line, arrow_bytes(), i)
}

/// The position of the line's first wire arrow.
pub open spec fn first_arrow(line: Seq<u8>) -> int {
    choose|i: int|
        occurs_at(line, arrow_bytes(), i) && forall|j: int|
            0 <= j < i ==> !occurs_at(line, arrow_bytes(), j)
}

/// What stands left of the first arrow: the kind tag and name.
pub open spec fn line_left(line: Seq<u8>) -> Seq<u8> {
    line.subrange(0, first_arrow(line))
}

/// What stands right of the first arrow: the destination list text.
pub open spec fn line_right(line: Seq<u8>) -> Seq<u8> {
    line.subrange(first_arrow(line) + 4, line.len() as int)
}

/// Whether the left side carries a recognized kind tag: the literal entry
/// name, or `%`/`&` followed by a non-empty name.
pub open spec fn good_kind_tag(line: Seq<u8>) -> bool {
    ||| line_left(line) =~= entry_bytes()
    ||| (line_left(line).len() >= 2 && (line_left(line)[0] == 37 || line_left(line)[0] == 38))
}

/// Splits one declaration line at its first wire arrow and reads its kind
/// tag, name and destination text.  Exactly the lines without an arrow are
/// malformed, and exactly the lines whose left side is neither the entry
/// name nor `%`/`&` plus a name have an unrecognized kind tag.
pub fn classify_line(line: &[u8]) -> (r: Result<(u8, Vec<u8>, Vec<u8>), BuildError>)
    ensures
        r is Ok <==> (has_arrow(line@) && good_kind_tag(line@)),
        r matches Err(e) ==> ((e is MalformedLine <==> !has_arrow(line@)) && (e is UnknownPrefix
            <==> (has_arrow(line@) && !good_kind_tag(line@)))),
        r matches Ok((kind, name, right)) ==> {
            &&& right@ =~= line_right(line@)
            &&& (line_left(line@) =~= entry_bytes() ==> kind == 98 && name@ =~= line_left(
                line@,
            ))
            &&& (!(line_left(line@) =~= entry_bytes()) ==> kind == line_left(line@)[0] && name@
                =~= line_left(line@).drop_first())
        },
{
    let arrow: [u8; 4] = [32, 45, 62, 32];
    let entry_name: [u8; 11] = [98, 114, 111, 97, 100, 99, 97, 115, 116, 101, 114];
    proof {
        assert(arrow@ =~= arrow_bytes());
        assert(entry_name@ =~= entry_bytes());
    }
    match crate::text::find_sub(line, arrow.as_slice()) {
        None => {
            proof {
                assert(!has_arrow(line@)) by {
                    if has_arrow(line@) {
                        let i = choose|i: int| occurs_at(line@, arrow_bytes(), i);
                        assert(!(i + arrow@.len() <= line@.len() && line@.subrange(
                            i,
                            i + arrow@.len(),
                        ) =~= arrow@));
                    }
                }
            }
            Err(BuildError::MalformedLine)
        },
        Some(i) => {
            proof {
                assert(occurs_at(line@, arrow_bytes(), i as int));
                assert(forall|j: int| 0 <= j < i ==> !occurs_at(line@, arrow_bytes(), j));
                let f = first_arrow(line@);
                assert(occurs_at(line@, arrow_bytes(), f) && forall|j: int|
                    0 <= j < f ==> !occurs_at(line@, arrow_bytes(), j));
                assert(f == i as int) by {
                    if f < i as int {
                        assert(!occurs_at(line@, arrow_bytes(), f));
                    }
                    if (i as int) < f {
                        assert(!occurs_at(line@, arrow_bytes(), i as int));
                    }
                }
            }
            let n = line.len();
            proof {
                assert(i + 4 <= n);
            }
            let left = crate::text::copy_range(line, 0, i);
            let right = crate::text::copy_range(line, i + 4, n);
            if crate::text::bytes_eq(left.as_slice(), entry_name.as_slice()) {
                Ok((98, left, right))
            } else if left.len() >= 2 && (left[0] == 37 || left[0] == 38) {
                let kind = left[0];
                let name = crate::text::suffix_bytes(left.as_slice(), 1);
                proof {
                    assert(name@ =~= line_left(line@).drop_first());
                }
                Ok((kind, name, right))
            } else {
                Err(BuildError::UnknownPrefix)
            }
        },
    }
}


/// Whether a declaration line is well formed: it has the wire arrow and a
/// recognized kind tag.
pub open spec fn wf_line(line: Seq<u8>) -> bool {
    has_arrow(line) && good_kind_tag(line)
}

/// The first ill-formed line, or `lv.len()` when every line is well formed.
pub open spec fn first_bad_line(lv: Seq<Seq<u8>>) -> int
    decreases lv.len(),
{
    if lv.len() == 0 {
        0
    } else if !wf_line(lv.first()) {
        0
    } else {
        1 + first_bad_line(lv.drop_first())
    }
}

pub proof fn lemma_first_bad_at(lv: Seq<Seq<u8>>, m: int)
    requires
        0 <= m < lv.len(),
        forall|k: int| 0 <= k < m ==> wf_line(#[trigger] lv[k]),
        !wf_line(lv[m]),
    ensures
        first_bad_line(lv) == m,
    decreases lv.len(),
{
    if m == 0 {
    } else {
        assert(wf_line(lv.first()));
        let t = lv.drop_first();
        assert(forall|k: int| 0 <= k < m - 1 ==> #[trigger] t[k] == lv[k + 1]);
        assert(t[m - 1] == lv[m]);
        lemma_first_bad_at(t, m - 1);
    }
}

pub proof fn lemma_first_bad_none(lv: Seq<Seq<u8>>)
    requires
        forall|k: int| 0 <= k < lv.len() ==> wf_line(#[trigger] lv[k]),
    ensures
        first_bad_line(lv) == lv.len(),
    decreases lv.len(),
{
    if lv.len() > 0 {
        let t = lv.drop_first();
        assert(forall|k: int| 0 <= k < t.len() ==> #[trigger] t[k] == lv[k + 1]);
        lemma_first_bad_none(t);
    }
}

/// The kind tag a well-formed declaration line registers.
pub open spec fn decl_kind(line: Seq<u8>) -> u8 {
    if line_left(line) =~= entry_bytes() {
        98u8
    } else {
        line_left(line)[0]
    }
}

/// The name a well-formed declaration line registers.
pub open spec fn decl_name(line: Seq<u8>) -> Seq<u8> {
    if line_left(line) =~= entry_bytes() {
        line_left(line)
    } else {
        line_left(line).drop_first()
    }
}

/// The index of the first entry of `names` equal to `name`, or `names.len()`.
pub open spec fn name_index(names: Seq<Seq<u8>>, name: Seq<u8>) -> int
    decreases names.len(),
{
    if names.len() == 0 {
        0
    } else if names.first() =~= name {
        0
    } else {
        1 + name_index(names.drop_first(), name)
    }
}

pub proof fn lemma_name_index(names: Seq<Seq<u8>>, name: Seq<u8>)
    ensures
        0 <= name_index(names, name) <= names.len(),
        name_index(names, name) < names.len() ==> names[name_index(names, name)] == name,
        forall|j: int| 0 <= j < name_index(names, name) ==> !(#[trigger] names[j] =~= name),
    decreases names.len(),
{
    if names.len() > 0 && !(names.first() =~= name) {
        let t = names.drop_first();
        lemma_name_index(t, name);
        assert(forall|j: int| 0 <= j < t.len() ==> #[trigger] t[j] == names[j + 1]);
        assert forall|j: int| 0 <= j < name_index(names, name) implies !(#[trigger] names[j]
            =~= name) by {
            if j > 0 {
                assert(names[j] == t[j - 1]);
                assert(!(t[j - 1] =~= name));
            }
        }
    }
}

/// The separator between destination names.
pub open spec fn comma_bytes() -> Seq<u8> {
    seq![44u8, 32u8]
}

/// Pass one of the build, over the declaration lines in order: each line
/// registers its name with its kind (a later declaration of the same name
/// overwrites the kind) and queues its destination text under the name's
/// index.
pub open spec fn register_decls(lv: Seq<Seq<u8>>) -> (Seq<Seq<u8>>, Seq<u8>, Seq<(int, Seq<u8>)>)
    decreases lv.len(),
{
    if lv.len() == 0 {
        (Seq::empty(), Seq::empty(), Seq::empty())
    } else {
        let st = register_decls(lv.drop_last());
        let line = lv.last();
        let i = name_index(st.0, decl_name(line));
        if i < st.0.len() {
            (st.0, st.1.update(i, decl_kind(line)), st.2.push((i, line_right(line))))
        } else {
            (
                st.0.push(decl_name(line)),
                st.1.push(decl_kind(line)),
                st.2.push((st.0.len() as int, line_right(line))),
            )
        }
    }
}

/// Resolves one comma-separated destination-name list: each name maps to its
/// index, names never seen before becoming sinks, and the indices append to
/// `dests[src]` in order.
pub open spec fn add_dests(
    names: Seq<Seq<u8>>,
    kinds: Seq<u8>,
    dests: Seq<Seq<usize>>,
    src: int,
    dnames: Seq<Seq<u8>>,
) -> (Seq<Seq<u8>>, Seq<u8>, Seq<Seq<usize>>)
    decreases dnames.len(),
{
    if dnames.len() == 0 {
        (names, kinds, dests)
    } else {
        let st = add_dests(names, kinds, dests, src, dnames.drop_last());
        let i = name_index(st.0, dnames.last());
        if i < st.0.len() {
            (st.0, st.1, st.2.update(src, st.2[src].push(i as usize)))
        } else {
            (
                st.0.push(dnames.last()),
                st.1.push(46u8),
                st.2.push(Seq::empty()).update(src, st.2[src].push(st.0.len() as usize)),
            )
        }
    }
}

/// Pass two of the build: every queued destination text, in order.
pub open spec fn resolve_all(
    names: Seq<Seq<u8>>,
    kinds: Seq<u8>,
    dests: Seq<Seq<usize>>,
    rights: Seq<(int, Seq<u8>)>,
) -> (Seq<Seq<u8>>, Seq<u8>, Seq<Seq<usize>>)
    decreases rights.len(),
{
    if rights.len() == 0 {
        (names, kinds, dests)
    } else {
        let st = resolve_all(names, kinds, dests, rights.drop_last());
        add_dests(st.0, st.1, st.2, rights.last().0, crate::text::spec_split(
            rights.last().1,
            comma_bytes(),
        ))
    }
}

/// The whole build from the declaration lines: the final name table, kind
/// table and destination lists.
pub open spec fn build_tables(lv: Seq<Seq<u8>>) -> (Seq<Seq<u8>>, Seq<u8>, Seq<Seq<usize>>) {
    let st = register_decls(lv);
    resolve_all(st.0, st.1, Seq::new(st.0.len(), |i: int| Seq::empty()), st.2)
}

/// The modules wired into `v` among sources below `n`, ascending, each once.
pub open spec fn senders_upto(topo: Seq<Seq<usize>>, v: usize, n: int) -> Seq<usize>
    decreases n,
{
    if n <= 0 {
        Seq::empty()
    } else if topo[n - 1].contains(v) {
        senders_upto(topo, v, n - 1).push((n - 1) as usize)
    } else {
        senders_upto(topo, v, n - 1)
    }
}

pub proof fn lemma_senders_upto(topo: Seq<Seq<usize>>, v: usize, n: int)
    requires
        0 <= n <= usize::MAX,
    ensures
        forall|x: usize| senders_upto(topo, v, n).contains(x) ==> x < n,
        forall|u: usize|
            u < n ==> (senders_upto(topo, v, n).contains(u) <==> topo[u as int].contains(v)),
    decreases n,
{
    if n > 0 {
        lemma_senders_upto(topo, v, n - 1);
        let prev = senders_upto(topo, v, n - 1);
        if topo[n - 1].contains(v) {
            let cur = prev.push((n - 1) as usize);
            assert(cur[cur.len() - 1] == (n - 1) as usize);
            assert(cur.contains((n - 1) as usize));
            assert forall|x: usize| cur.contains(x) implies (prev.contains(x) || x == (n
                - 1) as usize) by {
                let k = choose|k: int| 0 <= k < cur.len() && cur[k] == x;
                if k < prev.len() {
                    assert(prev[k] == x);
                }
            }
            assert forall|x: usize| prev.contains(x) implies cur.contains(x) by {
                let k = choose|k: int| 0 <= k < prev.len() && prev[k] == x;
                assert(cur[k] == x);
            }
            assert forall|u: usize|
                u < n implies (cur.contains(u) <==> topo[u as int].contains(v)) by {
                if u < n - 1 {
                    assert(prev.contains(u) <==> topo[u as int].contains(v));
                } else {
                    assert(u as int == n - 1);
                    assert(u == (n - 1) as usize);
                }
            }
        } else {
            assert forall|u: usize|
                u < n implies (prev.contains(u) <==> topo[u as int].contains(v)) by {
                if u < n - 1 {
                } else {
                    assert(u as int == n - 1);
                    assert(u == (n - 1) as usize);
                    if prev.contains(u) {
                        assert(u < n - 1);
                    }
                }
            }
        }
    }
}

/// The initial module a kind byte and sender list denote.
pub open spec fn built_module(kind: u8, senders: Seq<usize>) -> ModuleV {
    if kind == 98 {
        ModuleV::Broad
    } else if kind == 37 {
        ModuleV::Flip { on: false }
    } else if kind == 38 {
        ModuleV::Conj { senders, memory: Seq::new(senders.len(), |j: int| Pulse::Lo) }
    } else {
        ModuleV::Sink
    }
}

/// Whether the build succeeds: every line is well formed and the entry
/// module ends up declared plain (kind tag `b`).
pub open spec fn build_ok(lv: Seq<Seq<u8>>) -> bool {
    &&& first_bad_line(lv) == lv.len()
    &&& ({
        let t = build_tables(lv);
        let b = name_index(t.0, entry_bytes());
        b < t.0.len() && t.1[b] == 98
    })
}

/// A module state as the builder leaves it: flip-flops off, conjunction
/// memories all low with one cell per sender.
pub open spec fn initial_module(m: ModuleV) -> bool {
    &&& (m matches ModuleV::Flip { on } ==> !on)
    &&& (m matches ModuleV::Conj { senders, memory } ==> memory.len() == senders.len()
        && forall|j: int| 0 <= j < memory.len() ==> #[trigger] memory[j] is Lo)
}

/// Whether `v`'s senders are exactly the modules wired into it.
/// The remembered-sender list of a module (empty unless it is a conjunction).
pub open spec fn conj_senders(m: ModuleV) -> Seq<usize> {
    match m {
        ModuleV::Conj { senders, .. } => senders,
        _ => Seq::empty(),
    }
}

pub open spec fn senders_sound(topo: Seq<Seq<usize>>, mods: Seq<ModuleV>) -> bool {
    forall|v: int, u: usize|
        0 <= v < mods.len() && #[trigger] conj_senders(mods[v]).contains(u) ==> u < topo.len()
            && topo[u as int].contains(v as usize)
}

pub fn contains_id(v: &Vec<usize>, x: usize) -> (r: bool)
    ensures
        r == v@.contains(x),
{
    let mut i: usize = 0;
    while i < v.len()
        invariant
            0 <= i <= v@.len(),
            forall|j: int| 0 <= j < i ==> v@[j] != x,
        decreases v@.len() - i,
    {
        if v[i] == x {
            return true;
        }
        i = i + 1;
    }
    false
}

/// Finds a name in the name table.
fn find_name(names: &Vec<Vec<u8>>, name: &[u8]) -> (r: Option<usize>)
    ensures
        match r {
            Some(i) => i < names@.len() && names@[i as int]@ =~= name@ && i == name_index(
                crate::text::deep_view(names@),
                name@,
            ),
            None => (forall|i: int| 0 <= i < names@.len() ==> !((#[trigger] names@[i])@
                =~= name@)) && name_index(crate::text::deep_view(names@), name@)
                == names@.len(),
        },
{
    let ghost nv = crate::text::deep_view(names@);
    let mut i: usize = 0;
    while i < names.len()
        invariant
            0 <= i <= names@.len(),
            nv == crate::text::deep_view(names@),
            forall|j: int| 0 <= j < i ==> !((#[trigger] names@[j])@ =~= name@),
        decreases names@.len() - i,
    {
        if crate::text::bytes_eq(names[i].as_slice(), name) {
            proof {
                lemma_name_index(nv, name@);
                let f = name_index(nv, name@);
                assert(forall|j: int| 0 <= j < names@.len() ==> nv[j] == (#[trigger] names@[j])@);
                if f < i {
                    assert(!(names@[f]@ =~= name@));
                    assert(nv[f] == name@);
                }
                if i < f {
                    assert(!(nv[i as int] =~= name@));
                }
            }
            return Some(i);
        }
        i = i + 1;
    }
    proof {
        lemma_name_index(nv, name@);
        let f = name_index(nv, name@);
        assert(forall|j: int| 0 <= j < names@.len() ==> nv[j] == (#[trigger] names@[j])@);
        if f < names@.len() {
            assert(!(names@[f]@ =~= name@));
            assert(nv[f] == name@);
        }
    }
    None
}


/// The model value of the queued destination texts.
pub open spec fn rights_view(rs: Seq<(usize, Vec<u8>)>) -> Seq<(int, Seq<u8>)> {
    rs.map_values(|p: (usize, Vec<u8>)| (p.0 as int, p.1@))
}

/// The model value of the destination table.
pub open spec fn dests_view(v: Seq<Vec<usize>>) -> Seq<Seq<usize>> {
    v.map_values(|x: Vec<usize>| x@)
}

/// Extending a prefix by its next element extends what it contains by
/// exactly that element.
pub proof fn lemma_prefix_push(s: Seq<usize>, j: int, x: usize)
    requires
        0 <= j < s.len(),
        s[j] == x,
    ensures
        forall|y: usize|
            s.subrange(0, j + 1).contains(y) <==> (s.subrange(0, j).contains(y) || y == x),
{
    let short = s.subrange(0, j);
    let long = s.subrange(0, j + 1);
    assert(long[j] == x);
    assert forall|y: usize| long.contains(y) implies (short.contains(y) || y == x) by {
        let k = choose|k: int| 0 <= k < long.len() && long[k] == y;
        if k < j {
            assert(short[k] == y);
        }
    }
    assert forall|y: usize| short.contains(y) implies long.contains(y) by {
        let k = choose|k: int| 0 <= k < short.len() && short[k] == y;
        assert(long[k] == y);
    }
    assert(long.contains(x));
}



/// Pass two of the build: resolves every queued destination text in order,
/// appending the destination indices and creating sink entries for names
/// never seen before.
#[verifier::rlimit(60)]
fn resolve_rights(
    names: &mut Vec<Vec<u8>>,
    kinds: &mut Vec<u8>,
    dests: &mut Vec<Vec<usize>>,
    rights: &Vec<(usize, Vec<u8>)>,
)
    requires
        old(names)@.len() == old(kinds)@.len() == old(dests)@.len(),
        forall|t: int|
            0 <= t < rights@.len() ==> (#[trigger] rights@[t]).0 < old(names)@.len(),
        forall|u: int, j: int|
            0 <= u < old(dests)@.len() && 0 <= j < (old(dests)@[u])@.len() ==> #[trigger] (
            old(dests)@[u])@[j] < old(names)@.len(),
    ensures
        ({
            let st = resolve_all(
                crate::text::deep_view(old(names)@),
                old(kinds)@,
                dests_view(old(dests)@),
                rights_view(rights@),
            );
            &&& crate::text::deep_view(final(names)@) == st.0
            &&& final(kinds)@ == st.1
            &&& dests_view(final(dests)@) == st.2
        }),
        final(names)@.len() == final(kinds)@.len() == final(dests)@.len(),
        forall|u: int, j: int|
            0 <= u < final(dests)@.len() && 0 <= j < (final(dests)@[u])@.len() ==> #[trigger] (
            final(dests)@[u])@[j] < final(names)@.len(),
{
    let ghost n0 = crate::text::deep_view(names@);
    let ghost k0 = kinds@;
    let ghost d0 = dests_view(dests@);
    let ghost rv = rights_view(rights@);
    let comma: [u8; 2] = [44, 32];
    proof {
        assert(comma@ =~= comma_bytes());
        assert(rv.take(0) =~= Seq::<(int, Seq<u8>)>::empty());
    }
    let mut ri: usize = 0;
    while ri < rights.len()
        invariant
            n0 == crate::text::deep_view(old(names)@),
            k0 == old(kinds)@,
            d0 == dests_view(old(dests)@),
            rv == rights_view(rights@),
            comma@ == comma_bytes(),
            ri <= rights@.len(),
            names@.len() == kinds@.len() == dests@.len(),
            forall|t: int| 0 <= t < rights@.len() ==> (#[trigger] rights@[t]).0 < names@.len(),
            forall|u: int, j: int|
                0 <= u < dests@.len() && 0 <= j < (dests@[u])@.len() ==> #[trigger] (
                dests@[u])@[j] < names@.len(),
            crate::text::deep_view(names@) == resolve_all(n0, k0, d0, rv.take(ri as int)).0,
            kinds@ == resolve_all(n0, k0, d0, rv.take(ri as int)).1,
            dests_view(dests@) == resolve_all(n0, k0, d0, rv.take(ri as int)).2,
        decreases rights@.len() - ri,
    {
        let ghost base = resolve_all(n0, k0, d0, rv.take(ri as int));
        let src = rights[ri].0;
        let dlist = crate::text::split_pat(rights[ri].1.as_slice(), comma.as_slice());
        let ghost dn = crate::text::spec_split(rv[ri as int].1, comma_bytes());
        proof {
            assert(rv[ri as int] == (src as int, rights@[ri as int].1@));
            assert(crate::text::deep_view(dlist@) == dn);
            assert(forall|k: int| 0 <= k < dlist@.len() ==> (#[trigger] dlist@[k])@ == dn[k]);
            assert(dn.take(0) =~= Seq::<Seq<u8>>::empty());
            assert(add_dests(base.0, base.1, base.2, src as int, dn.take(0)) == base);
        }
        let mut dj: usize = 0;
        while dj < dlist.len()
            invariant
                names@.len() == kinds@.len() == dests@.len(),
                src < names@.len(),
                dj <= dlist@.len(),
                base == resolve_all(n0, k0, d0, rv.take(ri as int)),
                dn == crate::text::spec_split(rv[ri as int].1, comma_bytes()),
                crate::text::deep_view(dlist@) == dn,
                forall|t: int|
                    0 <= t < rights@.len() ==> (#[trigger] rights@[t]).0 < names@.len(),
                forall|u: int, j: int|
                    0 <= u < dests@.len() && 0 <= j < (dests@[u])@.len() ==> #[trigger] (
                    dests@[u])@[j] < names@.len(),
                crate::text::deep_view(names@) == add_dests(
                    base.0,
                    base.1,
                    base.2,
                    src as int,
                    dn.take(dj as int),
                ).0,
                kinds@ == add_dests(base.0, base.1, base.2, src as int, dn.take(dj as int)).1,
                dests_view(dests@) == add_dests(
                    base.0,
                    base.1,
                    base.2,
                    src as int,
                    dn.take(dj as int),
                ).2,
            decreases dlist@.len() - dj,
        {
            let ghost pre = add_dests(base.0, base.1, base.2, src as int, dn.take(dj as int));
            proof {
                assert(dn.take(dj as int + 1).drop_last() =~= dn.take(dj as int));
                assert(dn.take(dj as int + 1).last() == dn[dj as int]);
                assert(dlist@[dj as int]@ == dn[dj as int]);
            }
            let dname = &dlist[dj];
            let id: usize;
            match find_name(&names, dname.as_slice()) {
                Some(i) => {
                    id = i;
                    proof {
                        assert(name_index(pre.0, dn[dj as int]) == i);
                    }
                },
                None => {
                    id = names.len();
                    names.push(crate::text::copy_bytes(dname.as_slice()));
                    kinds.push(46);
                    dests.push(Vec::new());
                    proof {
                        assert(name_index(pre.0, dn[dj as int]) == pre.0.len());
                        assert(crate::text::deep_view(names@) =~~= pre.0.push(dn[dj as int]));
                        assert(kinds@ =~= pre.1.push(46u8));
                        assert(dests_view(dests@) =~~= pre.2.push(Seq::<usize>::empty()));
                    }
                },
            }
            let ghost mid = dests_view(dests@);
            let slot = &mut dests[src];
            slot.push(id);
            proof {
                assert(dests_view(dests@) =~~= mid.update(src as int, mid[src as int].push(id)));
            }
            dj = dj + 1;
        }
        proof {
            assert(dn.take(dlist@.len() as int) =~= dn);
            assert(rv.take(ri as int + 1).drop_last() =~= rv.take(ri as int));
            assert(rv.take(ri as int + 1).last() == rv[ri as int]);
        }
        ri = ri + 1;
    }
    proof {
        assert(rv.take(rights@.len() as int) =~= rv);
    }
}

/// Passes three and four of the build: inverts the wiring for the
/// conjunctions (each conjunction remembers the modules wired into it, in
/// ascending index order) and lays out the module table in its initial
/// state.
#[verifier::rlimit(60)]
fn build_modules(kinds: &Vec<u8>, dests: &Vec<Vec<usize>>) -> (r: Vec<Module>)
    requires
        kinds@.len() == dests@.len(),
        forall|x: int, j: int|
            0 <= x < dests@.len() && 0 <= j < (dests@[x])@.len() ==> #[trigger] (
            dests@[x])@[j] < dests@.len(),
    ensures
        r@.len() == kinds@.len(),
        forall|v: int|
            0 <= v < r@.len() ==> (#[trigger] r@[v])@ == built_module(
                kinds@[v],
                senders_upto(dests_view(dests@), v as usize, dests@.len() as int),
            ),
{
    let n = dests.len();
    let ghost topo = dests_view(dests@);
    proof {
        assert(forall|x: int| 0 <= x < n ==> #[trigger] topo[x] == (dests@[x])@);
    }
    // invert the wiring
    let mut senders: Vec<Vec<usize>> = Vec::new();
    let mut si: usize = 0;
    while si < n
        invariant
            senders@.len() == si <= n,
            forall|v: int| 0 <= v < senders@.len() ==> (#[trigger] senders@[v])@.len() == 0,
        decreases n - si,
    {
        senders.push(Vec::new());
        si = si + 1;
    }
    proof {
        assert(forall|v: int|
            0 <= v < n ==> (#[trigger] senders@[v])@ =~= senders_upto(topo, v as usize, 0));
    }
    let mut u: usize = 0;
    while u < n
        invariant
            n == kinds@.len() == dests@.len() == senders@.len(),
            u <= n,
            topo == dests_view(dests@),
            forall|x: int| 0 <= x < n ==> #[trigger] topo[x] == (dests@[x])@,
            forall|x: int, j: int|
                0 <= x < n && 0 <= j < (dests@[x])@.len() ==> #[trigger] (dests@[x])@[j] < n,
            forall|v: int|
                0 <= v < n ==> (#[trigger] senders@[v])@ == senders_upto(
                    topo,
                    v as usize,
                    u as int,
                ),
        decreases n - u,
    {
        let row_len = dests[u].len();
        let mut j: usize = 0;
        proof {
            assert((dests@[u as int])@.subrange(0, 0) =~= Seq::<usize>::empty());
        }
        while j < row_len
            invariant
                n == kinds@.len() == dests@.len() == senders@.len(),
                u < n,
                j <= row_len,
                row_len == (dests@[u as int])@.len(),
                topo == dests_view(dests@),
                forall|x: int| 0 <= x < n ==> #[trigger] topo[x] == (dests@[x])@,
                forall|x: int, jj: int|
                    0 <= x < n && 0 <= jj < (dests@[x])@.len() ==> #[trigger] (dests@[x])@[jj]
                        < n,
                forall|v: int|
                    0 <= v < n ==> (#[trigger] senders@[v])@ == senders_upto(
                        topo,
                        v as usize,
                        u as int,
                    ) + (if (dests@[u as int])@.subrange(0, j as int).contains(v as usize) {
                        seq![u]
                    } else {
                        Seq::<usize>::empty()
                    }),
            decreases row_len - j,
        {
            let v = dests[u][j];
            let ghost prefix = (dests@[u as int])@.subrange(0, j as int);
            proof {
                assert((dests@[u as int])@[j as int] == v);
                lemma_prefix_push((dests@[u as int])@, j as int, v);
                lemma_senders_upto(topo, v, u as int);
            }
            let in_row = contains_id(&senders[v], u);
            proof {
                // membership of u in senders[v] says exactly that this row
                // already listed v earlier
                if prefix.contains(v) {
                    assert((senders@[v as int])@.contains(u)) by {
                        let base = senders_upto(topo, v, u as int);
                        assert((senders@[v as int])@[base.len() as int] == u);
                    }
                } else {
                    if (senders@[v as int])@.contains(u) {
                        assert(senders_upto(topo, v, u as int).contains(u));
                        assert(u < u);
                    }
                }
            }
            if !in_row {
                let ghost olds = senders@;
                let sv = &mut senders[v];
                sv.push(u);
                proof {
                    assert(senders@ =~= olds.update(v as int, senders@[v as int]));
                    assert((senders@[v as int])@ =~= (olds[v as int])@.push(u));
                    assert forall|vv: int|
                        0 <= vv < n implies (#[trigger] senders@[vv])@ == senders_upto(
                        topo,
                        vv as usize,
                        u as int,
                    ) + (if (dests@[u as int])@.subrange(0, j as int + 1).contains(vv as usize) {
                        seq![u]
                    } else {
                        Seq::<usize>::empty()
                    }) by {
                        if vv == v as int {
                            assert((senders@[vv])@ =~= senders_upto(topo, v, u as int) + seq![u]);
                        } else {
                            assert((senders@[vv])@ == (olds[vv])@);
                            assert((dests@[u as int])@.subrange(0, j as int + 1).contains(
                                vv as usize,
                            ) == prefix.contains(vv as usize));
                        }
                    }
                }
            } else {
                proof {
                    assert forall|vv: int|
                        0 <= vv < n implies (#[trigger] senders@[vv])@ == senders_upto(
                        topo,
                        vv as usize,
                        u as int,
                    ) + (if (dests@[u as int])@.subrange(0, j as int + 1).contains(vv as usize) {
                        seq![u]
                    } else {
                        Seq::<usize>::empty()
                    }) by {
                        if vv != v as int {
                            assert((dests@[u as int])@.subrange(0, j as int + 1).contains(
                                vv as usize,
                            ) == prefix.contains(vv as usize));
                        } else {
                            assert(prefix.contains(v));
                        }
                    }
                }
            }
            j = j + 1;
        }
        proof {
            assert((dests@[u as int])@.subrange(0, row_len as int) =~= (dests@[u as int])@);
            assert forall|v: int|
                0 <= v < n implies (#[trigger] senders@[v])@ == senders_upto(
                topo,
                v as usize,
                u as int + 1,
            ) by {
                if topo[u as int].contains(v as usize) {
                    assert((dests@[u as int])@.contains(v as usize));
                } else {
                    assert(!(dests@[u as int])@.contains(v as usize));
                    assert((senders@[v])@ =~= senders_upto(topo, v as usize, u as int));
                }
            }
        }
        u = u + 1;
    }
    // the module table
    let mut modules: Vec<Module> = Vec::new();
    let mut mi: usize = 0;
    while mi < n
        invariant
            n == kinds@.len() == dests@.len() == senders@.len(),
            modules@.len() == mi <= n,
            topo == dests_view(dests@),
            forall|v: int|
                0 <= v < n ==> (#[trigger] senders@[v])@ == senders_upto(
                    topo,
                    v as usize,
                    n as int,
                ),
            forall|v: int|
                0 <= v < mi ==> (#[trigger] modules@[v])@ == built_module(
                    kinds@[v],
                    senders_upto(topo, v as usize, n as int),
                ),
        decreases n - mi,
    {
        let k = kinds[mi];
        if k == 98 {
            modules.push(Module::Broad);
        } else if k == 37 {
            modules.push(Module::Flip { on: false });
        } else if k == 38 {
            let svec = &senders[mi];
            let mut ids: Vec<usize> = Vec::new();
            let mut memory: Vec<Pulse> = Vec::new();
            let mut t: usize = 0;
            while t < svec.len()
                invariant
                    0 <= t <= svec@.len(),
                    ids@ =~= svec@.subrange(0, t as int),
                    memory@.len() == t,
                    forall|jj: int| 0 <= jj < t ==> #[trigger] memory@[jj] is Lo,
                decreases svec@.len() - t,
            {
                ids.push(svec[t]);
                memory.push(Pulse::Lo);
                t = t + 1;
            }
            proof {
                assert(ids@ =~= svec@);
                assert(memory@ =~= Seq::new(svec@.len(), |jj: int| Pulse::Lo));
            }
            modules.push(Module::Conj { senders: ids, memory: memory });
        } else {
            modules.push(Module::Sink);
        }
        mi = mi + 1;
    }
    modules
}

/// Builds the module table and the network from declaration lines of the form
/// `name -> dest, dest, ...`, where `name` is `broadcaster`, `%` + a
/// flip-flop name, or `&` + a conjunction name.
///
/// The build is two-pass: every wire is collected first, and each conjunction
/// then remembers exactly the modules that list it as a destination, each
/// initially low.  Destination names never declared become sinks.  Errors are
/// fatal: a line without the arrow, an unknown kind tag, or a missing
/// `broadcaster` declaration.
#[verifier::rlimit(100)]
pub fn parse(content: &str) -> (r: Result<(Vec<Module>, Network), BuildError>)
    ensures
        r is Ok <==> build_ok(crate::text::spec_lines(content.spec_bytes())),
        match r {
            Ok((mods, net)) => {
                let lv = crate::text::spec_lines(content.spec_bytes());
                let tables = build_tables(lv);
                &&& net.wf()
                &&& mods@.len() == net.dests@.len()
                &&& crate::text::deep_view(net.names@) == tables.0
                &&& net.topo() == tables.2
                &&& net.broadcaster as int == name_index(tables.0, entry_bytes())
                &&& forall|v: int|
                    0 <= v < mods@.len() ==> #[trigger] mods_view(mods@)[v] == built_module(
                        tables.1[v],
                        senders_upto(tables.2, v as usize, tables.2.len() as int),
                    )
                &&& wf_state(net.topo(), init_state(mods_view(mods@), net.broadcaster))
                &&& mods_view(mods@)[net.broadcaster as int] is Broad
                &&& forall|v: int|
                    0 <= v < mods@.len() ==> initial_module(#[trigger] mods_view(mods@)[v])
                &&& senders_sound(net.topo(), mods_view(mods@))
            },
            Err(e) => {
                let lv = crate::text::spec_lines(content.spec_bytes());
                let bad = first_bad_line(lv);
                &&& (e is MalformedLine <==> (bad < lv.len() && !has_arrow(lv[bad])))
                &&& (e is UnknownPrefix <==> (bad < lv.len() && has_arrow(lv[bad])
                    && !good_kind_tag(lv[bad])))
                &&& (e is MissingBroadcaster <==> bad == lv.len())
            },
        },
{
    let bytes = content.as_bytes();
    let ghost lv = crate::text::spec_lines(content.spec_bytes());
    let comma: [u8; 2] = [44, 32];
    let entry_name: [u8; 11] = [98, 114, 111, 97, 100, 99, 97, 115, 116, 101, 114];
    proof {
        assert(comma@ =~= comma_bytes());
        assert(entry_name@ =~= entry_bytes());
    }
    let lines = crate::text::split_lines(bytes);
    proof {
        assert(crate::text::deep_view(lines@) == lv);
        assert(forall|k: int|
            0 <= k < lines@.len() ==> (#[trigger] lines@[k])@ == lv[k]);
        assert(register_decls(lv.take(0)) == (
            Seq::<Seq<u8>>::empty(),
            Seq::<u8>::empty(),
            Seq::<(int, Seq<u8>)>::empty(),
        ));
        assert(crate::text::deep_view(Seq::<Vec<u8>>::empty()) =~= Seq::<Seq<u8>>::empty());
        assert(rights_view(Seq::<(usize, Vec<u8>)>::empty()) =~= Seq::<(int, Seq<u8>)>::empty());
    }
    let mut names: Vec<Vec<u8>> = Vec::new();
    let mut kinds: Vec<u8> = Vec::new();
    let mut rights: Vec<(usize, Vec<u8>)> = Vec::new();
    // Pass one: declared modules and their kinds.
    let mut li: usize = 0;
    while li < lines.len()
        invariant
            lv == crate::text::spec_lines(content.spec_bytes()),
            crate::text::deep_view(lines@) == lv,
            li <= lines@.len(),
            names@.len() == kinds@.len(),
            forall|t: int| 0 <= t < rights@.len() ==> (#[trigger] rights@[t]).0 < names@.len(),
            forall|k: int| 0 <= k < li ==> wf_line(#[trigger] lv[k]),
            crate::text::deep_view(names@) == register_decls(lv.take(li as int)).0,
            kinds@ == register_decls(lv.take(li as int)).1,
            rights_view(rights@) == register_decls(lv.take(li as int)).2,
        decreases lines@.len() - li,
    {
        proof {
            assert(lines@[li as int]@ == lv[li as int]);
        }
        let (kind, name, right) = match classify_line(lines[li].as_slice()) {
            Ok(decl) => decl,
            Err(e) => {
                proof {
                    lemma_first_bad_at(lv, li as int);
                }
                return Err(e);
            },
        };
        let ghost pre = register_decls(lv.take(li as int));
        proof {
            assert(wf_line(lv[li as int]));
            assert(kind == decl_kind(lv[li as int]));
            assert(name@ == decl_name(lv[li as int]));
            assert(right@ == line_right(lv[li as int]));
            assert(lv.take(li as int + 1).drop_last() =~= lv.take(li as int));
            assert(lv.take(li as int + 1).last() == lv[li as int]);
        }
        match find_name(&names, name.as_slice()) {
            Some(i) => {
                kinds[i] = kind;
                rights.push((i, right));
                proof {
                    assert(name_index(pre.0, decl_name(lv[li as int])) == i);
                    assert(kinds@ == pre.1.update(i as int, decl_kind(lv[li as int])));
                    assert(rights_view(rights@) =~= pre.2.push((
                        i as int,
                        line_right(lv[li as int]),
                    )));
                }
            },
            None => {
                let i = names.len();
                names.push(name);
                kinds.push(kind);
                rights.push((i, right));
                proof {
                    assert(name_index(pre.0, decl_name(lv[li as int])) == pre.0.len());
                    assert(crate::text::deep_view(names@) =~~= pre.0.push(decl_name(
                        lv[li as int],
                    )));
                    assert(kinds@ =~= pre.1.push(decl_kind(lv[li as int])));
                    assert(rights_view(rights@) =~= pre.2.push((
                        pre.0.len() as int,
                        line_right(lv[li as int]),
                    )));
                }
            },
        }
        li = li + 1;
    }
    proof {
        assert(lv.take(li as int) =~= lv);
        lemma_first_bad_none(lv);
    }
    // Pass two: resolve destinations, creating sinks for undeclared names.
    let mut dests: Vec<Vec<usize>> = Vec::new();
    let mut di: usize = 0;
    while di < names.len()
        invariant
            dests@.len() == di <= names@.len(),
            forall|u: int| 0 <= u < dests@.len() ==> (#[trigger] dests@[u])@.len() == 0,
        decreases names@.len() - di,
    {
        dests.push(Vec::new());
        di = di + 1;
    }
    proof {
        assert(dests_view(dests@) =~~= Seq::new(
            crate::text::deep_view(names@).len(),
            |i: int| Seq::<usize>::empty(),
        ));
    }
    resolve_rights(&mut names, &mut kinds, &mut dests, &rights);
    let n = names.len();
    let modules = build_modules(&kinds, &dests);
    let ghost tables = build_tables(lv);
    proof {
        assert(crate::text::deep_view(names@) == tables.0);
        assert(kinds@ == tables.1);
        assert(dests_view(dests@) == tables.2);
    }
    // The entry module must have been declared.
    let b: usize;
    match find_name(&names, entry_name.as_slice()) {
        Some(i) => {
            if kinds[i] == 98 {
                b = i;
            } else {
                return Err(BuildError::MissingBroadcaster);
            }
        },
        None => {
            return Err(BuildError::MissingBroadcaster);
        },
    }
    let net = Network { names: names, dests: dests, broadcaster: b };
    proof {
        let topo = net.topo();
        let modsv = mods_view(modules@);
        assert(topo =~~= dests_view(net.dests@));
        assert(topo.len() == n);
        assert(forall|x: int| 0 <= x < n ==> (#[trigger] topo[x]) == (net.dests@[x])@);
        assert(modsv.len() == n);
        assert(forall|v: int| 0 <= v < n ==> (#[trigger] modsv[v]) == modules@[v]@);
        assert(forall|v: int|
            0 <= v < n ==> #[trigger] modsv[v] == built_module(
                kinds@[v],
                senders_upto(topo, v as usize, n as int),
            ));
        // structural well-formedness from the exact build
        assert forall|u: int, j: int|
            0 <= u < topo.len() && 0 <= j < topo[u].len() implies ((modsv[#[trigger] topo[u][j]
            as int]) matches ModuleV::Conj { senders, .. } ==> senders.contains(u as usize)) by {
            let v = topo[u][j];
            if modsv[v as int] is Conj {
                lemma_senders_upto(topo, v, n as int);
                assert(topo[u].contains(v));
                assert(conj_senders(modsv[v as int]) == senders_upto(topo, v, n as int));
            }
        }
        assert(wf_net(topo, modsv));
        assert(modsv[b as int] == built_module(98u8, senders_upto(topo, b, n as int)));
        assert(wf_queue(modsv, init_state(modsv, net.broadcaster).queue));
        assert forall|v: int| 0 <= v < n implies initial_module(#[trigger] modsv[v]) by {
            assert(modsv[v] == built_module(kinds@[v], senders_upto(topo, v as usize, n as int)));
        }
        assert forall|v: int, u: usize|
            0 <= v < modsv.len() && #[trigger] conj_senders(modsv[v]).contains(u) implies u
            < topo.len() && topo[u as int].contains(v as usize) by {
            assert(modsv[v] == built_module(kinds@[v], senders_upto(topo, v as usize, n as int)));
            lemma_senders_upto(topo, v as usize, n as int);
        }
        assert(senders_sound(topo, modsv));
        assert(build_ok(lv));
    }
    Ok((modules, net))
}

} // verus!

verus! {

/// Two module states with the same wiring role: conjunction-ness and, for
/// conjunctions, the same remembered-sender list.
pub open spec fn same_wiring(m1: ModuleV, m2: ModuleV) -> bool {
    &&& (m1 is Conj <==> m2 is Conj)
    &&& conj_senders(m1) == conj_senders(m2)
}

/// A step never rewires a module: only pulse state changes.
pub proof fn lemma_step_preserves_wiring(topo: Seq<Seq<usize>>, st: SimState)
    requires
        wf_state(topo, st),
    ensures
        forall|v: int|
            0 <= v < st.mods.len() ==> same_wiring(
                st.mods[v],
                #[trigger] step(topo, st).mods[v],
            ),
{
    if st.queue.len() > 0 {
        let ev = st.queue[0];
        if ev.dst < st.mods.len() {
            let m = st.mods[ev.dst as int];
            lemma_receive_shape(m, ev.src, ev.pulse);
            match m {
                ModuleV::Conj { senders, memory } => {},
                _ => {},
            }
        }
    }
}

/// Wiring is preserved along any number of steps.
pub proof fn lemma_steps_preserve_wiring(topo: Seq<Seq<usize>>, st: SimState, k: nat)
    requires
        wf_state(topo, st),
    ensures
        forall|v: int|
            0 <= v < st.mods.len() ==> same_wiring(
                st.mods[v],
                #[trigger] steps(topo, st, k).mods[v],
            ),
    decreases k,
{
    if k > 0 {
        let prev = steps(topo, st, (k - 1) as nat);
        lemma_steps_preserve_wiring(topo, st, (k - 1) as nat);
        lemma_steps_preserve_wf(topo, st, (k - 1) as nat);
        lemma_step_preserves_wiring(topo, prev);
    }
}

/// The state a trigger run drains to (meaningful whenever some number of
/// steps drains the queue).
pub open spec fn drain(topo: Seq<Seq<usize>>, st0: SimState) -> SimState {
    steps(topo, st0, choose|k: nat| steps(topo, st0, k).queue.len() == 0)
}

/// A drained run's observable outcome is the drain of its initial state.
pub proof fn lemma_drained_run_matches_drain(
    topo: Seq<Seq<usize>>,
    st0: SimState,
    mods: Seq<ModuleV>,
    lo: nat,
    hi: nat,
)
    requires
        drained_run(topo, st0, mods, lo, hi),
    ensures
        drain(topo, st0).queue.len() == 0,
        drain(topo, st0).mods == mods,
        drain(topo, st0).lo == lo,
        drain(topo, st0).hi == hi,
{
    let k = choose|k: nat| run_result(topo, st0, k, mods, lo, hi);
    assert(steps(topo, st0, k).queue.len() == 0);
    let kd = choose|k2: nat| steps(topo, st0, k2).queue.len() == 0;
    assert(steps(topo, st0, kd).queue.len() == 0);
    lemma_run_deterministic(topo, st0, k, kd);
}

/// The outcome of `n` chained trigger runs: the final module states and the
/// summed low and high counts, module state persisting from run to run.
pub open spec fn presses(topo: Seq<Seq<usize>>, mods: Seq<ModuleV>, entry: usize, n: nat) -> (
    Seq<ModuleV>,
    nat,
    nat,
)
    decreases n,
{
    if n == 0 {
        (mods, 0, 0)
    } else {
        let one = drain(topo, init_state(mods, entry));
        let rest = presses(topo, one.mods, entry, (n - 1) as nat);
        (rest.0, one.lo + rest.1, one.hi + rest.2)
    }
}

/// Unrolling `presses` from the back: one more press runs one more trigger
/// from the state the first `n` presses reach.
pub proof fn lemma_presses_snoc(topo: Seq<Seq<usize>>, mods: Seq<ModuleV>, entry: usize, n: nat)
    ensures
        presses(topo, mods, entry, n + 1) == ({
            let p = presses(topo, mods, entry, n);
            let one = drain(topo, init_state(p.0, entry));
            (one.mods, p.1 + one.lo, p.2 + one.hi)
        }),
    decreases n,
{
    if n > 0 {
        let one0 = drain(topo, init_state(mods, entry));
        lemma_presses_snoc(topo, one0.mods, entry, (n - 1) as nat);
        assert(presses(topo, mods, entry, n + 1) == ({
            let rest = presses(topo, one0.mods, entry, n);
            (rest.0, one0.lo + rest.1, one0.hi + rest.2)
        }));
        assert(presses(topo, mods, entry, n) == ({
            let rest = presses(topo, one0.mods, entry, (n - 1) as nat);
            (rest.0, one0.lo + rest.1, one0.hi + rest.2)
        }));
        let pp = presses(topo, one0.mods, entry, (n - 1) as nat);
        assert(presses(topo, one0.mods, entry, ((n - 1) as nat) + 1) == ({
            let one = drain(topo, init_state(pp.0, entry));
            (one.mods, pp.1 + one.lo, pp.2 + one.hi)
        }));
        assert(((n - 1) as nat) + 1 == n);
        assert(presses(topo, mods, entry, n).0 == pp.0);
    } else {
        assert(presses(topo, mods, entry, 1) == ({
            let one = drain(topo, init_state(mods, entry));
            let rest = presses(topo, one.mods, entry, 0);
            (rest.0, one.lo + rest.1, one.hi + rest.2)
        }));
        assert(presses(topo, mods, entry, 0) == (mods, 0nat, 0nat));
    }
}

/// Runs `n` triggers back to back, summing the counts.
///
/// The totals and the final module states are exactly those of the abstract
/// `presses` chain, and every trigger counts at least its low seed pulse.
pub fn run_series(modules: &mut Vec<Module>, net: &Network, n: usize) -> (r: (u128, u128))
    requires
        net.wf(),
        old(modules)@.len() == net.dests@.len(),
        wf_state(net.topo(), init_state(mods_view(old(modules)@), net.broadcaster)),
    ensures
        final(modules)@.len() == old(modules)@.len(),
        net.wf(),
        wf_state(net.topo(), init_state(mods_view(final(modules)@), net.broadcaster)),
        ({
            let p = presses(net.topo(), mods_view(old(modules)@), net.broadcaster, n as nat);
            mods_view(final(modules)@) == p.0 && r.0 == p.1 && r.1 == p.2
        }),
        r.0 >= n,
{
    let ghost topo = net.topo();
    let ghost mods0 = mods_view(old(modules)@);
    let ghost cap = usize::MAX as u128;
    proof {
        assert(usize::MAX as u128 <= 0xffff_ffff_ffff_ffffu128);
    }
    let mut lo_tot: u128 = 0;
    let mut hi_tot: u128 = 0;
    let mut i: usize = 0;
    while i < n
        invariant
            net.wf(),
            topo == net.topo(),
            mods0 == mods_view(old(modules)@),
            modules@.len() == net.dests@.len(),
            cap == usize::MAX as u128,
            cap <= 0xffff_ffff_ffff_ffffu128,
            i <= n,
            wf_state(topo, init_state(mods_view(modules@), net.broadcaster)),
            presses(topo, mods0, net.broadcaster, i as nat) == (
                mods_view(modules@),
                lo_tot as nat,
                hi_tot as nat,
            ),
            lo_tot <= i as u128 * cap,
            hi_tot <= i as u128 * cap,
            lo_tot >= i,
        decreases n - i,
    {
        let ghost prev = mods_view(modules@);
        let (lo, hi) = simulate(modules, net);
        proof {
            lemma_drained_run_matches_drain(
                topo,
                init_state(prev, net.broadcaster),
                mods_view(modules@),
                lo as nat,
                hi as nat,
            );
            lemma_presses_snoc(topo, mods0, net.broadcaster, i as nat);
            // the new state is still well formed, and still wired the same
            let st0 = init_state(prev, net.broadcaster);
            let k = choose|k: nat| steps(topo, st0, k).queue.len() == 0;
            lemma_steps_preserve_wf(topo, st0, k);
            lemma_steps_preserve_wiring(topo, st0, k);
            let seed = init_state(mods_view(modules@), net.broadcaster).queue[0];
            assert(wf_event(prev, seed));
            assert(same_wiring(prev[seed.dst as int], mods_view(modules@)[seed.dst as int]));
            assert(wf_event(mods_view(modules@), seed));
            assert(wf_queue(
                mods_view(modules@),
                init_state(mods_view(modules@), net.broadcaster).queue,
            ));
            assert(lo_tot + lo as u128 <= (i + 1) as u128 * cap) by (nonlinear_arith)
                requires
                    lo_tot <= i as u128 * cap,
                    lo as u128 <= cap,
                    i as u128 >= 0,
            {}
            assert(hi_tot + hi as u128 <= (i + 1) as u128 * cap) by (nonlinear_arith)
                requires
                    hi_tot <= i as u128 * cap,
                    hi as u128 <= cap,
                    i as u128 >= 0,
            {}
            assert((i + 1) as u128 * cap <= u128::MAX) by (nonlinear_arith)
                requires
                    0 <= (i + 1) as u128 <= cap,
                    cap <= 0xffff_ffff_ffff_ffffu128,
            {}
        }
        lo_tot = lo_tot + lo as u128;
        hi_tot = hi_tot + hi as u128;
        i = i + 1;
    }
    (lo_tot, hi_tot)
}

/// `x * y`, saturating at `u128::MAX`.
pub open spec fn saturating_product(x: nat, y: nat) -> nat {
    if x * y <= u128::MAX {
        x * y
    } else {
        u128::MAX as nat
    }
}

/// The fixed-horizon aggregate query: runs `n` triggers and returns the
/// product of the low and high totals, saturating at `u128::MAX`.
pub fn aggregate(modules: &mut Vec<Module>, net: &Network, n: usize) -> (r: u128)
    requires
        net.wf(),
        old(modules)@.len() == net.dests@.len(),
        wf_state(net.topo(), init_state(mods_view(old(modules)@), net.broadcaster)),
    ensures
        ({
            let p = presses(net.topo(), mods_view(old(modules)@), net.broadcaster, n as nat);
            r == saturating_product(p.1, p.2)
        }),
{
    let (lo_tot, hi_tot) = run_series(modules, net, n);
    if hi_tot == 0 {
        return 0;
    }
    let q = u128::MAX / hi_tot;
    if lo_tot <= q {
        proof {
            vstd::arithmetic::div_mod::lemma_fundamental_div_mod(
                u128::MAX as int,
                hi_tot as int,
            );
            vstd::arithmetic::div_mod::lemma_mod_bound(u128::MAX as int, hi_tot as int);
            assert(u128::MAX as int / hi_tot as int * hi_tot <= u128::MAX);
            assert(lo_tot * hi_tot <= u128::MAX) by (nonlinear_arith)
                requires
                    0 < hi_tot <= u128::MAX,
                    0 <= lo_tot <= u128::MAX as int / hi_tot as int,
                    u128::MAX as int / hi_tot as int * hi_tot <= u128::MAX,
            {}
        }
        lo_tot * hi_tot
    } else {
        proof {
            vstd::arithmetic::div_mod::lemma_fundamental_div_mod(
                u128::MAX as int,
                hi_tot as int,
            );
            vstd::arithmetic::div_mod::lemma_mod_bound(u128::MAX as int, hi_tot as int);
            assert(lo_tot * hi_tot > u128::MAX) by (nonlinear_arith)
                requires
                    0 < hi_tot,
                    lo_tot > u128::MAX as int / hi_tot as int,
                    u128::MAX as int == (u128::MAX as int / hi_tot as int) * hi_tot + (u128::MAX as int
                        % hi_tot as int),
                    (u128::MAX as int % hi_tot as int) < hi_tot,
            {}
        }
        u128::MAX
    }
}

/// A fresh copy of a module table, equal in every observable respect;
/// independent simulations (one per watcher) each run on their own copy.
pub fn copy_modules(mods: &Vec<Module>) -> (r: Vec<Module>)
    ensures
        r@.len() == mods@.len(),
        mods_view(r@) == mods_view(mods@),
{
    let mut out: Vec<Module> = Vec::new();
    let mut i: usize = 0;
    while i < mods.len()
        invariant
            0 <= i <= mods@.len(),
            out@.len() == i,
            forall|v: int| 0 <= v < i ==> (#[trigger] out@[v])@ == mods@[v]@,
        decreases mods@.len() - i,
    {
        let m = &mods[i];
        match m {
            Module::Broad => out.push(Module::Broad),
            Module::Flip { on } => out.push(Module::Flip { on: *on }),
            Module::Conj { senders, memory } => {
                let mut s2: Vec<usize> = Vec::new();
                let mut t: usize = 0;
                while t < senders.len()
                    invariant
                        0 <= t <= senders@.len(),
                        s2@ =~= senders@.subrange(0, t as int),
                    decreases senders@.len() - t,
                {
                    s2.push(senders[t]);
                    t = t + 1;
                }
                let mut m2: Vec<Pulse> = Vec::new();
                let mut t2: usize = 0;
                while t2 < memory.len()
                    invariant
                        0 <= t2 <= memory@.len(),
                        m2@ =~= memory@.subrange(0, t2 as int),
                    decreases memory@.len() - t2,
                {
                    m2.push(memory[t2]);
                    t2 = t2 + 1;
                }
                proof {
                    assert(s2@ =~= senders@);
                    assert(m2@ =~= memory@);
                }
                out.push(Module::Conj { senders: s2, memory: m2 });
            },
            Module::Sink => out.push(Module::Sink),
        }
        i = i + 1;
    }
    proof {
        assert(mods_view(out@) =~= mods_view(mods@));
    }
    out
}

/// The index of the module with the given name, if the network has one:
/// the first entry of the name table equal to `name`.
pub fn find_module_id(net: &Network, name: &[u8]) -> (r: Option<usize>)
    ensures
        match r {
            Some(i) => i < net.names@.len() && net.names@[i as int]@ == name@ && i as int
                == name_index(crate::text::deep_view(net.names@), name@),
            None => name_index(crate::text::deep_view(net.names@), name@)
                == net.names@.len(),
        },
{
    find_name(&net.names, name)
}

/// The wiring the build yields, as a function of the declaration lines.
pub open spec fn built_topo(lv: Seq<Seq<u8>>) -> Seq<Seq<usize>> {
    build_tables(lv).2
}

/// The initial module views the build yields, as a function of the lines.
pub open spec fn built_mods(lv: Seq<Seq<u8>>) -> Seq<ModuleV> {
    let t = build_tables(lv);
    Seq::new(
        t.2.len(),
        |v: int| built_module(t.1[v], senders_upto(t.2, v as usize, t.2.len() as int)),
    )
}

/// The entry module's index in the build, as a function of the lines.
pub open spec fn built_entry(lv: Seq<Seq<u8>>) -> usize {
    name_index(build_tables(lv).0, entry_bytes()) as usize
}

/// Builds the network from its text form and answers the fixed-horizon
/// aggregate query over 1000 triggers: the product of the number of low
/// pulses and the number of high pulses sent.
///
/// Succeeds exactly when the build does, and the answer is the saturating
/// count product of the 1000-press chain of the network built from
/// `content`.
pub fn solve(content: &str) -> (r: Result<u128, BuildError>)
    ensures
        r is Ok <==> build_ok(crate::text::spec_lines(content.spec_bytes())),
        r matches Ok(v) ==> ({
            let lv = crate::text::spec_lines(content.spec_bytes());
            let p = presses(built_topo(lv), built_mods(lv), built_entry(lv), 1000);
            v == saturating_product(p.1, p.2)
        }),
        r matches Err(e) ==> ({
            let lv = crate::text::spec_lines(content.spec_bytes());
            let bad = first_bad_line(lv);
            &&& (e is MalformedLine <==> (bad < lv.len() && !has_arrow(lv[bad])))
            &&& (e is UnknownPrefix <==> (bad < lv.len() && has_arrow(lv[bad])
                && !good_kind_tag(lv[bad])))
            &&& (e is MissingBroadcaster <==> bad == lv.len())
        }),
{
    let ghost lv = crate::text::spec_lines(content.spec_bytes());
    match parse(content) {
        Ok((mut modules, net)) => {
            let ghost topo0 = net.topo();
            let ghost mods0 = mods_view(modules@);
            let ghost entry0 = net.broadcaster;
            proof {
                assert(topo0 == built_topo(lv));
                assert(mods0 =~= built_mods(lv));
                assert(name_index(build_tables(lv).0, entry_bytes()) <= usize::MAX);
                assert(entry0 == built_entry(lv));
            }
            let v = aggregate(&mut modules, &net, 1000);
            proof {
                let p = presses(topo0, mods0, entry0, 1000);
                assert(v == saturating_product(p.1, p.2));
                assert(p == presses(built_topo(lv), built_mods(lv), built_entry(lv), 1000));
            }
            Ok(v)
        },
        Err(e) => Err(e),
    }
}

} // verus!

verus! {

/// The observation made during a drained run does not depend on which
/// drained step count witnessed it.
pub proof fn lemma_observed_fired_unique(
    topo: Seq<Seq<usize>>,
    st0: SimState,
    mods: Seq<ModuleV>,
    lo: nat,
    hi: nat,
    w: usize,
    fired: bool,
)
    requires
        observed_run(topo, st0, mods, lo, hi, w, fired),
    ensures
        fired == fired_before(
            topo,
            st0,
            w,
            choose|k: nat| steps(topo, st0, k).queue.len() == 0,
        ),
        drain(topo, st0).mods == mods,
{
    let k = choose|k: nat|
        run_result(topo, st0, k, mods, lo, hi) && fired == fired_before(topo, st0, w, k);
    assert(steps(topo, st0, k).queue.len() == 0);
    let kd = choose|k2: nat| steps(topo, st0, k2).queue.len() == 0;
    assert(steps(topo, st0, kd).queue.len() == 0);
    if k <= kd {
        lemma_fired_stable(topo, st0, w, k, kd);
    } else {
        lemma_fired_stable(topo, st0, w, kd, k);
    }
    lemma_run_deterministic(topo, st0, k, kd);
}

} // verus!
