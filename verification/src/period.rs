//! Periodicity-based extrapolation over the pulse network.
//!
//! To answer "after how many button presses does the target first receive a
//! low pulse" without simulating that far, the network's *watchers* — the
//! conjunction modules wired into the target — are each run on an
//! independent copy of the module state until they first emit a low pulse.
//! The press index of that first emission is the watcher's period, and the
//! answer is the least common multiple of all the periods.
//!
//! That combination rule rests on a structural assumption about the puzzle
//! class: each watcher sits in an independent sub-network that reports at an
//! exact multiple of its period.  The assumption is checked, not trusted:
//! each watcher's second low emission must land at exactly twice its first,
//! and a mismatch is a fatal error naming the watcher, as is a watcher that
//! stays silent for the whole press budget.

use vstd::prelude::*;
use crate::euclid;
use crate::pulse;
use crate::pulse::{Module, Network};

verus! {

/// Why the minimum-trigger query failed: the target has no watcher, a
/// watcher never emitted low within the press budget, a watcher's second
/// emission missed twice its first (the structural precondition of the
/// technique), or the combined period does not fit in the result type.
#[derive(Clone, Copy, PartialEq, Eq, Structural, Debug)]
pub enum PeriodError {
    NoWatchers,
    NeverFired { watcher: usize },
    IrregularPeriod { watcher: usize },
    TooLarge,
}

/// Whether `v` is a watcher of `target`: a conjunction wired into it.
pub open spec fn is_watcher(
    topo: Seq<Seq<usize>>,
    mods: Seq<pulse::ModuleV>,
    v: usize,
    target: usize,
) -> bool {
    &&& (v as int) < mods.len()
    &&& mods[v as int] is Conj
    &&& topo[v as int].contains(target)
}

/// Whether watcher `w` emits a low pulse during press number `i` (1-based)
/// of a chain of presses started from `mods`.
pub open spec fn press_fires(
    topo: Seq<Seq<usize>>,
    mods: Seq<pulse::ModuleV>,
    entry: usize,
    w: usize,
    i: nat,
) -> bool {
    let before = pulse::presses(topo, mods, entry, (i - 1) as nat).0;
    let st0 = pulse::init_state(before, entry);
    pulse::fired_before(
        topo,
        st0,
        w,
        choose|k: nat| pulse::steps(topo, st0, k).queue.len() == 0,
    )
}

/// `p` is `w`'s verified period: the first press during which `w` emits low,
/// with the second emission at exactly `2 * p`.
pub open spec fn watcher_period(
    topo: Seq<Seq<usize>>,
    mods: Seq<pulse::ModuleV>,
    entry: usize,
    w: usize,
    p: nat,
) -> bool {
    &&& p >= 1
    &&& press_fires(topo, mods, entry, w, p)
    &&& forall|j: nat| 1 <= j < p ==> !#[trigger] press_fires(topo, mods, entry, w, j)
    &&& forall|j: nat| p < j < 2 * p ==> !#[trigger] press_fires(topo, mods, entry, w, j)
    &&& press_fires(topo, mods, entry, w, 2 * p)
}

/// Least-common-multiple fold of a sequence of periods.
pub open spec fn lcm_fold(ps: Seq<nat>) -> nat
    decreases ps.len(),
{
    if ps.len() == 0 {
        1
    } else {
        euclid::spec_lcm(lcm_fold(ps.drop_last()), ps.last())
    }
}

/// The conjunction modules whose destination lists include `target`,
/// in ascending index order: exactly the watchers of `target`.
pub fn find_watchers(modules: &Vec<Module>, net: &Network, target: usize) -> (r: Vec<usize>)
    requires
        modules@.len() == net.dests@.len(),
    ensures
        forall|t: int|
            0 <= t < r@.len() ==> is_watcher(
                net.topo(),
                pulse::mods_view(modules@),
                #[trigger] r@[t],
                target,
            ),
        forall|v: usize|
            is_watcher(net.topo(), pulse::mods_view(modules@), v, target) ==> r@.contains(v),
{
    let mut out: Vec<usize> = Vec::new();
    let mut v: usize = 0;
    while v < modules.len()
        invariant
            modules@.len() == net.dests@.len(),
            v <= modules@.len(),
            forall|t: int|
                0 <= t < out@.len() ==> is_watcher(
                    net.topo(),
                    pulse::mods_view(modules@),
                    #[trigger] out@[t],
                    target,
                ),
            forall|u: usize|
                u < v && is_watcher(net.topo(), pulse::mods_view(modules@), u, target)
                    ==> out@.contains(u),
        decreases modules@.len() - v,
    {
        let ghost olds = out@;
        let is_conj = match &modules[v] {
            Module::Conj { .. } => true,
            _ => false,
        };
        if is_conj && pulse::contains_id(&net.dests[v], target) {
            proof {
                assert(net.topo()[v as int] == (net.dests@[v as int])@);
            }
            out.push(v);
        }
        proof {
            assert forall|u: usize|
                u < v + 1 && is_watcher(net.topo(), pulse::mods_view(modules@), u, target)
                    implies out@.contains(u) by {
                if u < v {
                    assert(olds.contains(u));
                    let t = choose|t: int| 0 <= t < olds.len() && olds[t] == u;
                    assert(out@[t] == u);
                } else {
                    assert(pulse::mods_view(modules@)[v as int] == modules@[v as int]@);
                    assert(net.topo()[v as int] == (net.dests@[v as int])@);
                    assert(out@[out@.len() - 1] == u);
                }
            }
        }
        v = v + 1;
    }
    out
}

/// Presses the button repeatedly, on a private copy of the module states,
/// until watcher `w` has emitted low twice, and returns the press index of
/// the first emission once the second lands at exactly twice that index.
///
/// Errors name the watcher: `NeverFired` when `w` stays silent for `limit`
/// presses, `IrregularPeriod` when the second emission misses `2 * period`
/// (or does not arrive within the budget), the structural-precondition
/// failure of the extrapolation technique.
pub fn measure_period(modules: &Vec<Module>, net: &Network, w: usize, limit: usize) -> (r:
    Result<usize, PeriodError>)
    requires
        net.wf(),
        modules@.len() == net.dests@.len(),
        pulse::wf_state(
            net.topo(),
            pulse::init_state(pulse::mods_view(modules@), net.broadcaster),
        ),
    ensures
        match r {
            Ok(p) => 1 <= p <= limit && watcher_period(
                net.topo(),
                pulse::mods_view(modules@),
                net.broadcaster,
                w,
                p as nat,
            ),
            Err(e) => {
                let topo = net.topo();
                let mods0 = pulse::mods_view(modules@);
                let entry = net.broadcaster;
                &&& (e matches PeriodError::NeverFired { watcher } ==> watcher == w && forall|
                    j: nat,
                |
                    1 <= j <= limit ==> !#[trigger] press_fires(topo, mods0, entry, w, j))
                &&& (e matches PeriodError::IrregularPeriod { watcher } ==> watcher == w
                    && exists|p: nat|
                    {
                        &&& 1 <= p <= limit
                        &&& #[trigger] press_fires(topo, mods0, entry, w, p)
                        &&& (forall|j: nat|
                            1 <= j < p ==> !#[trigger] press_fires(topo, mods0, entry, w, j))
                        &&& ((exists|q: nat|
                            p < q <= limit && #[trigger] press_fires(topo, mods0, entry, w, q)
                                && q != 2 * p && (forall|j: nat|
                                p < j < q ==> !#[trigger] press_fires(
                                    topo,
                                    mods0,
                                    entry,
                                    w,
                                    j,
                                ))) || (forall|j: nat|
                            p < j <= limit ==> !#[trigger] press_fires(
                                topo,
                                mods0,
                                entry,
                                w,
                                j,
                            )))
                    })
                &&& !(e is NoWatchers)
                &&& !(e is TooLarge)
            },
        },
{
    let ghost topo = net.topo();
    let ghost mods0 = pulse::mods_view(modules@);
    let ghost entry = net.broadcaster;
    let mut state = pulse::copy_modules(modules);
    let mut i: usize = 0;
    let mut first: usize = 0;
    while i < limit
        invariant
            net.wf(),
            topo == net.topo(),
            mods0 == pulse::mods_view(modules@),
            entry == net.broadcaster,
            state@.len() == net.dests@.len(),
            i <= limit,
            first <= i,
            pulse::wf_state(topo, pulse::init_state(pulse::mods_view(state@), entry)),
            pulse::mods_view(state@) == pulse::presses(topo, mods0, entry, i as nat).0,
            first == 0 ==> forall|j: nat| 1 <= j <= i ==> !#[trigger] press_fires(
                topo,
                mods0,
                entry,
                w,
                j,
            ),
            first >= 1 ==> {
                &&& press_fires(topo, mods0, entry, w, first as nat)
                &&& (forall|j: nat| 1 <= j < first ==> !#[trigger] press_fires(
                    topo,
                    mods0,
                    entry,
                    w,
                    j,
                ))
                &&& (forall|j: nat| first < j <= i ==> !#[trigger] press_fires(
                    topo,
                    mods0,
                    entry,
                    w,
                    j,
                ))
            },
        decreases limit - i,
    {
        let ghost prev = pulse::mods_view(state@);
        let (_counts, fired) = pulse::run_trigger_watch(&mut state, net, w);
        i = i + 1;
        proof {
            let st0 = pulse::init_state(prev, entry);
            pulse::lemma_observed_fired_unique(
                topo,
                st0,
                pulse::mods_view(state@),
                _counts.0 as nat,
                _counts.1 as nat,
                w,
                fired,
            );
            assert(pulse::presses(topo, mods0, entry, (i - 1) as nat).0 == prev);
            assert(press_fires(topo, mods0, entry, w, i as nat) == fired);
            pulse::lemma_presses_snoc(topo, mods0, entry, (i - 1) as nat);
            assert(pulse::drain(topo, st0).mods == pulse::mods_view(state@));
            assert(pulse::mods_view(state@) == pulse::presses(topo, mods0, entry, i as nat).0);
            // well-formedness of the next initial state
            let k = choose|k: nat| pulse::steps(topo, st0, k).queue.len() == 0;
            pulse::lemma_steps_preserve_wf(topo, st0, k);
            pulse::lemma_steps_preserve_wiring(topo, st0, k);
            let seed = pulse::init_state(pulse::mods_view(state@), entry).queue[0];
            assert(pulse::wf_event(prev, seed));
            assert(pulse::same_wiring(
                prev[seed.dst as int],
                pulse::mods_view(state@)[seed.dst as int],
            ));
            assert(pulse::wf_event(pulse::mods_view(state@), seed));
            assert(pulse::wf_queue(
                pulse::mods_view(state@),
                pulse::init_state(pulse::mods_view(state@), entry).queue,
            ));
        }
        if fired {
            if first == 0 {
                first = i;
            } else {
                // second emission: the periodicity assumption demands 2 * first
                if first <= usize::MAX / 2 && i == 2 * first {
                    proof {
                        assert(2 * first as nat == i as nat);
                    }
                    return Ok(first);
                } else {
                    proof {
                        assert(i as nat != 2 * first as nat) by {
                            if first > usize::MAX / 2 {
                                assert(2 * first as nat > usize::MAX);
                                assert(i as nat <= usize::MAX);
                            }
                        }
                        assert(press_fires(topo, mods0, entry, w, i as nat));
                        assert(press_fires(topo, mods0, entry, w, first as nat));
                    }
                    return Err(PeriodError::IrregularPeriod { watcher: w });
                }
            }
        }
    }
    if first == 0 {
        Err(PeriodError::NeverFired { watcher: w })
    } else {
        proof {
            assert(press_fires(topo, mods0, entry, w, first as nat));
        }
        Err(PeriodError::IrregularPeriod { watcher: w })
    }
}

/// Least common multiple of two positive periods, refusing results beyond
/// `i64::MAX`.
pub fn lcm_checked(a: i64, b: i64) -> (r: Option<i64>)
    requires
        1 <= a,
        1 <= b,
    ensures
        match r {
            Some(v) => v == euclid::spec_lcm(a as nat, b as nat) && 1 <= v,
            None => euclid::spec_lcm(a as nat, b as nat) > i64::MAX,
        },
{
    proof {
        euclid::lemma_gcd_pos(a as nat, b as nat);
        euclid::lemma_gcd_divides(a as nat, b as nat);
        euclid::lemma_lcm_is_common_multiple(a as nat, b as nat);
    }
    let g = euclid::gcd(a, b);
    let q = a / g;
    proof {
        let ka = choose|k: int| a as int == #[trigger] (g as int * k);
        assert(q == ka) by (nonlinear_arith)
            requires
                a as int == g as int * ka,
                g >= 1,
                q == a as int / g as int,
        {}
        assert(q * b == euclid::spec_lcm(a as nat, b as nat)) by (nonlinear_arith)
            requires
                a as int == g as int * q,
                g >= 1,
                b >= 1,
                q >= 0,
                (a * b) as nat == euclid::spec_gcd(a as nat, b as nat) * euclid::spec_lcm(
                    a as nat,
                    b as nat,
                ),
                g == euclid::spec_gcd(a as nat, b as nat),
        {}
        assert(q >= 1) by (nonlinear_arith)
            requires
                a as int == g as int * q,
                a >= 1,
                g >= 1,
        {}
    }
    if q > i64::MAX / b {
        proof {
            vstd::arithmetic::div_mod::lemma_fundamental_div_mod(i64::MAX as int, b as int);
            vstd::arithmetic::div_mod::lemma_mod_bound(i64::MAX as int, b as int);
            assert(q * b > i64::MAX) by (nonlinear_arith)
                requires
                    b >= 1,
                    q > i64::MAX as int / b as int,
                    i64::MAX as int == (i64::MAX as int / b as int) * b + (i64::MAX as int
                        % b as int),
                    (i64::MAX as int % b as int) < b,
            {}
        }
        None
    } else {
        proof {
            vstd::arithmetic::div_mod::lemma_fundamental_div_mod(i64::MAX as int, b as int);
            vstd::arithmetic::div_mod::lemma_mod_bound(i64::MAX as int, b as int);
            assert(q * b <= i64::MAX) by (nonlinear_arith)
                requires
                    b >= 1,
                    0 <= q <= i64::MAX as int / b as int,
                    i64::MAX as int == (i64::MAX as int / b as int) * b + (i64::MAX as int
                        % b as int),
                    0 <= (i64::MAX as int % b as int),
            {}
        }
        Some(q * b)
    }
}

/// Answers the minimum-trigger query: after how many button presses does
/// `target` first receive a low pulse.
///
/// Each watcher of `target` is measured on its own copy of the initial
/// module states (`measure_period`), and the periods are combined by least
/// common multiple.  On success the result is exactly the
/// least-common-multiple fold of a verified period for every watcher of the
/// target.  A network with no watcher, a silent or irregular watcher, or a
/// combined period beyond `i64::MAX` is a fatal error.
pub fn min_presses_to_low(
    modules: &Vec<Module>,
    net: &Network,
    target: usize,
    limit: usize,
) -> (r: Result<i64, PeriodError>)
    requires
        net.wf(),
        modules@.len() == net.dests@.len(),
        pulse::wf_state(
            net.topo(),
            pulse::init_state(pulse::mods_view(modules@), net.broadcaster),
        ),
    ensures
        match r {
            Ok(v) => exists|ws: Seq<usize>, ps: Seq<nat>|
                {
                    &&& ws.len() == ps.len()
                    &&& ws.len() >= 1
                    &&& (forall|t: int|
                        0 <= t < ws.len() ==> is_watcher(
                            net.topo(),
                            pulse::mods_view(modules@),
                            #[trigger] ws[t],
                            target,
                        ))
                    &&& (forall|u: usize|
                        is_watcher(net.topo(), pulse::mods_view(modules@), u, target)
                            ==> ws.contains(u))
                    &&& (forall|t: int|
                        0 <= t < ws.len() ==> watcher_period(
                            net.topo(),
                            pulse::mods_view(modules@),
                            net.broadcaster,
                            ws[t],
                            #[trigger] ps[t],
                        ))
                    &&& v == lcm_fold(ps)
                },
            Err(e) => {
                let topo = net.topo();
                let mods0 = pulse::mods_view(modules@);
                let entry = net.broadcaster;
                &&& (e is NoWatchers ==> forall|v: usize| !is_watcher(topo, mods0, v, target))
                &&& (e matches PeriodError::NeverFired { watcher } ==> is_watcher(
                    topo,
                    mods0,
                    watcher,
                    target,
                ) && forall|j: nat|
                    1 <= j <= limit ==> !#[trigger] press_fires(topo, mods0, entry, watcher, j))
                &&& (e matches PeriodError::IrregularPeriod { watcher } ==> is_watcher(
                    topo,
                    mods0,
                    watcher,
                    target,
                ) && exists|p: nat|
                    {
                        &&& 1 <= p <= limit
                        &&& #[trigger] press_fires(topo, mods0, entry, watcher, p)
                        &&& (forall|j: nat|
                            1 <= j < p ==> !#[trigger] press_fires(topo, mods0, entry, watcher, j))
                        &&& ((exists|q: nat|
                            p < q <= limit && #[trigger] press_fires(topo, mods0, entry, watcher, q)
                                && q != 2 * p && (forall|j: nat|
                                p < j < q ==> !#[trigger] press_fires(
                                    topo,
                                    mods0,
                                    entry,
                                    watcher,
                                    j,
                                ))) || (forall|j: nat|
                            p < j <= limit ==> !#[trigger] press_fires(
                                topo,
                                mods0,
                                entry,
                                watcher,
                                j,
                            )))
                    })
                &&& (e is TooLarge ==> exists|ws: Seq<usize>, ps: Seq<nat>, w: usize, p: nat|
                    #![auto]
                    {
                        &&& ws.len() == ps.len()
                        &&& (forall|u: int|
                            0 <= u < ws.len() ==> is_watcher(topo, mods0, #[trigger] ws[u], target)
                                && watcher_period(topo, mods0, entry, ws[u], ps[u]))
                        &&& is_watcher(topo, mods0, w, target)
                        &&& watcher_period(topo, mods0, entry, w, p)
                        &&& (p > i64::MAX || crate::euclid::spec_lcm(lcm_fold(ps), p) > i64::MAX)
                    })
            },
        },
{
    let watchers = find_watchers(modules, net, target);
    if watchers.len() == 0 {
        proof {
            assert forall|v: usize|
                !is_watcher(net.topo(), pulse::mods_view(modules@), v, target) by {
                if is_watcher(net.topo(), pulse::mods_view(modules@), v, target) {
                    assert(watchers@.contains(v));
                }
            }
        }
        return Err(PeriodError::NoWatchers);
    }
    let mut acc: i64 = 1;
    let ghost mut ps: Seq<nat> = Seq::empty();
    proof {
        assert(lcm_fold(ps) == 1);
    }
    let mut t: usize = 0;
    while t < watchers.len()
        invariant
            net.wf(),
            modules@.len() == net.dests@.len(),
            pulse::wf_state(
                net.topo(),
                pulse::init_state(pulse::mods_view(modules@), net.broadcaster),
            ),
            t <= watchers@.len(),
            ps.len() == t,
            acc >= 1,
            acc == lcm_fold(ps),
            forall|u: int|
                0 <= u < watchers@.len() ==> is_watcher(
                    net.topo(),
                    pulse::mods_view(modules@),
                    #[trigger] watchers@[u],
                    target,
                ),
            forall|v: usize|
                is_watcher(net.topo(), pulse::mods_view(modules@), v, target)
                    ==> watchers@.contains(v),
            forall|u: int|
                0 <= u < t ==> watcher_period(
                    net.topo(),
                    pulse::mods_view(modules@),
                    net.broadcaster,
                    watchers@[u],
                    #[trigger] ps[u],
                ),
        decreases watchers@.len() - t,
    {
        let w = watchers[t];
        proof {
            assert(is_watcher(net.topo(), pulse::mods_view(modules@), w, target));
        }
        let p = match measure_period(modules, net, w, limit) {
            Ok(p) => p,
            Err(e) => {
                return Err(e);
            },
        };
        let ghost ws_pre = watchers@.subrange(0, t as int);
        proof {
            assert(ws_pre.len() == ps.len());
            assert(forall|u: int|
                0 <= u < ws_pre.len() ==> #[trigger] ws_pre[u] == watchers@[u]);
        }
        if p as u64 > i64::MAX as u64 {
            proof {
                assert(p as nat > i64::MAX);
            }
            return Err(PeriodError::TooLarge);
        }
        let next = match lcm_checked(acc, p as i64) {
            Some(v) => v,
            None => {
                proof {
                    assert(crate::euclid::spec_lcm(lcm_fold(ps), p as nat) > i64::MAX);
                }
                return Err(PeriodError::TooLarge);
            },
        };
        proof {
            let psold = ps;
            ps = ps.push(p as nat);
            assert(ps.drop_last() =~= psold);
            assert(ps.last() == p as nat);
        }
        acc = next;
        t = t + 1;
    }
    Ok(acc)
}

} // verus!
