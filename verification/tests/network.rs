use puzzles::period::{self, PeriodError};
use puzzles::pulse::{self, BuildError, Module, Pulse};

#[test]
fn day20_1_test1() {
    let content = "broadcaster -> a, b, c
%a -> b
%b -> c
%c -> inv
&inv -> a";
    assert_eq!(pulse::solve(content), Ok(32000000));
}

#[test]
fn day20_1_test2() {
    let content = "broadcaster -> a
%a -> inv, con
&inv -> b
%b -> con
&con -> output";
    assert_eq!(pulse::solve(content), Ok(11687500));
}

fn name_id(net: &pulse::Network, name: &[u8]) -> usize {
    pulse::find_module_id(net, name).expect("name not in network")
}

// One trigger of the first example network sends 8 low and 4 high pulses,
// counted directly rather than through the thousand-trigger product.
#[test]
fn single_trigger_counts() {
    let content = "broadcaster -> a, b, c
%a -> b
%b -> c
%c -> inv
&inv -> a";
    let (mut modules, net) = pulse::parse(content).unwrap();
    let (lo, hi) = pulse::simulate(&mut modules, &net);
    assert_eq!(lo, 8);
    assert_eq!(hi, 4);
}

// Every trigger run counts at least its own low seed pulse.
#[test]
fn seed_pulse_always_counted() {
    let (mut modules, net) = pulse::parse("broadcaster -> out").unwrap();
    let (lo, _) = pulse::simulate(&mut modules, &net);
    assert!(lo >= 1);
}

// Two identical trigger sequences from the same initial table give the same
// counts, trigger by trigger.
#[test]
fn identical_runs_agree() {
    let content = "broadcaster -> a
%a -> inv, con
&inv -> b
%b -> con
&con -> output";
    let (mut m1, n1) = pulse::parse(content).unwrap();
    let (mut m2, n2) = pulse::parse(content).unwrap();
    for _ in 0..50 {
        assert_eq!(
            pulse::simulate(&mut m1, &n1),
            pulse::simulate(&mut m2, &n2)
        );
    }
}

// A flip-flop ignores high pulses (twice over) and toggles on low ones.
#[test]
fn flip_flop_behaviour() {
    let mut m = Module::Flip { on: false };
    assert!(m.send_pulse(7, Pulse::Hi).is_none());
    assert!(m.send_pulse(7, Pulse::Hi).is_none());
    assert!(matches!(m, Module::Flip { on: false }));
    assert_eq!(m.send_pulse(7, Pulse::Lo), Some(Pulse::Hi));
    assert!(matches!(m, Module::Flip { on: true }));
    assert_eq!(m.send_pulse(7, Pulse::Lo), Some(Pulse::Lo));
    assert!(matches!(m, Module::Flip { on: false }));
}

// A two-input conjunction with all-high memory answers low, and answers high
// as soon as one remembered polarity is low.
#[test]
fn conjunction_behaviour() {
    let mut m = Module::Conj { senders: vec![0, 1], memory: vec![Pulse::Hi, Pulse::Hi] };
    assert_eq!(m.send_pulse(0, Pulse::Hi), Some(Pulse::Lo));
    assert_eq!(m.send_pulse(1, Pulse::Lo), Some(Pulse::Hi));
}

#[test]
fn parse_rejects_missing_arrow() {
    assert!(matches!(
        pulse::parse("broadcaster a, b"),
        Err(BuildError::MalformedLine)
    ));
}

#[test]
fn parse_rejects_unknown_prefix() {
    assert!(matches!(
        pulse::parse("broadcaster -> a\n*a -> b"),
        Err(BuildError::UnknownPrefix)
    ));
}

#[test]
fn parse_rejects_missing_broadcaster() {
    assert!(matches!(
        pulse::parse("%a -> b"),
        Err(BuildError::MissingBroadcaster)
    ));
}

// Two independent counter sub-networks of periods three and four feed the
// target through their own conjunction watchers: the extrapolator combines
// the measured periods into lcm(3, 4) = 12, and direct simulation confirms
// that trigger 12 is the first where both watchers emit low together.
#[test]
fn extrapolates_combined_period() {
    let content = "broadcaster -> a1, b1
%a1 -> a2, ca
%a2 -> ca
&ca -> a1, rx
%b1 -> b2
%b2 -> b3
%b3 -> cb
&cb -> b3, rx";
    let (modules, net) = pulse::parse(content).unwrap();
    let target = name_id(&net, b"rx");
    let answer = period::min_presses_to_low(&modules, &net, target, 100);
    assert_eq!(answer, Ok(12));

    // direct simulation: watcher periods are 3 and 4, so presses 1..=11
    // never see both watchers fire in one trigger, and press 12 does.
    let ca = name_id(&net, b"ca");
    let cb = name_id(&net, b"cb");
    let mut m1 = pulse::copy_modules(&modules);
    let mut m2 = pulse::copy_modules(&modules);
    let mut first_joint = 0usize;
    for press in 1..=12usize {
        let (_, fired_a) = pulse::run_trigger_watch(&mut m1, &net, ca);
        let (_, fired_b) = pulse::run_trigger_watch(&mut m2, &net, cb);
        if fired_a && fired_b && first_joint == 0 {
            first_joint = press;
        }
    }
    assert_eq!(first_joint, 12);
}

#[test]
fn extrapolation_needs_watchers() {
    let content = "broadcaster -> a
%a -> b";
    let (modules, net) = pulse::parse(content).unwrap();
    let target = name_id(&net, b"b");
    assert!(matches!(
        period::min_presses_to_low(&modules, &net, target, 10),
        Err(PeriodError::NoWatchers)
    ));
}

// A plain flip-flop chain fires its watcher at press 4 but again only at
// press 12, so the second emission misses twice the first and the
// structural precondition of the technique fails.
#[test]
fn extrapolation_rejects_irregular_watcher() {
    let content = "broadcaster -> b1
%b1 -> b2
%b2 -> b3
%b3 -> cb
&cb -> rx";
    let (modules, net) = pulse::parse(content).unwrap();
    let target = name_id(&net, b"rx");
    assert!(matches!(
        period::min_presses_to_low(&modules, &net, target, 100),
        Err(PeriodError::IrregularPeriod { .. })
    ));
}

// A watcher that never emits low within the press budget is reported.
#[test]
fn extrapolation_reports_silent_watcher() {
    let content = "broadcaster -> x
&d -> rx
%x -> c
&c -> rx";
    let (modules, net) = pulse::parse(content).unwrap();
    let target = name_id(&net, b"rx");
    assert!(matches!(
        period::min_presses_to_low(&modules, &net, target, 20),
        Err(PeriodError::NeverFired { .. })
    ));
}

// Pulses into names never declared as sources are absorbed silently.
#[test]
fn sink_destinations_absorb_pulses() {
    let (mut modules, net) = pulse::parse("broadcaster -> nowhere").unwrap();
    let (lo, hi) = pulse::simulate(&mut modules, &net);
    assert_eq!((lo, hi), (2, 0));
}
