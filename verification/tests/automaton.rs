use megra_core::constructors::{cyc, infer, rule};
use megra_core::events::{Event, ParamValue, SourceEvent, SynthParameterLabel};
use megra_core::generator::MarkovSequenceGenerator;
use megra_core::markov::{Pfa, PROB_ONE};

fn two_rules() -> Vec<megra_core::markov::Rule> {
    vec![
        rule(vec!['a'], 'a', 7000, 100),
        rule(vec!['a'], 'b', 3000, 50),
    ]
}

fn sound(name: &str) -> SourceEvent {
    SourceEvent::Sound(Event::with_name(name.to_string()))
}

#[test]
fn test_explicit_rules_deterministic_blocks() {
    let pfa = Pfa::infer_from_rules(&two_rules());
    let hist = vec!['a'];
    assert_eq!(pfa.transition_for_draw(&hist, 'a', 0), 'a');
    assert_eq!(pfa.transition_for_draw(&hist, 'a', 6999), 'a');
    assert_eq!(pfa.transition_for_draw(&hist, 'a', 7000), 'b');
    assert_eq!(pfa.transition_for_draw(&hist, 'a', 9999), 'b');
}

#[test]
fn test_explicit_rules_distribution() {
    // starting at 'a', over 10000 samples 'a' is chosen about 70% (+-2%)
    let pfa = Pfa::infer_from_rules(&two_rules());
    let hist = vec!['a'];
    let mut hits_a: u32 = 0;
    for _ in 0..10000 {
        let r: u32 = rand::Rng::gen_range(&mut rand::thread_rng(), 0..PROB_ONE);
        if pfa.transition_for_draw(&hist, 'a', r) == 'a' {
            hits_a += 1;
        }
    }
    assert!(hits_a >= 6800, "too few self-loops: {hits_a}");
    assert!(hits_a <= 7200, "too many self-loops: {hits_a}");
}

#[test]
fn test_infer_structure() {
    let pfa = Pfa::infer_from_rules(&two_rules());
    assert_eq!(pfa.contexts.len(), 1);
    assert_eq!(pfa.contexts[0].source, vec!['a']);
    assert_eq!(pfa.contexts[0].outs.len(), 2);
    assert_eq!(pfa.contexts[0].outs[0].symbol, 'a');
    assert_eq!(pfa.contexts[0].outs[0].prob, 7000);
    assert_eq!(pfa.contexts[0].outs[1].symbol, 'b');
    assert_eq!(pfa.contexts[0].outs[1].prob, 3000);
    assert_eq!(pfa.alphabet, vec!['a', 'b']);
}

#[test]
fn test_generator_transition_durations() {
    // the self edge carries 100 ms, the advance edge 50 ms
    let evmap = vec![('a', vec![sound("sine")]), ('b', vec![sound("saw")])];
    let g = infer("probs".to_string(), evmap, two_rules(), 200, false);
    let mut root = g.root_generator;
    let ev = root.transition_with_draw(0);
    assert_eq!(root.last_symbol, Some('a'));
    assert_eq!(
        ev.get_param(SynthParameterLabel::Duration),
        Some(ParamValue::Scalar(100_000))
    );
    let ev2 = root.transition_with_draw(9999);
    assert_eq!(root.last_symbol, Some('b'));
    assert_eq!(
        ev2.get_param(SynthParameterLabel::Duration),
        Some(ParamValue::Scalar(50_000))
    );
}

#[test]
fn test_generator_statistics() {
    // current_transition itself follows the rules' distribution
    let evmap = vec![('a', vec![sound("sine")])];
    let mut rules = two_rules();
    rules.push(rule(vec!['b'], 'a', PROB_ONE, 25));
    let g = infer("stat".to_string(), evmap, rules, 200, false);
    let mut root = g.root_generator;
    let mut from_a: u32 = 0;
    let mut stayed: u32 = 0;
    for _ in 0..20000 {
        let was_a = root.last_symbol == Some('a') || root.last_symbol.is_none();
        root.current_transition();
        if was_a {
            from_a += 1;
            if root.last_symbol == Some('a') {
                stayed += 1;
            }
        }
    }
    let ratio = stayed as f64 / from_a as f64;
    assert!(ratio > 0.66, "self-loop ratio {ratio}");
    assert!(ratio < 0.74, "self-loop ratio {ratio}");
}

#[test]
fn test_cycle_round_robin() {
    // dur 800 over 4 steps: every advance waits 200 ms, symbols cycle
    let steps = vec![
        vec![sound("saw")],
        vec![sound("sine")],
        vec![sound("sqr")],
        vec![sound("tri")],
    ];
    let g = cyc("ring".to_string(), steps, 800, 0, 0, 0, false);
    let mut root = g.root_generator;
    let evs = root.current_events();
    assert_eq!(root.last_symbol, Some('1'));
    assert_eq!(evs.len(), 1);
    let expected = ['2', '3', '4', '1', '2', '3', '4', '1'];
    for want in expected {
        let ev = root.current_transition();
        assert_eq!(root.last_symbol, Some(want));
        assert_eq!(
            ev.get_param(SynthParameterLabel::Duration),
            Some(ParamValue::Scalar(200_000))
        );
    }
}

#[test]
fn test_cycle_max_repetitions() {
    // with a cap of 2, no step is visited more than twice in a row
    let steps = vec![vec![sound("saw")], vec![sound("sine")], vec![sound("sqr")]];
    let g = cyc("capped".to_string(), steps, 600, 80, 2, 0, false);
    let mut root = g.root_generator;
    root.current_events();
    let mut last = root.last_symbol.unwrap();
    let mut run: u32 = 1;
    for _ in 0..2000 {
        root.current_transition();
        let cur = root.last_symbol.unwrap();
        if cur == last {
            run += 1;
        } else {
            last = cur;
            run = 1;
        }
        assert!(run <= 2, "symbol {cur} visited {run} times in a row");
    }
}

#[test]
fn test_cycle_repetition_present() {
    // with an 80% repetition chance, self-loops do occur
    let steps = vec![vec![sound("saw")], vec![sound("sine")]];
    let g = cyc("sticky".to_string(), steps, 400, 80, 0, 0, false);
    let mut root = g.root_generator;
    root.current_events();
    let mut repeats: u32 = 0;
    let mut prev = root.last_symbol.unwrap();
    for _ in 0..1000 {
        root.current_transition();
        let cur = root.last_symbol.unwrap();
        if cur == prev {
            repeats += 1;
        }
        prev = cur;
    }
    assert!(repeats > 500, "only {repeats} repeats at 80% chance");
}

#[test]
fn test_cycle_randomize_normalized() {
    // perturbed weights are renormalised: every context sums to one
    let steps = vec![
        vec![sound("saw")],
        vec![sound("sine")],
        vec![sound("sqr")],
        vec![sound("tri")],
    ];
    let g = cyc("rnd".to_string(), steps, 800, 50, 0, 30, false);
    let pfa = g.root_generator.generator;
    assert_eq!(pfa.contexts.len(), 4);
    for ctx in &pfa.contexts {
        let total: u64 = ctx.outs.iter().map(|e| e.prob as u64).sum();
        assert_eq!(total, PROB_ONE as u64);
    }
}

#[test]
fn test_empty_cycle() {
    // a cycle of zero steps has no states and falls back to the default
    let g = cyc("void".to_string(), Vec::new(), 800, 0, 0, 0, false);
    let mut root = g.root_generator;
    assert_eq!(root.generator.alphabet.len(), 0);
    let evs = root.current_events();
    assert!(evs.is_empty());
    assert_eq!(root.last_symbol, None);
    let ev = root.current_transition();
    assert_eq!(
        ev.get_param(SynthParameterLabel::Duration),
        Some(ParamValue::Scalar(800_000))
    );
}

#[test]
fn test_single_state_self_loop() {
    // one state without outgoing transitions self-loops forever
    let pfa = Pfa {
        alphabet: vec!['a'],
        contexts: Vec::new(),
    };
    let mut root = MarkovSequenceGenerator::assemble(
        "solo".to_string(),
        pfa,
        vec![('a', vec![sound("sine")])],
        Vec::new(),
        150,
    );
    for _ in 0..3 {
        let ev = root.current_transition();
        assert_eq!(root.last_symbol, Some('a'));
        assert_eq!(
            ev.get_param(SynthParameterLabel::Duration),
            Some(ParamValue::Scalar(150_000))
        );
    }
}

#[test]
fn test_higher_order_context_wins() {
    // a two-symbol context beats the one-symbol context when both match
    let rules = vec![
        rule(vec!['a'], 'a', PROB_ONE, 100),
        rule(vec!['a', 'a'], 'b', PROB_ONE, 100),
    ];
    let pfa = Pfa::infer_from_rules(&rules);
    assert_eq!(pfa.transition_for_draw(&vec!['b', 'a'], 'a', 0), 'a');
    assert_eq!(pfa.transition_for_draw(&vec!['a', 'a'], 'a', 0), 'b');
}

#[test]
fn test_keep_root_yields_empty_automaton() {
    let steps = vec![vec![sound("saw")]];
    let g = cyc("keep".to_string(), steps, 800, 0, 0, 0, true);
    assert!(g.keep_root);
    assert_eq!(g.root_generator.generator.alphabet.len(), 0);
    assert_eq!(g.root_generator.generator.contexts.len(), 0);
    assert_eq!(g.root_generator.event_mapping.len(), 0);
}

#[test]
fn test_duplicate_rules_merge() {
    // rules repeating a (source, destination) pair act as parallel edges:
    // their weights combine on one edge
    let rules = vec![
        rule(vec!['a'], 'b', 4000, 100),
        rule(vec!['a'], 'b', 2000, 100),
        rule(vec!['a'], 'a', 4000, 100),
    ];
    let pfa = Pfa::infer_from_rules(&rules);
    assert_eq!(pfa.contexts.len(), 1);
    assert_eq!(pfa.contexts[0].outs.len(), 2);
    assert_eq!(pfa.contexts[0].outs[0].symbol, 'b');
    assert_eq!(pfa.contexts[0].outs[0].prob, 6000);
    assert_eq!(pfa.contexts[0].outs[1].symbol, 'a');
    assert_eq!(pfa.contexts[0].outs[1].prob, 4000);
    // the merged edge owns the first 6000 draws, the other the rest
    let hist = vec!['a'];
    assert_eq!(pfa.transition_for_draw(&hist, 'a', 5999), 'b');
    assert_eq!(pfa.transition_for_draw(&hist, 'a', 6000), 'a');
}

#[test]
fn test_one_step_repetition_cycle() {
    // on a one-step cycle, self-loop and advance lead to the same state:
    // they merge into one certain edge, so the context still sums to one
    let g = cyc("pulse".to_string(), vec![vec![sound("saw")]], 300, 40, 0, 0, false);
    let mut root = g.root_generator;
    let pfa = &root.generator;
    assert_eq!(pfa.contexts.len(), 1);
    assert_eq!(pfa.contexts[0].outs.len(), 1);
    assert_eq!(pfa.contexts[0].outs[0].symbol, '1');
    assert_eq!(pfa.contexts[0].outs[0].prob, PROB_ONE);
    for _ in 0..3 {
        let ev = root.current_transition();
        assert_eq!(root.last_symbol, Some('1'));
        assert_eq!(
            ev.get_param(SynthParameterLabel::Duration),
            Some(ParamValue::Scalar(300_000))
        );
    }
}

#[test]
fn test_capped_cycle_structure() {
    // rep 80 over 2 steps with a cap of 3: per step one first-order
    // context (8000 self / 2000 advance) and one three-symbol context
    // forcing the advance
    let steps = vec![vec![sound("saw")], vec![sound("sine")]];
    let g = cyc("shape".to_string(), steps, 400, 80, 3, 0, false);
    let pfa = g.root_generator.generator;
    assert_eq!(pfa.alphabet, vec!['1', '2']);
    assert_eq!(pfa.contexts.len(), 4);
    assert_eq!(pfa.contexts[0].source, vec!['1']);
    assert_eq!(pfa.contexts[0].outs[0].symbol, '1');
    assert_eq!(pfa.contexts[0].outs[0].prob, 8000);
    assert_eq!(pfa.contexts[0].outs[1].symbol, '2');
    assert_eq!(pfa.contexts[0].outs[1].prob, 2000);
    assert_eq!(pfa.contexts[1].source, vec!['1', '1', '1']);
    assert_eq!(pfa.contexts[1].outs.len(), 1);
    assert_eq!(pfa.contexts[1].outs[0].symbol, '2');
    assert_eq!(pfa.contexts[1].outs[0].prob, 10000);
    assert_eq!(pfa.contexts[2].source, vec!['2']);
    assert_eq!(pfa.contexts[3].source, vec!['2', '2', '2']);
    assert_eq!(pfa.contexts[3].outs[0].symbol, '1');
}
