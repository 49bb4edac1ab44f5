//! The two construction paths of a voice: explicit-rule inference and
//! cyclic-sequence synthesis.

use vstd::prelude::*;
use crate::events::{sev_views, Event, EventView, SourceEvent};
use crate::generator::{
    duration_event_view, find_edge, Generator, GeneratorProcessor, MarkovSequenceGenerator,
    TimeMod,
};
use crate::markov::{empty_pfa_view, rule_views, spec_infer, Pfa, Rule, RuleView, PROB_ONE};
use crate::symbols::{sym, sym_char, MAX_STEPS};

verus! {

/// The duration table after binding an edge: replaced in place if present,
/// appended otherwise (a later rule for the same edge wins).
pub open spec fn edge_bound(
    m: Seq<((char, char), EventView)>,
    e: (char, char),
    ev: EventView,
) -> Seq<((char, char), EventView)> {
    let j = find_edge(m, e);
    if j < 0 {
        m.push((e, ev))
    } else {
        m.update(j, (e, ev))
    }
}

/// The duration table a rule list induces: each rule binds the edge from
/// the last symbol of its context to its destination, carrying the rule's
/// duration.
pub open spec fn durmap_from_rules(rules: Seq<RuleView>) -> Seq<((char, char), EventView)>
    decreases rules.len(),
{
    if rules.len() == 0 {
        Seq::empty()
    } else {
        let r = rules.last();
        edge_bound(
            durmap_from_rules(rules.drop_last()),
            (r.source.last(), r.symbol),
            duration_event_view(r.duration),
        )
    }
}

/// A single explicit transition rule.
pub fn rule(source: Vec<char>, symbol: char, probability: u32, duration: u64) -> (r: Rule)
    requires
        source@.len() >= 1,
        probability <= PROB_ONE,
    ensures
        r@.source == source@,
        r@.symbol == symbol,
        r@.probability == probability,
        r@.duration == duration,
{
    Rule { source, symbol, probability, duration }
}

/// Index of the first entry keyed by the edge `e`, executably.
fn find_edge_entry(m: &Vec<((char, char), Event)>, e: (char, char)) -> (r: Option<usize>)
    ensures
        ({
            let mapped = m@.map_values(|p: ((char, char), Event)| (p.0, p.1@));
            match r {
                Some(j) => find_edge(mapped, e) == j as int && j < m@.len(),
                None => find_edge(mapped, e) == -1,
            }
        }),
{
    let ghost mapped = m@.map_values(|p: ((char, char), Event)| (p.0, p.1@));
    let mut i: usize = 0;
    while i < m.len()
        invariant
            mapped == m@.map_values(|p: ((char, char), Event)| (p.0, p.1@)),
            i <= m@.len(),
            forall|k: int| 0 <= k < i ==> !((#[trigger] mapped[k]).0.0 == e.0 && mapped[k].0.1 == e.1),
        decreases m@.len() - i,
    {
        if m[i].0.0 == e.0 && m[i].0.1 == e.1 {
            proof {
                crate::generator::lemma_find_edge_agrees(mapped, e, i as int);
            }
            return Some(i);
        }
        i += 1;
    }
    proof {
        crate::generator::lemma_find_edge_none(mapped, e);
    }
    None
}

/// The synthetic transition event carrying `d` milliseconds.
fn duration_event(d: u64) -> (ev: Event)
    requires
        d <= crate::generator::MAX_DURATION_MS,
    ensures
        ev@ == duration_event_view(d),
{
    let mut ev = Event::with_name("transition".to_string());
    ev.set_param(
        crate::events::SynthParameterLabel::Duration,
        crate::events::ParamValue::Scalar((d * 1000) as i64),
    );
    proof {
        assert(ev@ =~~= duration_event_view(d));
    }
    ev
}

/// The duration table a rule list induces, executably.
fn build_durmap(rules: &Vec<Rule>) -> (m: Vec<((char, char), Event)>)
    requires
        forall|k: int|
            0 <= k < rules@.len() ==> (#[trigger] rules@[k]).source@.len() >= 1 && rules@[k].duration
                <= crate::generator::MAX_DURATION_MS,
    ensures
        m@.map_values(|p: ((char, char), Event)| (p.0, p.1@)) == durmap_from_rules(
            rule_views(rules@),
        ),
{
    let mut m: Vec<((char, char), Event)> = Vec::new();
    let mut i: usize = 0;
    proof {
        assert(m@.map_values(|p: ((char, char), Event)| (p.0, p.1@)) =~= durmap_from_rules(
            rule_views(rules@).take(0),
        ));
    }
    while i < rules.len()
        invariant
            forall|k: int|
                0 <= k < rules@.len() ==> (#[trigger] rules@[k]).source@.len() >= 1
                    && rules@[k].duration <= crate::generator::MAX_DURATION_MS,
            i <= rules@.len(),
            m@.map_values(|p: ((char, char), Event)| (p.0, p.1@)) == durmap_from_rules(
                rule_views(rules@).take(i as int),
            ),
        decreases rules@.len() - i,
    {
        let ghost pre = m@.map_values(|p: ((char, char), Event)| (p.0, p.1@));
        let r = &rules[i];
        let e = (r.source[r.source.len() - 1], r.symbol);
        let ev = duration_event(r.duration);
        proof {
            assert(rules@[i as int]@.source.last() == e.0);
        }
        match find_edge_entry(&m, e) {
            Some(j) => {
                m.set(j, (e, ev));
            },
            None => {
                m.push((e, ev));
            },
        }
        proof {
            assert(m@.map_values(|p: ((char, char), Event)| (p.0, p.1@)) =~= edge_bound(
                pre,
                e,
                duration_event_view(rules@[i as int]@.duration),
            ));
            assert(rule_views(rules@).take(i + 1 as int).drop_last() =~= rule_views(rules@).take(
                i as int,
            ));
            assert(rule_views(rules@).take(i + 1 as int).last() == rules@[i as int]@);
        }
        i += 1;
    }
    proof {
        assert(rule_views(rules@).take(rules@.len() as int) =~= rule_views(rules@));
    }
    m
}

/// Explicit-rule inference: a voice whose automaton carries exactly the
/// given rules, whose event mapping is as given, and whose duration table
/// binds each rule's edge to the rule's duration. With `keep_root` the
/// automaton is left empty, signalling the session to retain a running
/// voice's automaton.
pub fn infer(
    name: String,
    event_mapping: Vec<(char, Vec<SourceEvent>)>,
    rules: Vec<Rule>,
    default_duration: u64,
    keep_root: bool,
) -> (g: Generator)
    requires
        forall|k: int|
            0 <= k < rules@.len() ==> (#[trigger] rules@[k]).source@.len() >= 1 && rules@[k].duration
                <= crate::generator::MAX_DURATION_MS,
        default_duration <= crate::generator::MAX_DURATION_MS,
    ensures
        g@.id_tags == seq![name@],
        g@.root_generator.name == name@,
        g@.root_generator.generator == if keep_root {
            empty_pfa_view()
        } else {
            spec_infer(rule_views(rules@))
        },
        g@.root_generator.event_mapping == event_mapping@.map_values(
            |p: (char, Vec<SourceEvent>)| (p.0, sev_views(p.1@)),
        ),
        g@.root_generator.duration_mapping == durmap_from_rules(rule_views(rules@)),
        g@.root_generator.default_duration == default_duration,
        g@.root_generator.last_symbol is None,
        g@.root_generator.last_transition is None,
        g@.root_generator.history.len() == 0,
        g@.root_generator.symbol_ages.len() == 0,
        g@.root_generator.modified == true,
        crate::generator::cursor_wf(g@.root_generator),
        g@.processors.len() == 0,
        g@.time_mods.len() == 0,
        g@.keep_root == keep_root,
{
    let durmap = build_durmap(&rules);
    let pfa = if !keep_root {
        Pfa::infer_from_rules(&rules)
    } else {
        Pfa::new()
    };
    let root = MarkovSequenceGenerator::assemble(
        name.clone(),
        pfa,
        event_mapping,
        durmap,
        default_duration,
    );
    let mut id_tags: Vec<String> = Vec::new();
    id_tags.push(name);
    let processors: Vec<GeneratorProcessor> = Vec::new();
    let time_mods: Vec<TimeMod> = Vec::new();
    let g = Generator { id_tags, root_generator: root, processors, time_mods, keep_root };
    proof {
        assert(g@.id_tags =~= seq![g.id_tags@[0]@]);
    }
    g
}

/// Successor of step `i` on a ring of `n` steps.
pub open spec fn ring_next(n: int, i: int) -> int {
    if i == n - 1 {
        0
    } else {
        i + 1
    }
}

/// The self-loop rule of step `i`: stay, with the repetition chance.
pub open spec fn self_rule(rep: int, d: u64, i: int) -> RuleView {
    RuleView {
        source: seq![sym(i)],
        symbol: sym(i),
        probability: (rep * 100) as u32,
        duration: d,
    }
}

/// The advance rule of step `i`: move to the ring successor with the
/// remaining probability.
pub open spec fn advance_rule(n: int, rep: int, d: u64, i: int) -> RuleView {
    RuleView {
        source: seq![sym(i)],
        symbol: sym(ring_next(n, i)),
        probability: (PROB_ONE - rep * 100) as u32,
        duration: d,
    }
}

/// The higher-order cap rule of step `i`: after `maxrep` visits in a row,
/// advance with probability one.
pub open spec fn forced_rule(n: int, maxrep: int, d: u64, i: int) -> RuleView {
    RuleView {
        source: Seq::new(maxrep as nat, |k: int| sym(i)),
        symbol: sym(ring_next(n, i)),
        probability: PROB_ONE,
        duration: d,
    }
}

/// The rules one cycle step emits: a lone advance rule when repetition is
/// off; with repetition on, a self-loop and an advance rule, and under a
/// repetition cap also the higher-order forcing rule.
pub open spec fn step_rules(n: int, rep: int, maxrep: int, d: u64, i: int) -> Seq<RuleView> {
    if rep == 0 {
        seq![advance_rule(n, 0, d, i)]
    } else if maxrep < 2 {
        seq![self_rule(rep, d, i), advance_rule(n, rep, d, i)]
    } else {
        seq![self_rule(rep, d, i), advance_rule(n, rep, d, i), forced_rule(n, maxrep, d, i)]
    }
}

/// The rules of the first `i` cycle steps, in emission order.
pub open spec fn cyc_rules_upto(n: int, rep: int, maxrep: int, d: u64, i: int) -> Seq<RuleView>
    decreases i,
{
    if i <= 0 {
        Seq::empty()
    } else {
        cyc_rules_upto(n, rep, maxrep, d, i - 1) + step_rules(n, rep, maxrep, d, i - 1)
    }
}

/// The full rule list of a cycle of `n` steps.
pub open spec fn cyc_rules(n: int, rep: int, maxrep: int, d: u64) -> Seq<RuleView> {
    cyc_rules_upto(n, rep, maxrep, d, n)
}

/// How many duration entries the first `i` cycle steps have laid down:
/// one advance edge per step but the last (whose wrap edge comes at the
/// end), and with repetition on one self edge per step.
pub open spec fn cyc_durmap_len(n: int, rep: int, i: int) -> int {
    let adv = if i < n {
        i
    } else if n > 0 {
        n - 1
    } else {
        0
    };
    if rep == 0 {
        adv
    } else {
        i + adv
    }
}

/// The duration table of a cycle: every advance edge, and with repetition
/// on every self edge too, carries the per-step share `d`.
pub open spec fn cyc_durmap(n: int, rep: int, d: u64) -> Seq<((char, char), EventView)> {
    if rep == 0 {
        Seq::new(n as nat, |i: int| ((sym(i), sym(ring_next(n, i))), duration_event_view(d)))
    } else {
        Seq::new(
            (2 * n) as nat,
            |k: int|
                if k % 2 == 0 {
                    ((sym(k / 2), sym(k / 2)), duration_event_view(d))
                } else {
                    ((sym(k / 2), sym(ring_next(n, k / 2))), duration_event_view(d))
                },
        )
    }
}


/// Cyclic-sequence synthesis: `n` event groups become `n` ring states
/// named by consecutive symbols; each step advances to its ring successor,
/// self-loops with `repetition_chance` percent if that is on, and under
/// `max_repetitions >= 2` is forced onwards after that many visits in a
/// row. Every edge takes an equal share of `dur`. With `randomize_chance`
/// on, the edge weights are perturbed and renormalised; with `keep_root`
/// everything is left empty, signalling the session to retain a running
/// voice's automaton.
pub fn cyc(
    name: String,
    ev_vecs: Vec<Vec<SourceEvent>>,
    dur: u64,
    repetition_chance: u32,
    max_repetitions: u32,
    randomize_chance: u32,
    keep_root: bool,
) -> (g: Generator)
    requires
        ev_vecs@.len() <= MAX_STEPS,
        repetition_chance <= 100,
        randomize_chance <= 100,
        dur <= crate::generator::MAX_DURATION_MS,
    ensures
        g@.id_tags == seq![name@],
        g@.root_generator.name == name@,
        g@.keep_root == keep_root,
        g@.processors.len() == 0,
        g@.time_mods.len() == 0,
        g@.root_generator.default_duration == if ev_vecs@.len() > 0 {
            dur as int / ev_vecs@.len() as int
        } else {
            dur as int
        },
        g@.root_generator.last_symbol is None,
        g@.root_generator.last_transition is None,
        g@.root_generator.history.len() == 0,
        g@.root_generator.symbol_ages.len() == 0,
        g@.root_generator.modified == true,
        crate::generator::cursor_wf(g@.root_generator),
        keep_root ==> g@.root_generator.generator == empty_pfa_view()
            && g@.root_generator.event_mapping.len() == 0
            && g@.root_generator.duration_mapping.len() == 0,
        !keep_root ==> {
            let n = ev_vecs@.len() as int;
            let step = (if n > 0 {
                dur as int / n
            } else {
                dur as int
            }) as u64;
            let base = spec_infer(
                cyc_rules(n, repetition_chance as int, max_repetitions as int, step),
            );
            &&& g@.root_generator.event_mapping == Seq::new(
                n as nat,
                |i: int| (sym(i), sev_views(ev_vecs@[i]@)),
            )
            &&& g@.root_generator.duration_mapping == cyc_durmap(
                n,
                repetition_chance as int,
                step,
            )
            &&& randomize_chance == 0 ==> g@.root_generator.generator == base
            &&& randomize_chance > 0 ==> {
                &&& g@.root_generator.generator.alphabet == base.alphabet
                &&& g@.root_generator.generator.contexts.len() == base.contexts.len()
                &&& forall|i: int|
                    0 <= i < base.contexts.len() ==> crate::markov::reweighed_ctx(
                        #[trigger] g@.root_generator.generator.contexts[i],
                        base.contexts[i],
                        (randomize_chance as int) * 100,
                    )
            }
        },
{
    let n = ev_vecs.len();
    let step: u64 = if n > 0 {
        dur / (n as u64)
    } else {
        dur
    };
    if keep_root {
        let root = MarkovSequenceGenerator::assemble(
            name.clone(),
            Pfa::new(),
            Vec::new(),
            Vec::new(),
            step,
        );
        let mut id_tags: Vec<String> = Vec::new();
        id_tags.push(name);
        let g = Generator {
            id_tags,
            root_generator: root,
            processors: Vec::new(),
            time_mods: Vec::new(),
            keep_root,
        };
        proof {
            assert(g@.id_tags =~= seq![g.id_tags@[0]@]);
        }
        return g;
    }
    let ghost orig = ev_vecs@;
    let ghost repg = repetition_chance as int;
    let ghost maxg = max_repetitions as int;
    let ghost dmspec = cyc_durmap(n as int, repg, step);
    let mut evs = ev_vecs;
    let mut event_mapping: Vec<(char, Vec<SourceEvent>)> = Vec::new();
    let mut durmap: Vec<((char, char), Event)> = Vec::new();
    let mut rules: Vec<Rule> = Vec::new();
    let mut i: usize = 0;
    proof {
        assert(orig.skip(0) =~= orig);
        assert(rule_views(rules@) =~= cyc_rules_upto(n as int, repg, maxg, step, 0));
    }
    while i < n
        invariant
            n == orig.len(),
            n <= MAX_STEPS,
            repg == repetition_chance as int,
            maxg == max_repetitions as int,
            repetition_chance <= 100,
            step <= crate::generator::MAX_DURATION_MS,
            dmspec == cyc_durmap(n as int, repg, step),
            i <= n,
            evs@ == orig.skip(i as int),
            event_mapping@.len() == i,
            forall|k: int|
                0 <= k < i ==> (#[trigger] event_mapping@[k]).0 == sym(k) && sev_views(
                    event_mapping@[k].1@,
                ) == sev_views(orig[k]@),
            durmap@.len() == cyc_durmap_len(n as int, repg, i as int),
            durmap@.len() <= dmspec.len(),
            forall|k: int|
                0 <= k < durmap@.len() ==> (#[trigger] durmap@[k]).0 == dmspec[k].0
                    && durmap@[k].1@ == dmspec[k].1,
            rule_views(rules@) == cyc_rules_upto(n as int, repg, maxg, step, i as int),
        decreases n - i,
    {
        let ghost pre_rules = rule_views(rules@);
        let s = sym_char(i as u32);
        let nxt_idx: usize = if i == n - 1 {
            0
        } else {
            i + 1
        };
        let nx = sym_char(nxt_idx as u32);
        proof {
            assert(nx == sym(ring_next(n as int, i as int)));
        }
        let group = evs.remove(0);
        proof {
            assert(group == orig[i as int]);
            assert(orig.skip(i as int).remove(0) =~= orig.skip(i + 1 as int));
        }
        event_mapping.push((s, group));
        if repetition_chance > 0 {
            let mut src1: Vec<char> = Vec::new();
            src1.push(s);
            rules.push(
                Rule { source: src1, symbol: s, probability: repetition_chance * 100, duration: step },
            );
            let mut src2: Vec<char> = Vec::new();
            src2.push(s);
            rules.push(
                Rule {
                    source: src2,
                    symbol: nx,
                    probability: PROB_ONE - repetition_chance * 100,
                    duration: step,
                },
            );
            if max_repetitions >= 2 {
                let mut srcf: Vec<char> = Vec::new();
                let mut j: u32 = 0;
                while j < max_repetitions
                    invariant
                        j <= max_repetitions,
                        srcf@ == Seq::new(j as nat, |k: int| sym(i as int)),
                        s == sym(i as int),
                    decreases max_repetitions - j,
                {
                    srcf.push(s);
                    proof {
                        assert(srcf@ =~= Seq::new((j + 1) as nat, |k: int| sym(i as int)));
                    }
                    j += 1;
                }
                rules.push(Rule { source: srcf, symbol: nx, probability: PROB_ONE, duration: step });
                proof {
                    assert(rule_views(rules@) =~~= pre_rules + step_rules(
                        n as int,
                        repg,
                        maxg,
                        step,
                        i as int,
                    ));
                }
            } else {
                proof {
                    assert(rule_views(rules@) =~~= pre_rules + step_rules(
                        n as int,
                        repg,
                        maxg,
                        step,
                        i as int,
                    ));
                }
            }
            proof {
                assert(dmspec[2 * i as int].0 == (sym(i as int), sym(i as int)));
                assert(dmspec[2 * i as int].1 == duration_event_view(step));
            }
            durmap.push(((s, s), duration_event(step)));
            if i < n - 1 {
                proof {
                    assert(dmspec[2 * i as int + 1].0 == (sym(i as int), sym(
                        ring_next(n as int, i as int),
                    )));
                    assert(dmspec[2 * i as int + 1].1 == duration_event_view(step));
                }
                durmap.push(((s, nx), duration_event(step)));
            }
        } else {
            let mut src1: Vec<char> = Vec::new();
            src1.push(s);
            rules.push(Rule { source: src1, symbol: nx, probability: PROB_ONE, duration: step });
            proof {
                assert(rule_views(rules@) =~~= pre_rules + step_rules(
                    n as int,
                    repg,
                    maxg,
                    step,
                    i as int,
                ));
            }
            if i < n - 1 {
                proof {
                    assert(dmspec[i as int].0 == (sym(i as int), sym(
                        ring_next(n as int, i as int),
                    )));
                    assert(dmspec[i as int].1 == duration_event_view(step));
                }
                durmap.push(((s, nx), duration_event(step)));
            }
        }
        proof {
            assert(cyc_rules_upto(n as int, repg, maxg, step, i + 1 as int) == cyc_rules_upto(
                n as int,
                repg,
                maxg,
                step,
                i as int,
            ) + step_rules(n as int, repg, maxg, step, i as int));
        }
        i += 1;
    }
    if n > 0 {
        let last = sym_char((n - 1) as u32);
        let first = sym_char(0);
        proof {
            assert(sym(ring_next(n as int, n - 1 as int)) == sym(0));
            if repg == 0 {
                assert(dmspec[n - 1 as int].0 == (sym(n - 1 as int), sym(0)));
                assert(dmspec[n - 1 as int].1 == duration_event_view(step));
            } else {
                assert(dmspec[2 * (n as int) - 1].0 == (sym(n - 1 as int), sym(0)));
                assert(dmspec[2 * (n as int) - 1].1 == duration_event_view(step));
            }
        }
        durmap.push(((last, first), duration_event(step)));
    }
    proof {
        assert(durmap@.len() == dmspec.len());
    }
    let mut pfa = Pfa::infer_from_rules(&rules);
    if randomize_chance > 0 {
        pfa.randomize_edges(randomize_chance);
    }
    let root = MarkovSequenceGenerator::assemble(name.clone(), pfa, event_mapping, durmap, step);
    let mut id_tags: Vec<String> = Vec::new();
    id_tags.push(name);
    let g = Generator {
        id_tags,
        root_generator: root,
        processors: Vec::new(),
        time_mods: Vec::new(),
        keep_root,
    };
    proof {
        assert(g@.id_tags =~= seq![g.id_tags@[0]@]);
        assert(g@.root_generator.event_mapping =~= Seq::new(
            n as nat,
            |k: int| (sym(k), sev_views(orig[k]@)),
        ));
        assert(g@.root_generator.duration_mapping =~= dmspec);
    }
    g
}

} // verus!
