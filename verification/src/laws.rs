//! What cyclic synthesis guarantees: the inferred automaton is exactly a
//! ring over the step symbols, traversal of a repetition-free cycle is a
//! strict round robin, a repetition cap is never exceeded, and every ring
//! edge waits the per-step share of the cycle's duration.

use vstd::prelude::*;
use crate::constructors::{
    advance_rule, cyc_durmap, cyc_rules, cyc_rules_upto, forced_rule, ring_next, self_rule,
};
use crate::generator::{duration_event_view, edge_lookup, spec_transition_event, transition_post, SeqGenView};
use crate::markov::{
    add_sym, add_syms, best_match, best_upto, empty_pfa_view, find_out, insert_rule,
    is_suffix_of, next_symbol_spec, pick_weighted, spec_infer, total_weight, CtxView, OutEdge,
    PfaView, RuleView, PROB_ONE,
};
use crate::symbols::{lemma_sym_distinct, sym, MAX_STEPS};

verus! {

/// The lone context of ring step `i` when repetition is off: advance with
/// probability one.
pub open spec fn ring_ctx_plain(n: int, i: int) -> CtxView {
    CtxView {
        source: seq![sym(i)],
        outs: seq![OutEdge { symbol: sym(ring_next(n, i)), prob: PROB_ONE }],
    }
}

/// The first-order context of ring step `i` with repetition on: self-loop
/// or advance. On a one-step ring both lead to the same state and act as
/// one certain edge.
pub open spec fn ring_ctx_rep(n: int, rep: int, i: int) -> CtxView {
    if n == 1 {
        CtxView {
            source: seq![sym(i)],
            outs: seq![OutEdge { symbol: sym(i), prob: PROB_ONE }],
        }
    } else {
        CtxView {
            source: seq![sym(i)],
            outs: seq![
                OutEdge { symbol: sym(i), prob: (rep * 100) as u32 },
                OutEdge { symbol: sym(ring_next(n, i)), prob: (PROB_ONE - rep * 100) as u32 },
            ],
        }
    }
}

/// The higher-order context of ring step `i` under a repetition cap:
/// after `maxrep` visits in a row, advance with probability one.
pub open spec fn ring_ctx_forced(n: int, maxrep: int, i: int) -> CtxView {
    CtxView {
        source: Seq::new(maxrep as nat, |k: int| sym(i)),
        outs: seq![OutEdge { symbol: sym(ring_next(n, i)), prob: PROB_ONE }],
    }
}

/// How many distinct symbols the first `i` cycle steps have mentioned.
pub open spec fn alpha_cnt(n: int, i: int) -> int {
    if i <= 0 {
        0
    } else if i < n {
        i + 1
    } else {
        n
    }
}

/// The contexts the first `i` cycle steps have laid down.
pub open spec fn cyc_ctxs_upto(n: int, rep: int, maxrep: int, i: int) -> Seq<CtxView> {
    if rep == 0 {
        Seq::new(i as nat, |k: int| ring_ctx_plain(n, k))
    } else if maxrep < 2 {
        Seq::new(i as nat, |k: int| ring_ctx_rep(n, rep, k))
    } else {
        Seq::new(
            (2 * i) as nat,
            |k: int|
                if k % 2 == 0 {
                    ring_ctx_rep(n, rep, k / 2)
                } else {
                    ring_ctx_forced(n, maxrep, k / 2)
                },
        )
    }
}

/// The automaton the first `i` cycle steps have laid down.
pub open spec fn cyc_pfa_upto(n: int, rep: int, maxrep: int, i: int) -> PfaView {
    PfaView {
        alphabet: Seq::new(alpha_cnt(n, i) as nat, |k: int| sym(k)),
        contexts: cyc_ctxs_upto(n, rep, maxrep, i),
    }
}

/// The ring automaton of a full cycle of `n` steps.
pub open spec fn cyc_pfa_view(n: int, rep: int, maxrep: int) -> PfaView {
    cyc_pfa_upto(n, rep, maxrep, n)
}

/// Inference consumes an appended rule as one insertion step.
proof fn lemma_spec_infer_push(a: Seq<RuleView>, r: RuleView)
    ensures
        spec_infer(a.push(r)) == insert_rule(spec_infer(a), r),
{
    assert(a.push(r).drop_last() =~= a);
    assert(a.push(r).last() == r);
}

/// Recording symbols already present leaves the alphabet alone.
proof fn lemma_add_syms_all_contained(alpha: Seq<char>, cs: Seq<char>)
    requires
        forall|k: int| 0 <= k < cs.len() ==> alpha.contains(#[trigger] cs[k]),
    ensures
        add_syms(alpha, cs) == alpha,
    decreases cs.len(),
{
    if cs.len() > 0 {
        assert(alpha.contains(cs[0]));
        assert(add_sym(alpha, cs[0]) == alpha);
        assert(forall|k: int|
            0 <= k < cs.len() - 1 ==> cs.drop_first()[k] == cs[k + 1] && alpha.contains(
                #[trigger] cs.drop_first()[k],
            ));
        lemma_add_syms_all_contained(alpha, cs.drop_first());
    }
}

/// The first `i` steps of cyclic synthesis infer exactly the partial ring
/// automaton.
proof fn lemma_cyc_infer_upto(n: int, rep: int, maxrep: int, d: u64, i: int)
    requires
        1 <= n <= MAX_STEPS,
        0 <= rep <= 100,
        0 <= i <= n,
    ensures
        spec_infer(cyc_rules_upto(n, rep, maxrep, d, i)) == cyc_pfa_upto(n, rep, maxrep, i),
    decreases i,
{
    if i == 0 {
        assert(cyc_rules_upto(n, rep, maxrep, d, 0) =~= Seq::<RuleView>::empty());
        assert(spec_infer(Seq::<RuleView>::empty()) == empty_pfa_view());
        assert(cyc_pfa_upto(n, rep, maxrep, 0) =~~= empty_pfa_view());
    } else {
        lemma_cyc_infer_upto(n, rep, maxrep, d, i - 1);
        let prev = cyc_pfa_upto(n, rep, maxrep, i - 1);
        let s = i - 1;
        let nxt = ring_next(n, s);
        // the previous alphabet, with this step's symbols recorded
        let alpha1 = add_sym(add_syms(prev.alphabet, seq![sym(s)]), sym(s));
        let alpha2 = add_sym(add_syms(alpha1, seq![sym(s)]), sym(nxt));
        assert(seq![sym(s)].drop_first() =~= Seq::<char>::empty());
        assert(seq![sym(s)][0] == sym(s));
        lemma_alpha_after_source(n, i, prev.alphabet);
        let with_src = add_sym(prev.alphabet, sym(s));
        assert(add_syms(with_src, Seq::<char>::empty()) == with_src);
        assert(add_syms(prev.alphabet, seq![sym(s)]) == with_src);
        assert(with_src =~= Seq::new((if s == 0 {
            1int
        } else {
            alpha_cnt(n, i - 1)
        }) as nat, |k: int| sym(k)));
        assert(with_src.contains(sym(s))) by {
            if prev.alphabet.contains(sym(s))  {
            } else {
                assert(with_src == prev.alphabet.push(sym(s)));
                assert(with_src[with_src.len() - 1] == sym(s));
            }
        }
        lemma_alpha_after_dest(n, i, with_src);
        let full = add_sym(with_src, sym(nxt));
        assert(full =~= Seq::new(alpha_cnt(n, i) as nat, |k: int| sym(k)));
        if rep == 0 {
            let a = cyc_rules_upto(n, rep, maxrep, d, i - 1);
            let r1 = advance_rule(n, 0, d, s);
            assert(cyc_rules_upto(n, rep, maxrep, d, i) =~= a.push(r1));
            lemma_spec_infer_push(a, r1);
            let m = insert_rule(prev, r1);
            assert forall|k: int| 0 <= k < prev.contexts.len() implies (
            #[trigger] prev.contexts[k]).source != r1.source by {
                lemma_sym_distinct(k, s);
                assert(prev.contexts[k].source[0] == sym(k));
            }
            crate::markov::lemma_find_ctx_none(prev.contexts, r1.source);
            assert(m.contexts =~~= cyc_ctxs_upto(n, rep, maxrep, i));
            assert(m.alphabet == full);
            assert(m =~~= cyc_pfa_upto(n, rep, maxrep, i));
        } else {
            let a0 = cyc_rules_upto(n, rep, maxrep, d, i - 1);
            let r1 = self_rule(rep, d, s);
            let r2 = advance_rule(n, rep, d, s);
            let m0 = prev;
            // insert the self-loop rule: a fresh context is appended
            assert forall|k: int| 0 <= k < m0.contexts.len() implies (
            #[trigger] m0.contexts[k]).source != r1.source by {
                lemma_ctx_source_distinct(n, rep, maxrep, i - 1, k, s);
            }
            crate::markov::lemma_find_ctx_none(m0.contexts, r1.source);
            let m1 = insert_rule(m0, r1);
            assert(m1.contexts == m0.contexts.push(
                CtxView { source: seq![sym(s)], outs: seq![OutEdge { symbol: sym(s), prob: (rep * 100) as u32 }] },
            ));
            // insert the advance rule: it extends the context just added
            let j1 = m0.contexts.len() as int;
            assert(m1.contexts[j1].source == r2.source);
            assert forall|k: int| 0 <= k < j1 implies (#[trigger] m1.contexts[k]).source
                != r2.source by {
                lemma_ctx_source_distinct(n, rep, maxrep, i - 1, k, s);
            }
            crate::markov::lemma_find_ctx_agrees(m1.contexts, r2.source, j1);
            let m2 = insert_rule(m1, r2);
            if n == 1 {
                assert(nxt == s);
                assert(m1.contexts[j1].outs[0].symbol == r2.symbol);
                assert(find_out(m1.contexts[j1].outs, r2.symbol) == 0);
                assert(rep * 100 + (PROB_ONE - rep * 100) == PROB_ONE);
                assert(m1.contexts[j1].outs.update(
                    0,
                    OutEdge { symbol: r2.symbol, prob: PROB_ONE },
                ) =~= ring_ctx_rep(n, rep, s).outs);
            } else {
                assert(sym(nxt) != sym(s)) by {
                    lemma_sym_distinct(nxt, s);
                }
                crate::markov::lemma_find_out_none(m1.contexts[j1].outs, r2.symbol);
                assert(m1.contexts[j1].outs.push(
                    OutEdge { symbol: r2.symbol, prob: r2.probability },
                ) =~= ring_ctx_rep(n, rep, s).outs);
            }
            assert(m2.contexts =~~= m1.contexts.update(j1, ring_ctx_rep(n, rep, s)));
            assert(m2.contexts[j1] =~~= ring_ctx_rep(n, rep, s));
            assert(m2.alphabet == full) by {
                assert(full.contains(sym(s))) by {
                    assert(full[s] == sym(s));
                }
                assert(full.contains(sym(nxt))) by {
                    assert(full[nxt] == sym(nxt));
                }
                assert(add_syms(alpha1, seq![sym(s)]) == alpha1);
            }
            if maxrep < 2 {
                assert(cyc_rules_upto(n, rep, maxrep, d, i) =~= a0.push(r1).push(r2));
                lemma_spec_infer_push(a0, r1);
                lemma_spec_infer_push(a0.push(r1), r2);
                assert(m2.contexts =~~= cyc_ctxs_upto(n, rep, maxrep, i));
                assert(m2 =~~= cyc_pfa_upto(n, rep, maxrep, i));
            } else {
                let r3 = forced_rule(n, maxrep, d, s);
                assert(cyc_rules_upto(n, rep, maxrep, d, i) =~= a0.push(r1).push(r2).push(r3));
                lemma_spec_infer_push(a0, r1);
                lemma_spec_infer_push(a0.push(r1), r2);
                lemma_spec_infer_push(a0.push(r1).push(r2), r3);
                // insert the forcing rule: its long context is fresh
                assert forall|k: int| 0 <= k < m2.contexts.len() implies (
                #[trigger] m2.contexts[k]).source != r3.source by {
                    assert(r3.source.len() == maxrep);
                    if k < m0.contexts.len() {
                        lemma_ctx_source_forced_distinct(n, rep, maxrep, i - 1, k, s);
                    } else {
                        assert(m2.contexts[k].source.len() == 1);
                    }
                }
                crate::markov::lemma_find_ctx_none(m2.contexts, r3.source);
                let m3 = insert_rule(m2, r3);
                assert(m3.alphabet == full) by {
                    assert(forall|k: int|
                        0 <= k < r3.source.len() ==> #[trigger] r3.source[k] == sym(s));
                    assert(full.contains(sym(s))) by {
                        assert(full[s] == sym(s));
                    }
                    lemma_add_syms_all_contained(full, r3.source);
                    assert(full.contains(sym(nxt))) by {
                        assert(full[nxt] == sym(nxt));
                    }
                }
                assert(m3.contexts =~~= cyc_ctxs_upto(n, rep, maxrep, i)) by {
                    assert(m3.contexts[2 * i - 2] =~~= ring_ctx_rep(n, rep, s));
                    assert(m3.contexts[2 * i - 1] =~~= ring_ctx_forced(n, maxrep, s));
                }
                assert(m3 =~~= cyc_pfa_upto(n, rep, maxrep, i));
            }
        }
    }
}

/// In the partial ring automaton, no first-order context carries step
/// `s`'s fresh symbol.
proof fn lemma_ctx_source_distinct(n: int, rep: int, maxrep: int, i: int, k: int, s: int)
    requires
        1 <= n <= MAX_STEPS,
        0 <= rep <= 100,
        0 <= i <= n,
        0 <= k < cyc_ctxs_upto(n, rep, maxrep, i).len(),
        i <= s < n,
    ensures
        cyc_ctxs_upto(n, rep, maxrep, i)[k].source != seq![sym(s)],
{
    let c = cyc_ctxs_upto(n, rep, maxrep, i)[k];
    if rep == 0 {
        lemma_sym_distinct(k, s);
        assert(c.source[0] == sym(k));
    } else if maxrep < 2 {
        lemma_sym_distinct(k, s);
        assert(c.source[0] == sym(k));
    } else {
        if k % 2 == 0 {
            lemma_sym_distinct(k / 2, s);
            assert(c.source[0] == sym(k / 2));
        } else {
            assert(c.source.len() == maxrep);
            if maxrep == 1 {
                lemma_sym_distinct(k / 2, s);
                assert(c.source[0] == sym(k / 2));
            }
        }
    }
}

/// In the partial ring automaton, no context carries step `s`'s
/// higher-order source.
proof fn lemma_ctx_source_forced_distinct(n: int, rep: int, maxrep: int, i: int, k: int, s: int)
    requires
        1 <= n <= MAX_STEPS,
        1 <= rep <= 100,
        2 <= maxrep,
        0 <= i <= n,
        0 <= k < cyc_ctxs_upto(n, rep, maxrep, i).len(),
        i <= s < n,
    ensures
        cyc_ctxs_upto(n, rep, maxrep, i)[k].source != Seq::new(maxrep as nat, |t: int| sym(s)),
{
    let c = cyc_ctxs_upto(n, rep, maxrep, i)[k];
    let f = Seq::new(maxrep as nat, |t: int| sym(s));
    if k % 2 == 0 {
        assert(c.source.len() == 1);
    } else {
        lemma_sym_distinct(k / 2, s);
        assert(c.source[0] == sym(k / 2));
        assert(f[0] == sym(s));
    }
}

/// Recording a step's own symbol grows the partial alphabet as counted.
proof fn lemma_alpha_after_source(n: int, i: int, alpha: Seq<char>)
    requires
        1 <= n <= MAX_STEPS,
        1 <= i <= n,
        alpha == Seq::new(alpha_cnt(n, i - 1) as nat, |k: int| sym(k)),
    ensures
        i - 1 == 0 ==> add_sym(alpha, sym(i - 1)) == alpha.push(sym(i - 1)),
        i - 1 >= 1 ==> add_sym(alpha, sym(i - 1)) == alpha,
{
    let s = i - 1;
    if s == 0 {
        assert(alpha.len() == 0);
        assert(!alpha.contains(sym(s)));
    } else {
        assert(alpha[s] == sym(s));
        assert(alpha.contains(sym(s)));
    }
}

/// Recording a step's successor symbol completes the counted alphabet.
proof fn lemma_alpha_after_dest(n: int, i: int, alpha: Seq<char>)
    requires
        1 <= n <= MAX_STEPS,
        1 <= i <= n,
        alpha == Seq::new((if i - 1 == 0 {
            1int
        } else {
            alpha_cnt(n, i - 1)
        }) as nat, |k: int| sym(k)),
    ensures
        add_sym(alpha, sym(ring_next(n, i - 1))) == Seq::new(
            alpha_cnt(n, i) as nat,
            |k: int| sym(k),
        ),
{
    let s = i - 1;
    let nxt = ring_next(n, s);
    let cnt = if s == 0 {
        1int
    } else {
        alpha_cnt(n, s)
    };
    if nxt < cnt {
        assert(alpha[nxt] == sym(nxt));
        assert(alpha.contains(sym(nxt)));
        assert(add_sym(alpha, sym(nxt)) == alpha);
        assert(alpha =~= Seq::new(alpha_cnt(n, i) as nat, |k: int| sym(k)));
    } else {
        assert forall|k: int| 0 <= k < cnt implies alpha[k] != sym(nxt) by {
            lemma_sym_distinct(k, nxt);
        }
        assert(!alpha.contains(sym(nxt))) by {
            if alpha.contains(sym(nxt)) {
                let k = choose|k: int| 0 <= k < alpha.len() && alpha[k] == sym(nxt);
            }
        }
        assert(add_sym(alpha, sym(nxt)) == alpha.push(sym(nxt)));
        assert(alpha.push(sym(nxt)) =~= Seq::new(alpha_cnt(n, i) as nat, |k: int| sym(k)));
    }
}

/// Law: cyclic synthesis infers exactly the ring automaton — `n` contexts
/// (with a repetition cap, `2 n`), one per step, whose edges are the ring
/// advances, self-loops, and forced advances, over the alphabet of the
/// `n` step symbols.
pub proof fn lemma_cyc_ring_automaton(n: int, rep: int, maxrep: int, d: u64)
    requires
        1 <= n <= MAX_STEPS,
        0 <= rep <= 100,
    ensures
        spec_infer(cyc_rules(n, rep, maxrep, d)) == cyc_pfa_view(n, rep, maxrep),
{
    lemma_cyc_infer_upto(n, rep, maxrep, d, n);
}

/// A one-symbol context is the most recent stretch of a history exactly
/// when it is the history's last symbol.
proof fn lemma_singleton_suffix(c: char, h: Seq<char>)
    requires
        h.len() >= 1,
    ensures
        is_suffix_of(seq![c], h) <==> h.last() == c,
{
    let sub = h.subrange(h.len() - 1, h.len() as int);
    assert(sub.len() == 1);
    assert(sub[0] == h.last());
    if h.last() == c {
        assert(seq![c] =~= sub);
    }
    if is_suffix_of(seq![c], h) {
        assert(seq![c][0] == sub[0]);
    }
}

/// A constant context of length `m` is the most recent stretch of a
/// history exactly when the history's last `m` symbols all carry it.
proof fn lemma_repeat_suffix(c: char, m: int, h: Seq<char>)
    requires
        1 <= m,
    ensures
        is_suffix_of(Seq::new(m as nat, |t: int| c), h) <==> (h.len() >= m && forall|k: int|
            h.len() - m <= k < h.len() ==> h[k] == c),
{
    let f = Seq::new(m as nat, |t: int| c);
    if h.len() >= m {
        let sub = h.subrange(h.len() - m, h.len() as int);
        assert(sub.len() == m);
        if forall|k: int| h.len() - m <= k < h.len() ==> #[trigger] h[k] == c {
            assert forall|t: int| 0 <= t < m implies sub[t] == c by {
                assert(h[h.len() - m + t] == c);
            }
            assert(f =~= sub);
        }
        if is_suffix_of(f, h) {
            assert forall|k: int| h.len() - m <= k < h.len() implies #[trigger] h[k] == c by {
                assert(f[k - (h.len() - m)] == sub[k - (h.len() - m)]);
            }
        }
    }
}

/// Where the best context match of the repetition-free ring stands after
/// scanning the first `m` contexts: at step `i`'s context once it has been
/// seen, nowhere before that.
proof fn lemma_best_plain_ring(n: int, maxrep: int, h: Seq<char>, i: int, m: int)
    requires
        1 <= n <= MAX_STEPS,
        0 <= i < n,
        h.len() >= 1,
        h.last() == sym(i),
        0 <= m <= n,
    ensures
        best_upto(cyc_pfa_view(n, 0, maxrep), h, m) == if i < m {
            i
        } else {
            -1
        },
    decreases m,
{
    let p = cyc_pfa_view(n, 0, maxrep);
    if m > 0 {
        lemma_best_plain_ring(n, maxrep, h, i, m - 1);
        assert(p.contexts[m - 1] == ring_ctx_plain(n, m - 1));
        lemma_singleton_suffix(sym(m - 1), h);
        if m - 1 == i {
            assert(is_suffix_of(p.contexts[m - 1].source, h));
        } else {
            lemma_sym_distinct(m - 1, i);
            assert(!is_suffix_of(p.contexts[m - 1].source, h));
        }
    }
}

/// Law: a cycle synthesised without repetition is a pure ring automaton.
/// From step `i`, every draw advances the traversal to step `i + 1`,
/// wrapping from the last step to the first: the visiting order is the
/// strict round robin `1, 2, ..., n, 1, ...`, forever.
pub proof fn lemma_cycle_round_robin(
    n: int,
    maxrep: int,
    h: Seq<char>,
    i: int,
    fallback: char,
    r: int,
)
    requires
        1 <= n <= MAX_STEPS,
        0 <= i < n,
        h.len() >= 1,
        h.last() == sym(i),
        0 <= r < PROB_ONE,
    ensures
        next_symbol_spec(cyc_pfa_view(n, 0, maxrep), h, fallback, r) == sym(ring_next(n, i)),
{
    let p = cyc_pfa_view(n, 0, maxrep);
    assert(p.contexts.len() == n);
    lemma_best_plain_ring(n, maxrep, h, i, n);
    assert(best_match(p, h) == i);
    let outs = p.contexts[i].outs;
    assert(outs[0] == OutEdge { symbol: sym(ring_next(n, i)), prob: PROB_ONE });
    assert(pick_weighted(outs, r) == Some(sym(ring_next(n, i))));
}

/// Where the best context match of the capped ring stands after scanning
/// the first `m` contexts, when the history ends in `maxrep` visits of
/// step `i`: at step `i`'s higher-order context once both of its contexts
/// have been seen, at its first-order context just before, nowhere
/// earlier.
proof fn lemma_best_capped_ring(
    n: int,
    rep: int,
    maxrep: int,
    h: Seq<char>,
    i: int,
    m: int,
)
    requires
        2 <= n <= MAX_STEPS,
        1 <= rep <= 100,
        2 <= maxrep,
        0 <= i < n,
        h.len() >= maxrep,
        forall|k: int| h.len() - maxrep <= k < h.len() ==> h[k] == sym(i),
        0 <= m <= 2 * n,
    ensures
        best_upto(cyc_pfa_view(n, rep, maxrep), h, m) == if m >= 2 * i + 2 {
            2 * i + 1
        } else if m >= 2 * i + 1 {
            2 * i
        } else {
            -1
        },
    decreases m,
{
    let p = cyc_pfa_view(n, rep, maxrep);
    assert(h.last() == sym(i)) by {
        assert(h[h.len() - 1] == sym(i));
    }
    if m > 0 {
        lemma_best_capped_ring(n, rep, maxrep, h, i, m - 1);
        let k = (m - 1) / 2;
        if (m - 1) % 2 == 0 {
            assert(p.contexts[m - 1] == ring_ctx_rep(n, rep, k));
            lemma_singleton_suffix(sym(k), h);
            if k == i {
                assert(m - 1 == 2 * i);
                assert(is_suffix_of(p.contexts[m - 1].source, h));
            } else {
                lemma_sym_distinct(k, i);
                assert(!is_suffix_of(p.contexts[m - 1].source, h));
            }
        } else {
            assert(p.contexts[m - 1] == ring_ctx_forced(n, maxrep, k));
            lemma_repeat_suffix(sym(k), maxrep, h);
            if k == i {
                assert(m - 1 == 2 * i + 1);
                assert(is_suffix_of(p.contexts[m - 1].source, h));
                assert(best_upto(p, h, m - 1) == 2 * i);
                assert(p.contexts[2 * i].source.len() == 1);
                assert(p.contexts[m - 1].source.len() == maxrep);
            } else {
                lemma_sym_distinct(k, i);
                assert(h[h.len() - 1] == sym(i));
                assert(!is_suffix_of(p.contexts[m - 1].source, h));
            }
        }
    }
}

/// Law: under a repetition cap of `maxrep`, no step is visited more than
/// `maxrep` times in a row. Once the history ends in `maxrep` visits of
/// step `i`, the higher-order context overrides the self-loop and every
/// draw advances the traversal to the next step, which is a different
/// one. (A one-step cycle has no other step to go to; from two steps up
/// the cap holds.)
pub proof fn lemma_cycle_repetition_cap(
    n: int,
    rep: int,
    maxrep: int,
    h: Seq<char>,
    i: int,
    fallback: char,
    r: int,
)
    requires
        2 <= n <= MAX_STEPS,
        1 <= rep <= 100,
        2 <= maxrep,
        0 <= i < n,
        h.len() >= maxrep,
        forall|k: int| h.len() - maxrep <= k < h.len() ==> h[k] == sym(i),
        0 <= r < PROB_ONE,
    ensures
        next_symbol_spec(cyc_pfa_view(n, rep, maxrep), h, fallback, r) == sym(ring_next(n, i)),
        next_symbol_spec(cyc_pfa_view(n, rep, maxrep), h, fallback, r) != sym(i),
{
    let p = cyc_pfa_view(n, rep, maxrep);
    assert(p.contexts.len() == 2 * n);
    lemma_best_capped_ring(n, rep, maxrep, h, i, 2 * n);
    assert(best_match(p, h) == 2 * i + 1);
    let outs = p.contexts[2 * i + 1].outs;
    assert(outs[0] == OutEdge { symbol: sym(ring_next(n, i)), prob: PROB_ONE });
    assert(pick_weighted(outs, r) == Some(sym(ring_next(n, i))));
    lemma_sym_distinct(ring_next(n, i), i);
}

/// Law: in the duration table of a cycle, every advance edge — and, with
/// repetition on, every self edge — waits exactly the per-step share `d`.
pub proof fn lemma_cycle_durations(n: int, rep: int, d: u64, i: int)
    requires
        1 <= n <= MAX_STEPS,
        0 <= rep <= 100,
        rep > 0 ==> n >= 2,
        0 <= i < n,
    ensures
        edge_lookup(cyc_durmap(n, rep, d), (sym(i), sym(ring_next(n, i)))) == Some(
            duration_event_view(d),
        ),
        rep > 0 ==> edge_lookup(cyc_durmap(n, rep, d), (sym(i), sym(i))) == Some(
            duration_event_view(d),
        ),
{
    let m = cyc_durmap(n, rep, d);
    if rep == 0 {
        assert forall|k: int| 0 <= k < i implies !((#[trigger] m[k]).0.0 == sym(i) && m[k].0.1
            == sym(ring_next(n, i))) by {
            lemma_sym_distinct(k, i);
        }
        crate::generator::lemma_find_edge_agrees(m, (sym(i), sym(ring_next(n, i))), i);
    } else {
        assert forall|k: int| 0 <= k < 2 * i implies !((#[trigger] m[k]).0.0 == sym(i) && m[k].0.1
            == sym(i)) by {
            lemma_sym_distinct(k / 2, i);
        }
        crate::generator::lemma_find_edge_agrees(m, (sym(i), sym(i)), 2 * i);
        assert forall|k: int| 0 <= k < 2 * i + 1 implies !((#[trigger] m[k]).0.0 == sym(i)
            && m[k].0.1 == sym(ring_next(n, i))) by {
            if k < 2 * i {
                lemma_sym_distinct(k / 2, i);
            } else {
                assert(m[k].0.1 == sym(i));
                lemma_sym_distinct(ring_next(n, i), i);
            }
        }
        crate::generator::lemma_find_edge_agrees(m, (sym(i), sym(ring_next(n, i))), 2 * i + 1);
    }
}

/// Law: a transition event carrying `d` milliseconds asks the scheduler to
/// wait exactly `d`, whatever the fallback.
pub proof fn lemma_duration_event_wait(d: u64, fallback: u64)
    requires
        d <= crate::generator::MAX_DURATION_MS,
    ensures
        crate::scheduler::wait_of_event(duration_event_view(d), fallback) == d,
{
    let ev = duration_event_view(d);
    assert(ev.params[0].0 == crate::events::SynthParameterLabel::Duration);
    assert(crate::events::find_param(ev.params, crate::events::SynthParameterLabel::Duration)
        == 0);
    vstd::arithmetic::div_mod::lemma_div_multiples_vanish(d as int, 1000);
    assert((d as int) * 1000 == 1000 * (d as int)) by (nonlinear_arith);
}

/// Law: the sampled transition follows the rules' distribution. At any
/// matching context, the draws in edge `k`'s block — its weight's worth of
/// draws, starting at the cumulative weight before it — step to exactly
/// that edge's destination; and when the context's weights sum to
/// `PROB_ONE` (the caller obligation for well-formed rule sets), every
/// draw falls into exactly one such block. A uniform draw thus takes each
/// edge with exactly its specified probability.
pub proof fn lemma_transition_distribution(
    p: PfaView,
    h: Seq<char>,
    fallback: char,
    k: int,
    r: int,
)
    requires
        0 <= best_match(p, h) < p.contexts.len(),
        0 <= k < p.contexts[best_match(p, h)].outs.len(),
        crate::markov::cum_weight(p.contexts[best_match(p, h)].outs, k) <= r < crate::markov::cum_weight(
            p.contexts[best_match(p, h)].outs,
            k,
        ) + p.contexts[best_match(p, h)].outs[k].prob,
        0 <= r,
    ensures
        next_symbol_spec(p, h, fallback, r) == p.contexts[best_match(p, h)].outs[k].symbol,
{
    crate::markov::lemma_weighted_choice_exact(p.contexts[best_match(p, h)].outs, k, r);
}

/// Law: a fresh cycle starts on its first step. The traversal cursor
/// starts on the least symbol of the alphabet, and on the ring that is the
/// symbol of step one.
pub proof fn lemma_cycle_starts_at_first(n: int, rep: int, maxrep: int)
    requires
        1 <= n <= MAX_STEPS,
    ensures
        crate::generator::min_char(cyc_pfa_view(n, rep, maxrep).alphabet) == sym(0),
{
    let alpha = cyc_pfa_view(n, rep, maxrep).alphabet;
    assert(alpha.len() == n);
    crate::generator::lemma_min_upto_props(alpha, n);
    let i = choose|i: int|
        0 <= i < n && alpha[i] == crate::generator::min_upto(alpha, n);
    assert(alpha[i] == sym(i));
    assert(alpha[0] == sym(0));
    assert(crate::generator::min_char(alpha) <= sym(0));
    assert(sym(0) <= sym(i)) by {
        assert(sym(0) as u32 == 0x31);
        assert(sym(i) as u32 == 0x31 + i);
    }
}

/// Law: one traversal step of a repetition-free cycle, taken from step
/// `i`'s state, moves the cursor to step `i + 1` on the ring — under every
/// draw, so the visiting order is the strict round robin, forever. When
/// the voice carries the cycle's duration table, the step's wait-time
/// event carries exactly the per-step share `d`.
pub proof fn lemma_cycle_step_round_robin(
    pre: SeqGenView,
    post: SeqGenView,
    ev: crate::events::EventView,
    n: int,
    maxrep: int,
    d: u64,
    i: int,
    r: int,
)
    requires
        1 <= n <= MAX_STEPS,
        0 <= i < n,
        pre.generator == cyc_pfa_view(n, 0, maxrep),
        pre.last_symbol == Some(sym(i)),
        pre.history.len() >= 1,
        pre.history.last() == sym(i),
        0 <= r < PROB_ONE,
        transition_post(pre, post, ev, r),
    ensures
        post.last_symbol == Some(sym(ring_next(n, i))),
        pre.duration_mapping == cyc_durmap(n, 0, d) ==> ev == duration_event_view(d),
{
    lemma_cycle_round_robin(n, maxrep, pre.history, i, sym(i), r);
    if pre.duration_mapping == cyc_durmap(n, 0, d) {
        lemma_cycle_durations(n, 0, d, i);
        assert(ev == spec_transition_event(pre, sym(i), sym(ring_next(n, i))));
    }
}

/// Law: one traversal step of a capped cycle, taken after `maxrep` visits
/// of step `i` in a row, always leaves step `i` — under every draw, so no
/// step is ever visited more than `maxrep` consecutive times.
pub proof fn lemma_cycle_step_capped(
    pre: SeqGenView,
    post: SeqGenView,
    ev: crate::events::EventView,
    n: int,
    rep: int,
    maxrep: int,
    i: int,
    r: int,
)
    requires
        2 <= n <= MAX_STEPS,
        1 <= rep <= 100,
        2 <= maxrep,
        0 <= i < n,
        pre.generator == cyc_pfa_view(n, rep, maxrep),
        pre.last_symbol == Some(sym(i)),
        pre.history.len() >= maxrep,
        forall|k: int| pre.history.len() - maxrep <= k < pre.history.len() ==> pre.history[k]
            == sym(i),
        0 <= r < PROB_ONE,
        transition_post(pre, post, ev, r),
    ensures
        post.last_symbol == Some(sym(ring_next(n, i))),
        post.last_symbol != Some(sym(i)),
{
    lemma_cycle_repetition_cap(n, rep, maxrep, pre.history, i, sym(i), r);
}

/// Law: in the ring automaton of cyclic synthesis, the outgoing weights of
/// every context sum to probability one — the data-model invariant that
/// the compiler owes its rules. This includes the one-step cycle with
/// repetition on, where self-loop and advance collapse into one certain
/// edge.
pub proof fn lemma_cyc_contexts_sum(n: int, rep: int, maxrep: int, i: int)
    requires
        1 <= n <= MAX_STEPS,
        0 <= rep <= 100,
        0 <= i < cyc_pfa_view(n, rep, maxrep).contexts.len(),
    ensures
        total_weight(cyc_pfa_view(n, rep, maxrep).contexts[i].outs) == PROB_ONE,
{
    let c = cyc_pfa_view(n, rep, maxrep).contexts[i];
    if c.outs.len() == 1 {
        assert(c.outs.drop_first() =~= Seq::<OutEdge>::empty());
        assert(total_weight(Seq::<OutEdge>::empty()) == 0);
    } else {
        assert(c.outs.len() == 2);
        assert(c.outs.drop_first() =~= seq![c.outs[1]]);
        assert(seq![c.outs[1]].drop_first() =~= Seq::<OutEdge>::empty());
        assert(total_weight(Seq::<OutEdge>::empty()) == 0);
        assert(total_weight(seq![c.outs[1]]) == c.outs[1].prob);
        assert(c.outs[0].prob + c.outs[1].prob == PROB_ONE);
    }
}

} // verus!
