//! The probabilistic finite automaton: transition rules, inference of the
//! automaton from a flat rule list, and weighted transition choice under a
//! variable-length conditioning context (the longest matching context wins).

use vstd::prelude::*;

verus! {

/// Probabilities are fixed-point fractions of `PROB_ONE`
/// (basis points: 10000 stands for probability 1).
pub const PROB_ONE: u32 = 10000;

/// A transition rule: from the conditioning context `source` (most recent
/// symbol last) to the state `symbol`, taken with `probability` and waiting
/// `duration` milliseconds.
pub struct Rule {
    /// Conditioning context, most recent symbol last (length >= 1).
    pub source: Vec<char>,
    /// Destination state.
    pub symbol: char,
    /// Transition probability, as a fraction of `PROB_ONE`.
    pub probability: u32,
    /// Wait time attached to this transition, in milliseconds.
    pub duration: u64,
}

/// One outgoing edge of a context: destination symbol and its weight.
#[derive(Clone, Copy, PartialEq, Eq, Structural)]
pub struct OutEdge {
    /// Destination state.
    pub symbol: char,
    /// Weight, as a fraction of `PROB_ONE`.
    pub prob: u32,
}

/// A conditioning context together with its outgoing edges.
pub struct Context {
    /// The context itself, most recent symbol last.
    pub source: Vec<char>,
    /// Outgoing edges, in the order the rules named them.
    pub outs: Vec<OutEdge>,
}

/// Mathematical shape of a `Rule`.
#[verifier::ext_equal]
pub struct RuleView {
    pub source: Seq<char>,
    pub symbol: char,
    pub probability: u32,
    pub duration: u64,
}

/// Mathematical shape of a `Context`.
#[verifier::ext_equal]
pub struct CtxView {
    pub source: Seq<char>,
    pub outs: Seq<OutEdge>,
}

/// Mathematical shape of a `Pfa`.
#[verifier::ext_equal]
pub struct PfaView {
    pub alphabet: Seq<char>,
    pub contexts: Seq<CtxView>,
}

impl View for Rule {
    type V = RuleView;

    open spec fn view(&self) -> RuleView {
        RuleView {
            source: self.source@,
            symbol: self.symbol,
            probability: self.probability,
            duration: self.duration,
        }
    }
}

impl View for Context {
    type V = CtxView;

    open spec fn view(&self) -> CtxView {
        CtxView { source: self.source@, outs: self.outs@ }
    }
}

/// The probabilistic finite automaton over single-character states.
pub struct Pfa {
    /// Every state mentioned by a rule, source or destination, in order of
    /// first mention, without duplicates.
    pub alphabet: Vec<char>,
    /// The distinct conditioning contexts, each with its outgoing edges.
    pub contexts: Vec<Context>,
}

impl View for Pfa {
    type V = PfaView;

    open spec fn view(&self) -> PfaView {
        PfaView {
            alphabet: self.alphabet@,
            contexts: Seq::new(self.contexts@.len(), |i: int| self.contexts@[i]@),
        }
    }
}

/// The rule list as rule shapes.
pub open spec fn rule_views(rules: Seq<Rule>) -> Seq<RuleView> {
    rules.map_values(|r: Rule| r@)
}

/// The alphabet after recording one more symbol: appended if new.
pub open spec fn add_sym(alpha: Seq<char>, c: char) -> Seq<char> {
    if alpha.contains(c) {
        alpha
    } else {
        alpha.push(c)
    }
}

/// The alphabet after recording each symbol of `cs`, left to right.
pub open spec fn add_syms(alpha: Seq<char>, cs: Seq<char>) -> Seq<char>
    decreases cs.len(),
{
    if cs.len() == 0 {
        alpha
    } else {
        add_syms(add_sym(alpha, cs[0]), cs.drop_first())
    }
}

/// Index of the first context whose source equals `source`, or -1.
pub open spec fn find_ctx(ctxs: Seq<CtxView>, source: Seq<char>) -> int
    decreases ctxs.len(),
{
    if ctxs.len() == 0 {
        -1
    } else if ctxs[0].source == source {
        0
    } else {
        let r = find_ctx(ctxs.drop_first(), source);
        if r < 0 {
            -1
        } else {
            r + 1
        }
    }
}

/// Index of the first edge of `outs` leading to `symbol`, or -1.
pub open spec fn find_out(outs: Seq<OutEdge>, symbol: char) -> int
    decreases outs.len(),
{
    if outs.len() == 0 {
        -1
    } else if outs[0].symbol == symbol {
        0
    } else {
        let r = find_out(outs.drop_first(), symbol);
        if r < 0 {
            -1
        } else {
            r + 1
        }
    }
}

/// Two weights combined, saturating at the top of the scale's type.
pub open spec fn merge_weight(a: u32, b: u32) -> u32 {
    if a + b > u32::MAX {
        u32::MAX
    } else {
        (a + b) as u32
    }
}

/// The automaton with no states and no transitions.
pub open spec fn empty_pfa_view() -> PfaView {
    PfaView { alphabet: Seq::empty(), contexts: Seq::empty() }
}

/// One step of inference: record the rule's symbols in the alphabet and
/// its edge under its context; a rule that repeats an existing (source,
/// destination) pair adds its weight to that edge, so parallel rules act
/// as one heavier edge under the weighted choice.
pub open spec fn insert_rule(m: PfaView, r: RuleView) -> PfaView {
    let alpha = add_sym(add_syms(m.alphabet, r.source), r.symbol);
    let j = find_ctx(m.contexts, r.source);
    let edge = OutEdge { symbol: r.symbol, prob: r.probability };
    if j < 0 {
        PfaView {
            alphabet: alpha,
            contexts: m.contexts.push(CtxView { source: r.source, outs: seq![edge] }),
        }
    } else {
        let outs = m.contexts[j].outs;
        let k = find_out(outs, r.symbol);
        let merged = if k < 0 {
            outs.push(edge)
        } else {
            outs.update(
                k,
                OutEdge { symbol: r.symbol, prob: merge_weight(outs[k].prob, r.probability) },
            )
        };
        PfaView {
            alphabet: alpha,
            contexts: m.contexts.update(j, CtxView { source: m.contexts[j].source, outs: merged }),
        }
    }
}

/// The automaton inferred from a rule list, rule by rule, left to right.
pub open spec fn spec_infer(rules: Seq<RuleView>) -> PfaView
    decreases rules.len(),
{
    if rules.len() == 0 {
        empty_pfa_view()
    } else {
        insert_rule(spec_infer(rules.drop_last()), rules.last())
    }
}

/// `source` read backwards from the end of `history` matches, i.e. the
/// context is the most recent stretch of the traversal history.
pub open spec fn is_suffix_of(source: Seq<char>, history: Seq<char>) -> bool {
    source.len() <= history.len() && source == history.subrange(
        history.len() - source.len(),
        history.len() as int,
    )
}

/// Index of the best matching context among the first `n`: a context
/// matches when its source is a suffix of the history; longer sources win,
/// and among equal lengths the earliest wins. -1 when none matches.
pub open spec fn best_upto(p: PfaView, history: Seq<char>, n: int) -> int
    decreases n,
{
    if n <= 0 {
        -1
    } else {
        let prev = best_upto(p, history, n - 1);
        if is_suffix_of(p.contexts[n - 1].source, history) && (prev == -1
            || p.contexts[prev].source.len() < p.contexts[n - 1].source.len()) {
            n - 1
        } else {
            prev
        }
    }
}

/// Index of the best matching context of the whole automaton, or -1.
pub open spec fn best_match(p: PfaView, history: Seq<char>) -> int {
    best_upto(p, history, p.contexts.len() as int)
}

/// The weighted choice: walk the edges, spending the draw `r`; the edge
/// whose cumulative weight first exceeds `r` is chosen. None when the draw
/// is at least the total weight (or there is no edge).
pub open spec fn pick_weighted(outs: Seq<OutEdge>, r: int) -> Option<char>
    decreases outs.len(),
{
    if outs.len() == 0 {
        None
    } else if r < outs[0].prob {
        Some(outs[0].symbol)
    } else {
        pick_weighted(outs.drop_first(), r - outs[0].prob)
    }
}

/// Total weight of a list of edges.
pub open spec fn total_weight(outs: Seq<OutEdge>) -> int
    decreases outs.len(),
{
    if outs.len() == 0 {
        0
    } else {
        outs[0].prob + total_weight(outs.drop_first())
    }
}

/// Cumulative weight of the first `k` edges.
pub open spec fn cum_weight(outs: Seq<OutEdge>, k: int) -> int {
    total_weight(outs.take(k))
}

/// The symbol the automaton steps to from traversal history `history`
/// under draw `r`: the weighted choice at the best matching context, or
/// `fallback` (the current state, which thus self-loops) when no context
/// matches or the draw exceeds the total weight.
pub open spec fn next_symbol_spec(p: PfaView, history: Seq<char>, fallback: char, r: int) -> char {
    let b = best_match(p, history);
    if b == -1 {
        fallback
    } else {
        match pick_weighted(p.contexts[b].outs, r) {
            Some(c) => c,
            None => fallback,
        }
    }
}

/// Length of the longest conditioning context, i.e. how much traversal
/// history matching ever needs.
pub open spec fn max_source_len(p: PfaView) -> int {
    max_source_len_upto(p, p.contexts.len() as int)
}

/// Length of the longest context source among the first `n`.
pub open spec fn max_source_len_upto(p: PfaView, n: int) -> int
    decreases n,
{
    if n <= 0 {
        0
    } else {
        let prev = max_source_len_upto(p, n - 1);
        if p.contexts[n - 1].source.len() > prev {
            p.contexts[n - 1].source.len() as int
        } else {
            prev
        }
    }
}

impl Pfa {
    /// The empty automaton: no states, no transitions.
    pub fn new() -> (p: Pfa)
        ensures
            p@ == empty_pfa_view(),
    {
        let p = Pfa { alphabet: Vec::new(), contexts: Vec::new() };
        proof {
            assert(p@ =~~= empty_pfa_view());
        }
        p
    }
}

/// Element-wise equality of two character vectors.
fn chars_eq(a: &Vec<char>, b: &Vec<char>) -> (r: bool)
    ensures
        r == (a@ == b@),
{
    if a.len() != b.len() {
        return false;
    }
    let mut i: usize = 0;
    while i < a.len()
        invariant
            i <= a@.len(),
            a@.len() == b@.len(),
            forall|k: int| 0 <= k < i ==> a@[k] == b@[k],
        decreases a@.len() - i,
    {
        if a[i] != b[i] {
            return false;
        }
        i += 1;
    }
    proof {
        assert(a@ =~= b@);
    }
    true
}

/// Copy of a character vector.
fn chars_clone(a: &Vec<char>) -> (r: Vec<char>)
    ensures
        r@ == a@,
{
    let mut r: Vec<char> = Vec::new();
    let mut i: usize = 0;
    while i < a.len()
        invariant
            i <= a@.len(),
            r@ == a@.take(i as int),
        decreases a@.len() - i,
    {
        r.push(a[i]);
        proof {
            assert(r@ =~= a@.take(i + 1 as int));
        }
        i += 1;
    }
    proof {
        assert(a@.take(a@.len() as int) =~= a@);
    }
    r
}

/// Record one symbol in the alphabet, appending it if new.
fn add_symbol(alpha: &mut Vec<char>, c: char)
    ensures
        final(alpha)@ == add_sym(old(alpha)@, c),
{
    let mut i: usize = 0;
    while i < alpha.len()
        invariant
            i <= alpha@.len(),
            alpha@ == old(alpha)@,
            forall|k: int| 0 <= k < i ==> alpha@[k] != c,
        decreases alpha@.len() - i,
    {
        if alpha[i] == c {
            return ;
        }
        i += 1;
    }
    assert(!old(alpha)@.contains(c));
    alpha.push(c);
}

/// Record each symbol of `cs` in the alphabet, left to right.
fn add_symbols(alpha: &mut Vec<char>, cs: &Vec<char>)
    ensures
        final(alpha)@ == add_syms(old(alpha)@, cs@),
{
    let mut i: usize = 0;
    while i < cs.len()
        invariant
            i <= cs@.len(),
            alpha@ == add_syms(old(alpha)@, cs@.take(i as int)),
        decreases cs@.len() - i,
    {
        proof {
            lemma_add_syms_push(old(alpha)@, cs@.take(i as int), cs@[i as int]);
            assert(cs@.take(i as int).push(cs@[i as int]) =~= cs@.take(i + 1 as int));
        }
        add_symbol(alpha, cs[i]);
        i += 1;
    }
    proof {
        assert(cs@.take(cs@.len() as int) =~= cs@);
    }
}

/// Folding one more symbol into `add_syms` appends one `add_sym` step.
proof fn lemma_add_syms_push(alpha: Seq<char>, cs: Seq<char>, c: char)
    ensures
        add_syms(alpha, cs.push(c)) == add_sym(add_syms(alpha, cs), c),
    decreases cs.len(),
{
    let e = cs.push(c);
    if cs.len() == 0 {
        assert(e[0] == c);
        assert(e.drop_first() =~= Seq::<char>::empty());
        assert(add_syms(alpha, e) == add_syms(add_sym(alpha, c), e.drop_first()));
        assert(add_syms(add_sym(alpha, c), e.drop_first()) == add_sym(alpha, c));
        assert(add_syms(alpha, cs) == alpha);
    } else {
        assert(e[0] == cs[0]);
        assert(e.drop_first() =~= cs.drop_first().push(c));
        lemma_add_syms_push(add_sym(alpha, cs[0]), cs.drop_first(), c);
        assert(add_syms(alpha, e) == add_syms(add_sym(alpha, cs[0]), e.drop_first()));
        assert(add_syms(alpha, cs) == add_syms(add_sym(alpha, cs[0]), cs.drop_first()));
    }
}

/// Index of the first context whose source equals `source`, if any.
fn find_context(ctxs: &Vec<Context>, source: &Vec<char>) -> (r: Option<usize>)
    ensures
        match r {
            Some(j) => j < ctxs@.len() && ctxs@[j as int].source@ == source@ && forall|k: int|
                0 <= k < j ==> ctxs@[k].source@ != source@,
            None => forall|k: int| 0 <= k < ctxs@.len() ==> ctxs@[k].source@ != source@,
        },
{
    let mut i: usize = 0;
    while i < ctxs.len()
        invariant
            i <= ctxs@.len(),
            forall|k: int| 0 <= k < i ==> ctxs@[k].source@ != source@,
        decreases ctxs@.len() - i,
    {
        if chars_eq(&ctxs[i].source, source) {
            return Some(i);
        }
        i += 1;
    }
    None
}

/// The spec-level first-match index agrees with the element-wise
/// characterisation that the executable search establishes.
pub proof fn lemma_find_ctx_agrees(ctxs: Seq<CtxView>, source: Seq<char>, j: int)
    requires
        0 <= j < ctxs.len(),
        ctxs[j].source == source,
        forall|k: int| 0 <= k < j ==> ctxs[k].source != source,
    ensures
        find_ctx(ctxs, source) == j,
    decreases ctxs.len(),
{
    if j == 0 {
    } else {
        assert(forall|k: int|
            0 <= k < j - 1 ==> ctxs.drop_first()[k] == ctxs[k + 1] && ctxs[k + 1].source != source);
        lemma_find_ctx_agrees(ctxs.drop_first(), source, j - 1);
    }
}

/// When no context carries the source, the spec-level search misses too.
pub proof fn lemma_find_ctx_none(ctxs: Seq<CtxView>, source: Seq<char>)
    requires
        forall|k: int| 0 <= k < ctxs.len() ==> ctxs[k].source != source,
    ensures
        find_ctx(ctxs, source) == -1,
    decreases ctxs.len(),
{
    if ctxs.len() > 0 {
        assert(forall|k: int|
            0 <= k < ctxs.len() - 1 ==> ctxs.drop_first()[k] == ctxs[k + 1] && ctxs[k
                + 1].source != source);
        lemma_find_ctx_none(ctxs.drop_first(), source);
    }
}

/// The spec-level first-edge index agrees with an element-wise match.
proof fn lemma_find_out_agrees(outs: Seq<OutEdge>, symbol: char, j: int)
    requires
        0 <= j < outs.len(),
        outs[j].symbol == symbol,
        forall|k: int| 0 <= k < j ==> (#[trigger] outs[k]).symbol != symbol,
    ensures
        find_out(outs, symbol) == j,
    decreases outs.len(),
{
    if j > 0 {
        assert(forall|k: int|
            0 <= k < j - 1 ==> outs.drop_first()[k] == outs[k + 1] && (#[trigger] outs.drop_first()[k]).symbol
                != symbol);
        lemma_find_out_agrees(outs.drop_first(), symbol, j - 1);
    }
}

/// When no edge leads to the symbol, the spec-level search misses too.
pub proof fn lemma_find_out_none(outs: Seq<OutEdge>, symbol: char)
    requires
        forall|k: int| 0 <= k < outs.len() ==> (#[trigger] outs[k]).symbol != symbol,
    ensures
        find_out(outs, symbol) == -1,
    decreases outs.len(),
{
    if outs.len() > 0 {
        assert(forall|k: int|
            0 <= k < outs.len() - 1 ==> outs.drop_first()[k] == outs[k + 1] && (
            #[trigger] outs.drop_first()[k]).symbol != symbol);
        lemma_find_out_none(outs.drop_first(), symbol);
    }
}

/// Index of the first edge leading to `symbol`, executably.
fn find_out_index(outs: &Vec<OutEdge>, symbol: char) -> (r: Option<usize>)
    ensures
        match r {
            Some(k) => find_out(outs@, symbol) == k as int && k < outs@.len(),
            None => find_out(outs@, symbol) == -1,
        },
{
    let mut i: usize = 0;
    while i < outs.len()
        invariant
            i <= outs@.len(),
            forall|k: int| 0 <= k < i ==> (#[trigger] outs@[k]).symbol != symbol,
        decreases outs@.len() - i,
    {
        if outs[i].symbol == symbol {
            proof {
                lemma_find_out_agrees(outs@, symbol, i as int);
            }
            return Some(i);
        }
        i += 1;
    }
    proof {
        lemma_find_out_none(outs@, symbol);
    }
    None
}

impl Pfa {
    /// Infer the automaton from a flat rule list: one context per distinct
    /// source, carrying that source's outgoing edges in rule order; the
    /// alphabet is every symbol mentioned as source or destination. A
    /// repeated (source, destination) pair keeps the first rule's weight.
    pub fn infer_from_rules(rules: &Vec<Rule>) -> (p: Pfa)
        ensures
            p@ == spec_infer(rule_views(rules@)),
    {
        let mut p = Pfa::new();
        let mut i: usize = 0;
        while i < rules.len()
            invariant
                i <= rules@.len(),
                p@ == spec_infer(rule_views(rules@).take(i as int)),
            decreases rules@.len() - i,
        {
            let ghost pre = p@;
            let r = &rules[i];
            add_symbols(&mut p.alphabet, &r.source);
            add_symbol(&mut p.alphabet, r.symbol);
            let edge = OutEdge { symbol: r.symbol, prob: r.probability };
            match find_context(&p.contexts, &r.source) {
                None => {
                    proof {
                        lemma_find_ctx_none(pre.contexts, r.source@);
                    }
                    let mut outs: Vec<OutEdge> = Vec::new();
                    outs.push(edge);
                    let source = chars_clone(&r.source);
                    p.contexts.push(Context { source, outs });
                    proof {
                        assert(p@.contexts =~~= insert_rule(pre, r@).contexts);
                    }
                },
                Some(j) => {
                    proof {
                        lemma_find_ctx_agrees(pre.contexts, r.source@, j as int);
                    }
                    let mut ctx = p.contexts.remove(j);
                    match find_out_index(&ctx.outs, r.symbol) {
                        None => {
                            ctx.outs.push(edge);
                        },
                        Some(k) => {
                            let w = ctx.outs[k].prob;
                            let merged: u32 = if w > u32::MAX - r.probability {
                                u32::MAX
                            } else {
                                w + r.probability
                            };
                            ctx.outs.set(k, OutEdge { symbol: r.symbol, prob: merged });
                        },
                    }
                    p.contexts.insert(j, ctx);
                    proof {
                        assert(p@.contexts =~~= insert_rule(pre, r@).contexts);
                    }
                },
            }
            proof {
                assert(p@ =~~= insert_rule(pre, r@));
                assert(rule_views(rules@).take(i + 1 as int) =~= rule_views(rules@).take(
                    i as int,
                ).push(r@));
                assert(rule_views(rules@).take(i + 1 as int).drop_last() =~= rule_views(
                    rules@,
                ).take(i as int));
            }
            i += 1;
        }
        proof {
            assert(rule_views(rules@).take(rules@.len() as int) =~= rule_views(rules@));
        }
        p
    }
}

/// Whether `source` is the most recent stretch of `history`.
fn suffix_matches(source: &Vec<char>, history: &Vec<char>) -> (b: bool)
    ensures
        b == is_suffix_of(source@, history@),
{
    if source.len() > history.len() {
        return false;
    }
    let off: usize = history.len() - source.len();
    let mut k: usize = 0;
    while k < source.len()
        invariant
            source@.len() <= history@.len(),
            history@.len() <= usize::MAX,
            off == history@.len() - source@.len(),
            k <= source@.len(),
            forall|t: int| 0 <= t < k ==> source@[t] == history@[off + t],
        decreases source@.len() - k,
    {
        assert(off + k < history@.len());
        if source[k] != history[off + k] {
            proof {
                assert(history@.subrange(off as int, history@.len() as int)[k as int] == history@[off
                    + k]);
            }
            return false;
        }
        k += 1;
    }
    proof {
        assert(source@ =~= history@.subrange(off as int, history@.len() as int));
    }
    true
}

impl Pfa {
    /// Index of the best matching context for this history: its source is a
    /// suffix of the history, longer sources win, ties go to the earliest.
    fn best_context(&self, history: &Vec<char>) -> (res: Option<usize>)
        ensures
            match res {
                Some(j) => best_match(self@, history@) == j as int && j < self.contexts@.len(),
                None => best_match(self@, history@) == -1,
            },
    {
        let mut best: Option<usize> = None;
        let mut i: usize = 0;
        while i < self.contexts.len()
            invariant
                i <= self.contexts@.len(),
                match best {
                    Some(b) => b < i && best_upto(self@, history@, i as int) == b as int,
                    None => best_upto(self@, history@, i as int) == -1,
                },
            decreases self.contexts@.len() - i,
        {
            proof {
                assert(self@.contexts[i as int] == self.contexts@[i as int]@);
            }
            let m = suffix_matches(&self.contexts[i].source, history);
            let replace = m && match best {
                Some(b) => self.contexts[b].source.len() < self.contexts[i].source.len(),
                None => true,
            };
            if replace {
                best = Some(i);
            }
            i += 1;
        }
        best
    }

    /// The symbol the automaton steps to from `history` under draw `r`;
    /// `fallback` (normally the current state, which thus self-loops) when
    /// no context matches or the draw is beyond the total weight.
    pub fn transition_for_draw(&self, history: &Vec<char>, fallback: char, r: u32) -> (next: char)
        ensures
            next == next_symbol_spec(self@, history@, fallback, r as int),
    {
        match self.best_context(history) {
            None => fallback,
            Some(j) => {
                proof {
                    assert(self@.contexts[j as int] == self.contexts@[j as int]@);
                }
                match pick(&self.contexts[j].outs, r) {
                    Some(c) => c,
                    None => fallback,
                }
            },
        }
    }

    /// Length of the longest conditioning context: how much traversal
    /// history matching ever needs.
    pub fn max_context_len(&self) -> (m: usize)
        ensures
            m == max_source_len(self@),
    {
        let mut m: usize = 0;
        let mut i: usize = 0;
        while i < self.contexts.len()
            invariant
                i <= self.contexts@.len(),
                m == max_source_len_upto(self@, i as int),
            decreases self.contexts@.len() - i,
        {
            proof {
                assert(self@.contexts[i as int] == self.contexts@[i as int]@);
            }
            if self.contexts[i].source.len() > m {
                m = self.contexts[i].source.len();
            }
            i += 1;
        }
        m
    }
}

/// The weighted choice, executably: spend the draw `r` on the edges in
/// order; the edge whose cumulative weight first exceeds it wins.
fn pick(outs: &Vec<OutEdge>, r: u32) -> (res: Option<char>)
    ensures
        res == pick_weighted(outs@, r as int),
{
    let mut i: usize = 0;
    let mut rem: u32 = r;
    proof {
        assert(outs@.skip(0) =~= outs@);
    }
    while i < outs.len()
        invariant
            i <= outs@.len(),
            pick_weighted(outs@, r as int) == pick_weighted(outs@.skip(i as int), rem as int),
        decreases outs@.len() - i,
    {
        let e = outs[i];
        proof {
            assert(outs@.skip(i as int)[0] == outs@[i as int]);
        }
        if rem < e.prob {
            return Some(e.symbol);
        }
        proof {
            assert(outs@.skip(i as int).drop_first() =~= outs@.skip(i + 1 as int));
        }
        rem -= e.prob;
        i += 1;
    }
    proof {
        assert(outs@.skip(outs@.len() as int) =~= Seq::<OutEdge>::empty());
    }
    None
}

/// Cumulative weights are never negative.
pub proof fn lemma_total_nonneg(outs: Seq<OutEdge>)
    ensures
        total_weight(outs) >= 0,
    decreases outs.len(),
{
    if outs.len() > 0 {
        lemma_total_nonneg(outs.drop_first());
    }
}

/// Appending an edge adds its weight to the total.
pub proof fn lemma_total_push(outs: Seq<OutEdge>, e: OutEdge)
    ensures
        total_weight(outs.push(e)) == total_weight(outs) + e.prob,
    decreases outs.len(),
{
    if outs.len() == 0 {
        assert(outs.push(e)[0] == e);
        assert(outs.push(e).drop_first() =~= Seq::<OutEdge>::empty());
        assert(total_weight(Seq::<OutEdge>::empty()) == 0);
        assert(total_weight(outs) == 0);
    } else {
        assert(outs.push(e).drop_first() =~= outs.drop_first().push(e));
        assert(outs.push(e)[0] == outs[0]);
        lemma_total_push(outs.drop_first(), e);
        assert(total_weight(outs) == outs[0].prob + total_weight(outs.drop_first()));
    }
}

/// The cumulative weight of one more edge.
pub proof fn lemma_cum_step(outs: Seq<OutEdge>, k: int)
    requires
        0 <= k < outs.len(),
    ensures
        cum_weight(outs, k + 1) == cum_weight(outs, k) + outs[k].prob,
{
    assert(outs.take(k + 1) =~= outs.take(k).push(outs[k]));
    lemma_total_push(outs.take(k), outs[k]);
}

/// The cumulative weight of all edges is the total weight.
pub proof fn lemma_cum_total(outs: Seq<OutEdge>)
    ensures
        cum_weight(outs, outs.len() as int) == total_weight(outs),
{
    assert(outs.take(outs.len() as int) =~= outs);
}

/// Sum of a list of unsigned weights.
pub open spec fn sum64(s: Seq<u64>) -> int
    decreases s.len(),
{
    if s.len() == 0 {
        0
    } else {
        s[0] + sum64(s.drop_first())
    }
}

/// Sums of unsigned weights are never negative.
proof fn lemma_sum64_nonneg(s: Seq<u64>)
    ensures
        sum64(s) >= 0,
    decreases s.len(),
{
    if s.len() > 0 {
        lemma_sum64_nonneg(s.drop_first());
    }
}

/// Appending a weight adds it to the sum.
proof fn lemma_sum64_push(s: Seq<u64>, w: u64)
    ensures
        sum64(s.push(w)) == sum64(s) + w,
    decreases s.len(),
{
    if s.len() == 0 {
        assert(s.push(w)[0] == w);
        assert(s.push(w).drop_first() =~= Seq::<u64>::empty());
        assert(sum64(Seq::<u64>::empty()) == 0);
        assert(sum64(s) == 0);
    } else {
        assert(s.push(w).drop_first() =~= s.drop_first().push(w));
        assert(s.push(w)[0] == s[0]);
        lemma_sum64_push(s.drop_first(), w);
        assert(sum64(s) == s[0] + sum64(s.drop_first()));
    }
}

/// The sum of the tail after position `j` loses that position's weight.
proof fn lemma_sum64_skip_step(s: Seq<u64>, j: int)
    requires
        0 <= j < s.len(),
    ensures
        sum64(s.skip(j)) == s[j] + sum64(s.skip(j + 1)),
{
    assert(s.skip(j)[0] == s[j]);
    assert(s.skip(j).drop_first() =~= s.skip(j + 1));
}

/// How a perturb-and-renormalise pass with bound `c` (a fraction of
/// `PROB_ONE`) relates new weights to old ones, through the intermediate
/// weights `ws`: every destination is kept; each intermediate weight sits
/// within ±`c` of its old weight (clipped at zero from below); each new
/// weight but the last is its intermediate weight's proportional share of
/// `PROB_ONE` — an even share when every intermediate weight is zero — and
/// the context sums to `PROB_ONE` again, the last edge absorbing the
/// rounding remainder.
pub open spec fn reweighed_by(
    older: Seq<OutEdge>,
    newer: Seq<OutEdge>,
    ws: Seq<u64>,
    c: int,
) -> bool {
    &&& ws.len() == older.len()
    &&& newer.len() == older.len()
    &&& (forall|k: int| 0 <= k < older.len() ==> (#[trigger] newer[k]).symbol == older[k].symbol)
    &&& (forall|k: int|
        0 <= k < older.len() ==> older[k].prob - c <= #[trigger] ws[k] && ws[k] <= older[k].prob
            + c)
    &&& (forall|k: int|
        0 <= k < older.len() - 1 ==> (#[trigger] newer[k]).prob == if sum64(ws) == 0 {
            (PROB_ONE as int) / (older.len() as int)
        } else {
            (ws[k] * PROB_ONE) / sum64(ws)
        })
    &&& older.len() > 0 ==> total_weight(newer) == PROB_ONE
}

/// The new weights come from the old by one perturb-and-renormalise pass
/// with bound `c`: some intermediate weights witness it.
pub open spec fn reweighed_outs(older: Seq<OutEdge>, newer: Seq<OutEdge>, c: int) -> bool {
    exists|ws: Seq<u64>| reweighed_by(older, newer, ws, c)
}

/// Perturbed copy of an edge list: each weight moved by up to ±`chance`
/// percent, then all weights renormalised to sum to `PROB_ONE` exactly
/// (the last edge absorbs the rounding remainder). Destinations and their
/// order are untouched. When every perturbed weight reaches zero the
/// weights are evened out instead.
fn reweigh(outs: &Vec<OutEdge>, chance: u32) -> (res: Vec<OutEdge>)
    requires
        chance <= 100,
    ensures
        res@.len() == outs@.len(),
        forall|k: int|
            0 <= k < res@.len() ==> (#[trigger] res@[k]).symbol == outs@[k].symbol && res@[k].prob
                <= PROB_ONE,
        res@.len() > 0 ==> total_weight(res@) == PROB_ONE,
        reweighed_outs(outs@, res@, (chance as int) * 100),
{
    let n = outs.len();
    if n == 0 {
        let empty: Vec<OutEdge> = Vec::new();
        proof {
            let ws: Seq<u64> = Seq::empty();
            assert(reweighed_by(outs@, empty@, ws, (chance as int) * 100));
        }
        return empty;
    }
    let span: u32 = 2 * chance * 100 + 1;
    let shift: u64 = (chance as u64) * 100;
    let mut ws: Vec<u64> = Vec::new();
    let mut wsum: u128 = 0;
    let mut i: usize = 0;
    while i < n
        invariant
            n == outs@.len(),
            shift == (chance as int) * 100,
            shift <= 10000,
            span == 2 * (shift as int) + 1,
            i <= n,
            ws@.len() == i,
            wsum == sum64(ws@),
            forall|k: int| 0 <= k < i ==> ws@[k] < 0x2_0000_0000u64,
            forall|k: int|
                0 <= k < i ==> outs@[k].prob - (shift as int) <= #[trigger] ws@[k] && ws@[k]
                    <= outs@[k].prob + (shift as int),
            wsum <= (i as int) * 0x2_0000_0000,
        decreases n - i,
    {
        let d = crate::rng::random_below(span);
        let w0: u64 = outs[i].prob as u64 + d as u64;
        let w: u64 = if w0 >= shift {
            w0 - shift
        } else {
            0
        };
        proof {
            lemma_sum64_push(ws@, w);
            assert((wsum as int) + (w as int) <= ((i + 1) as int) * 0x2_0000_0000) by (nonlinear_arith)
                requires
                    wsum <= (i as int) * 0x2_0000_0000,
                    w < 0x2_0000_0000u64,
                    i >= 0,
            ;
        }
        ws.push(w);
        wsum = wsum + w as u128;
        i += 1;
    }
    let mut res: Vec<OutEdge> = Vec::new();
    let mut acc: u64 = 0;
    if wsum == 0 {
        let share64: u64 = (PROB_ONE as u64) / (n as u64);
        let share: u32 = share64 as u32;
        let mut j: usize = 0;
        proof {
            assert(total_weight(Seq::<OutEdge>::empty()) == 0);
        }
        while j < n - 1
            invariant
                n == outs@.len(),
                n >= 1,
                j <= n - 1,
                res@.len() == j,
                share == (PROB_ONE as int) / (n as int),
                share <= PROB_ONE,
                forall|k: int|
                    0 <= k < j ==> (#[trigger] res@[k]).symbol == outs@[k].symbol && res@[k].prob
                        <= PROB_ONE,
                forall|k: int| 0 <= k < j ==> (#[trigger] res@[k]).prob == share,
                acc == total_weight(res@),
                acc == (j as int) * (share as int),
                acc <= PROB_ONE,
            decreases n - 1 - j,
        {
            let e = OutEdge { symbol: outs[j].symbol, prob: share };
            proof {
                lemma_total_push(res@, e);
                assert(((j + 1) as int) * (share as int) <= (n as int) * (share as int)
                    && (j as int) * (share as int) + (share as int) == ((j + 1) as int) * (
                share as int)) by (nonlinear_arith)
                    requires
                        0 <= j,
                        j + 1 <= n,
                        share >= 0,
                ;
                assert((n as int) * ((PROB_ONE as int) / (n as int)) <= PROB_ONE) by (nonlinear_arith)
                    requires
                        n >= 1,
                ;
            }
            res.push(e);
            acc = acc + share as u64;
            j += 1;
        }
        let last = OutEdge { symbol: outs[n - 1].symbol, prob: (PROB_ONE as u64 - acc) as u32 };
        proof {
            lemma_total_push(res@, last);
        }
        res.push(last);
        proof {
            assert(reweighed_by(outs@, res@, ws@, (chance as int) * 100));
        }
        res
    } else {
        let mut j: usize = 0;
        let mut wtaken: u128 = 0;
        proof {
            assert(total_weight(Seq::<OutEdge>::empty()) == 0);
            assert(ws@.skip(0) =~= ws@);
        }
        while j < n - 1
            invariant
                n == outs@.len(),
                n >= 1,
                ws@.len() == n,
                j <= n - 1,
                res@.len() == j,
                wsum > 0,
                forall|k: int|
                    0 <= k < j ==> (#[trigger] res@[k]).symbol == outs@[k].symbol && res@[k].prob
                        <= PROB_ONE,
                forall|k: int|
                    0 <= k < j ==> (#[trigger] res@[k]).prob == (ws@[k] * PROB_ONE) / (
                    wsum as int),
                acc == total_weight(res@),
                acc <= PROB_ONE,
                (acc as int) * (wsum as int) <= (wtaken as int) * (PROB_ONE as int),
                (wtaken as int) + sum64(ws@.skip(j as int)) == wsum,
                wtaken <= wsum,
            decreases n - 1 - j,
        {
            let w: u64 = ws[j];
            let q128: u128 = (w as u128) * 10000u128 / wsum;
            proof {
                lemma_sum64_skip_step(ws@, j as int);
                lemma_sum64_nonneg(ws@.skip(j + 1 as int));
                assert((w as int) + (wtaken as int) <= wsum);
                vstd::arithmetic::div_mod::lemma_fundamental_div_mod(
                    (w as int) * 10000,
                    wsum as int,
                );
                vstd::arithmetic::div_mod::lemma_remainder_upper((w as int) * 10000, wsum as int);
                vstd::arithmetic::div_mod::lemma_remainder_lower((w as int) * 10000, wsum as int);
                assert((q128 as int) * (wsum as int) <= (w as int) * 10000);
                assert(((acc + q128) as int) * (wsum as int) <= ((wtaken + w) as int) * 10000)
                    by (nonlinear_arith)
                    requires
                        (acc as int) * (wsum as int) <= (wtaken as int) * 10000,
                        (q128 as int) * (wsum as int) <= (w as int) * 10000,
                ;
                assert((acc as int) + (q128 as int) <= 10000) by (nonlinear_arith)
                    requires
                        ((acc + q128) as int) * (wsum as int) <= ((wtaken + w) as int) * 10000,
                        (wtaken as int) + (w as int) <= (wsum as int),
                        wsum > 0,
                        acc >= 0,
                        q128 >= 0,
                ;
            }
            let q: u32 = q128 as u32;
            proof {
                assert(q == q128);
                assert((q as int) == ((ws@[j as int] * PROB_ONE) / (wsum as int)));
            }
            let e = OutEdge { symbol: outs[j].symbol, prob: q };
            proof {
                lemma_total_push(res@, e);
            }
            res.push(e);
            acc = acc + q as u64;
            wtaken = wtaken + w as u128;
            j += 1;
        }
        let last = OutEdge { symbol: outs[n - 1].symbol, prob: (PROB_ONE as u64 - acc) as u32 };
        proof {
            lemma_total_push(res@, last);
        }
        res.push(last);
        proof {
            assert(reweighed_by(outs@, res@, ws@, (chance as int) * 100));
        }
        res
    }
}

/// How a reweighed context relates to its old self: same source, same
/// destinations in the same order, every weight a valid fraction, the
/// weights of a non-empty context summing to `PROB_ONE`, and the new
/// weights reached from the old by one perturbation of at most ±`c`
/// followed by renormalisation.
pub open spec fn reweighed_ctx(newc: CtxView, oldc: CtxView, c: int) -> bool {
    &&& newc.source == oldc.source
    &&& newc.outs.len() == oldc.outs.len()
    &&& (forall|k: int|
        0 <= k < oldc.outs.len() ==> (#[trigger] newc.outs[k]).symbol == oldc.outs[k].symbol
            && newc.outs[k].prob <= PROB_ONE)
    &&& reweighed_outs(oldc.outs, newc.outs, c)
    &&& oldc.outs.len() > 0 ==> total_weight(newc.outs) == PROB_ONE
}

impl Pfa {
    /// Perturb every edge weight by up to ±`chance` percent and renormalise
    /// each context's outgoing weights so they sum to `PROB_ONE` again.
    /// The structure — states, contexts, destinations and their order — is
    /// untouched; only the weights move.
    pub fn randomize_edges(&mut self, chance: u32)
        requires
            chance <= 100,
        ensures
            final(self)@.alphabet == old(self)@.alphabet,
            final(self)@.contexts.len() == old(self)@.contexts.len(),
            forall|i: int|
                0 <= i < old(self)@.contexts.len() ==> reweighed_ctx(
                    #[trigger] final(self)@.contexts[i],
                    old(self)@.contexts[i],
                    (chance as int) * 100,
                ),
    {
        let n = self.contexts.len();
        let mut i: usize = 0;
        while i < n
            invariant
                chance <= 100,
                n == self.contexts@.len(),
                i <= n,
                self.alphabet@ == old(self).alphabet@,
                self.contexts@.len() == old(self).contexts@.len(),
                forall|k: int|
                    i <= k < n ==> #[trigger] self.contexts@[k]@ == old(self).contexts@[k]@,
                forall|k: int|
                    0 <= k < i ==> reweighed_ctx(
                        #[trigger] self.contexts@[k]@,
                        old(self).contexts@[k]@,
                        (chance as int) * 100,
                    ),
            decreases n - i,
        {
            let ghost pre = self.contexts@;
            let outs = reweigh(&self.contexts[i].outs, chance);
            let ghost outs_v = outs@;
            let mut ctx = self.contexts.remove(i);
            ctx.outs = outs;
            self.contexts.insert(i, ctx);
            proof {
                assert(self.contexts@ =~= pre.update(i as int, self.contexts@[i as int]));
                assert(self.contexts@[i as int]@.source == pre[i as int]@.source);
                assert(self.contexts@[i as int]@.outs == outs_v);
                assert(reweighed_ctx(
                    self.contexts@[i as int]@,
                    old(self).contexts@[i as int]@,
                    (chance as int) * 100,
                ));
            }
            i += 1;
        }
        proof {
            assert forall|i: int| 0 <= i < old(self)@.contexts.len() implies reweighed_ctx(
                #[trigger] self@.contexts[i],
                old(self)@.contexts[i],
                (chance as int) * 100,
            ) by {
                assert(self@.contexts[i] == self.contexts@[i]@);
                assert(old(self)@.contexts[i] == old(self).contexts@[i]@);
            }
        }
    }
}

/// Exactness of the weighted choice, one direction: every draw inside edge
/// `k`'s block — the `outs[k].prob` draws from its cumulative weight on —
/// chooses edge `k`. With the converse below, a uniform draw takes each
/// edge with exactly its specified weight out of the total: the sampled
/// transition follows the distribution the rules specify.
pub proof fn lemma_weighted_choice_exact(outs: Seq<OutEdge>, k: int, r: int)
    requires
        0 <= k < outs.len(),
        cum_weight(outs, k) <= r < cum_weight(outs, k) + outs[k].prob,
    ensures
        pick_weighted(outs, r) == Some(outs[k].symbol),
    decreases k,
{
    if k == 0 {
        assert(outs.take(0) =~= Seq::<OutEdge>::empty());
        assert(cum_weight(outs, 0) == 0);
    } else {
        let rest = outs.drop_first();
        assert(outs.take(k)[0] == outs[0]);
        assert(outs.take(k).drop_first() =~= rest.take(k - 1));
        lemma_total_nonneg(rest.take(k - 1));
        assert(r >= outs[0].prob);
        assert(rest[k - 1] == outs[k]);
        lemma_weighted_choice_exact(rest, k - 1, r - outs[0].prob);
    }
}

/// Exactness of the weighted choice, the converse direction: every draw
/// below the total weight falls into exactly one edge's block and chooses
/// that edge.
pub proof fn lemma_weighted_choice_in_range(outs: Seq<OutEdge>, r: int)
    requires
        0 <= r < total_weight(outs),
    ensures
        exists|k: int|
            0 <= k < outs.len() && cum_weight(outs, k) <= r < cum_weight(outs, k) + outs[k].prob
                && pick_weighted(outs, r) == Some(outs[k].symbol),
    decreases outs.len(),
{
    assert(outs.len() > 0);
    if r < outs[0].prob {
        assert(outs.take(0) =~= Seq::<OutEdge>::empty());
        assert(cum_weight(outs, 0) == 0);
        assert(pick_weighted(outs, r) == Some(outs[0].symbol));
    } else {
        let rest = outs.drop_first();
        lemma_weighted_choice_in_range(rest, r - outs[0].prob);
        let k = choose|k: int|
            0 <= k < rest.len() && cum_weight(rest, k) <= r - outs[0].prob < cum_weight(rest, k)
                + rest[k].prob && pick_weighted(rest, r - outs[0].prob) == Some(rest[k].symbol);
        assert(outs.take(k + 1)[0] == outs[0]);
        assert(outs.take(k + 1).drop_first() =~= rest.take(k));
        assert(cum_weight(outs, k + 1) == outs[0].prob + cum_weight(rest, k));
        assert(outs[k + 1] == rest[k]);
        assert(cum_weight(outs, k + 1) <= r < cum_weight(outs, k + 1) + outs[k + 1].prob
            && pick_weighted(outs, r) == Some(outs[k + 1].symbol));
    }
}

} // verus!

