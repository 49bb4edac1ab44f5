//! The sequence generator: one automaton instance together with per-state
//! event payloads, per-edge durations, and the traversal cursor the
//! scheduler advances tick by tick.

use vstd::prelude::*;
use crate::events::{
    clone_event, clone_source_events, sev_views, Event, EventView, ParamValue, SourceEvent,
    SourceEventView, SynthParameterLabel,
};
use crate::markov::{max_source_len, next_symbol_spec, Pfa, PfaView, PROB_ONE};

verus! {

/// Upper bound on durations, in milliseconds: the fixed-point parameter
/// encoding must not overflow.
pub const MAX_DURATION_MS: u64 = 1_000_000_000;

/// One re-visit more on a symbol-age counter, saturating at the top.
pub open spec fn bump(v: u64) -> u64 {
    if v == u64::MAX {
        v
    } else {
        (v + 1) as u64
    }
}

/// Index of the first entry keyed by `c`, or -1.
pub open spec fn find_key<V>(m: Seq<(char, V)>, c: char) -> int
    decreases m.len(),
{
    if m.len() == 0 {
        -1
    } else if m[0].0 == c {
        0
    } else {
        let r = find_key(m.drop_first(), c);
        if r < 0 {
            -1
        } else {
            r + 1
        }
    }
}

/// The value keyed by `c`, if any.
pub open spec fn key_lookup<V>(m: Seq<(char, V)>, c: char) -> Option<V> {
    let j = find_key(m, c);
    if j < 0 {
        None
    } else {
        Some(m[j].1)
    }
}

/// Index of the first entry keyed by the edge `e`, or -1.
pub open spec fn find_edge<V>(m: Seq<((char, char), V)>, e: (char, char)) -> int
    decreases m.len(),
{
    if m.len() == 0 {
        -1
    } else if m[0].0.0 == e.0 && m[0].0.1 == e.1 {
        0
    } else {
        let r = find_edge(m.drop_first(), e);
        if r < 0 {
            -1
        } else {
            r + 1
        }
    }
}

/// The value keyed by the edge `e`, if any.
pub open spec fn edge_lookup<V>(m: Seq<((char, char), V)>, e: (char, char)) -> Option<V> {
    let j = find_edge(m, e);
    if j < 0 {
        None
    } else {
        Some(m[j].1)
    }
}

/// The age table after one more visit of `c`: its counter bumped, or a
/// fresh counter at 1.
pub open spec fn ages_bumped(m: Seq<(char, u64)>, c: char) -> Seq<(char, u64)> {
    let j = find_key(m, c);
    if j < 0 {
        m.push((c, 1u64))
    } else {
        m.update(j, (c, bump(m[j].1)))
    }
}

/// The least character of a non-empty list, scanning the first `n`.
pub open spec fn min_upto(s: Seq<char>, n: int) -> char
    decreases n,
{
    if n <= 1 {
        s[0]
    } else if s[n - 1] < min_upto(s, n - 1) {
        s[n - 1]
    } else {
        min_upto(s, n - 1)
    }
}

/// The least character of a non-empty list.
pub open spec fn min_char(s: Seq<char>) -> char {
    min_upto(s, s.len() as int)
}

/// The least character is one of the list and below all of it.
pub proof fn lemma_min_upto_props(s: Seq<char>, n: int)
    requires
        1 <= n <= s.len(),
    ensures
        exists|i: int| 0 <= i < n && s[i] == min_upto(s, n),
        forall|i: int| 0 <= i < n ==> min_upto(s, n) <= s[i],
    decreases n,
{
    if n == 1 {
        assert(s[0] == min_upto(s, n));
    } else {
        lemma_min_upto_props(s, n - 1);
        if s[n - 1] < min_upto(s, n - 1) {
            assert(s[n - 1] == min_upto(s, n));
        } else {
            let i = choose|i: int| 0 <= i < n - 1 && s[i] == min_upto(s, n - 1);
            assert(s[i] == min_upto(s, n));
        }
    }
}

/// The history kept to the most recent `cap` symbols.
pub open spec fn truncated(h: Seq<char>, cap: int) -> Seq<char> {
    if h.len() <= cap {
        h
    } else {
        h.skip(h.len() - cap)
    }
}

/// The wait-time a transition event carries: the synthetic event named
/// "transition" whose duration parameter holds `d` milliseconds in
/// fixed-point thousandths.
pub open spec fn duration_event_view(d: u64) -> EventView {
    EventView {
        name: "transition"@,
        params: seq![
            (SynthParameterLabel::Duration, ParamValue::Scalar((d * 1000) as i64)),
        ],
    }
}

/// The sequence generator: a named automaton instance, its payload
/// mappings, and the traversal cursor.
pub struct MarkovSequenceGenerator {
    /// The voice's name.
    pub name: String,
    /// The automaton walked by this generator.
    pub generator: Pfa,
    /// What each state emits; an unmapped state emits nothing (a rest).
    pub event_mapping: Vec<(char, Vec<SourceEvent>)>,
    /// The wait-time event of each edge; an unmapped edge falls back to
    /// `default_duration`.
    pub duration_mapping: Vec<((char, char), Event)>,
    /// Dirty flag for generator processors.
    pub modified: bool,
    /// How often each symbol has been visited.
    pub symbol_ages: Vec<(char, u64)>,
    /// Fallback wait time, in milliseconds.
    pub default_duration: u64,
    /// The symbol the last transition left.
    pub last_transition: Option<char>,
    /// The current symbol; None until traversal starts.
    pub last_symbol: Option<char>,
    /// The most recent symbols, current one last, as far back as the
    /// automaton's longest context needs.
    pub history: Vec<char>,
}

/// Mathematical shape of a sequence generator.
#[verifier::ext_equal]
pub struct SeqGenView {
    pub name: Seq<char>,
    pub generator: PfaView,
    pub event_mapping: Seq<(char, Seq<SourceEventView>)>,
    pub duration_mapping: Seq<((char, char), EventView)>,
    pub modified: bool,
    pub symbol_ages: Seq<(char, u64)>,
    pub default_duration: u64,
    pub last_transition: Option<char>,
    pub last_symbol: Option<char>,
    pub history: Seq<char>,
}

impl View for MarkovSequenceGenerator {
    type V = SeqGenView;

    open spec fn view(&self) -> SeqGenView {
        SeqGenView {
            name: self.name@,
            generator: self.generator@,
            event_mapping: self.event_mapping@.map_values(
                |p: (char, Vec<SourceEvent>)| (p.0, sev_views(p.1@)),
            ),
            duration_mapping: self.duration_mapping@.map_values(
                |p: ((char, char), Event)| (p.0, p.1@),
            ),
            modified: self.modified,
            symbol_ages: self.symbol_ages@,
            default_duration: self.default_duration,
            last_transition: self.last_transition,
            last_symbol: self.last_symbol,
            history: self.history@,
        }
    }
}

/// The generator with its cursor started: a fresh generator steps onto the
/// least symbol of the alphabet; one already started, or one over an empty
/// alphabet, is unchanged.
pub open spec fn spec_started(g: SeqGenView) -> SeqGenView {
    if g.last_symbol is Some || g.generator.alphabet.len() == 0 {
        g
    } else {
        SeqGenView {
            last_symbol: Some(min_char(g.generator.alphabet)),
            history: seq![min_char(g.generator.alphabet)],
            ..g
        }
    }
}

/// The generator after stepping from its current symbol to `next`: the
/// cursor moves, the history keeps the most recent symbols up to the
/// longest context the automaton can ask about (at least one), and the age
/// of `next` is bumped. Everything else stands.
pub open spec fn spec_stepped(g: SeqGenView, next: char) -> SeqGenView {
    let cap = if max_source_len(g.generator) >= 1 {
        max_source_len(g.generator)
    } else {
        1
    };
    SeqGenView {
        last_transition: g.last_symbol,
        last_symbol: Some(next),
        history: truncated(g.history.push(next), cap),
        symbol_ages: ages_bumped(g.symbol_ages, next),
        ..g
    }
}

/// The wait-time event of the step from `c` to `next`: the mapped edge
/// event, or the synthetic default-duration event for an unmapped edge.
pub open spec fn spec_transition_event(g: SeqGenView, c: char, next: char) -> EventView {
    match edge_lookup(g.duration_mapping, (c, next)) {
        Some(e) => e,
        None => duration_event_view(g.default_duration),
    }
}

/// The event batch of the current symbol: what the mapping binds to it, or
/// nothing for an unmapped symbol (a rest) or a cursor not yet started.
pub open spec fn spec_current_events(g: SeqGenView) -> Seq<SourceEventView> {
    match g.last_symbol {
        None => Seq::empty(),
        Some(c) => match key_lookup(g.event_mapping, c) {
            Some(evs) => evs,
            None => Seq::empty(),
        },
    }
}

/// A cursor that has not started yet has no history either.
pub open spec fn cursor_wf(g: SeqGenView) -> bool {
    g.last_symbol is None ==> g.history.len() == 0
}

/// How one traversal step under draw `r` relates the new generator state
/// and the returned wait-time event to the prior state: the cursor starts
/// if needed, the weighted choice at the current context picks the next
/// symbol, the cursor moves there, and the edge's wait-time event (or the
/// default one) comes back. Over an empty alphabet nothing moves.
pub open spec fn transition_post(pre: SeqGenView, post: SeqGenView, ev: EventView, r: int) -> bool {
    let started = spec_started(pre);
    match started.last_symbol {
        None => post == started && ev == duration_event_view(started.default_duration),
        Some(c) => {
            let next = next_symbol_spec(started.generator, started.history, c, r);
            &&& post == spec_stepped(started, next)
            &&& ev == spec_transition_event(started, c, next)
        },
    }
}

/// The spec-level first-key index agrees with an element-wise match.
proof fn lemma_find_key_agrees<V>(m: Seq<(char, V)>, c: char, j: int)
    requires
        0 <= j < m.len(),
        m[j].0 == c,
        forall|k: int| 0 <= k < j ==> m[k].0 != c,
    ensures
        find_key(m, c) == j,
    decreases m.len(),
{
    if j > 0 {
        assert(forall|k: int| 0 <= k < j - 1 ==> m.drop_first()[k] == m[k + 1] && m[k + 1].0 != c);
        lemma_find_key_agrees(m.drop_first(), c, j - 1);
    }
}

/// When no entry carries the key, the spec-level search misses too.
proof fn lemma_find_key_none<V>(m: Seq<(char, V)>, c: char)
    requires
        forall|k: int| 0 <= k < m.len() ==> m[k].0 != c,
    ensures
        find_key(m, c) == -1,
    decreases m.len(),
{
    if m.len() > 0 {
        assert(forall|k: int|
            0 <= k < m.len() - 1 ==> m.drop_first()[k] == m[k + 1] && m[k + 1].0 != c);
        lemma_find_key_none(m.drop_first(), c);
    }
}

/// Two key-value lists with the same keys in the same places are searched
/// alike, whatever their values.
proof fn lemma_find_key_same_keys<V, W>(a: Seq<(char, V)>, b: Seq<(char, W)>, c: char)
    requires
        a.len() == b.len(),
        forall|k: int| 0 <= k < a.len() ==> (#[trigger] a[k]).0 == b[k].0,
    ensures
        find_key(a, c) == find_key(b, c),
    decreases a.len(),
{
    if a.len() > 0 {
        assert(forall|k: int|
            0 <= k < a.len() - 1 ==> (#[trigger] a.drop_first()[k]).0 == a[k + 1].0 && b.drop_first()[k].0
                == b[k + 1].0);
        lemma_find_key_same_keys(a.drop_first(), b.drop_first(), c);
    }
}

/// The spec-level first-edge index agrees with an element-wise match.
pub proof fn lemma_find_edge_agrees<V>(m: Seq<((char, char), V)>, e: (char, char), j: int)
    requires
        0 <= j < m.len(),
        m[j].0.0 == e.0 && m[j].0.1 == e.1,
        forall|k: int| 0 <= k < j ==> !((#[trigger] m[k]).0.0 == e.0 && m[k].0.1 == e.1),
    ensures
        find_edge(m, e) == j,
    decreases m.len(),
{
    if j > 0 {
        assert(forall|k: int|
            0 <= k < j - 1 ==> m.drop_first()[k] == m[k + 1] && !((#[trigger] m.drop_first()[k]).0.0
                == e.0 && m.drop_first()[k].0.1 == e.1));
        lemma_find_edge_agrees(m.drop_first(), e, j - 1);
    }
}

/// When no entry carries the edge, the spec-level search misses too.
pub proof fn lemma_find_edge_none<V>(m: Seq<((char, char), V)>, e: (char, char))
    requires
        forall|k: int| 0 <= k < m.len() ==> !((#[trigger] m[k]).0.0 == e.0 && m[k].0.1 == e.1),
    ensures
        find_edge(m, e) == -1,
    decreases m.len(),
{
    if m.len() > 0 {
        assert(forall|k: int|
            0 <= k < m.len() - 1 ==> m.drop_first()[k] == m[k + 1] && !((#[trigger] m.drop_first()[k]).0.0
                == e.0 && m.drop_first()[k].0.1 == e.1));
        lemma_find_edge_none(m.drop_first(), e);
    }
}

/// Two edge-value lists with the same edges in the same places are
/// searched alike, whatever their values.
proof fn lemma_find_edge_same_keys<V, W>(
    a: Seq<((char, char), V)>,
    b: Seq<((char, char), W)>,
    e: (char, char),
)
    requires
        a.len() == b.len(),
        forall|k: int| 0 <= k < a.len() ==> (#[trigger] a[k]).0 == b[k].0,
    ensures
        find_edge(a, e) == find_edge(b, e),
    decreases a.len(),
{
    if a.len() > 0 {
        assert(forall|k: int|
            0 <= k < a.len() - 1 ==> (#[trigger] a.drop_first()[k]).0 == a[k + 1].0 && b.drop_first()[k].0
                == b[k + 1].0);
        lemma_find_edge_same_keys(a.drop_first(), b.drop_first(), e);
    }
}

/// Index of the first entry keyed by `c`, executably.
fn find_key_index<V>(m: &Vec<(char, V)>, c: char) -> (r: Option<usize>)
    ensures
        match r {
            Some(j) => find_key(m@, c) == j as int && j < m@.len(),
            None => find_key(m@, c) == -1,
        },
{
    let mut i: usize = 0;
    while i < m.len()
        invariant
            i <= m@.len(),
            forall|k: int| 0 <= k < i ==> (#[trigger] m@[k]).0 != c,
        decreases m@.len() - i,
    {
        if m[i].0 == c {
            proof {
                lemma_find_key_agrees(m@, c, i as int);
            }
            return Some(i);
        }
        i += 1;
    }
    proof {
        lemma_find_key_none(m@, c);
    }
    None
}

/// Index of the first entry keyed by the edge `e`, executably.
fn find_edge_index<V>(m: &Vec<((char, char), V)>, e: (char, char)) -> (r: Option<usize>)
    ensures
        match r {
            Some(j) => find_edge(m@, e) == j as int && j < m@.len(),
            None => find_edge(m@, e) == -1,
        },
{
    let mut i: usize = 0;
    while i < m.len()
        invariant
            i <= m@.len(),
            forall|k: int| 0 <= k < i ==> !((#[trigger] m@[k]).0.0 == e.0 && m@[k].0.1 == e.1),
        decreases m@.len() - i,
    {
        if m[i].0.0 == e.0 && m[i].0.1 == e.1 {
            proof {
                lemma_find_edge_agrees(m@, e, i as int);
            }
            return Some(i);
        }
        i += 1;
    }
    proof {
        lemma_find_edge_none(m@, e);
    }
    None
}

/// The least character of a non-empty vector, executably.
fn min_char_of(v: &Vec<char>) -> (c: char)
    requires
        v@.len() >= 1,
    ensures
        c == min_char(v@),
{
    let mut m: char = v[0];
    let mut i: usize = 1;
    while i < v.len()
        invariant
            1 <= i <= v@.len(),
            m == min_upto(v@, i as int),
        decreases v@.len() - i,
    {
        if v[i] < m {
            m = v[i];
        }
        i += 1;
    }
    m
}

/// The synthetic transition event carrying `d` milliseconds.
fn make_duration_event(d: u64) -> (ev: Event)
    requires
        d <= MAX_DURATION_MS,
    ensures
        ev@ == duration_event_view(d),
{
    let mut ev = Event::with_name("transition".to_string());
    ev.set_param(SynthParameterLabel::Duration, ParamValue::Scalar((d * 1000) as i64));
    proof {
        assert(ev@ =~~= duration_event_view(d));
    }
    ev
}

impl MarkovSequenceGenerator {
    /// A generator over the given automaton and payloads, its cursor not
    /// yet started.
    pub fn assemble(
        name: String,
        generator: Pfa,
        event_mapping: Vec<(char, Vec<SourceEvent>)>,
        duration_mapping: Vec<((char, char), Event)>,
        default_duration: u64,
    ) -> (g: MarkovSequenceGenerator)
        ensures
            g@.name == name@,
            g@.generator == generator@,
            g@.event_mapping == event_mapping@.map_values(
                |p: (char, Vec<SourceEvent>)| (p.0, sev_views(p.1@)),
            ),
            g@.duration_mapping == duration_mapping@.map_values(
                |p: ((char, char), Event)| (p.0, p.1@),
            ),
            g@.modified == true,
            g@.symbol_ages.len() == 0,
            g@.default_duration == default_duration,
            g@.last_transition is None,
            g@.last_symbol is None,
            g@.history.len() == 0,
            cursor_wf(g@),
    {
        MarkovSequenceGenerator {
            name,
            generator,
            event_mapping,
            duration_mapping,
            modified: true,
            symbol_ages: Vec::new(),
            default_duration,
            last_transition: None,
            last_symbol: None,
            history: Vec::new(),
        }
    }

    /// Start the cursor if it has not started yet: a fresh generator
    /// steps onto the least symbol of a non-empty alphabet.
    fn start_cursor(&mut self)
        requires
            cursor_wf(old(self)@),
        ensures
            final(self)@ == spec_started(old(self)@),
            cursor_wf(final(self)@),
    {
        if self.last_symbol.is_none() && self.generator.alphabet.len() > 0 {
            let m = min_char_of(&self.generator.alphabet);
            self.last_symbol = Some(m);
            self.history.push(m);
            proof {
                assert(old(self)@.history =~= Seq::<char>::empty());
                assert(self@.history =~= seq![m]);
                assert(self@ =~~= spec_started(old(self)@));
            }
        } else {
            proof {
                assert(self@ =~~= spec_started(old(self)@));
            }
        }
    }

    /// The event batch of the current state, the cursor starting on first
    /// use: what the event mapping binds to the current symbol, or an
    /// empty batch for an unmapped symbol (a rest) or an empty automaton.
    /// Only the cursor can move; automaton and mappings stand.
    pub fn current_events(&mut self) -> (evs: Vec<SourceEvent>)
        requires
            cursor_wf(old(self)@),
        ensures
            final(self)@ == spec_started(old(self)@),
            cursor_wf(final(self)@),
            sev_views(evs@) == spec_current_events(final(self)@),
    {
        self.start_cursor();
        proof {
            lemma_find_key_same_keys(self.event_mapping@, self@.event_mapping, '0');
        }
        let res: Vec<SourceEvent> = match self.last_symbol {
            None => Vec::new(),
            Some(c) => {
                proof {
                    lemma_find_key_same_keys(self.event_mapping@, self@.event_mapping, c);
                }
                match find_key_index(&self.event_mapping, c) {
                    Some(j) => {
                        let evs = clone_source_events(&self.event_mapping[j].1);
                        proof {
                            assert(self@.event_mapping[j as int].1 == sev_views(
                                self.event_mapping@[j as int].1@,
                            ));
                        }
                        evs
                    },
                    None => Vec::new(),
                }
            },
        };
        res
    }

    /// One step of traversal under the given draw: sample the weighted
    /// choice at the current context (longest matching context first),
    /// move the cursor, and hand back the wait-time event of the edge
    /// taken (or the default for an unmapped edge). An automaton with no
    /// matching context, and so the single-state automaton, self-loops.
    /// Over an empty alphabet nothing moves and the default wait comes
    /// back. Automaton and mappings are read, never written.
    pub fn transition_with_draw(&mut self, r: u32) -> (ev: Event)
        requires
            r < PROB_ONE,
            cursor_wf(old(self)@),
            old(self)@.default_duration <= MAX_DURATION_MS,
        ensures
            transition_post(old(self)@, final(self)@, ev@, r as int),
            cursor_wf(final(self)@),
    {
        self.start_cursor();
        let cur_opt = self.last_symbol;
        match cur_opt {
            None => {
                let ev = make_duration_event(self.default_duration);
                ev
            },
            Some(c) => {
                let ghost started = self@;
                let next = self.generator.transition_for_draw(&self.history, c, r);
                // bump the age of the symbol stepped onto
                match find_key_index(&self.symbol_ages, next) {
                    Some(j) => {
                        let v = self.symbol_ages[j].1;
                        let nv: u64 = if v == u64::MAX {
                            v
                        } else {
                            v + 1
                        };
                        self.symbol_ages.set(j, (next, nv));
                    },
                    None => {
                        self.symbol_ages.push((next, 1));
                    },
                }
                self.last_transition = Some(c);
                self.last_symbol = Some(next);
                self.history.push(next);
                let maxlen = self.generator.max_context_len();
                let cap: usize = if maxlen >= 1 {
                    maxlen
                } else {
                    1
                };
                let ghost pushed = self.history@;
                proof {
                    assert(self.symbol_ages@ == ages_bumped(started.symbol_ages, next));
                    assert(self@ == (SeqGenView {
                        history: self.history@,
                        ..spec_stepped(started, next)
                    }));
                }
                while self.history.len() > cap
                    invariant
                        cap >= 1,
                        cap as int == (if max_source_len(started.generator) >= 1 {
                            max_source_len(started.generator)
                        } else {
                            1
                        }),
                        truncated(self.history@, cap as int) == truncated(pushed, cap as int),
                        self@ == (SeqGenView {
                            history: self.history@,
                            ..spec_stepped(started, next)
                        }),
                    decreases self.history@.len(),
                {
                    proof {
                        let h = self.history@;
                        assert(h.remove(0) =~= h.drop_first());
                        assert(h.skip(h.len() - cap) =~= h.drop_first().skip(
                            h.drop_first().len() - cap,
                        ));
                        assert(truncated(h.drop_first(), cap as int) == truncated(h, cap as int));
                    }
                    self.history.remove(0);
                }
                proof {
                    assert(truncated(self.history@, cap as int) =~= self.history@);
                    assert(self@ =~~= spec_stepped(started, next));
                }
                let ev = match find_edge_index(&self.duration_mapping, (c, next)) {
                    Some(j) => {
                        let evx = clone_event(&self.duration_mapping[j].1);
                        proof {
                            lemma_find_edge_same_keys(
                                self.duration_mapping@,
                                self@.duration_mapping,
                                (c, next),
                            );
                            assert(self@.duration_mapping[j as int].1
                                == self.duration_mapping@[j as int].1@);
                        }
                        evx
                    },
                    None => {
                        proof {
                            lemma_find_edge_same_keys(
                                self.duration_mapping@,
                                self@.duration_mapping,
                                (c, next),
                            );
                        }
                        make_duration_event(self.default_duration)
                    },
                };
                ev
            },
        }
    }

    /// One step of traversal, the draw taken from the random number
    /// generator: whatever was drawn, the step and its wait-time event
    /// relate to the prior state as under some draw below `PROB_ONE`.
    pub fn current_transition(&mut self) -> (ev: Event)
        requires
            cursor_wf(old(self)@),
            old(self)@.default_duration <= MAX_DURATION_MS,
        ensures
            exists|r: int|
                0 <= r < PROB_ONE && #[trigger] transition_post(old(self)@, final(self)@, ev@, r),
            cursor_wf(final(self)@),
    {
        let r = crate::rng::random_below(PROB_ONE);
        let ev = self.transition_with_draw(r);
        proof {
            assert(transition_post(old(self)@, self@, ev@, r as int));
        }
        ev
    }
}

/// An opaque stream transformer: applied to the event batch of each tick,
/// in list order, before the batch is triggered.
#[derive(Clone, Copy, PartialEq, Eq, Structural, Debug)]
pub enum GeneratorProcessor {
    /// Plays the batch backwards.
    Reverse,
    /// Replaces the batch with silence.
    Mute,
}

/// An opaque duration transformer: applied to each tick's wait time, in
/// list order.
#[derive(Clone, Copy, PartialEq, Eq, Structural, Debug)]
pub enum TimeMod {
    /// Scales the wait time to the given percentage.
    Percent(u32),
}

/// What one processor makes of an event batch.
pub open spec fn apply_processor_spec(
    p: GeneratorProcessor,
    evs: Seq<SourceEventView>,
) -> Seq<SourceEventView> {
    match p {
        GeneratorProcessor::Reverse => evs.reverse(),
        GeneratorProcessor::Mute => Seq::empty(),
    }
}

/// What a processor list makes of an event batch, applied in order.
pub open spec fn apply_processors_spec(
    ps: Seq<GeneratorProcessor>,
    evs: Seq<SourceEventView>,
) -> Seq<SourceEventView>
    decreases ps.len(),
{
    if ps.len() == 0 {
        evs
    } else {
        apply_processors_spec(ps.drop_first(), apply_processor_spec(ps[0], evs))
    }
}

/// What one duration transformer makes of a wait time, saturating at the
/// top of the clock.
pub open spec fn apply_time_mod_spec(t: TimeMod, d: u64) -> u64 {
    match t {
        TimeMod::Percent(p) => if d * p / 100 > u64::MAX {
            u64::MAX
        } else {
            (d * p / 100) as u64
        },
    }
}

/// What a duration transformer list makes of a wait time, in order.
pub open spec fn apply_time_mods_spec(ts: Seq<TimeMod>, d: u64) -> u64
    decreases ts.len(),
{
    if ts.len() == 0 {
        d
    } else {
        apply_time_mods_spec(ts.drop_first(), apply_time_mod_spec(ts[0], d))
    }
}

/// One processor's work, executably.
fn apply_processor(p: GeneratorProcessor, evs: Vec<SourceEvent>) -> (res: Vec<SourceEvent>)
    ensures
        sev_views(res@) == apply_processor_spec(p, sev_views(evs@)),
{
    match p {
        GeneratorProcessor::Reverse => {
            let mut res: Vec<SourceEvent> = Vec::new();
            let mut i: usize = evs.len();
            while i > 0
                invariant
                    i <= evs@.len(),
                    res@.len() == evs@.len() - i,
                    forall|k: int|
                        0 <= k < res@.len() ==> (#[trigger] res@[k])@ == evs@[evs@.len() - 1 - k]@,
                decreases i,
            {
                i -= 1;
                res.push(crate::events::clone_source_event(&evs[i]));
            }
            proof {
                assert(sev_views(res@) =~= sev_views(evs@).reverse());
            }
            res
        },
        GeneratorProcessor::Mute => {
            let res: Vec<SourceEvent> = Vec::new();
            proof {
                assert(sev_views(res@) =~= Seq::<SourceEventView>::empty());
            }
            res
        },
    }
}

/// A processor list's work on an event batch, in list order.
pub fn apply_processors(ps: &Vec<GeneratorProcessor>, evs: Vec<SourceEvent>) -> (res: Vec<
    SourceEvent,
>)
    ensures
        sev_views(res@) == apply_processors_spec(ps@, sev_views(evs@)),
{
    let mut cur = evs;
    let mut i: usize = 0;
    proof {
        assert(ps@.skip(0) =~= ps@);
    }
    while i < ps.len()
        invariant
            i <= ps@.len(),
            apply_processors_spec(ps@.skip(i as int), sev_views(cur@)) == apply_processors_spec(
                ps@,
                sev_views(evs@),
            ),
        decreases ps@.len() - i,
    {
        proof {
            assert(ps@.skip(i as int)[0] == ps@[i as int]);
            assert(ps@.skip(i as int).drop_first() =~= ps@.skip(i + 1 as int));
        }
        cur = apply_processor(ps[i], cur);
        i += 1;
    }
    proof {
        assert(ps@.skip(ps@.len() as int) =~= Seq::<GeneratorProcessor>::empty());
    }
    cur
}

/// A duration transformer list's work on a wait time, in list order.
pub fn apply_time_mods(ts: &Vec<TimeMod>, d: u64) -> (res: u64)
    ensures
        res == apply_time_mods_spec(ts@, d),
{
    let mut cur = d;
    let mut i: usize = 0;
    proof {
        assert(ts@.skip(0) =~= ts@);
    }
    while i < ts.len()
        invariant
            i <= ts@.len(),
            apply_time_mods_spec(ts@.skip(i as int), cur) == apply_time_mods_spec(ts@, d),
        decreases ts@.len() - i,
    {
        proof {
            assert(ts@.skip(i as int)[0] == ts@[i as int]);
            assert(ts@.skip(i as int).drop_first() =~= ts@.skip(i + 1 as int));
        }
        match ts[i] {
            TimeMod::Percent(p) => {
                proof {
                    assert((cur as int) * (p as int) <= 0xFFFF_FFFF_FFFF_FFFFu64 * 0xFFFF_FFFFu32)
                        by (nonlinear_arith)
                        requires
                            cur <= 0xFFFF_FFFF_FFFF_FFFFu64,
                            p <= 0xFFFF_FFFFu32,
                    ;
                }
                let wide: u128 = (cur as u128) * (p as u128) / 100;
                cur = if wide > u64::MAX as u128 {
                    u64::MAX
                } else {
                    wide as u64
                };
            },
        }
        i += 1;
    }
    proof {
        assert(ts@.skip(ts@.len() as int) =~= Seq::<TimeMod>::empty());
    }
    cur
}

/// A named, taggable voice definition: one root sequence generator plus
/// its stream and duration transformers.
pub struct Generator {
    /// The tag set identifying this voice in the session.
    pub id_tags: Vec<String>,
    /// The sequence generator that produces the voice's events.
    pub root_generator: MarkovSequenceGenerator,
    /// Stream transformers, applied to each event batch in order.
    pub processors: Vec<GeneratorProcessor>,
    /// Duration transformers, applied to each wait time in order.
    pub time_mods: Vec<TimeMod>,
    /// When replacing a running voice, keep its automaton and cursor.
    pub keep_root: bool,
}

/// Mathematical shape of a voice definition.
#[verifier::ext_equal]
pub struct GenView {
    pub id_tags: Seq<Seq<char>>,
    pub root_generator: SeqGenView,
    pub processors: Seq<GeneratorProcessor>,
    pub time_mods: Seq<TimeMod>,
    pub keep_root: bool,
}

impl View for Generator {
    type V = GenView;

    open spec fn view(&self) -> GenView {
        GenView {
            id_tags: self.id_tags@.map_values(|s: String| s@),
            root_generator: self.root_generator@,
            processors: self.processors@,
            time_mods: self.time_mods@,
            keep_root: self.keep_root,
        }
    }
}

} // verus!
