//! The per-voice scheduler: its lifecycle state machine and the tick that
//! reads the current event batch, stamps trigger commands with the logical
//! stream clock, advances the traversal, and says how long to wait. The
//! host timer performs the waiting and the synthesis calls; every decision
//! is made here, against the logical clock, so jitter cannot accumulate.

use vstd::prelude::*;
use crate::events::{
    param_lookup, sev_views, str_eq, EventView, ParamValue, SourceEvent, SourceEventView,
    SynthParameterLabel,
};
use crate::generator::{
    apply_processors, apply_processors_spec, apply_time_mods, apply_time_mods_spec, cursor_wf,
    duration_event_view, spec_current_events, spec_started, spec_stepped, spec_transition_event,
    GenView, Generator, SeqGenView, MAX_DURATION_MS,
};
use crate::markov::{next_symbol_spec, PROB_ONE};
use crate::session::OutputMode;

verus! {

/// Fixed look-ahead added to the stream clock when stamping triggers, in
/// milliseconds.
pub const LATENCY_MS: u64 = 50;

/// Lifecycle of one voice's scheduler.
#[derive(Clone, Copy, PartialEq, Eq, Structural, Debug)]
pub enum SchedulerState {
    Idle,
    Running,
    Stopped,
}

/// One voice's scheduler: the state machine the session drives. The
/// timer itself lives with the host; stopping is cooperative, the tick in
/// flight finishes.
pub struct Scheduler {
    /// Where the voice stands in its lifecycle.
    pub state: SchedulerState,
}

/// A stopped scheduler, whatever it did before.
pub open spec fn stop_spec(s: Scheduler) -> Scheduler {
    Scheduler { state: SchedulerState::Stopped }
}

impl Scheduler {
    /// A scheduler that has not started yet.
    pub fn new() -> (s: Scheduler)
        ensures
            s.state is Idle,
    {
        Scheduler { state: SchedulerState::Idle }
    }

    /// Start the voice: only an idle scheduler starts.
    pub fn start(&mut self)
        requires
            old(self).state is Idle,
        ensures
            final(self).state is Running,
    {
        self.state = SchedulerState::Running;
    }

    /// Stop the voice, cooperatively: from any state the scheduler is
    /// stopped afterwards, and stopping is idempotent.
    pub fn stop(&mut self)
        ensures
            *final(self) == stop_spec(*old(self)),
    {
        self.state = SchedulerState::Stopped;
    }
}

/// Stopping twice is stopping once: the state after two stops is the state
/// after one.
pub proof fn lemma_stop_idempotent(s: Scheduler)
    ensures
        stop_spec(stop_spec(s)) == stop_spec(s),
{
}

/// Saturating addition on the stream clock.
pub open spec fn sat_add64(a: u64, b: u64) -> u64 {
    if a + b > u64::MAX {
        u64::MAX
    } else {
        (a + b) as u64
    }
}

/// A channel position moved from the bipolar range (-1000 stands for -1.0,
/// 1000 for 1.0) to the unipolar one (0 to 1000), for stereo output.
pub open spec fn stereo_pos(v: int) -> int {
    if v < -1000 {
        0
    } else if (v + 1000) / 2 > i64::MAX {
        i64::MAX as int
    } else {
        (v + 1000) / 2
    }
}

/// A parameter list with the channel position remapped for stereo output;
/// any other output mode takes the parameters as they are.
pub open spec fn remap_params(
    params: Seq<(SynthParameterLabel, ParamValue)>,
    mode: OutputMode,
) -> Seq<(SynthParameterLabel, ParamValue)> {
    if mode is Stereo {
        params.map_values(
            |p: (SynthParameterLabel, ParamValue)|
                if p.0 is ChannelPosition && p.1 is Scalar {
                    (p.0, ParamValue::Scalar(stereo_pos(p.1->Scalar_0 as int) as i64))
                } else {
                    p
                },
        )
    } else {
        params
    }
}

/// One trigger handed to synthesis: which synth, with which parameters,
/// at which point of the logical stream clock.
pub struct TriggerCommand {
    /// The synth to trigger.
    pub name: String,
    /// Its parameters, channel position already remapped for the output
    /// mode.
    pub params: Vec<(SynthParameterLabel, ParamValue)>,
    /// When to sound, on the logical stream clock, in milliseconds.
    pub scheduled_time: u64,
}

/// Mathematical shape of a trigger command.
#[verifier::ext_equal]
pub struct TriggerView {
    pub name: Seq<char>,
    pub params: Seq<(SynthParameterLabel, ParamValue)>,
    pub scheduled_time: u64,
}

impl View for TriggerCommand {
    type V = TriggerView;

    open spec fn view(&self) -> TriggerView {
        TriggerView { name: self.name@, params: self.params@, scheduled_time: self.scheduled_time }
    }
}

/// The shapes of a list of trigger commands.
pub open spec fn trigger_views(s: Seq<TriggerCommand>) -> Seq<TriggerView> {
    s.map_values(|t: TriggerCommand| t@)
}

/// The triggers an event batch produces: every sound event, in batch
/// order, except those named "silence"; control events are not triggered.
pub open spec fn spec_trigger_batch(
    batch: Seq<SourceEventView>,
    mode: OutputMode,
    at: u64,
) -> Seq<TriggerView>
    decreases batch.len(),
{
    if batch.len() == 0 {
        Seq::empty()
    } else {
        let rest = spec_trigger_batch(batch.drop_first(), mode, at);
        match batch[0] {
            SourceEventView::Sound(e) => if e.name == "silence"@ {
                rest
            } else {
                seq![
                    TriggerView {
                        name: e.name,
                        params: remap_params(e.params, mode),
                        scheduled_time: at,
                    },
                ] + rest
            },
            SourceEventView::Control(_) => rest,
        }
    }
}

/// The wait time an edge's transition event asks for, in milliseconds: its
/// duration parameter (stored in fixed-point thousandths), or the fallback
/// when the parameter is missing or not a non-negative scalar.
pub open spec fn wait_of_event(ev: EventView, fallback: u64) -> u64 {
    match param_lookup(ev.params, SynthParameterLabel::Duration) {
        Some(ParamValue::Scalar(s)) => if s >= 0 {
            ((s as int) / 1000) as u64
        } else {
            fallback
        },
        _ => fallback,
    }
}

/// The transition event one tick draws from the generator under draw `r`.
pub open spec fn spec_tick_event(root: SeqGenView, r: int) -> EventView {
    let started = spec_started(root);
    match started.last_symbol {
        None => duration_event_view(started.default_duration),
        Some(c) => spec_transition_event(
            started,
            c,
            next_symbol_spec(started.generator, started.history, c, r),
        ),
    }
}

/// The generator state one tick leaves behind under draw `r`.
pub open spec fn spec_gen_stepped(root: SeqGenView, r: int) -> SeqGenView {
    let started = spec_started(root);
    match started.last_symbol {
        None => started,
        Some(c) => spec_stepped(
            started,
            next_symbol_spec(started.generator, started.history, c, r),
        ),
    }
}

/// The shared playback state of one running voice: what the scheduler's
/// timer and the session both reach, serialised by the voice's lock.
pub struct SchedulerData {
    /// The voice definition together with its traversal cursor.
    pub generator: Generator,
    /// The logical stream clock, in milliseconds.
    pub stream_time: u64,
    /// How output channels are laid out.
    pub mode: OutputMode,
}

/// Mathematical shape of the shared playback state.
#[verifier::ext_equal]
pub struct SchedDataView {
    pub generator: GenView,
    pub stream_time: u64,
    pub mode: OutputMode,
}

impl View for SchedulerData {
    type V = SchedDataView;

    open spec fn view(&self) -> SchedDataView {
        SchedDataView { generator: self.generator@, stream_time: self.stream_time, mode: self.mode }
    }
}

/// The playback state is fit for ticking: the cursor is well formed and
/// the fallback duration fits the parameter encoding.
pub open spec fn data_wf(d: SchedDataView) -> bool {
    &&& cursor_wf(d.generator.root_generator)
    &&& d.generator.root_generator.default_duration <= MAX_DURATION_MS
}

/// How one tick under draw `r` relates the new playback state, the
/// triggers and the wait to the prior state: the current batch runs
/// through the processors and is stamped `LATENCY_MS` past the stream
/// clock; the traversal advances by the weighted choice; the edge's wait
/// time runs through the duration transformers; and the stream clock
/// advances by exactly the returned wait, so the next deadline is computed
/// from the logical clock, never from wall-clock drift.
pub open spec fn tick_post(
    pre: SchedDataView,
    post: SchedDataView,
    cmds: Seq<TriggerView>,
    wait: u64,
    r: int,
) -> bool {
    let root = pre.generator.root_generator;
    let started = spec_started(root);
    let batch = apply_processors_spec(pre.generator.processors, spec_current_events(started));
    &&& cmds == spec_trigger_batch(batch, pre.mode, sat_add64(pre.stream_time, LATENCY_MS))
    &&& post.generator.root_generator == spec_gen_stepped(root, r)
    &&& wait == apply_time_mods_spec(
        pre.generator.time_mods,
        wait_of_event(spec_tick_event(root, r), started.default_duration),
    )
    &&& post.stream_time == sat_add64(pre.stream_time, wait)
    &&& post.mode == pre.mode
    &&& post.generator.id_tags == pre.generator.id_tags
    &&& post.generator.processors == pre.generator.processors
    &&& post.generator.time_mods == pre.generator.time_mods
    &&& post.generator.keep_root == pre.generator.keep_root
}

/// The triggers of an event batch, executably.
fn trigger_batch(batch: &Vec<SourceEvent>, mode: OutputMode, at: u64) -> (cmds: Vec<TriggerCommand>)
    ensures
        trigger_views(cmds@) == spec_trigger_batch(sev_views(batch@), mode, at),
{
    let mut cmds: Vec<TriggerCommand> = Vec::new();
    let mut i: usize = batch.len();
    let ghost bviews = sev_views(batch@);
    proof {
        assert(bviews.skip(batch@.len() as int) =~= Seq::<SourceEventView>::empty());
    }
    while i > 0
        invariant
            i <= batch@.len(),
            bviews == sev_views(batch@),
            trigger_views(cmds@) == spec_trigger_batch(bviews.skip(i as int), mode, at),
        decreases i,
    {
        i -= 1;
        proof {
            assert(bviews.skip(i as int)[0] == bviews[i as int]);
            assert(bviews.skip(i as int).drop_first() =~= bviews.skip(i + 1 as int));
        }
        match &batch[i] {
            SourceEvent::Sound(e) => {
                if !str_eq(e.name.as_str(), "silence") {
                    let mut params: Vec<(SynthParameterLabel, ParamValue)> = Vec::new();
                    let mut k: usize = 0;
                    while k < e.params.len()
                        invariant
                            k <= e.params@.len(),
                            params@ == remap_params(e.params@, mode).take(k as int),
                        decreases e.params@.len() - k,
                    {
                        let p = e.params[k];
                        let q: (SynthParameterLabel, ParamValue) = if mode
                            == OutputMode::Stereo {
                            match p {
                                (SynthParameterLabel::ChannelPosition, ParamValue::Scalar(v)) => {
                                    let w: i128 = v as i128 + 1000;
                                    let pos: i64 = if w < 0 {
                                        0
                                    } else if w / 2 > i64::MAX as i128 {
                                        i64::MAX
                                    } else {
                                        (w / 2) as i64
                                    };
                                    (SynthParameterLabel::ChannelPosition, ParamValue::Scalar(pos))
                                },
                                _ => p,
                            }
                        } else {
                            p
                        };
                        proof {
                            if mode is Stereo {
                                assert(remap_params(e.params@, mode)[k as int] == q);
                            }
                            assert(remap_params(e.params@, mode).take(k + 1 as int)
                                =~= remap_params(e.params@, mode).take(k as int).push(q));
                        }
                        params.push(q);
                        k += 1;
                    }
                    proof {
                        assert(remap_params(e.params@, mode).take(e.params@.len() as int)
                            =~= remap_params(e.params@, mode));
                    }
                    let cmd = TriggerCommand { name: e.name.clone(), params, scheduled_time: at };
                    cmds.insert(0, cmd);
                    proof {
                        assert(trigger_views(cmds@) =~= seq![
                            TriggerView {
                                name: e.name@,
                                params: remap_params(e.params@, mode),
                                scheduled_time: at,
                            },
                        ] + spec_trigger_batch(bviews.skip(i + 1 as int), mode, at));
                    }
                }
            },
            SourceEvent::Control(_) => {},
        }
    }
    proof {
        assert(bviews.skip(0) =~= bviews);
    }
    cmds
}

/// One tick under the given draw: hand back the triggers of the current
/// state and the wait until the next tick, advancing cursor and clock.
pub fn tick_with_draw(data: &mut SchedulerData, r: u32) -> (out: (Vec<TriggerCommand>, u64))
    requires
        r < PROB_ONE,
        data_wf(old(data)@),
    ensures
        tick_post(old(data)@, final(data)@, trigger_views(out.0@), out.1, r as int),
        data_wf(final(data)@),
{
    let evs = data.generator.root_generator.current_events();
    let batch = apply_processors(&data.generator.processors, evs);
    let at = if data.stream_time > u64::MAX - LATENCY_MS {
        u64::MAX
    } else {
        data.stream_time + LATENCY_MS
    };
    let cmds = trigger_batch(&batch, data.mode, at);
    let tev = data.generator.root_generator.transition_with_draw(r);
    let wait0: u64 = match tev.get_param(SynthParameterLabel::Duration) {
        Some(ParamValue::Scalar(s)) => if s >= 0 {
            (s / 1000) as u64
        } else {
            data.generator.root_generator.default_duration
        },
        _ => data.generator.root_generator.default_duration,
    };
    proof {
        assert(spec_started(old(data)@.generator.root_generator).default_duration == old(
            data,
        )@.generator.root_generator.default_duration);
    }
    let wait = apply_time_mods(&data.generator.time_mods, wait0);
    data.stream_time = if data.stream_time > u64::MAX - wait {
        u64::MAX
    } else {
        data.stream_time + wait
    };
    (cmds, wait)
}

/// One tick, the draw taken from the random number generator: whatever
/// was drawn, triggers, wait and new state relate to the prior state as
/// under some draw below `PROB_ONE`.
pub fn tick(data: &mut SchedulerData) -> (out: (Vec<TriggerCommand>, u64))
    requires
        data_wf(old(data)@),
    ensures
        exists|r: int|
            0 <= r < PROB_ONE && #[trigger] tick_post(
                old(data)@,
                final(data)@,
                trigger_views(out.0@),
                out.1,
                r,
            ),
        data_wf(final(data)@),
{
    let r = crate::rng::random_below(PROB_ONE);
    let out = tick_with_draw(data, r);
    proof {
        assert(tick_post(old(data)@, data@, trigger_views(out.0@), out.1, r as int));
    }
    out
}

} // verus!
