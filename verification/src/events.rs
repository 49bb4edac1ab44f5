//! Events and their parameters: what a state of a running sequence emits
//! towards synthesis. Scalar parameter values are fixed-point numbers in
//! thousandths, so a channel position of 1.0 is stored as 1000.

use vstd::prelude::*;
use vstd::string::StrSliceExecFns;

verus! {

/// A filter choice inside a sampler synth.
#[derive(Clone, Copy, PartialEq, Eq, Structural, Debug)]
pub enum FilterType {
    Dummy,
    BiquadHpf12dB,
    Lpf18,
    PeakEQ,
}

/// The parameter labels a triggered event can carry.
#[derive(Clone, Copy, PartialEq, Eq, Structural, Debug)]
pub enum SynthParameterLabel {
    PitchFrequency,
    PitchNote,
    Attack,
    Release,
    Sustain,
    ChannelPosition,
    EnvelopeLevel,
    OscillatorAmplitude,
    Duration,
    LowpassCutoffFrequency,
    LowpassFilterDistortion,
    LowpassQFactor,
    LowpassFilterType,
    HighpassCutoffFrequency,
    HighpassQFactor,
    HighpassFilterType,
    PeakFrequency,
    Peak1Frequency,
    Peak1Bandwidth,
    Peak1Gain,
    Peak2Frequency,
    Peak2Bandwidth,
    Peak2Gain,
    Pulsewidth,
    PlaybackRate,
    PlaybackStart,
    PlaybackLoop,
    SampleBufferNumber,
    ReverbMix,
    DelayMix,
    Wavetable,
    Wavematrix,
    WavematrixTableIndex,
}

/// The value of one parameter: a fixed-point scalar in thousandths, or a
/// filter choice.
#[derive(Clone, Copy, PartialEq, Eq, Structural, Debug)]
pub enum ParamValue {
    Scalar(i64),
    Filter(FilterType),
}

/// The synthesis function an event name stands for.
#[derive(Clone, Copy, PartialEq, Eq, Structural, Debug)]
pub enum SynthType {
    SineSynth,
    LFTriangleSynth,
    LFSawSynth,
    WTSawSynth,
    FMSawSynth,
    FMSquareSynth,
    FMTriSynth,
    LFSquareSynth,
    LFCubSynth,
    RissetBell,
    Sampler(FilterType, FilterType, FilterType, FilterType),
    LiveSampler,
    FrozenSampler,
    Wavetable,
    Wavematrix,
}

/// A sound event: a synth name and its parameter set.
pub struct Event {
    /// Which synth to trigger; "silence" is never triggered.
    pub name: String,
    /// The parameter set, labels unique, in insertion order.
    pub params: Vec<(SynthParameterLabel, ParamValue)>,
}

/// Mathematical shape of an `Event`.
#[verifier::ext_equal]
pub struct EventView {
    pub name: Seq<char>,
    pub params: Seq<(SynthParameterLabel, ParamValue)>,
}

impl View for Event {
    type V = EventView;

    open spec fn view(&self) -> EventView {
        EventView { name: self.name@, params: self.params@ }
    }
}

/// A control event: payload for the out-of-core control path, carried
/// through the sequence untriggered.
pub struct ControlEvent {
    /// A label naming what the control path should do.
    pub name: String,
}

/// Mathematical shape of a `ControlEvent`.
#[verifier::ext_equal]
pub struct ControlEventView {
    pub name: Seq<char>,
}

impl View for ControlEvent {
    type V = ControlEventView;

    open spec fn view(&self) -> ControlEventView {
        ControlEventView { name: self.name@ }
    }
}

/// What a cycle step or mapped state can emit.
pub enum SourceEvent {
    Sound(Event),
    Control(ControlEvent),
}

/// Mathematical shape of a `SourceEvent`.
#[verifier::ext_equal]
pub enum SourceEventView {
    Sound(EventView),
    Control(ControlEventView),
}

impl View for SourceEvent {
    type V = SourceEventView;

    open spec fn view(&self) -> SourceEventView {
        match self {
            SourceEvent::Sound(e) => SourceEventView::Sound(e@),
            SourceEvent::Control(c) => SourceEventView::Control(c@),
        }
    }
}

/// The shapes of a list of source events.
pub open spec fn sev_views(s: Seq<SourceEvent>) -> Seq<SourceEventView> {
    s.map_values(|e: SourceEvent| e@)
}

/// Index of the first parameter entry with this label, or -1.
pub open spec fn find_param(
    params: Seq<(SynthParameterLabel, ParamValue)>,
    label: SynthParameterLabel,
) -> int
    decreases params.len(),
{
    if params.len() == 0 {
        -1
    } else if params[0].0 == label {
        0
    } else {
        let r = find_param(params.drop_first(), label);
        if r < 0 {
            -1
        } else {
            r + 1
        }
    }
}

/// The value bound to this label, if any.
pub open spec fn param_lookup(
    params: Seq<(SynthParameterLabel, ParamValue)>,
    label: SynthParameterLabel,
) -> Option<ParamValue> {
    let j = find_param(params, label);
    if j < 0 {
        None
    } else {
        Some(params[j].1)
    }
}

/// The parameter list after binding `label` to `value`: replaced in place
/// if present, appended otherwise.
pub open spec fn param_bound(
    params: Seq<(SynthParameterLabel, ParamValue)>,
    label: SynthParameterLabel,
    value: ParamValue,
) -> Seq<(SynthParameterLabel, ParamValue)> {
    let j = find_param(params, label);
    if j < 0 {
        params.push((label, value))
    } else {
        params.update(j, (label, value))
    }
}

/// The spec-level first-match index agrees with an element-wise match.
pub proof fn lemma_find_param_agrees(
    params: Seq<(SynthParameterLabel, ParamValue)>,
    label: SynthParameterLabel,
    j: int,
)
    requires
        0 <= j < params.len(),
        params[j].0 == label,
        forall|k: int| 0 <= k < j ==> params[k].0 != label,
    ensures
        find_param(params, label) == j,
    decreases params.len(),
{
    if j > 0 {
        assert(forall|k: int|
            0 <= k < j - 1 ==> params.drop_first()[k] == params[k + 1] && params[k
                + 1].0 != label);
        lemma_find_param_agrees(params.drop_first(), label, j - 1);
    }
}

/// When no entry carries the label, the spec-level search misses too.
pub proof fn lemma_find_param_none(
    params: Seq<(SynthParameterLabel, ParamValue)>,
    label: SynthParameterLabel,
)
    requires
        forall|k: int| 0 <= k < params.len() ==> params[k].0 != label,
    ensures
        find_param(params, label) == -1,
    decreases params.len(),
{
    if params.len() > 0 {
        assert(forall|k: int|
            0 <= k < params.len() - 1 ==> params.drop_first()[k] == params[k + 1] && params[k
                + 1].0 != label);
        lemma_find_param_none(params.drop_first(), label);
    }
}

/// Index of the first parameter entry with this label, executably.
fn find_param_index(
    params: &Vec<(SynthParameterLabel, ParamValue)>,
    label: SynthParameterLabel,
) -> (r: Option<usize>)
    ensures
        match r {
            Some(j) => find_param(params@, label) == j as int && j < params@.len(),
            None => find_param(params@, label) == -1,
        },
{
    let mut i: usize = 0;
    while i < params.len()
        invariant
            i <= params@.len(),
            forall|k: int| 0 <= k < i ==> params@[k].0 != label,
        decreases params@.len() - i,
    {
        if params[i].0 == label {
            proof {
                lemma_find_param_agrees(params@, label, i as int);
            }
            return Some(i);
        }
        i += 1;
    }
    proof {
        lemma_find_param_none(params@, label);
    }
    None
}

impl Event {
    /// A fresh event with no parameters.
    pub fn with_name(name: String) -> (e: Event)
        ensures
            e@.name == name@,
            e@.params.len() == 0,
    {
        Event { name, params: Vec::new() }
    }

    /// The value bound to this label, if any.
    pub fn get_param(&self, label: SynthParameterLabel) -> (r: Option<ParamValue>)
        ensures
            r == param_lookup(self@.params, label),
    {
        match find_param_index(&self.params, label) {
            Some(j) => Some(self.params[j].1),
            None => None,
        }
    }

    /// Bind `label` to `value`: replaced in place if present, appended
    /// otherwise.
    pub fn set_param(&mut self, label: SynthParameterLabel, value: ParamValue)
        ensures
            final(self)@.name == old(self)@.name,
            final(self)@.params == param_bound(old(self)@.params, label, value),
    {
        match find_param_index(&self.params, label) {
            Some(j) => {
                self.params.set(j, (label, value));
            },
            None => {
                self.params.push((label, value));
            },
        }
    }
}

/// Element-wise string equality.
pub fn str_eq(a: &str, b: &str) -> (r: bool)
    ensures
        r == (a@ == b@),
{
    let la = a.unicode_len();
    let lb = b.unicode_len();
    if la != lb {
        return false;
    }
    let mut i: usize = 0;
    while i < la
        invariant
            la == a@.len(),
            lb == b@.len(),
            la == lb,
            i <= la,
            forall|k: int| 0 <= k < i ==> a@[k] == b@[k],
        decreases la - i,
    {
        if a.get_char(i) != b.get_char(i) {
            return false;
        }
        i += 1;
    }
    proof {
        assert(a@ =~= b@);
    }
    true
}

/// A deep copy of an event.
pub fn clone_event(e: &Event) -> (r: Event)
    ensures
        r@ == e@,
{
    let name = e.name.clone();
    let mut params: Vec<(SynthParameterLabel, ParamValue)> = Vec::new();
    let mut i: usize = 0;
    while i < e.params.len()
        invariant
            i <= e.params@.len(),
            params@ == e.params@.take(i as int),
        decreases e.params@.len() - i,
    {
        params.push(e.params[i]);
        proof {
            assert(params@ =~= e.params@.take(i + 1 as int));
        }
        i += 1;
    }
    proof {
        assert(e.params@.take(e.params@.len() as int) =~= e.params@);
    }
    let r = Event { name, params };
    proof {
        assert(r@ =~~= e@);
    }
    r
}

/// A deep copy of a source event.
pub fn clone_source_event(e: &SourceEvent) -> (r: SourceEvent)
    ensures
        r@ == e@,
{
    match e {
        SourceEvent::Sound(ev) => SourceEvent::Sound(clone_event(ev)),
        SourceEvent::Control(c) => SourceEvent::Control(ControlEvent { name: c.name.clone() }),
    }
}

/// A deep copy of a batch of source events.
pub fn clone_source_events(evs: &Vec<SourceEvent>) -> (r: Vec<SourceEvent>)
    ensures
        sev_views(r@) == sev_views(evs@),
{
    let mut r: Vec<SourceEvent> = Vec::new();
    let mut i: usize = 0;
    while i < evs.len()
        invariant
            i <= evs@.len(),
            r@.len() == i,
            forall|k: int| 0 <= k < i ==> (#[trigger] r@[k])@ == evs@[k]@,
        decreases evs@.len() - i,
    {
        r.push(clone_source_event(&evs[i]));
        i += 1;
    }
    proof {
        assert(sev_views(r@) =~= sev_views(evs@));
    }
    r
}

} // verus!
