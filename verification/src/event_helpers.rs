//! Mapping of surface names to synthesis identities: short parameter
//! keywords to parameter labels, and event names to synth functions.

use vstd::prelude::*;
use crate::events::{
    str_eq, param_lookup, FilterType, ParamValue, SynthParameterLabel, SynthType,
};

verus! {

/// The parameter label a short keyword stands for; unknown keywords fall
/// back to the pitch frequency.
pub open spec fn spec_map_parameter(name: Seq<char>) -> SynthParameterLabel {
    if name == "freq"@ {
        SynthParameterLabel::PitchFrequency
    } else if name == "note"@ {
        SynthParameterLabel::PitchNote
    } else if name == "atk"@ {
        SynthParameterLabel::Attack
    } else if name == "rel"@ {
        SynthParameterLabel::Release
    } else if name == "sus"@ {
        SynthParameterLabel::Sustain
    } else if name == "pos"@ {
        SynthParameterLabel::ChannelPosition
    } else if name == "lvl"@ {
        SynthParameterLabel::EnvelopeLevel
    } else if name == "amp"@ {
        SynthParameterLabel::OscillatorAmplitude
    } else if name == "dur"@ {
        SynthParameterLabel::Duration
    } else if name == "lpf"@ {
        SynthParameterLabel::LowpassCutoffFrequency
    } else if name == "lpd"@ {
        SynthParameterLabel::LowpassFilterDistortion
    } else if name == "lpq"@ {
        SynthParameterLabel::LowpassQFactor
    } else if name == "lpt"@ {
        SynthParameterLabel::LowpassFilterType
    } else if name == "hpf"@ {
        SynthParameterLabel::HighpassCutoffFrequency
    } else if name == "hpq"@ {
        SynthParameterLabel::HighpassQFactor
    } else if name == "hpt"@ {
        SynthParameterLabel::HighpassFilterType
    } else if name == "pff"@ || name == "pff1"@ {
        SynthParameterLabel::Peak1Frequency
    } else if name == "pfbw"@ || name == "pfbw1"@ {
        SynthParameterLabel::Peak1Bandwidth
    } else if name == "pfg"@ || name == "pfg1"@ {
        SynthParameterLabel::Peak1Gain
    } else if name == "pff2"@ {
        SynthParameterLabel::Peak2Frequency
    } else if name == "pfbw2"@ {
        SynthParameterLabel::Peak2Bandwidth
    } else if name == "pfg2"@ {
        SynthParameterLabel::Peak2Gain
    } else if name == "pw"@ {
        SynthParameterLabel::Pulsewidth
    } else if name == "rate"@ {
        SynthParameterLabel::PlaybackRate
    } else if name == "start"@ {
        SynthParameterLabel::PlaybackStart
    } else if name == "loop"@ {
        SynthParameterLabel::PlaybackLoop
    } else if name == "bufnum"@ {
        SynthParameterLabel::SampleBufferNumber
    } else if name == "rev"@ {
        SynthParameterLabel::ReverbMix
    } else if name == "del"@ {
        SynthParameterLabel::DelayMix
    } else if name == "wt"@ || name == "wavetable"@ {
        SynthParameterLabel::Wavetable
    } else if name == "wm"@ || name == "wavematrix"@ {
        SynthParameterLabel::Wavematrix
    } else if name == "ti"@ || name == "tableindex"@ {
        SynthParameterLabel::WavematrixTableIndex
    } else {
        SynthParameterLabel::PitchFrequency
    }
}

/// The parameter label a short keyword stands for.
pub fn map_parameter(name: &str) -> (l: SynthParameterLabel)
    ensures
        l == spec_map_parameter(name@),
{
    if str_eq(name, "freq") {
        SynthParameterLabel::PitchFrequency
    } else if str_eq(name, "note") {
        SynthParameterLabel::PitchNote
    } else if str_eq(name, "atk") {
        SynthParameterLabel::Attack
    } else if str_eq(name, "rel") {
        SynthParameterLabel::Release
    } else if str_eq(name, "sus") {
        SynthParameterLabel::Sustain
    } else if str_eq(name, "pos") {
        SynthParameterLabel::ChannelPosition
    } else if str_eq(name, "lvl") {
        SynthParameterLabel::EnvelopeLevel
    } else if str_eq(name, "amp") {
        SynthParameterLabel::OscillatorAmplitude
    } else if str_eq(name, "dur") {
        SynthParameterLabel::Duration
    } else if str_eq(name, "lpf") {
        SynthParameterLabel::LowpassCutoffFrequency
    } else if str_eq(name, "lpd") {
        SynthParameterLabel::LowpassFilterDistortion
    } else if str_eq(name, "lpq") {
        SynthParameterLabel::LowpassQFactor
    } else if str_eq(name, "lpt") {
        SynthParameterLabel::LowpassFilterType
    } else if str_eq(name, "hpf") {
        SynthParameterLabel::HighpassCutoffFrequency
    } else if str_eq(name, "hpq") {
        SynthParameterLabel::HighpassQFactor
    } else if str_eq(name, "hpt") {
        SynthParameterLabel::HighpassFilterType
    } else if str_eq(name, "pff") || str_eq(name, "pff1") {
        SynthParameterLabel::Peak1Frequency
    } else if str_eq(name, "pfbw") || str_eq(name, "pfbw1") {
        SynthParameterLabel::Peak1Bandwidth
    } else if str_eq(name, "pfg") || str_eq(name, "pfg1") {
        SynthParameterLabel::Peak1Gain
    } else if str_eq(name, "pff2") {
        SynthParameterLabel::Peak2Frequency
    } else if str_eq(name, "pfbw2") {
        SynthParameterLabel::Peak2Bandwidth
    } else if str_eq(name, "pfg2") {
        SynthParameterLabel::Peak2Gain
    } else if str_eq(name, "pw") {
        SynthParameterLabel::Pulsewidth
    } else if str_eq(name, "rate") {
        SynthParameterLabel::PlaybackRate
    } else if str_eq(name, "start") {
        SynthParameterLabel::PlaybackStart
    } else if str_eq(name, "loop") {
        SynthParameterLabel::PlaybackLoop
    } else if str_eq(name, "bufnum") {
        SynthParameterLabel::SampleBufferNumber
    } else if str_eq(name, "rev") {
        SynthParameterLabel::ReverbMix
    } else if str_eq(name, "del") {
        SynthParameterLabel::DelayMix
    } else if str_eq(name, "wt") || str_eq(name, "wavetable") {
        SynthParameterLabel::Wavetable
    } else if str_eq(name, "wm") || str_eq(name, "wavematrix") {
        SynthParameterLabel::Wavematrix
    } else if str_eq(name, "ti") || str_eq(name, "tableindex") {
        SynthParameterLabel::WavematrixTableIndex
    } else {
        SynthParameterLabel::PitchFrequency
    }
}

/// The synth function an event name and parameter set stand for; the
/// sampler assembles its filter chain from what the parameters mention.
/// Unknown names fall back to the sine synth.
pub open spec fn spec_map_synth_type(
    name: Seq<char>,
    params: Seq<(SynthParameterLabel, ParamValue)>,
) -> SynthType {
    if name == "sine"@ {
        SynthType::SineSynth
    } else if name == "tri"@ {
        SynthType::LFTriangleSynth
    } else if name == "saw"@ {
        SynthType::LFSawSynth
    } else if name == "wsaw"@ {
        SynthType::WTSawSynth
    } else if name == "fmsaw"@ {
        SynthType::FMSawSynth
    } else if name == "fmsqr"@ {
        SynthType::FMSquareSynth
    } else if name == "fmtri"@ {
        SynthType::FMTriSynth
    } else if name == "sqr"@ {
        SynthType::LFSquareSynth
    } else if name == "cub"@ {
        SynthType::LFCubSynth
    } else if name == "risset"@ {
        SynthType::RissetBell
    } else if name == "sampler"@ {
        SynthType::Sampler(
            spec_sampler_hp(params),
            spec_sampler_peak1(params),
            spec_sampler_peak2(params),
            spec_sampler_lp(params),
        )
    } else if name == "livesampler"@ {
        SynthType::LiveSampler
    } else if name == "frozensampler"@ {
        SynthType::FrozenSampler
    } else if name == "wavetable"@ {
        SynthType::Wavetable
    } else if name == "wavematrix"@ {
        SynthType::Wavematrix
    } else {
        SynthType::SineSynth
    }
}

/// The sampler's highpass filter: as named by the parameters, else a
/// 12 dB biquad.
pub open spec fn spec_sampler_hp(params: Seq<(SynthParameterLabel, ParamValue)>) -> FilterType {
    match param_lookup(params, SynthParameterLabel::HighpassFilterType) {
        Some(ParamValue::Filter(t)) => t,
        _ => FilterType::BiquadHpf12dB,
    }
}

/// The sampler's first peak filter: a peak EQ when a peak frequency is
/// given, else disabled.
pub open spec fn spec_sampler_peak1(params: Seq<(SynthParameterLabel, ParamValue)>) -> FilterType {
    if param_lookup(params, SynthParameterLabel::PeakFrequency) is Some || param_lookup(
        params,
        SynthParameterLabel::Peak1Frequency,
    ) is Some {
        FilterType::PeakEQ
    } else {
        FilterType::Dummy
    }
}

/// The sampler's second peak filter: a peak EQ when its frequency is
/// given, else disabled.
pub open spec fn spec_sampler_peak2(params: Seq<(SynthParameterLabel, ParamValue)>) -> FilterType {
    if param_lookup(params, SynthParameterLabel::Peak2Frequency) is Some {
        FilterType::PeakEQ
    } else {
        FilterType::Dummy
    }
}

/// The sampler's lowpass filter: as named by the parameters, else an
/// 18 dB ladder.
pub open spec fn spec_sampler_lp(params: Seq<(SynthParameterLabel, ParamValue)>) -> FilterType {
    match param_lookup(params, SynthParameterLabel::LowpassFilterType) {
        Some(ParamValue::Filter(t)) => t,
        _ => FilterType::Lpf18,
    }
}

/// The synth function an event name and parameter set stand for.
pub fn map_synth_type(
    name: &str,
    params: &Vec<(SynthParameterLabel, ParamValue)>,
) -> (t: SynthType)
    ensures
        t == spec_map_synth_type(name@, params@),
{
    if str_eq(name, "sine") {
        SynthType::SineSynth
    } else if str_eq(name, "tri") {
        SynthType::LFTriangleSynth
    } else if str_eq(name, "saw") {
        SynthType::LFSawSynth
    } else if str_eq(name, "wsaw") {
        SynthType::WTSawSynth
    } else if str_eq(name, "fmsaw") {
        SynthType::FMSawSynth
    } else if str_eq(name, "fmsqr") {
        SynthType::FMSquareSynth
    } else if str_eq(name, "fmtri") {
        SynthType::FMTriSynth
    } else if str_eq(name, "sqr") {
        SynthType::LFSquareSynth
    } else if str_eq(name, "cub") {
        SynthType::LFCubSynth
    } else if str_eq(name, "risset") {
        SynthType::RissetBell
    } else if str_eq(name, "sampler") {
        let hp = match lookup(params, SynthParameterLabel::HighpassFilterType) {
            Some(ParamValue::Filter(t)) => t,
            _ => FilterType::BiquadHpf12dB,
        };
        let peak1 = if lookup(params, SynthParameterLabel::PeakFrequency).is_some() || lookup(
            params,
            SynthParameterLabel::Peak1Frequency,
        ).is_some() {
            FilterType::PeakEQ
        } else {
            FilterType::Dummy
        };
        let peak2 = if lookup(params, SynthParameterLabel::Peak2Frequency).is_some() {
            FilterType::PeakEQ
        } else {
            FilterType::Dummy
        };
        let lp = match lookup(params, SynthParameterLabel::LowpassFilterType) {
            Some(ParamValue::Filter(t)) => t,
            _ => FilterType::Lpf18,
        };
        SynthType::Sampler(hp, peak1, peak2, lp)
    } else if str_eq(name, "livesampler") {
        SynthType::LiveSampler
    } else if str_eq(name, "frozensampler") {
        SynthType::FrozenSampler
    } else if str_eq(name, "wavetable") {
        SynthType::Wavetable
    } else if str_eq(name, "wavematrix") {
        SynthType::Wavematrix
    } else {
        SynthType::SineSynth
    }
}

/// The value bound to a label in a bare parameter list, if any.
fn lookup(
    params: &Vec<(SynthParameterLabel, ParamValue)>,
    label: SynthParameterLabel,
) -> (r: Option<ParamValue>)
    ensures
        r == param_lookup(params@, label),
{
    let mut i: usize = 0;
    while i < params.len()
        invariant
            i <= params@.len(),
            forall|k: int| 0 <= k < i ==> params@[k].0 != label,
        decreases params@.len() - i,
    {
        if params[i].0 == label {
            proof {
                crate::events::lemma_find_param_agrees(params@, label, i as int);
            }
            return Some(params[i].1);
        }
        i += 1;
    }
    proof {
        crate::events::lemma_find_param_none(params@, label);
    }
    None
}

} // verus!
