use megra_core::event_helpers::{map_parameter, map_synth_type};
use megra_core::events::{
    str_eq, Event, FilterType, ParamValue, SynthParameterLabel, SynthType,
};

#[test]
fn test_map_parameter_known() {
    assert_eq!(map_parameter("freq"), SynthParameterLabel::PitchFrequency);
    assert_eq!(map_parameter("atk"), SynthParameterLabel::Attack);
    assert_eq!(map_parameter("rel"), SynthParameterLabel::Release);
    assert_eq!(map_parameter("sus"), SynthParameterLabel::Sustain);
    assert_eq!(map_parameter("pos"), SynthParameterLabel::ChannelPosition);
    assert_eq!(map_parameter("lvl"), SynthParameterLabel::EnvelopeLevel);
    assert_eq!(map_parameter("dur"), SynthParameterLabel::Duration);
    assert_eq!(map_parameter("bufnum"), SynthParameterLabel::SampleBufferNumber);
    assert_eq!(map_parameter("wt"), SynthParameterLabel::Wavetable);
    assert_eq!(map_parameter("wavetable"), SynthParameterLabel::Wavetable);
    assert_eq!(map_parameter("pfg1"), SynthParameterLabel::Peak1Gain);
}

#[test]
fn test_map_parameter_fallback() {
    assert_eq!(map_parameter("nonsense"), SynthParameterLabel::PitchFrequency);
    assert_eq!(map_parameter(""), SynthParameterLabel::PitchFrequency);
}

#[test]
fn test_map_synth_type_basic() {
    let no_params = Vec::new();
    assert_eq!(map_synth_type("sine", &no_params), SynthType::SineSynth);
    assert_eq!(map_synth_type("saw", &no_params), SynthType::LFSawSynth);
    assert_eq!(map_synth_type("risset", &no_params), SynthType::RissetBell);
    assert_eq!(map_synth_type("unknown", &no_params), SynthType::SineSynth);
}

#[test]
fn test_map_synth_type_sampler() {
    let no_params = Vec::new();
    assert_eq!(
        map_synth_type("sampler", &no_params),
        SynthType::Sampler(
            FilterType::BiquadHpf12dB,
            FilterType::Dummy,
            FilterType::Dummy,
            FilterType::Lpf18
        )
    );
    let params = vec![
        (
            SynthParameterLabel::HighpassFilterType,
            ParamValue::Filter(FilterType::Dummy),
        ),
        (SynthParameterLabel::Peak1Frequency, ParamValue::Scalar(900_000)),
        (SynthParameterLabel::Peak2Frequency, ParamValue::Scalar(4_000_000)),
    ];
    assert_eq!(
        map_synth_type("sampler", &params),
        SynthType::Sampler(
            FilterType::Dummy,
            FilterType::PeakEQ,
            FilterType::PeakEQ,
            FilterType::Lpf18
        )
    );
}

#[test]
fn test_event_param_roundtrip() {
    let mut ev = Event::with_name("sine".to_string());
    assert_eq!(ev.get_param(SynthParameterLabel::Attack), None);
    ev.set_param(SynthParameterLabel::Attack, ParamValue::Scalar(5_000));
    ev.set_param(SynthParameterLabel::Release, ParamValue::Scalar(100_000));
    assert_eq!(
        ev.get_param(SynthParameterLabel::Attack),
        Some(ParamValue::Scalar(5_000))
    );
    ev.set_param(SynthParameterLabel::Attack, ParamValue::Scalar(7_000));
    assert_eq!(
        ev.get_param(SynthParameterLabel::Attack),
        Some(ParamValue::Scalar(7_000))
    );
    assert_eq!(ev.params.len(), 2);
}

#[test]
fn test_str_eq_exact() {
    assert!(str_eq("freq", "freq"));
    assert!(!str_eq("freq", "freqs"));
    assert!(!str_eq("freq", "fred"));
    assert!(str_eq("", ""));
}
