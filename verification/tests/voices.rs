use megra_core::constructors::cyc;
use megra_core::events::{Event, ParamValue, SourceEvent, SynthParameterLabel};
use megra_core::generator::{apply_processors, apply_time_mods, GeneratorProcessor, TimeMod};
use megra_core::scheduler::{SchedulerState, LATENCY_MS};
use megra_core::session::{OutputMode, Session};

fn sound(name: &str) -> SourceEvent {
    SourceEvent::Sound(Event::with_name(name.to_string()))
}

fn one_step_cycle(name: &str, dur: u64) -> megra_core::generator::Generator {
    cyc(name.to_string(), vec![vec![sound("sine")]], dur, 0, 0, 0, false)
}

#[test]
fn test_start_and_tick_voice() {
    let mut session = Session::with_mode(OutputMode::Stereo);
    session.start_generator(Box::new(one_step_cycle("one", 800)));
    let tags = vec!["one".to_string()];
    assert_eq!(session.voice_count(), 1);
    assert_eq!(session.voice_state(&tags), Some(SchedulerState::Running));
    let (cmds, wait) = session.tick_voice(&tags).unwrap();
    assert_eq!(cmds.len(), 1);
    assert_eq!(cmds[0].name, "sine");
    assert_eq!(cmds[0].scheduled_time, LATENCY_MS);
    assert_eq!(wait, 800);
    assert_eq!(session.voice_stream_time(&tags), Some(800));
}

#[test]
fn test_hot_replacement() {
    // replacing a running voice keeps the registry entry and its clock,
    // and later ticks use the new definition
    let mut session = Session::with_mode(OutputMode::Stereo);
    session.start_generator(Box::new(one_step_cycle("one", 800)));
    let tags = vec!["one".to_string()];
    let (_, wait) = session.tick_voice(&tags).unwrap();
    assert_eq!(wait, 800);
    session.start_generator(Box::new(one_step_cycle("one", 400)));
    assert_eq!(session.voice_count(), 1);
    assert_eq!(session.voice_state(&tags), Some(SchedulerState::Running));
    assert_eq!(session.voice_stream_time(&tags), Some(800));
    let (_, wait2) = session.tick_voice(&tags).unwrap();
    assert_eq!(wait2, 400);
    assert_eq!(session.voice_stream_time(&tags), Some(1200));
}

#[test]
fn test_keep_root_replacement() {
    // a keep-root replacement retains the running automaton and rhythm
    let mut session = Session::with_mode(OutputMode::Stereo);
    session.start_generator(Box::new(one_step_cycle("one", 800)));
    let tags = vec!["one".to_string()];
    let (_, wait) = session.tick_voice(&tags).unwrap();
    assert_eq!(wait, 800);
    let replacement = cyc("one".to_string(), Vec::new(), 200, 0, 0, 0, true);
    session.start_generator(Box::new(replacement));
    assert_eq!(session.voice_count(), 1);
    let (cmds, wait2) = session.tick_voice(&tags).unwrap();
    assert_eq!(wait2, 800);
    assert_eq!(cmds.len(), 1);
}

#[test]
fn test_stop_generator_unknown() {
    // stopping a tag set never started is a no-op, not an error
    let mut session = Session::with_mode(OutputMode::Stereo);
    session.start_generator(Box::new(one_step_cycle("one", 800)));
    session.stop_generator(&vec!["nope".to_string()]);
    assert_eq!(session.voice_count(), 1);
    assert_eq!(
        session.voice_state(&vec!["one".to_string()]),
        Some(SchedulerState::Running)
    );
    assert_eq!(session.voice_state(&vec!["nope".to_string()]), None);
}

#[test]
fn test_stop_idempotent() {
    // stopping twice has the same observable effect as stopping once
    let mut session = Session::with_mode(OutputMode::Stereo);
    session.start_generator(Box::new(one_step_cycle("one", 800)));
    let tags = vec!["one".to_string()];
    session.stop_generator(&tags);
    assert_eq!(session.voice_state(&tags), Some(SchedulerState::Stopped));
    assert_eq!(session.voice_count(), 1);
    let t1 = session.voice_stream_time(&tags);
    session.stop_generator(&tags);
    assert_eq!(session.voice_state(&tags), Some(SchedulerState::Stopped));
    assert_eq!(session.voice_count(), 1);
    assert_eq!(session.voice_stream_time(&tags), t1);
    assert!(session.tick_voice(&tags).is_none());
}

#[test]
fn test_clear_session() {
    let mut session = Session::with_mode(OutputMode::Stereo);
    session.start_generator(Box::new(one_step_cycle("one", 800)));
    session.start_generator(Box::new(one_step_cycle("two", 400)));
    assert_eq!(session.voice_count(), 2);
    session.clear_session();
    assert_eq!(session.voice_count(), 0);
    assert!(session.tick_voice(&vec!["one".to_string()]).is_none());
}

#[test]
fn test_independent_voices() {
    let mut session = Session::with_mode(OutputMode::Stereo);
    session.start_generator(Box::new(one_step_cycle("one", 800)));
    session.start_generator(Box::new(one_step_cycle("two", 300)));
    let one = vec!["one".to_string()];
    let two = vec!["two".to_string()];
    session.tick_voice(&one).unwrap();
    session.tick_voice(&two).unwrap();
    session.tick_voice(&two).unwrap();
    assert_eq!(session.voice_stream_time(&one), Some(800));
    assert_eq!(session.voice_stream_time(&two), Some(600));
    session.stop_generator(&one);
    assert!(session.tick_voice(&one).is_none());
    assert!(session.tick_voice(&two).is_some());
}

#[test]
fn test_silence_not_triggered() {
    let mut session = Session::with_mode(OutputMode::Stereo);
    let g = cyc(
        "hush".to_string(),
        vec![vec![sound("silence"), sound("saw")]],
        500,
        0,
        0,
        0,
        false,
    );
    session.start_generator(Box::new(g));
    let (cmds, wait) = session.tick_voice(&vec!["hush".to_string()]).unwrap();
    assert_eq!(cmds.len(), 1);
    assert_eq!(cmds[0].name, "saw");
    assert_eq!(wait, 500);
}

#[test]
fn test_stereo_position_remap() {
    // in stereo, a bipolar channel position maps onto the unipolar range
    let mut ev = Event::with_name("sine".to_string());
    ev.set_param(SynthParameterLabel::ChannelPosition, ParamValue::Scalar(500));
    let g = cyc(
        "pan".to_string(),
        vec![vec![SourceEvent::Sound(ev)]],
        500,
        0,
        0,
        0,
        false,
    );
    let mut session = Session::with_mode(OutputMode::Stereo);
    session.start_generator(Box::new(g));
    let (cmds, _) = session.tick_voice(&vec!["pan".to_string()]).unwrap();
    assert_eq!(
        cmds[0].params,
        vec![(SynthParameterLabel::ChannelPosition, ParamValue::Scalar(750))]
    );
}

#[test]
fn test_multichannel_position_untouched() {
    let mut ev = Event::with_name("sine".to_string());
    ev.set_param(SynthParameterLabel::ChannelPosition, ParamValue::Scalar(500));
    let g = cyc(
        "pan4".to_string(),
        vec![vec![SourceEvent::Sound(ev)]],
        500,
        0,
        0,
        0,
        false,
    );
    let mut session = Session::with_mode(OutputMode::FourChannel);
    session.start_generator(Box::new(g));
    let (cmds, _) = session.tick_voice(&vec!["pan4".to_string()]).unwrap();
    assert_eq!(
        cmds[0].params,
        vec![(SynthParameterLabel::ChannelPosition, ParamValue::Scalar(500))]
    );
}

#[test]
fn test_processors_transform_batch() {
    let batch = vec![sound("saw"), sound("sine")];
    let reversed = apply_processors(&vec![GeneratorProcessor::Reverse], batch);
    match (&reversed[0], &reversed[1]) {
        (SourceEvent::Sound(a), SourceEvent::Sound(b)) => {
            assert_eq!(a.name, "sine");
            assert_eq!(b.name, "saw");
        }
        _ => panic!("unexpected event kinds"),
    }
    let muted = apply_processors(&vec![GeneratorProcessor::Mute], reversed);
    assert!(muted.is_empty());
}

#[test]
fn test_time_mods_scale_wait() {
    assert_eq!(apply_time_mods(&vec![TimeMod::Percent(50)], 400), 200);
    assert_eq!(
        apply_time_mods(&vec![TimeMod::Percent(50), TimeMod::Percent(200)], 400),
        400
    );
    assert_eq!(apply_time_mods(&Vec::new(), 400), 400);
}
