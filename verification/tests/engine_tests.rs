use piper_speechd::engine::{mark_lines, outcome_lines, speak_error_lines, Action, Engine};
use piper_speechd::frame::encode_frame;
use piper_speechd::markup::Item;
use piper_speechd::player::{Outcome, Player, PollAct, Step};
use piper_speechd::voice::VoiceInput;

fn one_voice() -> Vec<VoiceInput> {
    vec![
        VoiceInput {
            filename: b"en_US-amy-medium.onnx.json".to_vec(),
            accent: b"en-us".to_vec(),
            dataset: Some(b"amy".to_vec()),
        },
        VoiceInput {
            filename: b"karen.onnx.json".to_vec(),
            accent: b"en-gb".to_vec(),
            dataset: None,
        },
    ]
}

fn started() -> Engine {
    let mut e = Engine::new(&one_voice()).unwrap();
    let acts = e.handle_line(&b"INIT".to_vec());
    assert_eq!(acts.len(), 2);
    e
}

fn sent(acts: &[Action]) -> Vec<Vec<u8>> {
    acts.iter()
        .filter_map(|a| match a {
            Action::Send(l) => Some(l.clone()),
            _ => None,
        })
        .collect()
}

#[test]
fn empty_discovery_yields_no_engine() {
    assert!(Engine::new(&Vec::new()).is_none());
}

#[test]
fn init_is_acknowledged_with_two_lines() {
    let mut e = Engine::new(&one_voice()).unwrap();
    let acts = e.handle_line(&b"INIT".to_vec());
    assert_eq!(
        sent(&acts),
        vec![
            b"299-Everything ok so far".to_vec(),
            b"299 OK LOADED SUCCESSFULLY".to_vec()
        ]
    );
}

#[test]
fn anything_but_init_first_is_fatal() {
    let mut e = Engine::new(&one_voice()).unwrap();
    let acts = e.handle_line(&b"SPEAK".to_vec());
    assert!(matches!(&acts[0], Action::Fatal(_)));
}

#[test]
fn unknown_command_gets_a_protocol_error() {
    let mut e = started();
    let acts = e.handle_line(&b"FROBNICATE".to_vec());
    assert_eq!(sent(&acts), vec![b"300 ERR UNKNOWN COMMAND".to_vec()]);
}

#[test]
fn stray_stop_between_commands_is_a_no_op() {
    let mut e = started();
    let acts = e.handle_line(&b"STOP".to_vec());
    assert!(acts.is_empty());
}

#[test]
fn audio_dialog_accepts_the_server_method() {
    let mut e = started();
    assert_eq!(
        sent(&e.handle_line(&b"AUDIO".to_vec())),
        vec![b"207 OK RECEIVING AUDIO SETTINGS".to_vec()]
    );
    assert!(e.handle_line(&b"audio_output_method=server".to_vec()).is_empty());
    assert_eq!(
        sent(&e.handle_line(&b".".to_vec())),
        vec![b"203 OK AUDIO INITIALIZED".to_vec()]
    );
}

#[test]
fn audio_dialog_rejects_any_other_method() {
    let mut e = started();
    e.handle_line(&b"AUDIO".to_vec());
    e.handle_line(&b"audio_output_method=alsa".to_vec());
    let acts = e.handle_line(&b".".to_vec());
    assert_eq!(
        sent(&acts),
        vec![
            b"300-Audio output method must be server".to_vec(),
            b"300 ERR INVALID AUDIO".to_vec()
        ]
    );
    // the dispatcher keeps running
    let acts = e.handle_line(&b"STOP".to_vec());
    assert!(acts.is_empty());
}

#[test]
fn loglevel_dialog_reconfigures_the_filter() {
    let mut e = started();
    e.handle_line(&b"LOGLEVEL".to_vec());
    let acts = e.handle_line(&b"log_level=3".to_vec());
    assert!(matches!(acts[0], Action::SetLogLevel(3)));
    let acts = e.handle_line(&b"some_other_key=1".to_vec());
    assert!(matches!(&acts[0], Action::LogWarn(k) if k == &b"some_other_key".to_vec()));
    assert_eq!(
        sent(&e.handle_line(&b".".to_vec())),
        vec![b"203 OK LOGLEVEL SET".to_vec()]
    );
}

#[test]
fn loglevel_out_of_range_is_a_command_error() {
    let mut e = started();
    e.handle_line(&b"LOGLEVEL".to_vec());
    assert!(e.handle_line(&b"log_level=9".to_vec()).is_empty());
    assert_eq!(
        sent(&e.handle_line(&b".".to_vec())),
        vec![
            b"300-Invalid value for log_level".to_vec(),
            b"300 ERR INVALID LOGLEVEL".to_vec()
        ]
    );
}

#[test]
fn set_dialog_updates_the_prosody_factors() {
    let mut e = started();
    e.handle_line(&b"SET".to_vec());
    assert!(e.handle_line(&b"rate=100".to_vec()).is_empty());
    assert!(e.handle_line(&b"pitch=-100".to_vec()).is_empty());
    assert!(e.handle_line(&b"volume=50".to_vec()).is_empty());
    assert_eq!(
        sent(&e.handle_line(&b".".to_vec())),
        vec![b"203 OK SETTINGS RECEIVED".to_vec()]
    );
    assert_eq!(e.rate, 4500);
    assert_eq!(e.pitch, 500);
    assert_eq!(e.volume, 500);
}

#[test]
fn malformed_setting_value_keeps_the_prior_value() {
    let mut e = started();
    e.handle_line(&b"SET".to_vec());
    e.handle_line(&b"pitch=50".to_vec());
    e.handle_line(&b".".to_vec());
    assert_eq!(e.pitch, 1500);

    e.handle_line(&b"SET".to_vec());
    assert!(e.handle_line(&b"pitch=banana".to_vec()).is_empty());
    let acts = e.handle_line(&b".".to_vec());
    assert_eq!(
        sent(&acts),
        vec![
            b"300-Invalid value for pitch".to_vec(),
            b"300 ERR INVALID SETTINGS".to_vec()
        ]
    );
    assert_eq!(e.pitch, 1500);
}

#[test]
fn known_voice_is_selected_and_unknown_voice_ignored() {
    let mut e = started();
    e.handle_line(&b"SET".to_vec());
    assert!(e.handle_line(&b"synthesis_voice=karen".to_vec()).is_empty());
    assert_eq!(e.voice, 1);
    let acts = e.handle_line(&b"synthesis_voice=nobody".to_vec());
    assert!(matches!(&acts[0], Action::LogWarn(v) if v == &b"nobody".to_vec()));
    assert_eq!(e.voice, 1);
    e.handle_line(&b".".to_vec());
}

#[test]
fn list_voices_reports_each_voice_and_a_terminator() {
    let mut e = started();
    let acts = e.handle_line(&b"LIST VOICES".to_vec());
    assert_eq!(
        sent(&acts),
        vec![
            b"200-amy-medium\ten_US\tamy".to_vec(),
            b"200-karen\ten_GB\tnone".to_vec(),
            b"200 OK VOICE LIST SENT".to_vec()
        ]
    );
}

#[test]
fn debug_enable_swaps_the_sink_then_acknowledges() {
    let mut e = started();
    let acts = e.handle_line(&b"DEBUG ON /tmp/module.log".to_vec());
    assert!(matches!(&acts[0], Action::EnableDebug(p) if p == &b"/tmp/module.log".to_vec()));
    assert!(matches!(&acts[1], Action::Send(l) if l == &b"200 OK DEBUGGING ON".to_vec()));
}

#[test]
fn speak_parse_failure_aborts_with_the_stop_family() {
    let mut e = started();
    e.handle_line(&b"SPEAK".to_vec());
    e.handle_line(&b"<bogus>".to_vec());
    let acts = e.handle_line(&b".".to_vec());
    assert_eq!(
        sent(&acts),
        vec![
            b"703-Document parse error at byte 0".to_vec(),
            b"703 STOP".to_vec()
        ]
    );
}

#[test]
fn speak_scenario_streams_audio_between_begin_and_end() {
    let mut e = started();
    assert_eq!(
        sent(&e.handle_line(&b"SPEAK".to_vec())),
        vec![b"202 OK RECEIVING MESSAGE".to_vec()]
    );
    assert!(e.handle_line(&b"Hello.".to_vec()).is_empty());
    let acts = e.handle_line(&b".".to_vec());
    assert_eq!(acts.len(), 3);
    assert!(matches!(&acts[0], Action::Send(l) if l == &b"200 OK SPEAKING".to_vec()));
    assert!(matches!(&acts[1], Action::Send(l) if l == &b"701 BEGIN".to_vec()));
    let items: Vec<Item> = match acts.into_iter().nth(2).unwrap() {
        Action::Play(items) => items,
        _ => panic!("expected the playback hand-off"),
    };
    assert_eq!(items.len(), 1);
    match &items[0] {
        Item::Text(t) => assert_eq!(t, &b"Hello.\n".to_vec()),
        _ => panic!("expected one text step"),
    }

    // drive the playback machine as the program would, with one audio chunk
    let mut p = Player::new(items);
    let text = match p.next_step() {
        Step::Speak(t) => t,
        _ => panic!("expected a text to synthesize"),
    };
    assert_eq!(text, b"Hello.\n".to_vec());
    assert_eq!(p.on_poll(None), PollAct::Go);
    let chunk: Vec<u8> = vec![1, 2, 3, 4];
    let block = encode_frame(&chunk, 2, 1, 22050);
    let expect: Vec<u8> = [
        &b"705-bits=16\n705-num_channels=1\n705-sample_rate=22050\n705-num_samples=2\n"[..],
        &b"705-AUDIO\x00\x01\x02\x03\x04\n705 AUDIO\n"[..],
    ]
    .concat();
    assert_eq!(block, expect);
    p.text_done();
    let last = p.next_step();
    assert_eq!(outcome_lines(&last), vec![b"702 END".to_vec()]);
}

#[test]
fn mark_lines_carry_the_name_and_the_terminator() {
    assert_eq!(
        mark_lines(&b"m1".to_vec()),
        vec![b"700-m1".to_vec(), b"700 INDEX MARK".to_vec()]
    );
}

#[test]
fn synthesis_faults_are_itemized_before_the_stop_terminator() {
    assert_eq!(
        speak_error_lines(&b"Failed to initialize model".to_vec()),
        vec![
            b"703-Failed to initialize model".to_vec(),
            b"703 STOP".to_vec()
        ]
    );
}

#[test]
fn setting_line_without_a_separator_is_a_command_error() {
    let mut e = started();
    e.handle_line(&b"SET".to_vec());
    assert!(e.handle_line(&b"justnoise".to_vec()).is_empty());
    assert_eq!(
        sent(&e.handle_line(&b".".to_vec())),
        vec![
            b"300-Malformed setting".to_vec(),
            b"300 ERR INVALID SETTINGS".to_vec()
        ]
    );
}

#[test]
fn unparsable_rate_and_volume_keep_their_prior_values() {
    let mut e = started();
    e.handle_line(&b"SET".to_vec());
    e.handle_line(&b"rate=fast".to_vec());
    e.handle_line(&b"volume=loud".to_vec());
    let acts = e.handle_line(&b".".to_vec());
    assert_eq!(
        sent(&acts),
        vec![
            b"300-Invalid value for rate".to_vec(),
            b"300 ERR INVALID SETTINGS".to_vec()
        ]
    );
    assert_eq!(e.rate, 1000);
    assert_eq!(e.volume, 1000);
}

#[test]
fn unparsable_log_level_is_a_command_error() {
    let mut e = started();
    e.handle_line(&b"LOGLEVEL".to_vec());
    assert!(e.handle_line(&b"log_level=abc".to_vec()).is_empty());
    assert_eq!(
        sent(&e.handle_line(&b".".to_vec())),
        vec![
            b"300-Invalid value for log_level".to_vec(),
            b"300 ERR INVALID LOGLEVEL".to_vec()
        ]
    );
}

#[test]
fn the_first_fault_of_a_dialog_is_the_one_reported() {
    let mut e = started();
    e.handle_line(&b"SET".to_vec());
    e.handle_line(&b"pitch=banana".to_vec());
    e.handle_line(&b"rate=fast".to_vec());
    let acts = e.handle_line(&b".".to_vec());
    assert_eq!(
        sent(&acts)[0],
        b"300-Invalid value for pitch".to_vec()
    );
}

#[test]
fn a_nested_document_pauses_only_at_a_mark_of_its_own_region() {
    // the host pauses during a text that precedes a nested region: the nested
    // region's mark must not end playback, per the region-stack propagation
    let mut e = started();
    e.handle_line(&b"SPEAK".to_vec());
    e.handle_line(&b"before<speak><mark name=\"inner\"/></speak>".to_vec());
    let acts = e.handle_line(&b".".to_vec());
    let items = match acts.into_iter().nth(2).unwrap() {
        Action::Play(items) => items,
        _ => panic!("expected the playback hand-off"),
    };
    let mut p = Player::new(items);
    match p.next_step() {
        Step::Speak(t) => assert_eq!(t, b"before".to_vec()),
        _ => panic!("expected the leading text"),
    }
    assert_eq!(p.on_poll(Some(&b"PAUSE".to_vec())), PollAct::Go);
    p.text_done();
    assert!(matches!(p.next_step(), Step::Entered));
    assert!(matches!(p.next_step(), Step::Mark(_)));
    assert!(matches!(p.next_step(), Step::Left));
    // the collected payload's closing newline is one more text step
    match p.next_step() {
        Step::Speak(t) => assert_eq!(t, b"\n".to_vec()),
        _ => panic!("expected the trailing newline text"),
    }
    assert_eq!(p.on_poll(None), PollAct::Go);
    p.text_done();
    match p.next_step() {
        Step::Done(o) => {
            assert_eq!(o, Outcome::Pause { handled: false });
            assert_eq!(outcome_lines(&Step::Done(o)), vec![b"702 END".to_vec()]);
        }
        _ => panic!("playback must run to the end with the pause unhandled"),
    }
}
