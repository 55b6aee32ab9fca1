use piper_speechd::engine::outcome_lines;
use piper_speechd::markup::Item;
use piper_speechd::player::{Outcome, Player, PollAct, Step};

fn doc_text_mark_text() -> Vec<Item> {
    vec![
        Item::Text(b"first".to_vec()),
        Item::Mark(b"m1".to_vec()),
        Item::Text(b"second".to_vec()),
    ]
}

#[test]
fn pause_during_first_text_is_reported_at_the_mark() {
    let mut p = Player::new(doc_text_mark_text());
    match p.next_step() {
        Step::Speak(t) => assert_eq!(t, b"first".to_vec()),
        _ => panic!("expected the first text"),
    }
    // chunk one: nothing waiting; chunk two: a pause arrives
    assert_eq!(p.on_poll(None), PollAct::Go);
    assert_eq!(p.on_poll(Some(&b"PAUSE".to_vec())), PollAct::Go);
    // the stream finishes its chunks, then the mark is the checkpoint
    p.text_done();
    match p.next_step() {
        Step::Mark(m) => assert_eq!(m, b"m1".to_vec()),
        _ => panic!("expected the mark"),
    }
    match p.next_step() {
        Step::Done(o) => assert_eq!(o, Outcome::Pause { handled: true }),
        _ => panic!("expected a handled pause"),
    }
    // the second text is never handed out
    match p.next_step() {
        Step::Done(o) => assert_eq!(o, Outcome::Pause { handled: true }),
        _ => panic!("the machine must stay finished"),
    }
}

#[test]
fn stop_during_any_text_ends_playback_immediately() {
    let mut p = Player::new(doc_text_mark_text());
    match p.next_step() {
        Step::Speak(_) => {},
        _ => panic!("expected the first text"),
    }
    assert_eq!(p.on_poll(Some(&b"STOP".to_vec())), PollAct::Halt);
    match p.next_step() {
        Step::Done(o) => assert_eq!(o, Outcome::Stop),
        _ => panic!("expected the stop outcome"),
    }
    // no further mark or text events, whatever else is called
    p.text_done();
    match p.next_step() {
        Step::Done(o) => assert_eq!(o, Outcome::Stop),
        _ => panic!("the machine must stay stopped"),
    }
}

#[test]
fn pause_with_no_later_mark_ends_as_unhandled() {
    let mut p = Player::new(vec![Item::Text(b"only".to_vec())]);
    match p.next_step() {
        Step::Speak(_) => {},
        _ => panic!("expected the text"),
    }
    assert_eq!(p.on_poll(Some(&b"PAUSE".to_vec())), PollAct::Go);
    p.text_done();
    match p.next_step() {
        Step::Done(o) => assert_eq!(o, Outcome::Pause { handled: false }),
        _ => panic!("expected an unhandled pause"),
    }
}

#[test]
fn document_exhaustion_ends_normally() {
    let mut p = Player::new(vec![Item::Text(b"t".to_vec()), Item::Mark(b"m".to_vec())]);
    match p.next_step() {
        Step::Speak(_) => {},
        _ => panic!("expected the text"),
    }
    assert_eq!(p.on_poll(None), PollAct::Go);
    p.text_done();
    match p.next_step() {
        Step::Mark(_) => {},
        _ => panic!("expected the mark"),
    }
    match p.next_step() {
        Step::Done(o) => assert_eq!(o, Outcome::End),
        _ => panic!("expected the end"),
    }
}

#[test]
fn unexpected_command_mid_stream_is_a_playback_fault() {
    let mut p = Player::new(vec![Item::Text(b"t".to_vec())]);
    match p.next_step() {
        Step::Speak(_) => {},
        _ => panic!("expected the text"),
    }
    assert_eq!(p.on_poll(Some(&b"SPEAK".to_vec())), PollAct::Halt);
    let step = p.next_step();
    match &step {
        Step::Failed(l) => assert_eq!(l, &b"SPEAK".to_vec()),
        _ => panic!("expected a fault"),
    }
    let lines = outcome_lines(&step);
    assert_eq!(
        lines,
        vec![
            b"703-Unexpected command during playback: SPEAK".to_vec(),
            b"703 STOP".to_vec()
        ]
    );
}

#[test]
fn terminal_lines_map_outcomes_to_the_protocol() {
    assert_eq!(
        outcome_lines(&Step::Done(Outcome::End)),
        vec![b"702 END".to_vec()]
    );
    assert_eq!(
        outcome_lines(&Step::Done(Outcome::Pause { handled: true })),
        vec![b"702 END".to_vec()]
    );
    assert_eq!(
        outcome_lines(&Step::Done(Outcome::Stop)),
        vec![b"703 STOP".to_vec()]
    );
}

#[test]
fn outer_pause_is_not_reported_inside_a_nested_region() {
    // a pause raised before a nested region: the mark inside the region does
    // not report it; the region ends, traversal ends, the pause is unhandled
    let mut p = Player::new(vec![
        Item::Text(b"a".to_vec()),
        Item::Enter,
        Item::Mark(b"inner".to_vec()),
        Item::Leave,
    ]);
    match p.next_step() {
        Step::Speak(_) => {},
        _ => panic!("expected the text"),
    }
    assert_eq!(p.on_poll(Some(&b"PAUSE".to_vec())), PollAct::Go);
    p.text_done();
    assert!(matches!(p.next_step(), Step::Entered));
    match p.next_step() {
        Step::Mark(m) => assert_eq!(m, b"inner".to_vec()),
        _ => panic!("expected the inner mark"),
    }
    assert!(matches!(p.next_step(), Step::Left));
    match p.next_step() {
        Step::Done(o) => assert_eq!(o, Outcome::Pause { handled: false }),
        _ => panic!("the pause must stay unhandled past the nested region"),
    }
}

#[test]
fn pause_raised_inside_a_region_bubbles_to_the_enclosing_mark() {
    // the pause arrives during a text inside a region with no mark of its
    // own; the region ends, and the enclosing region's mark reports it
    let mut p = Player::new(vec![
        Item::Enter,
        Item::Text(b"inner".to_vec()),
        Item::Leave,
        Item::Mark(b"outer".to_vec()),
        Item::Text(b"after".to_vec()),
    ]);
    assert!(matches!(p.next_step(), Step::Entered));
    match p.next_step() {
        Step::Speak(_) => {},
        _ => panic!("expected the inner text"),
    }
    assert_eq!(p.on_poll(Some(&b"PAUSE".to_vec())), PollAct::Go);
    p.text_done();
    assert!(matches!(p.next_step(), Step::Left));
    match p.next_step() {
        Step::Mark(m) => assert_eq!(m, b"outer".to_vec()),
        _ => panic!("expected the outer mark"),
    }
    match p.next_step() {
        Step::Done(o) => assert_eq!(o, Outcome::Pause { handled: true }),
        _ => panic!("the bubbled pause must be handled at the outer mark"),
    }
}
