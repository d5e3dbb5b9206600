use crossbeam_channel::unbounded;
use pbr::tty::size_from;
use pbr::{Height, MultiState, Pipe, Width, WriteMsg};

#[test]
fn listen_ends_after_every_bar_finished() {
    let (tx, rx) = unbounded();
    let mut state = MultiState::new();
    state.println("header");
    let mut bars = Vec::new();
    for _ in 0..3 {
        bars.push(state.create_bar(tx.clone(), Some(40), 10));
    }
    let mut finishes = 0;
    let mut frames = Vec::new();
    for mut bar in bars {
        bar.add(4);
        bar.finish();
    }
    while let Ok(msg) = rx.try_recv() {
        assert!(!state.is_done());
        if matches!(msg, WriteMsg::Finish { .. }) {
            finishes += 1;
        }
        frames.push(state.apply(msg));
        assert_eq!(state.is_done(), finishes == 3);
    }
    assert_eq!(finishes, 3);
    assert!(state.is_done());
    assert!(frames[0].starts_with("\rheader\n\r"));
    assert!(frames[1].starts_with("\x1B[4A\rheader\n"));
    assert_eq!(frames.last().unwrap().matches('\n').count(), 4);
}

#[test]
fn frames_show_every_line_in_order() {
    let mut state = MultiState::new();
    state.println("top");
    let level = state.add_bar();
    state.println("bottom");
    assert_eq!(level, 1);
    let frame = state.apply(WriteMsg::Update { level: 1, text: "half".to_owned() });
    assert_eq!(frame, "\rtop\n\rhalf\n\rbottom\n");
    let frame = state.apply(WriteMsg::Update { level: 7, text: "lost".to_owned() });
    assert_eq!(frame, "\x1B[3A\rtop\n\rhalf\n\rbottom\n");
    assert!(!state.is_done());
    state.apply(WriteMsg::Finish { level: 1 });
    assert!(state.is_done());
}

#[test]
fn pipe_turns_the_empty_text_into_a_finish() {
    let (tx, _rx) = unbounded();
    let pipe = Pipe::new(2, tx, None);
    assert!(matches!(pipe.message_for(""), WriteMsg::Finish { level: 2 }));
    match pipe.message_for("\rline") {
        WriteMsg::Update { level, text } => {
            assert_eq!(level, 2);
            assert_eq!(text, "\rline");
        }
        WriteMsg::Finish { .. } => panic!("an update was expected"),
    }
}

#[test]
fn bars_of_a_multibar_finish_in_place() {
    let (tx, rx) = unbounded();
    let mut state = MultiState::new();
    let mut bar = state.create_bar(tx, None, 5);
    assert!(bar.is_multibar);
    bar.finish_println("done");
    let mut texts = Vec::new();
    while let Ok(msg) = rx.try_recv() {
        match msg {
            WriteMsg::Update { text, .. } => texts.push(text),
            WriteMsg::Finish { .. } => texts.push(String::new()),
        }
    }
    assert!(texts[texts.len() - 2].starts_with("\rdone"));
    assert_eq!(texts[texts.len() - 1], "");
}

#[test]
fn size_needs_rows_and_columns() {
    assert_eq!(size_from(24, 80), Some((Width(80), Height(24))));
    assert_eq!(size_from(0, 80), None);
    assert_eq!(size_from(24, 0), None);
}

#[test]
fn a_new_bar_draws_its_first_frame() {
    let (tx, rx) = unbounded();
    let mut state = MultiState::new();
    state.println("head");
    let _bar = state.create_bar(tx, Some(20), 7);
    let msg = rx.try_recv().unwrap();
    match msg {
        WriteMsg::Update { level, text } => {
            assert_eq!(level, 1);
            assert!(text.starts_with("\r0 / 7 "));
            assert_eq!(text.chars().count(), 21);
        }
        WriteMsg::Finish { .. } => panic!("an update was expected"),
    }
    assert!(rx.try_recv().is_err());
}
