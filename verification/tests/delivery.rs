use console_broker::broker::{Console, SendError};
use console_broker::tasks::{input_step, output_step, InputAction, LineEvent, OutputAction};
use console_broker::text::{is_exit_command, sentinel_text, trim_text};
use console_broker::{init, CHANNEL_CAPACITY};

#[test]
fn fifo_order_through_one_handle() {
    let mut c = init();
    let h = c.new_sender("alice".to_string());
    assert_eq!(c.send(&h, "one".to_string()), Ok(()));
    assert_eq!(c.send(&h, "two".to_string()), Ok(()));
    assert_eq!(c.send(&h, "three".to_string()), Ok(()));
    let out = c.drain_messages();
    assert_eq!(
        out,
        vec!["one".to_string(), "two".to_string(), "three".to_string()]
    );
}

#[test]
fn sentinel_stops_but_does_not_jump_the_queue() {
    let mut c = init();
    let h = c.new_sender("alice".to_string());
    assert_eq!(c.send(&h, "first".to_string()), Ok(()));
    assert_eq!(c.send(&h, "second".to_string()), Ok(()));
    assert_eq!(c.send(&h, sentinel_text()), Ok(()));
    assert_eq!(c.send(&h, "after".to_string()), Ok(()));

    let out = c.drain_messages();
    assert_eq!(out, vec!["first".to_string(), "second".to_string()]);
    // the sentinel was consumed; what was behind it stays queued
    assert_eq!(c.recv_message(), Some("after".to_string()));
    assert_eq!(c.recv_message(), None);
}

#[test]
fn channel_full_is_reported() {
    let mut c = init();
    let h = c.new_sender("flood".to_string());
    for i in 0..CHANNEL_CAPACITY {
        assert_eq!(c.send(&h, format!("m{}", i)), Ok(()));
    }
    assert_eq!(
        c.send(&h, "overflow".to_string()),
        Err(SendError::ChannelFull)
    );
    let out = c.drain_messages();
    assert_eq!(out.len(), CHANNEL_CAPACITY);
    assert_eq!(out[0], "m0".to_string());
}

#[test]
fn two_handles_for_one_name_both_send() {
    let mut c = init();
    let h1 = c.new_sender("twin".to_string());
    let h2 = c.new_sender("twin".to_string());
    assert_eq!(h1.id, h2.id);
    assert_eq!(c.send(&h1, "from first".to_string()), Ok(()));
    assert_eq!(c.send(&h2, "from second".to_string()), Ok(()));
    let out = c.drain_messages();
    assert_eq!(
        out,
        vec!["from first".to_string(), "from second".to_string()]
    );
}

#[test]
fn end_to_end_hello_world_exit() {
    let mut c = init();
    let h = c.new_sender("input".to_string());
    let lines = ["hello\n", "world\n", "exit\n"];
    let mut rendered: Vec<String> = Vec::new();
    let mut stopped = false;
    for line in lines {
        match input_step(LineEvent::Line(line.to_string())) {
            InputAction::Forward(msg) => {
                assert_eq!(c.send(&h, msg), Ok(()));
            }
            InputAction::SignalShutdown => {
                assert_eq!(c.send(&h, sentinel_text()), Ok(()));
                break;
            }
            InputAction::StopSilently => panic!("no interrupt was given"),
        }
    }
    while !stopped {
        match output_step(c.recv_message()) {
            OutputAction::Render(msg) => rendered.push(msg),
            OutputAction::Stop => stopped = true,
        }
    }
    assert_eq!(rendered, vec!["hello".to_string(), "world".to_string()]);
    // nothing further arrives after the stop
    assert_eq!(c.recv_message(), None);
}

#[test]
fn input_step_classifies_events() {
    match input_step(LineEvent::Line("  a message  \n".to_string())) {
        InputAction::Forward(t) => assert_eq!(t, "a message".to_string()),
        _ => panic!("an ordinary line is forwarded trimmed"),
    }
    assert!(matches!(
        input_step(LineEvent::Line("  QUIT \n".to_string())),
        InputAction::SignalShutdown
    ));
    assert!(matches!(
        input_step(LineEvent::Line("Exit\n".to_string())),
        InputAction::SignalShutdown
    ));
    assert!(matches!(
        input_step(LineEvent::EndOfInput),
        InputAction::SignalShutdown
    ));
    assert!(matches!(
        input_step(LineEvent::Interrupted),
        InputAction::StopSilently
    ));
    assert!(matches!(
        input_step(LineEvent::ReadFailure),
        InputAction::StopSilently
    ));
}

#[test]
fn output_step_classifies_messages() {
    assert!(matches!(output_step(None), OutputAction::Stop));
    assert!(matches!(
        output_step(Some(sentinel_text())),
        OutputAction::Stop
    ));
    match output_step(Some("plain".to_string())) {
        OutputAction::Render(m) => assert_eq!(m, "plain".to_string()),
        OutputAction::Stop => panic!("a plain message is rendered"),
    }
}

#[test]
fn trim_removes_surrounding_whitespace() {
    assert_eq!(trim_text("  hello \r\n"), "hello".to_string());
    assert_eq!(trim_text("\t spaced  words \n"), "spaced  words".to_string());
    assert_eq!(trim_text("   \n"), "".to_string());
    assert_eq!(trim_text(""), "".to_string());
    assert_eq!(trim_text("bare"), "bare".to_string());
}

#[test]
fn exit_keywords_any_case() {
    assert!(is_exit_command("exit"));
    assert!(is_exit_command("EXIT"));
    assert!(is_exit_command("quit"));
    assert!(is_exit_command("QuIt"));
    assert!(!is_exit_command("exit now"));
    assert!(!is_exit_command("quitter"));
    assert!(!is_exit_command(""));
}

#[test]
fn sentinel_is_the_reserved_literal() {
    assert_eq!(sentinel_text(), "USER_BREAK_$0uU".to_string());
}

#[test]
fn unregistered_handle_cannot_send() {
    let mut c = init();
    let h = console_broker::broker::ProducerHandle { id: 777 };
    assert_eq!(c.send(&h, "hi".to_string()), Err(SendError::Unauthorized));
    assert_eq!(c.drain_messages().len(), 0);
}
