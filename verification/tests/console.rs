use physics_rust::console::Console;

#[test]
fn console_history_preserves_and_restores_the_current_draft() {
    let mut console = Console::default();
    for input in ["first", "second"] {
        console.input = input.into();
        console.submit();
    }
    console.input = "draft".into();

    assert!(console.history_up());
    assert_eq!(console.input, "second");
    assert!(console.history_up());
    assert_eq!(console.input, "first");
    assert!(console.history_down());
    assert_eq!(console.input, "second");
    assert!(console.history_down());
    assert_eq!(console.input, "draft");
}

#[test]
fn blank_lines_are_not_submitted() {
    let mut console = Console::default();
    console.input = " \t ".into();
    console.submit();
    assert_eq!(console.input, "");
    assert!(!console.history_up());
    assert_eq!(console.next_command(), None);
}

#[test]
fn browsing_stops_at_the_oldest_entry_and_down_outside_history_does_nothing() {
    let mut console = Console::default();
    assert!(!console.history_down());
    console.input = "only".into();
    console.submit();
    assert!(console.history_up());
    assert!(console.history_up());
    assert_eq!(console.input, "only");
    assert!(console.history_down());
    assert_eq!(console.input, "");
    assert!(!console.history_down());
}

#[test]
fn up_then_down_returns_to_the_same_entry() {
    let mut console = Console::default();
    for input in ["a", "b", "c"] {
        console.input = input.into();
        console.submit();
    }
    console.input = "typing".into();
    assert!(console.history_up());
    assert!(console.history_up());
    assert_eq!(console.input, "b");
    assert!(console.history_up());
    assert!(console.history_down());
    assert_eq!(console.input, "b");
}

#[test]
fn commands_run_in_order_and_are_echoed_trimmed() {
    let mut console = Console::default();
    console.input = "  x = 1  ".into();
    console.submit();
    console.input = "y".into();
    console.submit();
    assert_eq!(console.next_command().as_deref(), Some("x = 1"));
    assert_eq!(console.output, "> x = 1");
    assert_eq!(console.next_command().as_deref(), Some("y"));
    assert_eq!(console.output, "> x = 1\n> y");
    assert_eq!(console.next_command(), None);
}

#[test]
fn printed_lines_are_separated_by_newlines() {
    let mut console = Console::default();
    console.push_line("one");
    assert_eq!(console.output, "one");
    console.report_error("boom");
    assert_eq!(console.output, "one\nERROR: boom");
    console.report_load_error("scene.phn", "bad");
    assert_eq!(console.output, "one\nERROR: boom\nERROR loading scene.phn: bad");
}

#[test]
fn take_pending_hands_out_the_raw_line() {
    let mut console = Console::default();
    console.input = " raw ".into();
    console.submit();
    assert_eq!(console.take_pending().as_deref(), Some(" raw "));
    assert_eq!(console.take_pending(), None);
    assert_eq!(console.output, "");
}

#[test]
fn typed_lines_can_be_set_and_read_back() {
    let mut console = Console::default();
    console.set_input("first");
    assert_eq!(console.input_text(), "first");
    console.submit();
    console.set_open(true);
    assert!(console.open);
    console.set_input("draft");
    assert!(console.history_up());
    assert_eq!(console.input_text(), "first");
    assert!(console.history_down());
    assert_eq!(console.input_text(), "draft");
    console.push_line("out");
    assert_eq!(console.output_text(), "out");
}
