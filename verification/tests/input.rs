use flyline::mouse::{
    choose_binding, choose_shape, ButtonState, CellTags, DrawnRows, MouseActionOutput, MouseButton, MouseEvent,
    MouseEventKind, MouseState, PointerBinding, PointerShape, RedrawUrgency, Tag,
};
use flyline::state::{App, EndState, ExitState, MILLISECOND};
use flyline::system::{
    drain_shutdown_events, find_input_problem, get_command, is_drainable_event, signal_name,
    signal_to_str, stdin_unavailable_reason, CommandStep, DrainOutcome, InputKind, InputNumbers,
    SignalNumbers, StdinProbe,
};

fn app(text: &str) -> App {
    App::new(&Some(text.to_string()), 0, 0, None, None)
}

fn mouse() -> MouseState {
    MouseState {
        enabled: true,
        last_mouse_pos: None,
        last_event_time: None,
        left_button_down: false,
        left_button_dragging: false,
        drag_start_tag: None,
        last_left_click: None,
        right_click_down_pos: Some((1, 1)),
        last_scroll_time: None,
        last_mouse_over_cell_semantic: None,
        last_mouse_over_cell_direct: None,
        pointer_shape: PointerShape::Hand,
    }
}

fn event(kind: MouseEventKind) -> MouseEvent {
    MouseEvent { kind, column: 4, row: 2 }
}

fn cell(direct: Tag, semantic: Tag) -> Option<CellTags> {
    Some(CellTags { direct, semantic })
}

#[test]
fn pressing_dragging_and_releasing() {
    let mut a = app("héllo");
    let mut m = mouse();
    let on_text = cell(Tag::Other(1), Tag::Command(3));
    a.on_mouse(&mut m, event(MouseEventKind::Down(MouseButton::Left)), on_text, None, 5);
    assert_eq!(m.last_mouse_pos, Some((4, 2)));
    assert!(m.left_button_down && !m.left_button_dragging);
    assert_eq!(m.drag_start_tag, Some(Tag::Command(3)));
    assert_eq!(m.last_left_click, Some((3, 5)));
    assert_eq!(m.last_mouse_over_cell_direct, Some(Tag::Other(1)));
    let last = a.last_mouse.as_ref().unwrap();
    assert_eq!((last.time, last.matches.len()), (5, 0));

    let drag = event(MouseEventKind::Drag(MouseButton::Left));
    let rows = |mouse_row| Some(DrawnRows { mouse_row, count: 3 });
    a.on_mouse(&mut m, drag, None, rows(3), 6);
    assert!(m.left_button_dragging);
    assert_eq!(m.last_mouse_over_cell_semantic, Some(Tag::Command(6)));
    a.on_mouse(&mut m, drag, on_text, rows(-1), 6);
    assert_eq!(m.last_mouse_over_cell_semantic, Some(Tag::Command(0)));
    a.on_mouse(&mut m, drag, None, rows(0), 6);
    assert_eq!(m.last_mouse_over_cell_semantic, Some(Tag::Command(0)));
    a.on_mouse(&mut m, drag, on_text, rows(0), 6);
    assert_eq!(m.last_mouse_over_cell_semantic, Some(Tag::Command(3)));
    a.on_mouse(&mut m, drag, None, rows(1), 6);
    assert_eq!(m.last_mouse_over_cell_semantic, None);
    a.on_mouse(&mut m, drag, None, None, 6);
    assert_eq!(m.last_mouse_over_cell_semantic, None);

    a.on_mouse(&mut m, event(MouseEventKind::Up(MouseButton::Left)), None, None, 7);
    assert!(!m.left_button_down && !m.left_button_dragging);
    assert_eq!(m.drag_start_tag, None);
    // Without a drag that began in the text, the rows make no difference.
    a.on_mouse(&mut m, drag, None, rows(3), 8);
    assert_eq!(m.last_mouse_over_cell_semantic, None);
}

#[test]
fn other_mouse_events() {
    let mut a = app("x");
    let mut m = mouse();
    a.on_mouse(&mut m, event(MouseEventKind::ScrollUp), None, None, 3);
    assert_eq!(m.last_scroll_time, Some(3));
    assert_eq!(m.right_click_down_pos, Some((1, 1)));
    a.on_mouse(&mut m, event(MouseEventKind::Up(MouseButton::Right)), None, None, 4);
    assert_eq!(m.right_click_down_pos, None);
    a.on_mouse(&mut m, event(MouseEventKind::Moved), cell(Tag::Other(1), Tag::Other(2)), None, 5);
    assert_eq!(m.last_mouse_over_cell_semantic, Some(Tag::Other(2)));
    assert_eq!(m.last_scroll_time, Some(3));
    let other = event(MouseEventKind::Down(MouseButton::Left));
    a.on_mouse(&mut m, other, cell(Tag::Other(1), Tag::Other(2)), None, 6);
    assert_eq!(m.last_left_click, None);
    assert!(m.has_recent_mouse_activity(6 + 99 * MILLISECOND, 100 * MILLISECOND));
    assert!(!m.has_recent_mouse_activity(6 + 100 * MILLISECOND, 100 * MILLISECOND));
    assert!(!mouse().has_recent_mouse_activity(0, 1));
}

#[test]
fn drawing_after_mouse_actions() {
    let output = |redraw_urgency| {
        Some(MouseActionOutput { possible_buffer_change: false, redraw_urgency })
    };
    let e = event(MouseEventKind::Moved);
    let names = || vec![("a".to_string(), "b".to_string())];
    let mut a = app("x");
    assert!(a.finish_mouse(e, names(), output(RedrawUrgency::Soon), 9));
    assert_eq!(a.last_mouse.as_ref().unwrap().time, 9);
    assert!(!a.finish_mouse(e, names(), output(RedrawUrgency::Soon), 9 + 15 * MILLISECOND));
    assert_eq!(a.last_mouse.as_ref().unwrap().time, 9);
    assert!(a.finish_mouse(e, names(), output(RedrawUrgency::Soon), 10 + 15 * MILLISECOND));
    assert!(a.finish_mouse(e, names(), output(RedrawUrgency::Now), 11 + 15 * MILLISECOND));
    assert_eq!(a.last_mouse.as_ref().unwrap().matches, names());
    // What is not urgent is not drawn right after its event was taken in.
    a.on_mouse(&mut mouse(), e, None, None, 60 * MILLISECOND);
    assert!(!a.finish_mouse(e, names(), output(RedrawUrgency::Soon), 60 * MILLISECOND));
    a.on_mouse(&mut mouse(), e, None, None, 90 * MILLISECOND);
    assert!(a.finish_mouse(e, names(), output(RedrawUrgency::Now), 90 * MILLISECOND));
    assert!(!a.finish_mouse(e, names(), None, 12));
    let last = a.last_mouse.unwrap();
    assert_eq!(last.matches, vec![("none".to_string(), "none".to_string())]);
    assert_eq!(last.time, 12);
}

#[test]
fn looks_of_buttons() {
    let mut m = mouse();
    assert_eq!(m.button_state_for(Tag::Other(1)), ButtonState::Normal);
    m.last_mouse_over_cell_semantic = Some(Tag::Other(1));
    assert_eq!(m.button_state_for(Tag::Other(1)), ButtonState::Hovered);
    assert_eq!(m.button_state_for(Tag::Other(2)), ButtonState::Normal);
    m.left_button_down = true;
    assert_eq!(m.button_state_for(Tag::Other(1)), ButtonState::Depressed);
}

#[test]
fn switching_the_mouse() {
    let mut m = mouse();
    m.last_mouse_over_cell_semantic = Some(Tag::Other(1));
    m.toggle_mouse_state();
    assert!(!m.enabled);
    assert_eq!(m.last_mouse_over_cell_semantic, None);
    m.last_mouse_over_cell_direct = Some(Tag::Other(1));
    m.toggle_mouse_state();
    assert!(m.enabled);
    assert_eq!(m.last_mouse_over_cell_direct, Some(Tag::Other(1)));
}

#[test]
fn shapes_of_the_pointer() {
    let binding = |holds, shapes: Vec<Option<PointerShape>>| PointerBinding { holds, shapes };
    let list = vec![
        binding(false, vec![Some(PointerShape::Hand)]),
        binding(true, vec![None]),
        binding(true, vec![None, Some(PointerShape::Text), Some(PointerShape::Hand)]),
        binding(true, vec![Some(PointerShape::Other(3))]),
    ];
    assert_eq!(choose_shape(&list), Some(PointerShape::Text));
    let mut m = mouse();
    App::reevaluate_pointer_shape(&mut m, &list);
    assert_eq!(m.pointer_shape, PointerShape::Text);
    App::reevaluate_pointer_shape(&mut m, &vec![]);
    assert_eq!(m.pointer_shape, PointerShape::Text);

    assert!(!m.look_under_pointer(false, cell(Tag::Other(1), Tag::Other(2))));
    assert_eq!(m.last_mouse_over_cell_semantic, None);
    m.last_mouse_pos = Some((0, 0));
    assert!(m.look_under_pointer(false, cell(Tag::Other(1), Tag::Other(2))));
    assert_eq!(m.last_mouse_over_cell_semantic, Some(Tag::Other(2)));
    assert_eq!(m.last_mouse_over_cell_direct, Some(Tag::Other(1)));
    assert!(m.look_under_pointer(false, None));
    assert_eq!(m.last_mouse_over_cell_semantic, None);
    assert!(!m.look_under_pointer(true, None));
    assert_eq!(m.pointer_shape, PointerShape::Default);
}

#[test]
fn names_of_signals() {
    let names = [
        (1, "SIGHUP"), (2, "SIGINT"), (3, "SIGQUIT"), (4, "SIGILL"), (6, "SIGABRT"),
        (8, "SIGFPE"), (9, "SIGKILL"), (11, "SIGSEGV"), (14, "SIGALRM"), (15, "SIGTERM"),
        (libc::SIGTRAP, "SIGTRAP"), (libc::SIGBUS, "SIGBUS"), (libc::SIGUSR1, "SIGUSR1"),
        (libc::SIGUSR2, "SIGUSR2"), (libc::SIGPIPE, "SIGPIPE"),
        (0, "Unknown signal"), (-1, "Unknown signal"), (64, "Unknown signal"),
    ];
    for (number, name) in names {
        assert_eq!(signal_to_str(number), name);
    }
}

#[test]
fn names_of_signals_by_number() {
    let n = SignalNumbers {
        hup: 1, int: 2, quit: 3, ill: 4, trap: 5, abrt: 6, bus: 10, fpe: 8, kill: 9, usr1: 30,
        segv: 11, usr2: 31, pipe: 13, alrm: 14, term: 15,
    };
    assert_eq!(signal_name(10, &n), "SIGBUS");
    assert_eq!(signal_name(30, &n), "SIGUSR1");
    assert_eq!(signal_name(31, &n), "SIGUSR2");
    assert_eq!(signal_name(7, &n), "Unknown signal");
}

#[test]
fn trouble_with_standard_input() {
    let fine = StdinProbe { fd_flags: 0, errno: None, is_terminal: true, poll_result: 0, revents: 0 };
    let n = InputNumbers { ebadf: 9, pollhup: 16 };
    assert_eq!(find_input_problem(&fine, &n), None);
    let closed = StdinProbe { fd_flags: -1, errno: Some(9), ..fine };
    assert_eq!(find_input_problem(&closed, &n), Some("stdin file descriptor is closed"));
    let other = StdinProbe { fd_flags: -1, errno: Some(4), ..fine };
    assert_eq!(find_input_problem(&other, &n), None);
    let detached = StdinProbe { is_terminal: false, ..fine };
    assert_eq!(
        find_input_problem(&detached, &n),
        Some("stdin is no longer attached to a terminal")
    );
    let hung_up = StdinProbe { poll_result: 1, revents: 17, ..fine };
    assert_eq!(find_input_problem(&hung_up, &n), Some("stdin PTY has hung up (POLLHUP)"));
    let readable = StdinProbe { poll_result: 1, revents: 1, ..fine };
    assert_eq!(find_input_problem(&readable, &n), None);
    let timed_out = StdinProbe { poll_result: 0, revents: 16, ..fine };
    assert_eq!(find_input_problem(&timed_out, &n), None);
}

#[test]
fn trouble_with_standard_input_on_this_machine() {
    let fine = StdinProbe { fd_flags: 0, errno: None, is_terminal: true, poll_result: 0, revents: 0 };
    assert_eq!(stdin_unavailable_reason(&fine), None);
    let closed = StdinProbe { fd_flags: -1, errno: Some(libc::EBADF), ..fine };
    assert_eq!(stdin_unavailable_reason(&closed), Some("stdin file descriptor is closed"));
    let hung_up = StdinProbe { poll_result: 1, revents: libc::POLLHUP, ..fine };
    assert_eq!(stdin_unavailable_reason(&hung_up), Some("stdin PTY has hung up (POLLHUP)"));
    let all = StdinProbe { poll_result: 1, revents: -1, ..fine };
    assert_eq!(stdin_unavailable_reason(&all), Some("stdin PTY has hung up (POLLHUP)"));
    let readable = StdinProbe { poll_result: 1, revents: libc::POLLIN, ..fine };
    assert_eq!(stdin_unavailable_reason(&readable), None);
}

#[test]
fn asking_for_a_command() {
    let ended = |should_drain| {
        Some(EndState { exit_state: ExitState::WithCommand("ls".to_string()), should_drain })
    };
    let finish = |exit_state, drain_for| CommandStep::Finish { exit_state, drain_for };
    let command = || ExitState::WithCommand("ls".to_string());
    assert_eq!(get_command(Some("closed"), None), finish(ExitState::Eof, None));
    assert_eq!(get_command(None, None), CommandStep::RunSession);
    assert_eq!(get_command(None, ended(false)), finish(command(), None));
    assert_eq!(get_command(None, ended(true)), finish(command(), Some(150_000_000)));
}

#[test]
fn input_on_its_way_is_thrown_away() {
    assert_eq!(drain_shutdown_events(None, 100, 100, 150), Some(150));
    assert_eq!(drain_shutdown_events(Some(DrainOutcome::Drained), 100, 140, 150), Some(110));
    assert_eq!(drain_shutdown_events(Some(DrainOutcome::Drained), 100, 250, 150), None);
    assert_eq!(drain_shutdown_events(Some(DrainOutcome::Quiet), 100, 140, 150), None);
    assert_eq!(drain_shutdown_events(Some(DrainOutcome::Failed), 100, 140, 150), None);
    for kind in [
        InputKind::Mouse,
        InputKind::FocusIn,
        InputKind::FocusOut,
        InputKind::ActivePositionReport,
        InputKind::DeviceAttributes,
    ] {
        assert!(is_drainable_event(kind));
    }
    assert!(!is_drainable_event(InputKind::Other));
}

#[test]
fn the_first_binding_that_holds_is_chosen() {
    assert_eq!(choose_binding(&vec![false, true, true]), Some(1));
    assert_eq!(choose_binding(&vec![true]), Some(0));
    assert_eq!(choose_binding(&vec![false, false]), None);
    assert_eq!(choose_binding(&vec![]), None);
}
