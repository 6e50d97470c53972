use vndf::events::{Event, Events, UpdateEvent};
use vndf::game::data::{Broadcast, Vec2};
use vndf::text::{parse_u16, str_chars, u64_to_dec};
use vndf::ui::base::Status;
use vndf::ui::cli::{Cli, Frame, UiEvent};
use vndf::ui::screen::{Screen, ScreenBuffer};
use vndf::ui::render::{list, text_field};
use vndf::ui::widgets::Ui;

fn empty_frame() -> Frame {
    Frame {
        broadcasts: Vec::new(),
        ship_id: None,
        position: Vec2 { x: 0, y: 0 },
        velocity: Vec2 { x: 0, y: 0 },
    }
}

#[test]
fn typed_commands_become_events() {
    let mut cli = Cli::new();
    let mut events: Vec<UiEvent> = Vec::new();
    let frame = empty_frame();

    cli.handle_line(&mut events, "start-broadcast calling all ships", &frame);
    cli.handle_line(&mut events, "stop-broadcast", &frame);
    cli.handle_line(&mut events, "schedule-maneuver 90", &frame);
    cli.handle_line(&mut events, "schedule-maneuver what", &frame);
    cli.handle_line(&mut events, "no-such-command", &frame);

    assert_eq!(events.len(), 3);
    assert_eq!(events[0], UiEvent::StartBroadcast(String::from("calling all ships")));
    assert_eq!(events[1], UiEvent::StopBroadcast);
    assert_eq!(events[2], UiEvent::ScheduleManeuver(90));
}

#[test]
fn the_shell_turns_the_broadcast_form_into_commands() {
    let mut ui = Ui::new();
    let frame = empty_frame();

    // Type a message, then the escape sequence for "down" (ignored by the
    // form), then Enter to fire the button.
    let chars: Vec<char> = "hi".chars().chain(['\u{1b}', '[', 'A']).chain(['\r']).collect();
    ui.comm_tab.broadcast_form.text_field.text = vec!['h', 'i'];
    ui.comm_tab.broadcast_form.button.was_activated = true;
    let events = ui.process_input(&frame, &chars[0..0]);
    assert_eq!(events.len(), 1);
    assert_eq!(events[0], UiEvent::StartBroadcast(String::from("hi")));

    // With an own broadcast already live, firing again asks to stop.
    let frame = Frame {
        broadcasts: vec![Broadcast { sender: 8, message: String::from("hi") }],
        ship_id: Some(8),
        position: Vec2 { x: 0, y: 0 },
        velocity: Vec2 { x: 0, y: 0 },
    };
    ui.comm_tab.broadcast_form.button.was_activated = true;
    let events = ui.process_input(&frame, &[]);
    assert_eq!(events.len(), 1);
    assert_eq!(events[0], UiEvent::StopBroadcast);
}

#[test]
fn the_screen_reports_exactly_the_cells_that_changed() {
    let mut screen = Screen::new(4, 2);
    screen.buffer(0, 0, 4, "ab");
    screen.set_cursor(1, 1);

    let (ops, cursor) = screen.submit();
    assert_eq!(cursor, (1, 1));
    assert_eq!(ops.len(), 2);
    assert_eq!((ops[0].x, ops[0].y, ops[0].cell.c), (0, 0, 'a'));
    assert_eq!((ops[1].x, ops[1].y, ops[1].cell.c), (1, 0, 'b'));

    // Drawing the same frame again repaints nothing new except the blanks
    // that replace it, since the back buffer was cleared.
    let (ops, _) = screen.submit();
    assert_eq!(ops.len(), 2);
    assert_eq!(ops[0].cell.c, ' ');
}

#[test]
fn buffers_truncate_at_their_edges() {
    let mut buffer = ScreenBuffer::new(3, 1);
    buffer.write_at(
        0,
        0,
        u16::MAX,
        vndf::ui::base::Color::White,
        vndf::ui::base::Color::Black,
        "abcdef",
    );
    let cells = buffer.iter();
    assert_eq!(cells.len(), 3);
    assert_eq!(cells[0].2, 'a');
    assert_eq!(cells[2].2, 'c');

    let colors = Status::Active.colors();
    assert_eq!(colors, (vndf::ui::base::Color::Black, vndf::ui::base::Color::Yellow));
}

#[test]
fn decimal_helpers_render_and_parse_exactly() {
    assert_eq!(u64_to_dec(0), vec!['0']);
    assert_eq!(u64_to_dec(90210), vec!['9', '0', '2', '1', '0']);
    assert_eq!(parse_u16(&str_chars("90")), Some(90));
    assert_eq!(parse_u16(&str_chars("65535")), Some(65535));
    assert_eq!(parse_u16(&str_chars("65536")), None);
    assert_eq!(parse_u16(&str_chars("")), None);
    assert_eq!(parse_u16(&str_chars("9a")), None);
}

#[test]
fn the_mailbox_is_bounded_and_first_in_first_out() {
    let mut events = Events::new(2);
    assert!(events.push(Event::Update(UpdateEvent { elapsed_ms: 1 })));
    assert!(events.push(Event::Update(UpdateEvent { elapsed_ms: 2 })));
    assert!(!events.push(Event::Update(UpdateEvent { elapsed_ms: 3 })));

    assert_eq!(events.next(), Some(Event::Update(UpdateEvent { elapsed_ms: 1 })));
    assert_eq!(events.next(), Some(Event::Update(UpdateEvent { elapsed_ms: 2 })));
    assert_eq!(events.next(), None);
}

#[test]
fn an_empty_list_shows_none_and_a_scrolled_list_shows_markers() {
    let mut buffer = ScreenBuffer::new(6, 3);
    let no_items: Vec<String> = Vec::new();
    let r = list(&mut buffer, 0, 0, Status::Passive, 6, 3, 0, &no_items);
    assert!(r.is_ok());
    let cells = buffer.iter();
    let first_row: String = (0..6).map(|x| cells[x].2).collect();
    assert_eq!(first_row, "none  ");

    // Five items in a two-row window starting at the second: entries lie
    // above and below, so both markers appear in the last column.
    let items: Vec<String> = (1..=5).map(|k| format!("item{}", k)).collect();
    let mut buffer = ScreenBuffer::new(4, 2);
    let r = list(&mut buffer, 0, 0, Status::Passive, 4, 2, 1, &items);
    assert!(r.is_ok());
    let cells = buffer.iter();
    assert_eq!(cells[0 * 4 + 0].2, 'i');
    assert_eq!(cells[0 * 4 + 3].2, '↑');
    assert_eq!(cells[1 * 4 + 3].2, '↓');
}

#[test]
fn a_text_field_pads_its_width_and_places_the_cursor() {
    let mut buffer = ScreenBuffer::new(10, 2);
    let r = text_field(&mut buffer, 2, 0, Status::Active, 5, "ab");
    assert!(r.is_ok());
    let cells = buffer.iter();
    assert_eq!(cells[2].2, 'a');
    assert_eq!(cells[3].2, 'b');
    assert_eq!(cells[4].2, ' ');
    assert_eq!(cells[6].2, ' ');
    assert_eq!(buffer.cursor, Some((5, 1)));

    let r = text_field(&mut buffer, 2, 0, Status::Passive, 5, "ab");
    assert!(r.is_ok());
    assert_eq!(buffer.cursor, None);
}

#[test]
fn the_cli_greets_and_echoes_commands() {
    let cli = Cli::new();
    assert_eq!(cli.text()[0], "VNDF Ship Control System");
    assert_eq!(cli.text()[1], "Enter command");

    let mut cli = Cli::new();
    let mut events: Vec<UiEvent> = Vec::new();
    cli.handle_line(&mut events, "no-such-command", &empty_frame());
    assert_eq!(cli.text()[2], "> no-such-command");
    assert_eq!(cli.text()[3], "Unknown command: no-such-command");
    assert!(events.is_empty());
}

#[test]
fn escape_sequences_route_cursor_keys_to_the_widgets() {
    let mut ui = Ui::new();
    let frame = empty_frame();

    // Activate the list, then scroll it down twice and up once through the
    // decoded escape sequences; a broken escape falls back to typing.
    ui.comm_tab.selected_index = 1;
    ui.comm_tab.broadcast_list.activated = true;
    let chars: Vec<char> = vec![
        '\u{1b}', '[', 'B', '\u{1b}', '[', 'B', '\u{1b}', '[', 'A',
    ];
    let _ = ui.process_input(&frame, &chars);
    assert_eq!(ui.comm_tab.broadcast_list.first, 1);

    // An escape followed by anything but '[' returns to regular mode.
    ui.comm_tab.selected_index = 0;
    let chars: Vec<char> = vec!['\u{1b}', 'x', 'h', 'i'];
    let _ = ui.process_input(&frame, &chars);
    let typed: String = ui.comm_tab.broadcast_form.text_field.text.iter().collect();
    assert_eq!(typed, "hi");
}
