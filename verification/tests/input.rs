use prototty::coord::Coord;
use prototty::input::{
    collect_events, convert_key_event, convert_keycode, convert_mouse_button_event, ButtonCode,
    Input, InputEvent, KeyCode, MouseButton, ESCAPE, ETX, RETURN,
};

#[test]
fn letters_follow_shift() {
    assert_eq!(convert_keycode(KeyCode::A, false), Some(Input::Char('a')));
    assert_eq!(convert_keycode(KeyCode::A, true), Some(Input::Char('A')));
    assert_eq!(convert_keycode(KeyCode::Z, false), Some(Input::Char('z')));
    assert_eq!(convert_keycode(KeyCode::Z, true), Some(Input::Char('Z')));
    assert_eq!(convert_keycode(KeyCode::M, true), Some(Input::Char('M')));
}

#[test]
fn digits_follow_shift_except_two() {
    assert_eq!(convert_keycode(KeyCode::Key1, false), Some(Input::Char('1')));
    assert_eq!(convert_keycode(KeyCode::Key1, true), Some(Input::Char('!')));
    assert_eq!(convert_keycode(KeyCode::Key2, false), Some(Input::Char('2')));
    assert_eq!(convert_keycode(KeyCode::Key2, true), Some(Input::Char('2')));
    assert_eq!(convert_keycode(KeyCode::Key3, true), Some(Input::Char('#')));
    assert_eq!(convert_keycode(KeyCode::Key4, true), Some(Input::Char('$')));
    assert_eq!(convert_keycode(KeyCode::Key5, true), Some(Input::Char('%')));
    assert_eq!(convert_keycode(KeyCode::Key6, true), Some(Input::Char('^')));
    assert_eq!(convert_keycode(KeyCode::Key7, true), Some(Input::Char('&')));
    assert_eq!(convert_keycode(KeyCode::Key8, true), Some(Input::Char('*')));
    assert_eq!(convert_keycode(KeyCode::Key9, true), Some(Input::Char('(')));
    assert_eq!(convert_keycode(KeyCode::Key0, true), Some(Input::Char(')')));
    assert_eq!(convert_keycode(KeyCode::Key0, false), Some(Input::Char('0')));
}

#[test]
fn numpad_ignores_shift() {
    assert_eq!(convert_keycode(KeyCode::Numpad1, true), Some(Input::Char('1')));
    assert_eq!(convert_keycode(KeyCode::Numpad0, true), Some(Input::Char('0')));
    assert_eq!(convert_keycode(KeyCode::Numpad7, false), Some(Input::Char('7')));
}

#[test]
fn punctuation_follows_shift() {
    assert_eq!(convert_keycode(KeyCode::Period, false), Some(Input::Char('.')));
    assert_eq!(convert_keycode(KeyCode::Period, true), Some(Input::Char('>')));
    assert_eq!(convert_keycode(KeyCode::Comma, true), Some(Input::Char('<')));
    assert_eq!(convert_keycode(KeyCode::Slash, true), Some(Input::Char('?')));
    assert_eq!(convert_keycode(KeyCode::Equals, false), Some(Input::Char('=')));
    assert_eq!(convert_keycode(KeyCode::Equals, true), Some(Input::Char('+')));
    assert_eq!(convert_keycode(KeyCode::Backslash, false), Some(Input::Char('\\')));
    assert_eq!(convert_keycode(KeyCode::Backslash, true), Some(Input::Char('|')));
    assert_eq!(convert_keycode(KeyCode::Grave, true), Some(Input::Char('~')));
    assert_eq!(convert_keycode(KeyCode::Apostrophe, false), Some(Input::Char('\'')));
    assert_eq!(convert_keycode(KeyCode::Apostrophe, true), Some(Input::Char('"')));
    assert_eq!(convert_keycode(KeyCode::LBracket, true), Some(Input::Char('{')));
    assert_eq!(convert_keycode(KeyCode::RBracket, true), Some(Input::Char('}')));
    assert_eq!(convert_keycode(KeyCode::At, true), Some(Input::Char('@')));
    assert_eq!(convert_keycode(KeyCode::Add, true), Some(Input::Char('+')));
    assert_eq!(convert_keycode(KeyCode::Subtract, true), Some(Input::Char('-')));
    assert_eq!(convert_keycode(KeyCode::Space, true), Some(Input::Char(' ')));
}

#[test]
fn navigation_keys() {
    assert_eq!(convert_keycode(KeyCode::Left, false), Some(Input::Left));
    assert_eq!(convert_keycode(KeyCode::Right, true), Some(Input::Right));
    assert_eq!(convert_keycode(KeyCode::Up, false), Some(Input::Up));
    assert_eq!(convert_keycode(KeyCode::Down, false), Some(Input::Down));
    assert_eq!(convert_keycode(KeyCode::PageUp, false), Some(Input::PageUp));
    assert_eq!(convert_keycode(KeyCode::PageDown, false), Some(Input::PageDown));
    assert_eq!(convert_keycode(KeyCode::Home, true), Some(Input::Home));
    assert_eq!(convert_keycode(KeyCode::End, false), Some(Input::End));
}

#[test]
fn escape_and_return() {
    assert_eq!(ESCAPE, '\u{1b}');
    assert_eq!(RETURN, '\r');
    assert_eq!(convert_keycode(KeyCode::Escape, false), Some(Input::Char('\u{1b}')));
    assert_eq!(convert_keycode(KeyCode::Return, true), Some(Input::Char('\r')));
}

#[test]
fn other_keys_give_nothing() {
    assert_eq!(convert_keycode(KeyCode::Other, false), None);
    assert_eq!(convert_keycode(KeyCode::Other, true), None);
}

#[test]
fn key_events() {
    assert_eq!(
        convert_key_event(true, Some(KeyCode::Q), false),
        Some(InputEvent::Input(Input::Char('q')))
    );
    assert_eq!(
        convert_key_event(true, Some(KeyCode::Q), true),
        Some(InputEvent::Input(Input::Char('Q')))
    );
    assert_eq!(convert_key_event(false, Some(KeyCode::Q), false), None);
    assert_eq!(convert_key_event(true, None, false), None);
    assert_eq!(convert_key_event(true, Some(KeyCode::Other), false), None);
}

#[test]
fn mouse_button_events() {
    let at = Coord { x: 3, y: -4 };
    assert_eq!(
        convert_mouse_button_event(true, ButtonCode::Left, at),
        Some(InputEvent::Input(Input::MousePress {
            coord: at,
            button: MouseButton::Left
        }))
    );
    assert_eq!(
        convert_mouse_button_event(false, ButtonCode::Middle, at),
        Some(InputEvent::Input(Input::MouseRelease {
            coord: at,
            button: MouseButton::Middle
        }))
    );
    assert_eq!(
        convert_mouse_button_event(true, ButtonCode::Right, at),
        Some(InputEvent::Input(Input::MousePress {
            coord: at,
            button: MouseButton::Right
        }))
    );
    assert_eq!(convert_mouse_button_event(true, ButtonCode::Other(4), at), None);
}

#[test]
fn collecting_no_events() {
    let polled = collect_events(&vec![]);
    assert_eq!(polled.inputs, vec![]);
    assert_eq!(polled.resize, None);
    assert!(!polled.closing);
}

#[test]
fn collecting_keeps_inputs_in_order_and_the_last_resize() {
    let polled = collect_events(&vec![
        InputEvent::Input(Input::Char('a')),
        InputEvent::Resize(10, 20),
        InputEvent::Input(Input::Up),
        InputEvent::Resize(30, 40),
        InputEvent::Input(Input::Char('b')),
    ]);
    assert_eq!(
        polled.inputs,
        vec![Input::Char('a'), Input::Up, Input::Char('b')]
    );
    assert_eq!(polled.resize, Some((30, 40)));
    assert!(!polled.closing);
}

#[test]
fn collecting_a_quit_ends_the_inputs_with_end_of_text() {
    assert_eq!(ETX, '\u{3}');
    let polled = collect_events(&vec![
        InputEvent::Input(Input::Char('a')),
        InputEvent::Quit,
        InputEvent::Input(Input::Char('b')),
    ]);
    assert_eq!(
        polled.inputs,
        vec![Input::Char('a'), Input::Char('b'), Input::Char('\u{3}')]
    );
    assert_eq!(polled.resize, None);
    assert!(polled.closing);
    let polled = collect_events(&vec![InputEvent::Quit, InputEvent::Quit]);
    assert_eq!(polled.inputs, vec![Input::Char('\u{3}')]);
    assert!(polled.closing);
}
