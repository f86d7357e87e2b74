//! Input events, and how the keys and buttons of a window system become them.

use crate::coord::Coord;
use vstd::prelude::*;

verus! {

/// The character that the escape key gives.
pub const ESCAPE: char = '\u{1b}';

/// The character that the return key gives.
pub const RETURN: char = '\u{d}';

#[derive(Debug, Clone, Copy, PartialEq, Eq)]
pub enum MouseButton {
    Left,
    Right,
    Middle,
}

#[derive(Debug, Clone, Copy, PartialEq, Eq)]
pub enum ScrollDirection {
    Up,
    Down,
    Left,
    Right,
}

/// One input from the keyboard or the mouse.
#[derive(Debug, Clone, Copy, PartialEq, Eq)]
pub enum Input {
    Char(char),
    Up,
    Down,
    Left,
    Right,
    Home,
    End,
    PageUp,
    PageDown,
    MouseMove(Coord),
    MousePress { coord: Coord, button: MouseButton },
    MouseRelease { coord: Coord, button: MouseButton },
    MouseScroll { direction: ScrollDirection, coord: Coord },
}

/// What a window reports to the application.
#[derive(Debug, Clone, Copy, PartialEq, Eq)]
pub enum InputEvent {
    Input(Input),
    Resize(u32, u32),
    Quit,
}

/// A key of the keyboard, by its position. `Other` stands for every key that
/// gives no input.
#[derive(Debug, Clone, Copy, PartialEq, Eq)]
pub enum KeyCode {
    Space,
    A,
    B,
    C,
    D,
    E,
    F,
    G,
    H,
    I,
    J,
    K,
    L,
    M,
    N,
    O,
    P,
    Q,
    R,
    S,
    T,
    U,
    V,
    W,
    X,
    Y,
    Z,
    Key1,
    Key2,
    Key3,
    Key4,
    Key5,
    Key6,
    Key7,
    Key8,
    Key9,
    Key0,
    Numpad1,
    Numpad2,
    Numpad3,
    Numpad4,
    Numpad5,
    Numpad6,
    Numpad7,
    Numpad8,
    Numpad9,
    Numpad0,
    Period,
    Comma,
    Slash,
    Left,
    Right,
    Up,
    Down,
    Escape,
    Return,
    At,
    Add,
    Subtract,
    Equals,
    Backslash,
    Grave,
    Apostrophe,
    LBracket,
    RBracket,
    PageUp,
    PageDown,
    Home,
    End,
    Other,
}

/// A button of the mouse as the window system names it.
#[derive(Debug, Clone, Copy, PartialEq, Eq)]
pub enum ButtonCode {
    Left,
    Right,
    Middle,
    Other(u8),
}

/// The input of a key that gives the same input whether shift is held or not
/// and is no character key.
pub open spec fn navigation_input(code: KeyCode) -> Option<Input> {
    match code {
        KeyCode::Left => Some(Input::Left),
        KeyCode::Right => Some(Input::Right),
        KeyCode::Up => Some(Input::Up),
        KeyCode::Down => Some(Input::Down),
        KeyCode::PageUp => Some(Input::PageUp),
        KeyCode::PageDown => Some(Input::PageDown),
        KeyCode::Home => Some(Input::Home),
        KeyCode::End => Some(Input::End),
        _ => None,
    }
}

/// The character that a character key gives while shift is not held.
pub open spec fn plain_char(code: KeyCode) -> Option<char> {
    match code {
        KeyCode::Space => Some(' '),
        KeyCode::A => Some('a'),
        KeyCode::B => Some('b'),
        KeyCode::C => Some('c'),
        KeyCode::D => Some('d'),
        KeyCode::E => Some('e'),
        KeyCode::F => Some('f'),
        KeyCode::G => Some('g'),
        KeyCode::H => Some('h'),
        KeyCode::I => Some('i'),
        KeyCode::J => Some('j'),
        KeyCode::K => Some('k'),
        KeyCode::L => Some('l'),
        KeyCode::M => Some('m'),
        KeyCode::N => Some('n'),
        KeyCode::O => Some('o'),
        KeyCode::P => Some('p'),
        KeyCode::Q => Some('q'),
        KeyCode::R => Some('r'),
        KeyCode::S => Some('s'),
        KeyCode::T => Some('t'),
        KeyCode::U => Some('u'),
        KeyCode::V => Some('v'),
        KeyCode::W => Some('w'),
        KeyCode::X => Some('x'),
        KeyCode::Y => Some('y'),
        KeyCode::Z => Some('z'),
        KeyCode::Key1 | KeyCode::Numpad1 => Some('1'),
        KeyCode::Key2 | KeyCode::Numpad2 => Some('2'),
        KeyCode::Key3 | KeyCode::Numpad3 => Some('3'),
        KeyCode::Key4 | KeyCode::Numpad4 => Some('4'),
        KeyCode::Key5 | KeyCode::Numpad5 => Some('5'),
        KeyCode::Key6 | KeyCode::Numpad6 => Some('6'),
        KeyCode::Key7 | KeyCode::Numpad7 => Some('7'),
        KeyCode::Key8 | KeyCode::Numpad8 => Some('8'),
        KeyCode::Key9 | KeyCode::Numpad9 => Some('9'),
        KeyCode::Key0 | KeyCode::Numpad0 => Some('0'),
        KeyCode::Period => Some('.'),
        KeyCode::Comma => Some(','),
        KeyCode::Slash => Some('/'),
        KeyCode::Equals => Some('='),
        KeyCode::Backslash => Some('\\'),
        KeyCode::Grave => Some('`'),
        KeyCode::Apostrophe => Some('\''),
        KeyCode::LBracket => Some('['),
        KeyCode::RBracket => Some(']'),
        KeyCode::Escape => Some(ESCAPE),
        KeyCode::Return => Some(RETURN),
        KeyCode::At => Some('@'),
        KeyCode::Add => Some('+'),
        KeyCode::Subtract => Some('-'),
        _ => None,
    }
}

/// The character that a key gives while shift is held, for the keys on which
/// shift makes a difference.
pub open spec fn shifted_char(code: KeyCode) -> Option<char> {
    match code {
        KeyCode::A => Some('A'),
        KeyCode::B => Some('B'),
        KeyCode::C => Some('C'),
        KeyCode::D => Some('D'),
        KeyCode::E => Some('E'),
        KeyCode::F => Some('F'),
        KeyCode::G => Some('G'),
        KeyCode::H => Some('H'),
        KeyCode::I => Some('I'),
        KeyCode::J => Some('J'),
        KeyCode::K => Some('K'),
        KeyCode::L => Some('L'),
        KeyCode::M => Some('M'),
        KeyCode::N => Some('N'),
        KeyCode::O => Some('O'),
        KeyCode::P => Some('P'),
        KeyCode::Q => Some('Q'),
        KeyCode::R => Some('R'),
        KeyCode::S => Some('S'),
        KeyCode::T => Some('T'),
        KeyCode::U => Some('U'),
        KeyCode::V => Some('V'),
        KeyCode::W => Some('W'),
        KeyCode::X => Some('X'),
        KeyCode::Y => Some('Y'),
        KeyCode::Z => Some('Z'),
        KeyCode::Key1 => Some('!'),
        KeyCode::Key3 => Some('#'),
        KeyCode::Key4 => Some('$'),
        KeyCode::Key5 => Some('%'),
        KeyCode::Key6 => Some('^'),
        KeyCode::Key7 => Some('&'),
        KeyCode::Key8 => Some('*'),
        KeyCode::Key9 => Some('('),
        KeyCode::Key0 => Some(')'),
        KeyCode::Period => Some('>'),
        KeyCode::Comma => Some('<'),
        KeyCode::Slash => Some('?'),
        KeyCode::Equals => Some('+'),
        KeyCode::Backslash => Some('|'),
        KeyCode::Grave => Some('~'),
        KeyCode::Apostrophe => Some('"'),
        KeyCode::LBracket => Some('{'),
        KeyCode::RBracket => Some('}'),
        _ => None,
    }
}

/// The input that pressing the key `code` gives, with shift held or not:
/// none for a key that is neither a navigation key nor a character key.
pub open spec fn keycode_input(code: KeyCode, shift: bool) -> Option<Input> {
    match navigation_input(code) {
        Some(input) => Some(input),
        None => match plain_char(code) {
            Some(plain) => match shifted_char(code) {
                Some(shifted) if shift => Some(Input::Char(shifted)),
                _ => Some(Input::Char(plain)),
            },
            None => None,
        },
    }
}

/// The character input of a key on which shift makes a difference.
fn char_shift(lower: char, upper: char, shift: bool) -> (input: Input)
    ensures
        input == Input::Char(if shift { upper } else { lower }),
{
    Input::Char(if shift { upper } else { lower })
}

/// The input that pressing the key `code` gives, if it gives one.
pub fn convert_keycode(code: KeyCode, shift: bool) -> (input: Option<Input>)
    ensures
        input == keycode_input(code, shift),
{
    let input = match code {
        KeyCode::Space => Input::Char(' '),
        KeyCode::A => char_shift('a', 'A', shift),
        KeyCode::B => char_shift('b', 'B', shift),
        KeyCode::C => char_shift('c', 'C', shift),
        KeyCode::D => char_shift('d', 'D', shift),
        KeyCode::E => char_shift('e', 'E', shift),
        KeyCode::F => char_shift('f', 'F', shift),
        KeyCode::G => char_shift('g', 'G', shift),
        KeyCode::H => char_shift('h', 'H', shift),
        KeyCode::I => char_shift('i', 'I', shift),
        KeyCode::J => char_shift('j', 'J', shift),
        KeyCode::K => char_shift('k', 'K', shift),
        KeyCode::L => char_shift('l', 'L', shift),
        KeyCode::M => char_shift('m', 'M', shift),
        KeyCode::N => char_shift('n', 'N', shift),
        KeyCode::O => char_shift('o', 'O', shift),
        KeyCode::P => char_shift('p', 'P', shift),
        KeyCode::Q => char_shift('q', 'Q', shift),
        KeyCode::R => char_shift('r', 'R', shift),
        KeyCode::S => char_shift('s', 'S', shift),
        KeyCode::T => char_shift('t', 'T', shift),
        KeyCode::U => char_shift('u', 'U', shift),
        KeyCode::V => char_shift('v', 'V', shift),
        KeyCode::W => char_shift('w', 'W', shift),
        KeyCode::X => char_shift('x', 'X', shift),
        KeyCode::Y => char_shift('y', 'Y', shift),
        KeyCode::Z => char_shift('z', 'Z', shift),
        KeyCode::Key1 => char_shift('1', '!', shift),
        KeyCode::Key2 => Input::Char('2'),
        KeyCode::Key3 => char_shift('3', '#', shift),
        KeyCode::Key4 => char_shift('4', '$', shift),
        KeyCode::Key5 => char_shift('5', '%', shift),
        KeyCode::Key6 => char_shift('6', '^', shift),
        KeyCode::Key7 => char_shift('7', '&', shift),
        KeyCode::Key8 => char_shift('8', '*', shift),
        KeyCode::Key9 => char_shift('9', '(', shift),
        KeyCode::Key0 => char_shift('0', ')', shift),
        KeyCode::Numpad1 => Input::Char('1'),
        KeyCode::Numpad2 => Input::Char('2'),
        KeyCode::Numpad3 => Input::Char('3'),
        KeyCode::Numpad4 => Input::Char('4'),
        KeyCode::Numpad5 => Input::Char('5'),
        KeyCode::Numpad6 => Input::Char('6'),
        KeyCode::Numpad7 => Input::Char('7'),
        KeyCode::Numpad8 => Input::Char('8'),
        KeyCode::Numpad9 => Input::Char('9'),
        KeyCode::Numpad0 => Input::Char('0'),
        KeyCode::Period => char_shift('.', '>', shift),
        KeyCode::Comma => char_shift(',', '<', shift),
        KeyCode::Slash => char_shift('/', '?', shift),
        KeyCode::Left => Input::Left,
        KeyCode::Right => Input::Right,
        KeyCode::Up => Input::Up,
        KeyCode::Down => Input::Down,
        KeyCode::Escape => Input::Char(ESCAPE),
        KeyCode::Return => Input::Char(RETURN),
        KeyCode::At => Input::Char('@'),
        KeyCode::Add => Input::Char('+'),
        KeyCode::Subtract => Input::Char('-'),
        KeyCode::Equals => char_shift('=', '+', shift),
        KeyCode::Backslash => char_shift('\\', '|', shift),
        KeyCode::Grave => char_shift('`', '~', shift),
        KeyCode::Apostrophe => char_shift('\'', '"', shift),
        KeyCode::LBracket => char_shift('[', '{', shift),
        KeyCode::RBracket => char_shift(']', '}', shift),
        KeyCode::PageUp => Input::PageUp,
        KeyCode::PageDown => Input::PageDown,
        KeyCode::Home => Input::Home,
        KeyCode::End => Input::End,
        KeyCode::Other => return None,
    };
    Some(input)
}

/// The event for a change of a key's state: pressing a key that gives an
/// input gives that input; releasing a key, pressing an unnamed key or one
/// that gives no input gives nothing.
pub open spec fn key_event(pressed: bool, code: Option<KeyCode>, shift: bool) -> Option<
    InputEvent,
> {
    match code {
        Some(code) if pressed => match keycode_input(code, shift) {
            Some(input) => Some(InputEvent::Input(input)),
            None => None,
        },
        _ => None,
    }
}

/// The event for a change of a key's state.
pub fn convert_key_event(pressed: bool, code: Option<KeyCode>, shift: bool) -> (event: Option<
    InputEvent,
>)
    ensures
        event == key_event(pressed, code, shift),
{
    if pressed {
        if let Some(code) = code {
            if let Some(input) = convert_keycode(code, shift) {
                return Some(InputEvent::Input(input));
            }
        }
    }
    None
}

/// The event for a change of a mouse button's state while the pointer is
/// over the cell `at`: a press or a release of the left, middle or right
/// button, and nothing for any other button.
pub open spec fn mouse_button_event(pressed: bool, button: ButtonCode, at: Coord) -> Option<
    InputEvent,
> {
    let named = match button {
        ButtonCode::Left => Some(MouseButton::Left),
        ButtonCode::Middle => Some(MouseButton::Middle),
        ButtonCode::Right => Some(MouseButton::Right),
        ButtonCode::Other(_) => None,
    };
    match named {
        Some(button) => Some(
            InputEvent::Input(
                if pressed {
                    Input::MousePress { coord: at, button }
                } else {
                    Input::MouseRelease { coord: at, button }
                },
            ),
        ),
        None => None,
    }
}

/// The event for a change of a mouse button's state while the pointer is
/// over the cell `at`.
pub fn convert_mouse_button_event(pressed: bool, button: ButtonCode, at: Coord) -> (event: Option<
    InputEvent,
>)
    ensures
        event == mouse_button_event(pressed, button, at),
{
    let button = match button {
        ButtonCode::Left => MouseButton::Left,
        ButtonCode::Middle => MouseButton::Middle,
        ButtonCode::Right => MouseButton::Right,
        ButtonCode::Other(_) => return None,
    };
    let input = if pressed {
        Input::MousePress { coord: at, button }
    } else {
        Input::MouseRelease { coord: at, button }
    };
    Some(InputEvent::Input(input))
}

/// The character that closing the window gives: end of text.
pub const ETX: char = '\u{3}';

/// What a round of events from the window comes to.
#[derive(Debug, Clone, PartialEq, Eq)]
pub struct Polled {
    /// The inputs to hand on, in the order of their events; where the window
    /// was closed, an end of text follows them.
    pub inputs: Vec<Input>,
    /// The size of the last resize among the events, if there was one.
    pub resize: Option<(u32, u32)>,
    /// Whether the window was closed.
    pub closing: bool,
}

/// The inputs among `events`, in their order.
pub open spec fn inputs_of(events: Seq<InputEvent>) -> Seq<Input>
    decreases events.len(),
{
    if events.len() == 0 {
        Seq::empty()
    } else {
        match events.last() {
            InputEvent::Input(input) => inputs_of(events.drop_last()).push(input),
            _ => inputs_of(events.drop_last()),
        }
    }
}

/// The size of the last resize among `events`.
pub open spec fn last_resize(events: Seq<InputEvent>) -> Option<(u32, u32)>
    decreases events.len(),
{
    if events.len() == 0 {
        None
    } else {
        match events.last() {
            InputEvent::Resize(width, height) => Some((width, height)),
            _ => last_resize(events.drop_last()),
        }
    }
}

/// Whether the window was closed by one of `events`.
pub open spec fn has_quit(events: Seq<InputEvent>) -> bool {
    exists|i: int| 0 <= i < events.len() && events[i] == InputEvent::Quit
}

/// Sorts a round of events: the inputs to hand on, the resize to carry out
/// and whether the window was closed.
pub fn collect_events(events: &Vec<InputEvent>) -> (polled: Polled)
    ensures
        polled.closing == has_quit(events@),
        polled.resize == last_resize(events@),
        polled.inputs@ == if polled.closing {
            inputs_of(events@).push(Input::Char(ETX))
        } else {
            inputs_of(events@)
        },
{
    let mut inputs: Vec<Input> = Vec::new();
    let mut resize: Option<(u32, u32)> = None;
    let mut closing = false;
    let mut i: usize = 0;
    while i < events.len()
        invariant
            i <= events@.len(),
            inputs@ == inputs_of(events@.take(i as int)),
            resize == last_resize(events@.take(i as int)),
            closing == has_quit(events@.take(i as int)),
        decreases events@.len() - i,
    {
        proof {
            let seen = events@.take(i as int);
            let grown = events@.take(i + 1);
            assert(grown.drop_last() =~= seen);
            assert(grown.last() == events@[i as int]);
            if has_quit(seen) {
                let at = choose|j: int| 0 <= j < seen.len() && seen[j] == InputEvent::Quit;
                assert(grown[at] == InputEvent::Quit);
            }
            if events@[i as int] == InputEvent::Quit {
                assert(grown[i as int] == InputEvent::Quit);
            }
            if has_quit(grown) {
                let at = choose|j: int| 0 <= j < grown.len() && grown[j] == InputEvent::Quit;
                if at < i {
                    assert(seen[at] == InputEvent::Quit);
                }
            }
        }
        match events[i] {
            InputEvent::Input(input) => {
                inputs.push(input);
            },
            InputEvent::Quit => {
                closing = true;
            },
            InputEvent::Resize(width, height) => {
                resize = Some((width, height));
            },
        }
        i += 1;
    }
    proof {
        assert(events@.take(events@.len() as int) =~= events@);
    }
    if closing {
        inputs.push(Input::Char(ETX));
    }
    Polled { inputs, resize, closing }
}

} // verus!
