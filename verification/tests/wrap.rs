use prototty::coord::Coord;
use prototty::wrap::{Char, NoWrap, Placement, ViewCell, Word};

fn cell(x: i32, y: i32, character: char) -> Placement<u8> {
    Placement {
        coord: Coord { x, y },
        cell: ViewCell {
            character: Some(character),
            style: 7,
        },
    }
}

fn feed_word(wrap: &mut Word<u8>, text: &str, width: i32) -> Vec<Placement<u8>> {
    let mut all = Vec::new();
    for character in text.chars() {
        all.extend(wrap.process_character(character, 7, width));
    }
    all
}

#[test]
fn no_wrap_writes_one_long_line() {
    let mut wrap = NoWrap::new();
    assert_eq!(wrap.num_lines(), 1);
    assert_eq!(wrap.process_character('a', 7u8), Some(cell(0, 0, 'a')));
    assert_eq!(wrap.process_character('b', 7u8), Some(cell(1, 0, 'b')));
    assert_eq!(wrap.process_character(' ', 7u8), Some(cell(2, 0, ' ')));
    assert_eq!(wrap.process_character('\n', 7u8), None);
    assert_eq!(wrap.num_lines(), 2);
    assert_eq!(wrap.process_character('c', 7u8), Some(cell(0, 1, 'c')));
    assert_eq!(wrap.process_character('d', 7u8), Some(cell(1, 1, 'd')));
    assert_eq!(wrap.process_character('\r', 7u8), None);
    assert_eq!(wrap.process_character('e', 7u8), Some(cell(0, 1, 'e')));
    assert_eq!(wrap.num_lines(), 2);
    wrap.clear();
    assert_eq!(wrap.num_lines(), 1);
    assert_eq!(wrap.process_character('f', 7u8), Some(cell(0, 0, 'f')));
}

#[test]
fn char_wrap_goes_on_in_the_next_line() {
    let mut wrap = Char::new();
    assert_eq!(wrap.process_character('a', 7u8, 2), Some(cell(0, 0, 'a')));
    assert_eq!(wrap.num_lines(), 1);
    assert_eq!(wrap.process_character('b', 7u8, 2), Some(cell(1, 0, 'b')));
    assert_eq!(wrap.num_lines(), 2);
    assert_eq!(wrap.process_character('c', 7u8, 2), Some(cell(0, 1, 'c')));
    assert_eq!(wrap.process_character('\n', 7u8, 2), None);
    assert_eq!(wrap.process_character('d', 7u8, 2), Some(cell(0, 2, 'd')));
    assert_eq!(wrap.process_character('\r', 7u8, 2), None);
    assert_eq!(wrap.process_character('e', 7u8, 2), Some(cell(0, 2, 'e')));
    assert_eq!(wrap.num_lines(), 3);
    let copy = wrap.clone();
    assert_eq!(copy.num_lines(), 3);
    wrap.clear();
    assert_eq!(wrap.num_lines(), 1);
}

#[test]
fn char_wrap_with_one_column() {
    let mut wrap = Char::new();
    assert_eq!(wrap.process_character('a', 7u8, 1), Some(cell(0, 0, 'a')));
    assert_eq!(wrap.process_character('b', 7u8, 1), Some(cell(0, 1, 'b')));
    assert_eq!(wrap.process_character('c', 7u8, 1), Some(cell(0, 2, 'c')));
    assert_eq!(wrap.num_lines(), 4);
}

#[test]
fn word_wrap_holds_a_word_back_until_it_ends() {
    let mut wrap: Word<u8> = Word::new();
    assert_eq!(wrap.process_character('a', 7, 10), vec![]);
    assert_eq!(wrap.process_character('b', 7, 10), vec![]);
    assert_eq!(
        wrap.process_character(' ', 7, 10),
        vec![cell(0, 0, 'a'), cell(1, 0, 'b'), cell(2, 0, ' ')]
    );
    assert_eq!(wrap.process_character('c', 7, 10), vec![]);
    assert_eq!(wrap.flush(10), vec![cell(3, 0, 'c')]);
    assert_eq!(wrap.flush(10), vec![]);
    assert_eq!(wrap.num_lines(), 1);
}

#[test]
fn word_wrap_moves_a_word_that_reaches_the_end_to_the_next_line() {
    let mut wrap: Word<u8> = Word::new();
    let mut written = feed_word(&mut wrap, "ab cde f", 5);
    written.extend(wrap.flush(5));
    assert_eq!(
        written,
        vec![
            cell(0, 0, 'a'),
            cell(1, 0, 'b'),
            cell(2, 0, ' '),
            cell(0, 1, 'c'),
            cell(1, 1, 'd'),
            cell(2, 1, 'e'),
            cell(3, 1, ' '),
            cell(0, 2, 'f'),
        ]
    );
    assert_eq!(wrap.num_lines(), 3);
}

#[test]
fn word_wrap_breaks_a_word_longer_than_a_line() {
    let mut wrap: Word<u8> = Word::new();
    let mut written = feed_word(&mut wrap, "abcdefg", 3);
    written.extend(wrap.flush(3));
    assert_eq!(
        written,
        vec![
            cell(0, 0, 'a'),
            cell(1, 0, 'b'),
            cell(2, 0, 'c'),
            cell(0, 1, 'd'),
            cell(1, 1, 'e'),
            cell(2, 1, 'f'),
            cell(0, 2, 'g'),
        ]
    );
    assert_eq!(wrap.num_lines(), 3);
}

#[test]
fn word_wrap_drops_a_blank_at_the_start_of_a_line() {
    let mut wrap: Word<u8> = Word::new();
    let written = feed_word(&mut wrap, " a  b", 4);
    assert_eq!(written, vec![cell(0, 0, 'a'), cell(1, 0, ' '), cell(2, 0, ' ')]);
    assert_eq!(wrap.num_lines(), 2);
    assert_eq!(wrap.flush(4), vec![cell(0, 1, 'b')]);
    let written = feed_word(&mut wrap, "\n c", 4);
    assert_eq!(written, vec![]);
    assert_eq!(wrap.flush(4), vec![cell(0, 2, 'c')]);
}

#[test]
fn word_wrap_line_feed_and_carriage_return() {
    let mut wrap: Word<u8> = Word::new();
    let written = feed_word(&mut wrap, "ab\ncd\ref", 10);
    assert_eq!(
        written,
        vec![
            cell(0, 0, 'a'),
            cell(1, 0, 'b'),
            cell(0, 1, 'c'),
            cell(1, 1, 'd'),
        ]
    );
    assert_eq!(wrap.flush(10), vec![cell(0, 1, 'e'), cell(1, 1, 'f')]);
    assert_eq!(wrap.num_lines(), 2);
    wrap.clear();
    assert_eq!(wrap.num_lines(), 1);
    assert_eq!(wrap.flush(10), vec![]);
}

#[test]
fn word_wrap_blank_that_fills_the_line() {
    let mut wrap: Word<u8> = Word::new();
    let written = feed_word(&mut wrap, "ab c", 3);
    assert_eq!(
        written,
        vec![cell(0, 0, 'a'), cell(1, 0, 'b'), cell(2, 0, ' ')]
    );
    assert_eq!(wrap.num_lines(), 2);
    assert_eq!(wrap.flush(3), vec![cell(0, 1, 'c')]);
}

#[test]
fn cloned_word_wrap_goes_on_alike() {
    let mut wrap: Word<u8> = Word::new();
    feed_word(&mut wrap, "ab cd", 10);
    let mut copy = wrap.clone();
    assert_eq!(copy.num_lines(), wrap.num_lines());
    assert_eq!(wrap.flush(10), vec![cell(3, 0, 'c'), cell(4, 0, 'd')]);
    assert_eq!(copy.flush(10), vec![cell(3, 0, 'c'), cell(4, 0, 'd')]);
}
