use prototty::coord::Vector2;
use prototty::text::{Glyph, Text};

fn glyph(x: i16, y: i16, character: char) -> Glyph {
    Glyph {
        coord: Vector2 { x, y },
        character,
    }
}

#[test]
fn text_keeps_its_string() {
    let mut text = Text::new("hello".to_string(), Vector2 { x: 5, y: 1 });
    assert_eq!(text.get(), "hello");
    assert_eq!(text.set("world".to_string()), "hello");
    assert_eq!(text.get(), "world");
    assert_eq!(text.set(String::new()), "world");
    assert_eq!(text.get(), "");
}

#[test]
fn text_is_laid_out_in_its_box() {
    let text = Text::new("abcde".to_string(), Vector2 { x: 2, y: 3 });
    assert_eq!(
        text.render(Vector2 { x: 4, y: -1 }),
        vec![
            glyph(4, -1, 'a'),
            glyph(5, -1, 'b'),
            glyph(4, 0, 'c'),
            glyph(5, 0, 'd'),
            glyph(4, 1, 'e'),
        ]
    );
}

#[test]
fn text_layout_ends_where_the_box_is_full() {
    let text = Text::new("abcdef".to_string(), Vector2 { x: 2, y: 2 });
    assert_eq!(
        text.render(Vector2 { x: 0, y: 0 }),
        vec![
            glyph(0, 0, 'a'),
            glyph(1, 0, 'b'),
            glyph(0, 1, 'c'),
            glyph(1, 1, 'd'),
        ]
    );
}

#[test]
fn text_layout_ends_at_a_line_feed_that_leaves_the_box() {
    let text = Text::new("a\nb\ncd".to_string(), Vector2 { x: 4, y: 2 });
    assert_eq!(
        text.render(Vector2 { x: 0, y: 0 }),
        vec![glyph(0, 0, 'a'), glyph(0, 1, 'b')]
    );
}

#[test]
fn text_carriage_return_goes_back_in_the_row() {
    let text = Text::new("ab\rc".to_string(), Vector2 { x: 4, y: 2 });
    assert_eq!(
        text.render(Vector2 { x: 1, y: 1 }),
        vec![glyph(1, 1, 'a'), glyph(2, 1, 'b'), glyph(1, 1, 'c')]
    );
}

#[test]
fn text_after_set_size() {
    let mut text = Text::new("abcd".to_string(), Vector2 { x: 4, y: 1 });
    assert_eq!(text.render(Vector2 { x: 0, y: 0 }).len(), 4);
    text.set_size(Vector2 { x: 1, y: 2 });
    assert_eq!(
        text.render(Vector2 { x: 0, y: 0 }),
        vec![glyph(0, 0, 'a'), glyph(0, 1, 'b')]
    );
}

#[test]
fn text_in_a_box_without_columns_runs_on() {
    let text = Text::new("ab".to_string(), Vector2 { x: 0, y: 1 });
    assert_eq!(
        text.render(Vector2 { x: 0, y: 0 }),
        vec![glyph(0, 0, 'a'), glyph(1, 0, 'b')]
    );
}
