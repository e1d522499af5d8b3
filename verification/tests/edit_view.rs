use line_edit::edit_view::EditView;
use line_edit::event::{Event, EventResult, Key, Notification};
use line_edit::render::{make_small_stars, DrawOp};

fn view_with(content: &str, width: usize) -> EditView {
    let mut view = EditView::new().content(content);
    view.layout(width);
    view
}

fn consumed_silently(result: &EventResult) -> bool {
    matches!(result, EventResult::Consumed(None))
}

fn ignored(result: &EventResult) -> bool {
    matches!(result, EventResult::Ignored)
}

#[test]
fn new_view_is_empty_and_enabled() {
    let view = EditView::new();
    assert_eq!(view.get_content().as_str(), "");
    assert_eq!(view.cursor, 0);
    assert_eq!(view.offset, 0);
    assert_eq!(view.last_length, 0);
    assert!(view.is_enabled());
    assert!(!view.secret);
    assert_eq!(view.get_min_size(), (1, 1));
}

#[test]
fn builders_set_their_field() {
    let view = EditView::new().min_length(20).secret().disabled().on_edit().on_submit();
    assert_eq!(view.get_min_size(), (20, 1));
    assert!(view.secret);
    assert!(!view.is_enabled());
    assert!(view.on_edit);
    assert!(view.on_submit);
}

#[test]
fn enabling_and_disabling_gates_focus() {
    let mut view = EditView::new();
    assert!(view.take_focus());
    view.disable();
    assert!(!view.is_enabled());
    assert!(!view.take_focus());
    view.enable();
    assert!(view.take_focus());
    view.set_enabled(false);
    assert!(!view.take_focus());
    view.set_secret(true);
    assert!(view.secret);
    view.set_secret(false);
    assert!(!view.secret);
}

#[test]
fn set_content_shows_from_the_start() {
    let mut view = view_with("hello world", 5);
    view.on_event(Event::Key(Key::End));
    assert_eq!(view.offset, 7);
    view.set_content("hello");
    assert_eq!(view.get_content().as_str(), "hello");
    assert_eq!(view.offset, 0);
    assert_eq!(view.cursor, 5);
}

#[test]
fn set_content_moves_a_lost_cursor_to_the_end() {
    let mut view = view_with("hello", 10);
    view.on_event(Event::Key(Key::End));
    view.set_content("hi");
    assert_eq!(view.cursor, 2);
    let mut view = view_with("hello", 10);
    view.on_event(Event::Key(Key::Right));
    view.on_event(Event::Key(Key::Right));
    assert_eq!(view.cursor, 2);
    view.set_content("h\u{e9}llo");
    assert_eq!(view.cursor, 6);
    assert_eq!(view.offset, 0);
}

#[test]
fn insert_puts_the_character_at_the_cursor() {
    let mut view = view_with("ab", 10);
    view.on_event(Event::Key(Key::Right));
    view.insert('\u{e9}');
    assert_eq!(view.get_content().as_str(), "a\u{e9}b");
    assert_eq!(view.cursor, 3);
}

#[test]
fn remove_takes_the_bytes_at_the_cursor() {
    let mut view = view_with("a\u{4e2d}b", 10);
    view.on_event(Event::Key(Key::Right));
    view.remove(3);
    assert_eq!(view.get_content().as_str(), "ab");
    assert_eq!(view.cursor, 1);
}

#[test]
fn insert_then_remove_gives_back_content_and_cursor() {
    for ch in ['x', '\u{e9}', '\u{4e2d}', '\u{301}', '\u{1f600}'] {
        let mut view = view_with("ab", 10);
        view.on_event(Event::Key(Key::Right));
        let before = view.cursor;
        view.insert(ch);
        assert_eq!(view.cursor, before + ch.len_utf8());
        view.cursor = before;
        view.remove(ch.len_utf8());
        assert_eq!(view.get_content().as_str(), "ab");
        assert_eq!(view.cursor, before);
    }
}

#[test]
fn snapshot_does_not_see_later_edits() {
    let mut view = view_with("ab", 10);
    let before = view.get_content();
    view.insert('x');
    assert_eq!(before.as_str(), "ab");
    assert_eq!(view.get_content().as_str(), "xab");
    view.cursor = 0;
    view.remove(1);
    assert_eq!(before.as_str(), "ab");
    assert_eq!(view.get_content().as_str(), "ab");
}

#[test]
fn end_scrolls_so_that_the_tail_and_the_marker_show() {
    let mut view = view_with("hello world", 5);
    let result = view.on_event(Event::Key(Key::End));
    assert!(consumed_silently(&result));
    assert_eq!(view.cursor, 11);
    assert_eq!(view.offset, 7);
    assert_eq!(
        view.draw(5, true),
        vec![
            DrawOp::Text { column: 0, from: 7, to: 11 },
            DrawOp::Blank { column: 4, count: 1 },
            DrawOp::Blank { column: 4, count: 1 },
        ]
    );
}

#[test]
fn wide_character_stays_whole_in_a_narrow_viewport() {
    let mut view = view_with("ab", 3);
    view.on_event(Event::Key(Key::Right));
    assert_eq!(view.cursor, 1);
    assert_eq!(view.offset, 0);
    let result = view.on_event(Event::Char('\u{4e2d}'));
    assert!(consumed_silently(&result));
    assert_eq!(view.get_content().as_str(), "a\u{4e2d}b");
    assert_eq!(view.cursor, 4);
    assert_eq!(view.offset, 1);
    assert_eq!(
        view.draw(3, true),
        vec![
            DrawOp::Text { column: 0, from: 1, to: 5 },
            DrawOp::Text { column: 2, from: 4, to: 5 },
        ]
    );
}

#[test]
fn backspace_on_empty_content_is_not_consumed() {
    let mut view = EditView::new().on_edit();
    view.layout(5);
    let result = view.on_event(Event::Key(Key::Backspace));
    assert!(ignored(&result));
    assert_eq!(view.get_content().as_str(), "");
    assert_eq!(view.cursor, 0);
    assert_eq!(view.offset, 0);
}

#[test]
fn enter_with_a_handler_hands_out_the_content() {
    let mut view = EditView::new().on_submit().on_edit().content("hi");
    view.layout(5);
    view.on_event(Event::Key(Key::End));
    let result = view.on_event(Event::Key(Key::Enter));
    match result {
        EventResult::Consumed(Some(Notification::Submit { content })) => {
            assert_eq!(content.as_str(), "hi");
        }
        other => panic!("unexpected answer: {:?}", other),
    }
    assert_eq!(view.get_content().as_str(), "hi");
    assert_eq!(view.cursor, 2);
    assert_eq!(view.offset, 0);
}

#[test]
fn enter_without_a_handler_is_not_consumed() {
    let mut view = view_with("hi", 5);
    let result = view.on_event(Event::Key(Key::Enter));
    assert!(ignored(&result));
    assert_eq!(view.get_content().as_str(), "hi");
}

#[test]
fn edit_handler_is_told_content_and_cursor() {
    let mut view = EditView::new().on_edit();
    view.layout(5);
    let result = view.on_event(Event::Char('x'));
    match result {
        EventResult::Consumed(Some(Notification::Edit { content, cursor })) => {
            assert_eq!(content.as_str(), "x");
            assert_eq!(cursor, 1);
        }
        other => panic!("unexpected answer: {:?}", other),
    }
    let result = view.on_event(Event::Key(Key::Home));
    match result {
        EventResult::Consumed(Some(Notification::Edit { content, cursor })) => {
            assert_eq!(content.as_str(), "x");
            assert_eq!(cursor, 0);
        }
        other => panic!("unexpected answer: {:?}", other),
    }
}

#[test]
fn notification_keeps_its_snapshot() {
    let mut view = EditView::new().on_edit();
    view.layout(5);
    let first = view.on_event(Event::Char('x'));
    view.on_event(Event::Char('y'));
    match first {
        EventResult::Consumed(Some(Notification::Edit { content, cursor })) => {
            assert_eq!(content.as_str(), "x");
            assert_eq!(cursor, 1);
        }
        other => panic!("unexpected answer: {:?}", other),
    }
    assert_eq!(view.get_content().as_str(), "xy");
}

#[test]
fn left_and_right_move_by_whole_clusters() {
    let mut view = view_with("a\u{301}b", 10);
    assert!(consumed_silently(&view.on_event(Event::Key(Key::End))));
    assert_eq!(view.cursor, 4);
    assert!(consumed_silently(&view.on_event(Event::Key(Key::Left))));
    assert_eq!(view.cursor, 3);
    assert!(consumed_silently(&view.on_event(Event::Key(Key::Left))));
    assert_eq!(view.cursor, 0);
    assert!(ignored(&view.on_event(Event::Key(Key::Left))));
    assert_eq!(view.cursor, 0);
    assert!(consumed_silently(&view.on_event(Event::Key(Key::Right))));
    assert_eq!(view.cursor, 3);
    assert!(consumed_silently(&view.on_event(Event::Key(Key::Right))));
    assert_eq!(view.cursor, 4);
    assert!(ignored(&view.on_event(Event::Key(Key::Right))));
    assert_eq!(view.cursor, 4);
}

#[test]
fn backspace_removes_the_cluster_before_the_cursor() {
    let mut view = view_with("ae\u{301}", 10);
    view.on_event(Event::Key(Key::End));
    assert!(consumed_silently(&view.on_event(Event::Key(Key::Backspace))));
    assert_eq!(view.get_content().as_str(), "a");
    assert_eq!(view.cursor, 1);
    assert!(consumed_silently(&view.on_event(Event::Key(Key::Backspace))));
    assert_eq!(view.get_content().as_str(), "");
    assert_eq!(view.cursor, 0);
    assert!(ignored(&view.on_event(Event::Key(Key::Backspace))));
}

#[test]
fn delete_removes_the_cluster_at_the_cursor() {
    let mut view = view_with("\u{4e2d}b", 10);
    assert!(consumed_silently(&view.on_event(Event::Key(Key::Del))));
    assert_eq!(view.get_content().as_str(), "b");
    assert_eq!(view.cursor, 0);
    assert!(consumed_silently(&view.on_event(Event::Key(Key::Del))));
    assert_eq!(view.get_content().as_str(), "");
    assert!(ignored(&view.on_event(Event::Key(Key::Del))));
}

#[test]
fn home_is_consumed_even_at_the_start() {
    let mut view = view_with("ab", 10);
    assert!(consumed_silently(&view.on_event(Event::Key(Key::Home))));
    assert_eq!(view.cursor, 0);
}

#[test]
fn other_keys_are_not_consumed() {
    let mut view = view_with("ab", 10);
    for key in [Key::Tab, Key::Esc, Key::Up, Key::Down, Key::Ins, Key::PageUp, Key::PageDown] {
        assert!(ignored(&view.on_event(Event::Key(key))));
    }
    assert_eq!(view.get_content().as_str(), "ab");
    assert_eq!(view.cursor, 0);
}

#[test]
fn home_snaps_the_window_to_the_cursor() {
    let mut view = view_with("hello world", 5);
    view.on_event(Event::Key(Key::End));
    assert_eq!(view.offset, 7);
    view.on_event(Event::Key(Key::Home));
    assert_eq!(view.cursor, 0);
    assert_eq!(view.offset, 0);
    assert_eq!(
        view.draw(5, true),
        vec![
            DrawOp::Text { column: 0, from: 0, to: 5 },
            DrawOp::Text { column: 0, from: 0, to: 1 },
        ]
    );
}

#[test]
fn deleting_at_the_end_refills_the_window() {
    let mut view = view_with("hello world", 5);
    view.on_event(Event::Key(Key::End));
    view.on_event(Event::Key(Key::Backspace));
    assert_eq!(view.get_content().as_str(), "hello worl");
    assert_eq!(view.cursor, 10);
    assert_eq!(view.offset, 6);
}

#[test]
fn offset_never_passes_the_cursor() {
    let mut view = view_with("hello world", 4);
    let keys = [
        Key::End, Key::Left, Key::Left, Key::Backspace, Key::Home, Key::Right, Key::Del,
        Key::End, Key::Backspace, Key::Backspace, Key::Left, Key::Home,
    ];
    for key in keys {
        view.on_event(Event::Key(key));
        assert!(view.offset <= view.cursor);
        assert!(view.cursor <= view.get_content().len());
        assert!(view.get_content().is_char_boundary(view.cursor));
        assert!(view.get_content().is_char_boundary(view.offset));
    }
}

#[test]
fn typing_before_any_layout_keeps_the_cursor_first() {
    let mut view = EditView::new();
    assert!(consumed_silently(&view.on_event(Event::Char('a'))));
    assert_eq!(view.get_content().as_str(), "a");
    assert_eq!(view.cursor, 1);
    assert_eq!(view.offset, 1);
}

#[test]
fn short_content_is_padded() {
    let view = view_with("hi", 5);
    assert_eq!(
        view.draw(5, false),
        vec![
            DrawOp::Text { column: 0, from: 0, to: 2 },
            DrawOp::Blank { column: 2, count: 3 },
        ]
    );
}

#[test]
fn secret_view_prints_stars_only() {
    let mut view = EditView::new().secret().content("hello");
    view.layout(10);
    assert_eq!(
        view.draw(10, true),
        vec![
            DrawOp::Stars { column: 0, count: 5 },
            DrawOp::Blank { column: 5, count: 5 },
            DrawOp::Stars { column: 0, count: 1 },
        ]
    );
}

#[test]
fn secret_view_masks_a_wide_cursor_and_a_long_content() {
    let mut view = EditView::new().secret().content("\u{4e2d}hello world");
    view.layout(5);
    let ops = view.draw(5, true);
    assert_eq!(
        ops,
        vec![
            DrawOp::Stars { column: 0, count: 5 },
            DrawOp::Stars { column: 0, count: 2 },
        ]
    );
    assert!(ops.iter().all(|op| !matches!(op, DrawOp::Text { .. })));
}

#[test]
fn small_stars_are_clamped() {
    assert_eq!(make_small_stars(0), "");
    assert_eq!(make_small_stars(1), "*");
    assert_eq!(make_small_stars(2), "**");
    assert_eq!(make_small_stars(3), "***");
    assert_eq!(make_small_stars(4), "****");
    assert_eq!(make_small_stars(7), "****");
}

#[test]
fn default_view_is_a_new_view() {
    let view = EditView::default();
    assert_eq!(view.get_content().as_str(), "");
    assert_eq!(view.cursor, 0);
    assert_eq!(view.offset, 0);
    assert_eq!(view.get_min_size(), (1, 1));
    assert!(view.is_enabled());
    assert!(!view.secret);
    assert!(!view.on_edit);
    assert!(!view.on_submit);
}

#[test]
fn wide_glyphs_may_leave_one_column_unused() {
    let mut view = view_with("a\u{4e2d}\u{4e2d}", 4);
    view.on_event(Event::Key(Key::End));
    assert_eq!(view.cursor, 7);
    assert_eq!(view.offset, 4);
    assert_eq!(
        view.draw(4, true),
        vec![
            DrawOp::Text { column: 0, from: 4, to: 7 },
            DrawOp::Blank { column: 2, count: 2 },
            DrawOp::Blank { column: 2, count: 1 },
        ]
    );
}

#[test]
fn resizing_moves_the_window() {
    let mut view = view_with("hello world", 5);
    view.on_event(Event::Key(Key::End));
    assert_eq!(view.offset, 7);
    view.layout(8);
    assert_eq!(view.last_length, 8);
    assert_eq!(view.offset, 4);
    view.layout(3);
    assert_eq!(view.offset, 9);
    view.layout(20);
    assert_eq!(view.offset, 0);
    assert_eq!(view.cursor, 11);
}
