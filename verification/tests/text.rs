use kas::data::WidgetId;
use kas::geom::{Coord, Rect, Size};
use kas::layout::size_rules::SizeRules;
use kas::layout::AxisInfo;
use kas::widget::text::{is_control_char, CharResponse, EditBox, Label};

fn typed(text: &str, chars: &str) -> EditBox<()> {
    let mut edit = EditBox::new(text);
    for c in chars.chars() {
        edit.received_char(c);
    }
    edit
}

#[test]
fn label_shows_its_text() {
    assert_eq!(Label::new("hello").get_text(), "hello");
    assert_eq!(Label::new(String::from("hello")).get_text(), "hello");
    assert_eq!(Label::new(42).get_text(), "42");
    assert_eq!(Label::from("hello").get_text(), "hello");
    assert_eq!(Label::from(String::from("hello")).get_text(), "hello");
}

#[test]
fn defaults_are_empty() {
    assert_eq!(Label::default().get_text(), "");
    let edit: EditBox<()> = EditBox::default();
    assert_eq!(edit.get_text(), "");
    assert!(!edit.is_editable());
    assert!(!edit.is_multi_line());
}

#[test]
fn label_set_string_asks_for_redraw_of_itself() {
    let mut label = Label::new("a");
    let id = label.set_string(String::from("b"));
    assert_eq!(label.get_text(), "b");
    assert_eq!(id, WidgetId::default());
}

#[test]
fn control_characters() {
    assert!(is_control_char('\u{0}'));
    assert!(is_control_char('\u{1f}'));
    assert!(!is_control_char(' '));
    assert!(!is_control_char('~'));
    assert!(is_control_char('\u{7f}'));
    assert!(is_control_char('\u{9f}'));
    assert!(!is_control_char('\u{a0}'));
    assert!(!is_control_char('é'));
}

#[test]
fn new_edit_box_is_editable_single_line() {
    let edit = EditBox::new("abc");
    assert!(edit.is_editable());
    assert_eq!(edit.get_text(), "abc");
    assert_eq!(EditBox::new(String::from("abc")).get_text(), "abc");
}

#[test]
fn characters_are_appended() {
    let mut edit = EditBox::new("ab");
    assert_eq!(edit.received_char('c'), CharResponse::Redraw);
    assert_eq!(edit.received_char('é'), CharResponse::Redraw);
    assert_eq!(edit.get_text(), "abcé");
}

#[test]
fn box_that_is_not_editable_ignores_characters() {
    let mut edit = EditBox::new("ab").editable(false);
    assert!(!edit.is_editable());
    assert_eq!(edit.received_char('c'), CharResponse::Ignored);
    assert_eq!(edit.received_char('\u{08}'), CharResponse::Ignored);
    assert_eq!(edit.received_char('\u{0D}'), CharResponse::Ignored);
    assert_eq!(edit.received_char('\u{03}'), CharResponse::Ignored);
    assert_eq!(edit.get_text(), "ab");
    edit.set_editable(true);
    assert_eq!(edit.received_char('c'), CharResponse::Redraw);
    assert_eq!(edit.get_text(), "abc");
}

#[test]
fn backspace_removes_the_last_character() {
    let mut edit = EditBox::new("abé");
    assert_eq!(edit.received_char('\u{08}'), CharResponse::Redraw);
    assert_eq!(edit.get_text(), "ab");
    let edit = typed("a", "\u{08}\u{08}\u{08}");
    assert_eq!(edit.get_text(), "");
}

#[test]
fn delete_clears_the_text() {
    let mut edit = EditBox::new("abc");
    assert_eq!(edit.received_char('\u{7f}'), CharResponse::Redraw);
    assert_eq!(edit.get_text(), "");
}

#[test]
fn return_activates_and_changes_nothing() {
    let mut edit = EditBox::new("abc");
    assert_eq!(edit.received_char('\u{0D}'), CharResponse::Activated);
    assert_eq!(edit.get_text(), "abc");
}

#[test]
fn copy_hands_out_the_text() {
    let mut edit = EditBox::new("abc");
    assert_eq!(edit.received_char('\u{03}'), CharResponse::Copy(String::from("abc")));
    assert_eq!(edit.get_text(), "abc");
}

#[test]
fn other_control_characters_change_nothing() {
    let edit = typed("abc", "\u{09}\u{0A}\u{0B}\u{0C}\u{1B}\u{01}\u{80}\u{9f}");
    assert_eq!(edit.get_text(), "abc");
    let mut edit = EditBox::new("abc");
    assert_eq!(edit.received_char('\u{09}'), CharResponse::Redraw);
}

#[test]
fn undo_goes_back_before_the_last_run_of_edits() {
    let mut edit = typed("ab", "cde");
    assert_eq!(edit.get_text(), "abcde");
    assert_eq!(edit.received_char('\u{1A}'), CharResponse::Redraw);
    assert_eq!(edit.get_text(), "ab");
    // undo again is redo
    edit.received_char('\u{1A}');
    assert_eq!(edit.get_text(), "abcde");
}

#[test]
fn undo_without_edits_changes_nothing() {
    let edit = typed("ab", "\u{1A}");
    assert_eq!(edit.get_text(), "ab");
}

#[test]
fn edits_of_another_kind_start_a_new_run() {
    // insert "cd", then backspace twice: undo restores what the inserts left
    let edit = typed("ab", "cd\u{08}\u{08}\u{1A}");
    assert_eq!(edit.get_text(), "abcd");
    // insert, clear, undo
    let edit = typed("ab", "c\u{7f}\u{1A}");
    assert_eq!(edit.get_text(), "abc");
    // after an undo, an insert saves the text again
    let edit = typed("ab", "c\u{1A}x\u{1A}");
    assert_eq!(edit.get_text(), "ab");
}

#[test]
fn paste_appends_up_to_the_first_control_character() {
    let mut edit = EditBox::new("ab");
    assert_eq!(edit.received_char('\u{16}'), CharResponse::Paste);
    assert_eq!(edit.get_text(), "ab");
    edit.paste("cd\nef");
    assert_eq!(edit.get_text(), "abcd");
    edit.paste("\u{7f}x");
    assert_eq!(edit.get_text(), "abcd");
    edit.paste("");
    assert_eq!(edit.get_text(), "abcd");
    edit.paste("xyz");
    assert_eq!(edit.get_text(), "abcdxyz");
}

#[test]
fn paste_takes_characters_beyond_ascii() {
    let mut edit = EditBox::new("");
    edit.received_char('\u{16}');
    edit.paste("Àé→\u{85}x");
    assert_eq!(edit.get_text(), "Àé→");
}

#[test]
fn paste_is_undone_as_one_edit() {
    let mut edit = typed("ab", "c\u{16}");
    edit.paste("xyz");
    edit.received_char('\u{16}');
    edit.paste("123");
    assert_eq!(edit.get_text(), "abcxyz123");
    edit.received_char('\u{1A}');
    assert_eq!(edit.get_text(), "abc");
}

#[test]
fn set_string_replaces_the_text() {
    let mut edit = EditBox::new("ab");
    let id = edit.set_string(String::from("xyz"));
    assert_eq!(edit.get_text(), "xyz");
    assert_eq!(id, WidgetId::default());
}

#[test]
fn builders_keep_the_text() {
    let edit = EditBox::new("ab").multi_line(true).editable(false);
    assert_eq!(edit.get_text(), "ab");
    assert!(!edit.is_editable());
}

#[test]
fn handler_is_kept_and_can_be_called() {
    let edit = EditBox::new("abc").on_activate(|text: &str| text.len());
    assert_eq!((edit.handler())(edit.get_text()), 3);
    let mut edit = edit.editable(true);
    assert_eq!(edit.received_char('d'), CharResponse::Redraw);
    assert_eq!((edit.handler())(edit.get_text()), 4);
}

#[test]
fn shown_text_has_a_cursor_with_focus() {
    let edit = EditBox::new("abc");
    assert_eq!(edit.shown_text(false), "abc");
    assert_eq!(edit.shown_text(true), "abc|");
}

#[test]
fn edit_box_rules_add_the_frame() {
    let edit = EditBox::new("abc");
    let sides = (Size(2, 3), Size(4, 5));
    let text = SizeRules::variable(10, 20);
    assert_eq!(
        edit.size_rules(sides, text, AxisInfo::new(false, None)),
        SizeRules::variable(16, 26)
    );
    assert_eq!(
        edit.size_rules(sides, text, AxisInfo::new(true, None)),
        SizeRules::variable(18, 28)
    );
}

#[test]
fn edit_box_set_rect_keeps_text_inside_the_frame() {
    let mut edit = EditBox::new("abc");
    let sides = (Size(2, 3), Size(4, 5));
    edit.set_rect(sides, Rect { pos: Coord(10, 20), size: Size(100, 50) });
    assert_eq!(edit.get_text(), "abc");
}
