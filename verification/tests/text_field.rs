use ffkit::key::{edit, KeyCode, KeyEvent, ALT, CONTROL, CONTROL_ALT, META, SHIFT};
use tui_input::Input;

fn field(text: &str, cursor: usize) -> Input {
    Input::new(text.to_string()).with_cursor(cursor)
}

fn press(input: &mut Input, code: KeyCode, modifiers: u8) {
    edit(input, KeyEvent { code, modifiers });
}

fn after(text: &str, cursor: usize, code: KeyCode, modifiers: u8) -> (String, usize) {
    let mut input = field(text, cursor);
    press(&mut input, code, modifiers);
    (input.value().to_string(), input.cursor())
}

fn is(text: &str, cursor: usize) -> (String, usize) {
    (text.to_string(), cursor)
}

#[test]
fn a_typed_character_enters_at_the_cursor() {
    assert_eq!(after("ab", 1, KeyCode::Char('x'), 0), is("axb", 2));
    assert_eq!(after("ab", 2, KeyCode::Char('X'), SHIFT), is("abX", 3));
    assert_eq!(after("ab", 0, KeyCode::Char('@'), CONTROL_ALT), is("@ab", 1));
    assert_eq!(after("é", 1, KeyCode::Char('ß'), 0), is("éß", 2));
}

#[test]
fn keys_that_edit_nothing_leave_the_field_alone() {
    assert_eq!(after("ab", 1, KeyCode::Tab, 0), is("ab", 1));
    assert_eq!(after("ab", 1, KeyCode::Enter, 0), is("ab", 1));
    assert_eq!(after("ab", 1, KeyCode::Up, 0), is("ab", 1));
    assert_eq!(after("ab", 1, KeyCode::Other, 0), is("ab", 1));
    assert_eq!(after("ab", 1, KeyCode::Char('x'), ALT), is("ab", 1));
    assert_eq!(after("ab", 1, KeyCode::Home, SHIFT), is("ab", 1));
}

#[test]
fn backspace_and_delete_take_one_character() {
    assert_eq!(after("abc", 2, KeyCode::Backspace, 0), is("ac", 1));
    assert_eq!(after("abc", 2, KeyCode::Char('h'), CONTROL), is("ac", 1));
    assert_eq!(after("abc", 0, KeyCode::Backspace, 0), is("abc", 0));
    assert_eq!(after("abc", 1, KeyCode::Delete, 0), is("ac", 1));
    assert_eq!(after("abc", 3, KeyCode::Delete, 0), is("abc", 3));
}

#[test]
fn one_perceived_character_may_be_several() {
    // An accent that combines with its letter goes with it.
    assert_eq!(after("ae\u{301}", 3, KeyCode::Backspace, 0), is("a", 1));
    assert_eq!(after("e\u{301}a", 0, KeyCode::Delete, 0), is("a", 0));
    assert_eq!(after("e\u{301}a", 0, KeyCode::Right, 0), is("e\u{301}a", 2));
    assert_eq!(after("e\u{301}a", 2, KeyCode::Left, 0), is("e\u{301}a", 0));
}

#[test]
fn the_cursor_moves_by_characters_and_words() {
    assert_eq!(after("ab cd", 3, KeyCode::Left, 0), is("ab cd", 2));
    assert_eq!(after("ab cd", 0, KeyCode::Left, 0), is("ab cd", 0));
    assert_eq!(after("ab cd", 3, KeyCode::Char('b'), CONTROL), is("ab cd", 2));
    assert_eq!(after("ab cd", 3, KeyCode::Right, 0), is("ab cd", 4));
    assert_eq!(after("ab cd", 5, KeyCode::Right, 0), is("ab cd", 5));
    assert_eq!(after("ab cd", 3, KeyCode::Char('f'), CONTROL), is("ab cd", 4));
    assert_eq!(after("ab cd", 5, KeyCode::Left, CONTROL), is("ab cd", 3));
    assert_eq!(after("ab cd", 5, KeyCode::Char('b'), META), is("ab cd", 3));
    assert_eq!(after("ab cd", 0, KeyCode::Right, CONTROL), is("ab cd", 3));
    assert_eq!(after("ab cd", 0, KeyCode::Char('f'), META), is("ab cd", 3));
    assert_eq!(after("ab cd", 3, KeyCode::Home, 0), is("ab cd", 0));
    assert_eq!(after("ab cd", 3, KeyCode::Char('a'), CONTROL), is("ab cd", 0));
    assert_eq!(after("ab cd", 3, KeyCode::End, 0), is("ab cd", 5));
    assert_eq!(after("ab cd", 3, KeyCode::Char('e'), CONTROL), is("ab cd", 5));
}

#[test]
fn cuts_take_words_and_lines() {
    assert_eq!(after("ab cd", 5, KeyCode::Char('w'), CONTROL), is("ab ", 3));
    assert_eq!(after("ab cd", 5, KeyCode::Char('d'), META), is("ab ", 3));
    assert_eq!(after("ab cd", 5, KeyCode::Backspace, ALT), is("ab ", 3));
    assert_eq!(after("ab cd", 5, KeyCode::Backspace, META), is("ab ", 3));
    assert_eq!(after("ab cd", 0, KeyCode::Delete, CONTROL), is("cd", 0));
    assert_eq!(after("ab cd", 2, KeyCode::Char('k'), CONTROL), is("ab", 2));
    assert_eq!(after("ab cd", 2, KeyCode::Char('u'), CONTROL), is("", 0));
}

#[test]
fn what_was_cut_comes_back() {
    let mut input = field("ab cd", 5);
    press(&mut input, KeyCode::Char('u'), CONTROL);
    press(&mut input, KeyCode::Char('y'), CONTROL);
    assert_eq!(input.value(), "ab cd");
    assert_eq!(input.cursor(), 5);
    // Nothing was cut: nothing comes.
    assert_eq!(after("ab", 1, KeyCode::Char('y'), CONTROL), is("ab", 1));
}

#[test]
fn cuts_in_a_row_are_cut_together() {
    let mut input = field("ab cd", 5);
    press(&mut input, KeyCode::Char('w'), CONTROL);
    press(&mut input, KeyCode::Char('w'), CONTROL);
    assert_eq!(input.value(), "");
    press(&mut input, KeyCode::Char('y'), CONTROL);
    assert_eq!(input.value(), "ab cd");

    // A key between two cuts parts them.
    let mut input = field("ab cd", 5);
    press(&mut input, KeyCode::Char('w'), CONTROL);
    press(&mut input, KeyCode::End, 0);
    press(&mut input, KeyCode::Char('w'), CONTROL);
    press(&mut input, KeyCode::Char('y'), CONTROL);
    assert_eq!(input.value(), "ab ");

    // Where there is nothing to erase, the cuts stay together.
    let mut input = field("ab cd", 5);
    press(&mut input, KeyCode::Char('u'), CONTROL);
    press(&mut input, KeyCode::Backspace, 0);
    press(&mut input, KeyCode::Char('k'), CONTROL);
    press(&mut input, KeyCode::Char('y'), CONTROL);
    assert_eq!(input.value(), "ab cd");

    // A cut at the end of the text cuts nothing, and replaces what was cut.
    let mut input = field("ab cd", 5);
    press(&mut input, KeyCode::Char('w'), CONTROL);
    press(&mut input, KeyCode::End, 0);
    press(&mut input, KeyCode::Char('k'), CONTROL);
    press(&mut input, KeyCode::Char('y'), CONTROL);
    assert_eq!(input.value(), "ab ");
}

#[test]
fn a_cut_of_nothing_still_joins_the_cuts_around_it() {
    let mut input = field("ab cd", 2);
    press(&mut input, KeyCode::Char('k'), CONTROL);
    assert_eq!(input.value(), "ab");
    press(&mut input, KeyCode::Delete, CONTROL);
    press(&mut input, KeyCode::Char('w'), CONTROL);
    assert_eq!(input.value(), "");
    press(&mut input, KeyCode::Char('y'), CONTROL);
    assert_eq!(input.value(), "ab cd");
    assert_eq!(input.cursor(), 5);
}
