use soda_tui::input::Input;

#[test]
fn edits_multibyte_text_without_splitting_characters() {
    let mut input = Input::default();
    input.insert("a🍞é");
    input.left();
    input.backspace();
    assert_eq!(input.text, "aé");
    input.insert("漢");
    assert_eq!(input.text, "a漢é");
    input.delete();
    assert_eq!(input.text, "a漢");
}

#[test]
fn moves_and_deletes_by_word_without_splitting_utf8() {
    let mut input = Input::default();
    input.insert("one  two🍞 three");
    input.word_left();
    assert_eq!(&input.text[..input.cursor], "one  two🍞 ");
    input.delete_word_backward();
    assert_eq!(input.text, "one  three");
    input.word_right();
    assert_eq!(input.cursor, input.text.len());
}
