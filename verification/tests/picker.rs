use soda_tui::model::{KeyCode, KeyEvent, Modifiers};
use soda_tui::picker::{CatalogModel, CatalogResult, ModelRef, Picker, PickerAction};

fn models() -> Picker {
    let model =
        ModelRef { provider: "openrouter".to_owned(), model: "openai/gpt-4.1-mini".to_owned() };
    Picker::models(&vec![], &model, &model, None)
}

fn control(code: KeyCode) -> KeyEvent {
    KeyEvent::new(code, Modifiers { control: true, ..Modifiers::none() })
}

fn key(code: KeyCode) -> KeyEvent {
    KeyEvent::new(code, Modifiers::none())
}

#[test]
fn fuzzy_search_ranks_contiguous_matches_and_edits_unicode() {
    let mut picker = models();
    picker.add(
        "openrouter:anthropic/swift-sonnet".into(),
        "openrouter:anthropic/swift-sonnet | Sonnet".into(),
        false,
    );
    picker.add(
        "openrouter:other".into(),
        "openrouter:something-odd-named-net".into(),
        false,
    );
    picker.paste("SoNNeT");
    assert_eq!(picker.matches.len(), 2);
    assert_eq!(picker.current().unwrap().reference, "openrouter:anthropic/swift-sonnet");
    picker.paste(" anthropic");
    assert_eq!(picker.matches.len(), 1);
    picker.key(control(KeyCode::Char('u')));
    picker.paste("GPT41M");
    assert_eq!(picker.current().unwrap().reference, "openrouter:openai/gpt-4.1-mini");
    picker.paste("漢");
    assert!(picker.matches.is_empty());
    assert!(matches!(picker.key(key(KeyCode::Enter)), PickerAction::Stay));
    picker.key(key(KeyCode::Backspace));
    assert_eq!(picker.matches.len(), 1);
}

#[test]
fn catalog_updates_preserve_selection_and_closing_cancels_pending_work() {
    let mut picker = models();
    let selected = picker.current().unwrap().reference.clone();
    picker.load(2);
    assert!(picker.loading());
    let answered = picker.poll(&vec![CatalogResult::Models {
        provider: "openrouter".to_owned(),
        models: vec![
            CatalogModel { id: "openai/gpt-4.1-mini".to_owned(), name: "Duplicate".to_owned() },
            CatalogModel { id: "new/model".to_owned(), name: "New Model".to_owned() },
        ],
    }]);
    assert!(answered);
    assert!(picker.loading());
    assert!(picker.poll(&vec![CatalogResult::Failed {
        provider: "offline".to_owned(),
        error: "Unavailable".to_owned(),
    }]));
    assert!(!picker.loading());
    assert_eq!(picker.choices.len(), 2);
    assert_eq!(picker.current().unwrap().reference, selected);
    assert_eq!(picker.errors, ["offline: Unavailable"]);
    assert!(!picker.poll(&vec![CatalogResult::Lost]));
    picker.load(1);
    assert!(picker.poll(&vec![CatalogResult::Lost]));
    assert_eq!(picker.errors.len(), 2);
    assert_eq!(picker.errors[1], "Model list task failed");
    assert!(matches!(picker.key(key(KeyCode::Esc)), PickerAction::Close));
}
