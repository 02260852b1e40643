use minecraft::gamestate::{
    escape_transition, fallback_world, loading_complete, start_new_world, GameState, MenuStack, NameKey,
    PendingGameLoad, WorldNameInput,
};
use minecraft::saves::SaveMetadata;
use minecraft::text::u64_to_decimal;
use minecraft::ui::{block_count_label, button_pressed, ButtonAction};

#[test]
fn menu_stack_goes_back() {
    let mut stack = MenuStack::default();
    assert_eq!(stack.0, vec![GameState::MainMenu]);
    stack.enter(GameState::NewGameMenu);
    stack.enter(GameState::NewGameMenu);
    assert_eq!(stack.0, vec![GameState::MainMenu, GameState::NewGameMenu]);
    assert_eq!(stack.back(), GameState::MainMenu);
    assert_eq!(stack.back(), GameState::MainMenu);
    assert!(stack.0.is_empty());
    assert_eq!(stack.back(), GameState::MainMenu);
}

#[test]
fn escape_toggles_pause() {
    assert_eq!(escape_transition(GameState::InGame), Some(GameState::Paused));
    assert_eq!(escape_transition(GameState::Paused), Some(GameState::InGame));
    assert_eq!(escape_transition(GameState::MainMenu), None);
    assert_eq!(escape_transition(GameState::LoadingScreen), None);
}

#[test]
fn loading_ends_at_one_thousand_chunks() {
    assert!(!loading_complete(999));
    assert!(loading_complete(1000));
    assert_eq!(GameState::default(), GameState::MainMenu);
}

#[test]
fn world_name_typing() {
    let mut input = WorldNameInput::new();
    assert_eq!(input.display_text(), "_");
    input.press(&NameKey::Text("a".to_string()));
    input.press(&NameKey::Text("bc".to_string()));
    input.press(&NameKey::Space);
    input.press(&NameKey::Text("é".to_string()));
    input.press(&NameKey::Other);
    assert_eq!(input.0, "a ");
    input.press(&NameKey::Backspace);
    input.press(&NameKey::Backspace);
    input.press(&NameKey::Backspace);
    assert_eq!(input.0, "");
    for _ in 0..25 {
        input.press(&NameKey::Text("x".to_string()));
    }
    input.press(&NameKey::Space);
    assert_eq!(input.0.len(), 20);
    assert_eq!(input.display_text(), "xxxxxxxxxxxxxxxxxxxx");
}

#[test]
fn new_worlds_get_a_name_and_a_file() {
    let saves = vec![SaveMetadata { file_name: "world1".to_string(), world_name: "A".to_string() }];
    let typed = WorldNameInput("Castle".to_string());
    let w = start_new_world(Some(&typed), &saves);
    assert_eq!(w.world_name, "Castle");
    assert_eq!(w.save_file_name, "world2");
    assert!(w.modified.is_empty());
    let empty = WorldNameInput::new();
    assert_eq!(start_new_world(Some(&empty), &saves).world_name, "World");
    assert_eq!(start_new_world(None, &vec![]).world_name, "World");
    let f = fallback_world();
    assert_eq!(f.world_name, "Error World");
    assert_eq!(f.save_file_name, "error");
}

#[test]
fn buttons_switch_screens() {
    let mut stack = MenuStack::default();
    stack.enter(GameState::LoadGameMenu);
    let o = button_pressed(&ButtonAction::LoadSpecificGame("world3".to_string()), &mut stack);
    assert_eq!(o.next_state, Some(GameState::LoadingScreen));
    assert!(matches!(o.pending_load, Some(PendingGameLoad::LoadGame(ref f)) if f == "world3"));
    assert!(!o.quit);
    let o = button_pressed(&ButtonAction::CreateGame, &mut stack);
    assert!(matches!(o.pending_load, Some(PendingGameLoad::NewGame)));
    let o = button_pressed(&ButtonAction::Quit, &mut stack);
    assert!(o.quit);
    assert_eq!(o.next_state, None);
    let o = button_pressed(&ButtonAction::Back, &mut stack);
    assert_eq!(o.next_state, Some(GameState::MainMenu));
    assert_eq!(stack.0, vec![GameState::MainMenu]);
    let o = button_pressed(&ButtonAction::Settings, &mut stack);
    assert_eq!(o.next_state, Some(GameState::Settings));
    assert_eq!(button_pressed(&ButtonAction::NewWorld, &mut stack).next_state, Some(GameState::NewGameMenu));
    assert_eq!(button_pressed(&ButtonAction::LoadWorld, &mut stack).next_state, Some(GameState::LoadGameMenu));
    assert_eq!(button_pressed(&ButtonAction::MainMenu, &mut stack).next_state, Some(GameState::MainMenu));
}

#[test]
fn block_counts_read_in_thousands_or_millions() {
    assert_eq!(block_count_label(0), "0 thousand");
    assert_eq!(block_count_label(1), "65 thousand");
    assert_eq!(block_count_label(15), "983 thousand");
    assert_eq!(block_count_label(16), "1 million");
    assert_eq!(block_count_label(12869), "843 million");
}

#[test]
fn decimal_notation() {
    assert_eq!(u64_to_decimal(0), "0");
    assert_eq!(u64_to_decimal(7), "7");
    assert_eq!(u64_to_decimal(1234567890), "1234567890");
    assert_eq!(u64_to_decimal(u64::MAX), "18446744073709551615");
}
