use vstd::prelude::*;

use crate::gamestate::{back_target, stack_after_back, GameState, MenuStack, PendingGameLoad};
use crate::text::{decimal, push_decimal};

verus! {

/// What a menu button does.
pub enum ButtonAction {
    NewWorld,
    LoadWorld,
    Settings,
    Quit,
    MainMenu,
    Back,
    CreateGame,
    LoadSpecificGame(String),
}

impl Clone for ButtonAction {
    fn clone(&self) -> (r: ButtonAction)
        ensures
            r == *self,
    {
        match self {
            ButtonAction::NewWorld => ButtonAction::NewWorld,
            ButtonAction::LoadWorld => ButtonAction::LoadWorld,
            ButtonAction::Settings => ButtonAction::Settings,
            ButtonAction::Quit => ButtonAction::Quit,
            ButtonAction::MainMenu => ButtonAction::MainMenu,
            ButtonAction::Back => ButtonAction::Back,
            ButtonAction::CreateGame => ButtonAction::CreateGame,
            ButtonAction::LoadSpecificGame(f) => ButtonAction::LoadSpecificGame(f.clone()),
        }
    }
}

/// What pressing a button leads to: the screen to switch to, the world to
/// start, and whether the game quits.
pub struct ButtonOutcome {
    pub next_state: Option<GameState>,
    pub pending_load: Option<PendingGameLoad>,
    pub quit: bool,
}

/// Carries out a button press: each button switches to its screen; "Create"
/// and a save's button also name the world to start; "Quit" quits; "Back"
/// leaves the most recent screen and returns to the previous one (the main
/// menu when none is left).
pub fn button_pressed(action: &ButtonAction, menu_stack: &mut MenuStack) -> (r: ButtonOutcome)
    ensures
        match action {
            ButtonAction::Back => {
                &&& final(menu_stack).0@ == stack_after_back(old(menu_stack).0@)
                &&& r.next_state == Some(back_target(final(menu_stack).0@))
                &&& r.pending_load is None
                &&& !r.quit
            },
            _ => final(menu_stack).0@ == old(menu_stack).0@,
        },
        match action {
            ButtonAction::NewWorld => r.next_state == Some(GameState::NewGameMenu) && r.pending_load is None && !r.quit,
            ButtonAction::LoadWorld => r.next_state == Some(GameState::LoadGameMenu) && r.pending_load is None && !r.quit,
            ButtonAction::CreateGame => r.next_state == Some(GameState::LoadingScreen) && r.pending_load == Some(PendingGameLoad::NewGame) && !r.quit,
            ButtonAction::LoadSpecificGame(f) => r.next_state == Some(GameState::LoadingScreen) && (r.pending_load matches Some(PendingGameLoad::LoadGame(g)) && g@ == f@) && !r.quit,
            ButtonAction::Settings => r.next_state == Some(GameState::Settings) && r.pending_load is None && !r.quit,
            ButtonAction::Quit => r.next_state is None && r.pending_load is None && r.quit,
            ButtonAction::MainMenu => r.next_state == Some(GameState::MainMenu) && r.pending_load is None && !r.quit,
            ButtonAction::Back => true,
        },
{
    match action {
        ButtonAction::NewWorld => ButtonOutcome { next_state: Some(GameState::NewGameMenu), pending_load: None, quit: false },
        ButtonAction::LoadWorld => ButtonOutcome { next_state: Some(GameState::LoadGameMenu), pending_load: None, quit: false },
        ButtonAction::CreateGame => ButtonOutcome {
            next_state: Some(GameState::LoadingScreen),
            pending_load: Some(PendingGameLoad::NewGame),
            quit: false,
        },
        ButtonAction::LoadSpecificGame(file_name) => ButtonOutcome {
            next_state: Some(GameState::LoadingScreen),
            pending_load: Some(PendingGameLoad::LoadGame(file_name.clone())),
            quit: false,
        },
        ButtonAction::Settings => ButtonOutcome { next_state: Some(GameState::Settings), pending_load: None, quit: false },
        ButtonAction::Quit => ButtonOutcome { next_state: None, pending_load: None, quit: true },
        ButtonAction::MainMenu => ButtonOutcome { next_state: Some(GameState::MainMenu), pending_load: None, quit: false },
        ButtonAction::Back => {
            // Go back to the previous menu state.
            let state = menu_stack.back();
            ButtonOutcome { next_state: Some(state), pending_load: None, quit: false }
        },
    }
}

/// Number of blocks in a chunk, as counted by the statistics panel.
pub const BLOCKS_PER_CHUNK: usize = 65536;

/// The statistics label for the number of loaded blocks: `<n> thousand` below
/// one million blocks, `<n> million` from there, rounded down.
pub open spec fn block_count_text(chunk_count: nat) -> Seq<char> {
    let blocks = chunk_count * 65536;
    if blocks < 1_000_000 {
        decimal(blocks / 1000) + " thousand"@
    } else {
        decimal(blocks / 1_000_000) + " million"@
    }
}

/// The statistics label for the number of blocks in `chunk_count` loaded chunks.
pub fn block_count_label(chunk_count: usize) -> (r: String)
    requires
        chunk_count * BLOCKS_PER_CHUNK <= u64::MAX,
    ensures
        r@ == block_count_text(chunk_count as nat),
{
    let block_count: u64 = chunk_count as u64 * 65536;
    let mut s = String::new();
    if block_count < 1_000_000 {
        push_decimal(&mut s, block_count / 1000);
        s.append(" thousand");
    } else {
        push_decimal(&mut s, block_count / 1_000_000);
        s.append(" million");
    }
    assert(s@ =~= block_count_text(chunk_count as nat));
    s
}

} // verus!
