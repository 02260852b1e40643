use vstd::prelude::*;

use crate::chunks::WorldMap;
use crate::saves::{generate_new_save_file_name, save_name, save_name_taken, SaveMetadata};
use crate::text::{string_from, string_pop, string_push};

verus! {

/// The screens of the game.
#[derive(Debug, Clone, Copy, Eq, PartialEq, Hash, Structural)]
pub enum GameState {
    MainMenu,
    NewGameMenu,
    LoadGameMenu,
    Settings,
    LoadingScreen,
    InGame,
    Paused,
}

impl Default for GameState {
    fn default() -> (r: GameState)
        ensures
            r == GameState::MainMenu,
    {
        GameState::MainMenu
    }
}

/// The world to start when the loading screen opens.
pub enum PendingGameLoad {
    NewGame,
    LoadGame(String),
}

/// The screens visited, most recent last, so that "Back" can return to the
/// previous one.
pub struct MenuStack(pub Vec<GameState>);

impl Default for MenuStack {
    fn default() -> (r: MenuStack)
        ensures
            r.0@ == seq![GameState::MainMenu],
    {
        let mut v: Vec<GameState> = Vec::new();
        v.push(GameState::MainMenu);
        assert(v@ =~= seq![GameState::MainMenu]);
        MenuStack(v)
    }
}

/// The screens visited after entering `state`: unchanged when it is already
/// the most recent, `state` added otherwise.
pub open spec fn stack_after_enter(stack: Seq<GameState>, state: GameState) -> Seq<GameState> {
    if stack.len() > 0 && stack.last() == state {
        stack
    } else {
        stack.push(state)
    }
}

/// The screens visited after leaving the most recent one.
pub open spec fn stack_after_back(stack: Seq<GameState>) -> Seq<GameState> {
    if stack.len() > 0 {
        stack.drop_last()
    } else {
        stack
    }
}

/// The screen that "Back" returns to, given the screens left after leaving the
/// most recent one: the latest of them, or the main menu when none is left.
pub open spec fn back_target(rest: Seq<GameState>) -> GameState {
    if rest.len() > 0 {
        rest.last()
    } else {
        GameState::MainMenu
    }
}

impl MenuStack {
    /// Records that `state` is entered, unless it is already the most recent.
    pub fn enter(&mut self, state: GameState)
        ensures
            final(self).0@ == stack_after_enter(old(self).0@, state),
    {
        let n = self.0.len();
        if n == 0 || self.0[n - 1] != state {
            self.0.push(state);
        }
    }

    /// Leaves the most recent screen and returns the one to go back to (the
    /// main menu when none is left).
    pub fn back(&mut self) -> (r: GameState)
        ensures
            final(self).0@ == stack_after_back(old(self).0@),
            r == back_target(final(self).0@),
    {
        self.0.pop();
        let n = self.0.len();
        if n > 0 {
            self.0[n - 1]
        } else {
            // With no previous screen, go to the main menu.
            GameState::MainMenu
        }
    }
}

/// Entering a new screen and then going back restores the screens visited and
/// returns to the screen that was most recent before.
pub proof fn lemma_enter_then_back(stack: Seq<GameState>, state: GameState)
    requires
        stack.len() > 0,
        stack.last() != state,
    ensures
        stack_after_back(stack_after_enter(stack, state)) == stack,
        back_target(stack_after_back(stack_after_enter(stack, state))) == stack.last(),
{
    assert(stack.push(state).drop_last() =~= stack);
}

/// The screen that Escape switches to: the pause menu from the game, the game
/// from the pause menu, none from other screens.
pub open spec fn escape_target(state: GameState) -> Option<GameState> {
    match state {
        GameState::InGame => Some(GameState::Paused),
        GameState::Paused => Some(GameState::InGame),
        _ => None,
    }
}

/// The screen that pressing Escape switches to, if any.
pub fn escape_transition(state: GameState) -> (r: Option<GameState>)
    ensures
        r == escape_target(state),
{
    match state {
        GameState::InGame => Some(GameState::Paused),
        GameState::Paused => Some(GameState::InGame),
        _ => None,
    }
}

/// Pressing Escape twice from the game or the pause menu comes back to it.
pub proof fn lemma_escape_twice(state: GameState)
    requires
        escape_target(state) is Some,
    ensures
        escape_target(escape_target(state)->0) == Some(state),
{
}

/// Escape only pauses and resumes the game: it leads somewhere exactly from
/// the game (to the pause menu) and from the pause menu (back to the game), and
/// changes nothing on every other screen.
pub proof fn lemma_escape_only_pauses(state: GameState)
    ensures
        escape_target(state) is Some <==> (state == GameState::InGame || state == GameState::Paused),
        state == GameState::InGame ==> escape_target(state) == Some(GameState::Paused),
        state == GameState::Paused ==> escape_target(state) == Some(GameState::InGame),
{
}

/// The number of chunks with a mesh at which the loading screen gives way to
/// the game.
pub const LOADING_TARGET: usize = 1000;

/// Whether enough chunks have a mesh for the game to start.
pub fn loading_complete(meshed_chunks: usize) -> (r: bool)
    ensures
        r == (meshed_chunks >= LOADING_TARGET),
{
    meshed_chunks >= LOADING_TARGET
}

/// The longest world name that can be typed, in bytes.
pub const MAX_WORLD_NAME_LEN: usize = 20;

/// A key pressed while typing a world name.
pub enum NameKey {
    /// A key that types text.
    Text(String),
    Backspace,
    Space,
    /// Any other key.
    Other,
}

/// The world name being typed.
pub struct WorldNameInput(pub String);

/// The length in bytes of the UTF-8 encoding of a text.
pub open spec fn byte_len(s: Seq<char>) -> nat {
    vstd::utf8::encode_utf8(s).len()
}

/// The world name after a key press: text of one byte is appended while the
/// name is shorter than 20 bytes, Backspace removes the last character, Space
/// appends a space while the name is shorter than 20 bytes.
pub open spec fn name_after_key(name: Seq<char>, key_text: Option<Seq<char>>, backspace: bool, space: bool) -> Seq<char> {
    match key_text {
        Some(t) => if byte_len(t) == 1 && byte_len(name) < MAX_WORLD_NAME_LEN {
            name + t
        } else {
            name
        },
        None => if backspace {
            if name.len() > 0 {
                name.drop_last()
            } else {
                name
            }
        } else if space {
            if byte_len(name) < MAX_WORLD_NAME_LEN {
                name.push(' ')
            } else {
                name
            }
        } else {
            name
        },
    }
}

/// The UTF-8 encoding of two texts one after the other is the encoding of the
/// first followed by the encoding of the second.
proof fn lemma_encode_concat(a: Seq<char>, b: Seq<char>)
    ensures
        vstd::utf8::encode_utf8(a + b) == vstd::utf8::encode_utf8(a) + vstd::utf8::encode_utf8(b),
    decreases a.len(),
{
    if a.len() == 0 {
        assert(a + b =~= b);
        assert(vstd::utf8::encode_utf8(a) =~= Seq::<u8>::empty());
        assert(vstd::utf8::encode_utf8(a + b) =~= vstd::utf8::encode_utf8(a) + vstd::utf8::encode_utf8(b));
    } else {
        lemma_encode_concat(a.drop_first(), b);
        assert((a + b).drop_first() =~= a.drop_first() + b);
        assert((a + b)[0] == a[0]);
        assert(vstd::utf8::encode_utf8(a + b) =~= vstd::utf8::encode_utf8(a) + vstd::utf8::encode_utf8(b));
    }
}

/// The UTF-8 encoding of a text ending in `c` is that of the text before it
/// followed by at least one byte for `c`.
proof fn lemma_encode_push(a: Seq<char>, c: char)
    ensures
        vstd::utf8::encode_utf8(a.push(c)).len() == vstd::utf8::encode_utf8(a).len()
            + vstd::utf8::encode_scalar(c as u32).len(),
        vstd::utf8::encode_scalar(c as u32).len() >= 1,
{
    lemma_encode_concat(a, seq![c]);
    assert(a + seq![c] =~= a.push(c));
    assert(seq![c].drop_first() =~= Seq::<char>::empty());
    assert(seq![c][0] == c);
    assert(vstd::utf8::encode_utf8(Seq::<char>::empty()) =~= Seq::<u8>::empty());
    assert(vstd::utf8::encode_utf8(seq![c]) =~= vstd::utf8::encode_scalar(c as u32));
}

/// Backspace removes the last character of a non-empty name: the new name
/// followed by the old name's last character is the old name. On an empty
/// name it changes nothing.
pub proof fn lemma_backspace_removes_last(name: Seq<char>)
    ensures
        name.len() > 0 ==> name_after_key(name, None, true, false).push(name.last()) == name,
        name.len() == 0 ==> name_after_key(name, None, true, false) == name,
{
    if name.len() > 0 {
        assert(name.drop_last().push(name.last()) =~= name);
    }
}

/// A typed key either leaves the name as it is or appends its text at the
/// end; Space either leaves it or appends a space; any other key leaves it.
pub proof fn lemma_typing_appends(name: Seq<char>, t: Seq<char>)
    ensures
        name_after_key(name, Some(t), false, false) == name || name_after_key(name, Some(t), false, false)
            == name + t,
        name_after_key(name, None, false, true) == name || name_after_key(name, None, false, true) == name.push(' '),
        name_after_key(name, None, false, false) == name,
{
}

/// Typing never makes a world name longer than 20 bytes: a key press leaves a
/// name of at most 20 bytes at most 20 bytes long.
pub proof fn lemma_name_stays_within_limit(
    name: Seq<char>,
    key_text: Option<Seq<char>>,
    backspace: bool,
    space: bool,
)
    requires
        vstd::utf8::encode_utf8(name).len() <= MAX_WORLD_NAME_LEN,
    ensures
        vstd::utf8::encode_utf8(name_after_key(name, key_text, backspace, space)).len()
            <= MAX_WORLD_NAME_LEN,
{
    match key_text {
        Some(t) => {
            lemma_encode_concat(name, t);
        },
        None => {
            if backspace {
                if name.len() > 0 {
                    lemma_encode_push(name.drop_last(), name.last());
                    assert(name.drop_last().push(name.last()) =~= name);
                }
            } else if space {
                lemma_encode_push(name, ' ');
                assert((' ' as u32) == 32u32);
                assert(vstd::utf8::encode_scalar(' ' as u32).len() == 1);
            }
        },
    }
}

impl WorldNameInput {
    /// An empty name.
    pub fn new() -> (r: WorldNameInput)
        ensures
            r.0@ == Seq::<char>::empty(),
    {
        WorldNameInput(String::new())
    }

    /// Applies a key press to the name.
    pub fn press(&mut self, key: &NameKey)
        ensures
            final(self).0@ == match key {
                NameKey::Text(t) => name_after_key(old(self).0@, Some(t@), false, false),
                NameKey::Backspace => name_after_key(old(self).0@, None, true, false),
                NameKey::Space => name_after_key(old(self).0@, None, false, true),
                NameKey::Other => old(self).0@,
            },
            byte_len(old(self).0@) <= MAX_WORLD_NAME_LEN ==> byte_len(final(self).0@) <= MAX_WORLD_NAME_LEN,
    {
        proof {
            if byte_len(self.0@) <= MAX_WORLD_NAME_LEN {
                match key {
                    NameKey::Text(t) => lemma_name_stays_within_limit(self.0@, Some(t@), false, false),
                    NameKey::Backspace => lemma_name_stays_within_limit(self.0@, None, true, false),
                    NameKey::Space => lemma_name_stays_within_limit(self.0@, None, false, true),
                    NameKey::Other => {},
                }
            }
        }
        match key {
            NameKey::Text(c) => {
                if c.as_str().as_bytes().len() == 1 && self.0.as_str().as_bytes().len() < MAX_WORLD_NAME_LEN {
                    self.0.append(c.as_str());
                }
            },
            NameKey::Backspace => {
                string_pop(&mut self.0);
            },
            NameKey::Space => {
                if self.0.as_str().as_bytes().len() < MAX_WORLD_NAME_LEN {
                    string_push(&mut self.0, ' ');
                }
            },
            NameKey::Other => {},
        }
    }

    /// The text shown for the name: the name, or `_` while it is empty.
    pub fn display_text(&self) -> (r: String)
        ensures
            r@ == if self.0@.len() == 0 {
                seq!['_']
            } else {
                self.0@
            },
    {
        if self.0.as_str().is_empty() {
            let mut s = String::new();
            string_push(&mut s, '_');
            assert(s@ =~= seq!['_']);
            s
        } else {
            self.0.clone()
        }
    }
}

impl Default for WorldNameInput {
    fn default() -> (r: WorldNameInput)
        ensures
            r.0@ == Seq::<char>::empty(),
    {
        WorldNameInput::new()
    }
}

/// `rand::random::<u32>()` (rand): a number drawn from the thread-local random
/// generator. Nothing is stated of the value.
#[verifier::external_body]
fn random_seed() -> u32 {
    rand::random::<u32>()
}

/// The name given to a new world: the typed name, or `World` when none was
/// typed.
pub open spec fn new_world_name(typed: Option<Seq<char>>) -> Seq<char> {
    match typed {
        Some(n) => if n.len() > 0 {
            n
        } else {
            "World"@
        },
        None => "World"@,
    }
}

/// Creates a new world with a random seed, the typed name (`World` when none
/// was typed) and the first free save file name `world<i>`.
pub fn start_new_world(typed: Option<&WorldNameInput>, saves: &Vec<SaveMetadata>) -> (r: WorldMap)
    requires
        saves@.len() < u64::MAX,
    ensures
        r.world_name@ == new_world_name(
            match typed {
                Some(t) => Some(t.0@),
                None => None,
            },
        ),
        exists|i: nat|
            #![trigger save_name(i)]
            i >= 1 && r.save_file_name@ == save_name(i) && !save_name_taken(saves@, i) && forall|j: nat|
                1 <= j < i ==> save_name_taken(saves@, j),
        r.edits() == Map::<crate::types::ChunkPos, Seq<crate::chunks::Modification>>::empty(),
{
    let name = match typed {
        Some(t) => t.0.clone(),
        None => string_from("World"),
    };
    let final_name = if name.as_str().is_empty() {
        string_from("World")
    } else {
        name
    };
    let seed = random_seed();
    let file_name = generate_new_save_file_name(saves);
    WorldMap::new(seed, final_name, file_name)
}

/// The world started when a save cannot be loaded: a random seed, the name
/// `Error World` and the save file name `error`.
pub fn fallback_world() -> (r: WorldMap)
    ensures
        r.world_name@ == "Error World"@,
        r.save_file_name@ == "error"@,
        r.edits() == Map::<crate::types::ChunkPos, Seq<crate::chunks::Modification>>::empty(),
{
    let seed = random_seed();
    WorldMap::new(seed, string_from("Error World"), string_from("error"))
}

} // verus!
