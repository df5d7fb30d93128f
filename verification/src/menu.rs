use vstd::prelude::*;

verus! {

/// Marks the entities of the main menu, removed when the game starts.
pub struct MenuUI;

/// The screens of the game.
#[derive(Clone, Copy, Debug, PartialEq, Eq, Structural)]
pub enum GameState {
    Menu,
    Game,
}

/// The buttons of the main menu.
#[derive(Clone, Copy, Debug, PartialEq, Eq, Structural)]
pub enum ButtonType {
    Start,
    Quit,
}

/// What pressing a menu button does.
#[derive(Clone, Copy, Debug, PartialEq, Eq, Structural)]
pub enum MenuAction {
    /// Go to this screen.
    Enter(GameState),
    /// Leave the game.
    Exit,
}

/// What pressing a menu button does: Start enters the game, Quit leaves.
pub fn pressed_action(button: ButtonType) -> (action: MenuAction)
    ensures
        action == (match button {
            ButtonType::Start => MenuAction::Enter(GameState::Game),
            ButtonType::Quit => MenuAction::Exit,
        }),
{
    match button {
        ButtonType::Start => MenuAction::Enter(GameState::Game),
        ButtonType::Quit => MenuAction::Exit,
    }
}

} // verus!
