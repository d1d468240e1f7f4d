use vstd::prelude::*;

verus! {

/// The coarse phases of the game.
#[derive(Clone, Copy, Debug, PartialEq, Eq, Hash, Structural)]
pub enum GameState {
    LoadTexture,
    LoadConfig,
    Spawn,
    Playing,
    Menu,
}

impl Default for GameState {
    fn default() -> (r: GameState)
        ensures
            r == GameState::LoadTexture,
    {
        GameState::LoadTexture
    }
}

/// The screens of the menu.
#[derive(Clone, Copy, Debug, PartialEq, Eq, Hash, Structural)]
pub enum MenuState {
    Main,
    Player1,
    Player2,
    MapEdit,
    Disabled,
}

impl Default for MenuState {
    fn default() -> (r: MenuState)
        ensures
            r == MenuState::Disabled,
    {
        MenuState::Disabled
    }
}

/// What a menu button does when pressed.
#[derive(Clone, Copy, Debug, PartialEq, Eq, Hash, Structural)]
pub enum MenuAction {
    Main,
    Player1,
    Player2,
    MapEdit,
}

/// The pointer's relation to a button.
#[derive(Clone, Copy, Debug, PartialEq, Eq, Hash, Structural)]
pub enum ButtonInteraction {
    Pressed,
    Hovered,
    Idle,
}

/// The three shades a button is drawn in.
#[derive(Clone, Copy, Debug, PartialEq, Eq, Hash, Structural)]
pub enum ButtonColor {
    Normal,
    Hovered,
    Pressed,
}

/// What a change of a button's interaction leads to: its new shade, and the
/// game phase and menu screen to switch to, if any.
#[derive(Clone, Copy, Debug, PartialEq, Eq, Hash, Structural)]
pub struct ButtonOutcome {
    pub color: ButtonColor,
    pub game_state: Option<GameState>,
    pub menu_state: Option<MenuState>,
}

/// The shade and the phase or screen change that an interaction with a button brings.
pub open spec fn button_outcome(interaction: ButtonInteraction, action: MenuAction) -> ButtonOutcome {
    let color = match interaction {
        ButtonInteraction::Hovered => ButtonColor::Hovered,
        ButtonInteraction::Pressed => ButtonColor::Pressed,
        ButtonInteraction::Idle => ButtonColor::Normal,
    };
    if interaction == ButtonInteraction::Pressed {
        match action {
            MenuAction::Player1 => ButtonOutcome { color, game_state: Some(GameState::Spawn), menu_state: None },
            MenuAction::Player2 => ButtonOutcome { color, game_state: Some(GameState::Spawn), menu_state: None },
            MenuAction::MapEdit => ButtonOutcome { color, game_state: None, menu_state: Some(MenuState::MapEdit) },
            MenuAction::Main => ButtonOutcome { color, game_state: None, menu_state: None },
        }
    } else {
        ButtonOutcome { color, game_state: None, menu_state: None }
    }
}

/// The screen the menu opens on.
pub fn menu_setup() -> (r: MenuState)
    ensures
        r == MenuState::Main,
{
    MenuState::Main
}

/// A button's interaction changed: the shade follows the interaction, and a
/// press of a game button starts spawning while a press of the editor button
/// opens the map editor.
pub fn button_system(interaction: ButtonInteraction, action: MenuAction) -> (r: ButtonOutcome)
    ensures
        r == button_outcome(interaction, action),
{
    let color = match interaction {
        ButtonInteraction::Hovered => ButtonColor::Hovered,
        ButtonInteraction::Pressed => ButtonColor::Pressed,
        ButtonInteraction::Idle => ButtonColor::Normal,
    };
    let mut game_state: Option<GameState> = None;
    let mut menu_state: Option<MenuState> = None;
    if interaction == ButtonInteraction::Pressed {
        match action {
            MenuAction::Player1 => {
                game_state = Some(GameState::Spawn);
            },
            MenuAction::Player2 => {
                game_state = Some(GameState::Spawn);
            },
            MenuAction::MapEdit => {
                menu_state = Some(MenuState::MapEdit);
            },
            MenuAction::Main => {},
        }
    }
    ButtonOutcome { color, game_state, menu_state }
}

} // verus!
