//! The main menu and the actions screens hand back to the application.
use vstd::prelude::*;

verus! {

/// A key as the screens read it.
#[derive(Debug, Copy, Clone, PartialEq, Eq, Structural)]
pub enum Key {
    Char(char),
    Up,
    Down,
    Left,
    Right,
    Enter,
    Esc,
    Other,
}

/// Which screen the application shows.
#[derive(Debug, Copy, Clone, PartialEq, Eq, Structural)]
pub enum AppState {
    Game,
    Menu,
    Multiplayer,
}

/// What a screen asks the application to do after a key.
#[derive(Debug, Copy, Clone, PartialEq, Eq, Structural)]
pub enum AppAction {
    Idle,
    StartGame,
    StartMultiplayer,
    QuitToMenu,
    Exit,
}

/// The screen shown after `action`, from `state`.
pub open spec fn next_state(state: AppState, action: AppAction) -> AppState {
    match action {
        AppAction::StartGame => AppState::Game,
        AppAction::StartMultiplayer => AppState::Multiplayer,
        AppAction::QuitToMenu => AppState::Menu,
        _ => state,
    }
}

impl AppState {
    /// The screen shown after `action`.
    pub fn after(self, action: AppAction) -> (s: AppState)
        ensures
            s == next_state(self, action),
    {
        match action {
            AppAction::StartGame => AppState::Game,
            AppAction::StartMultiplayer => AppState::Multiplayer,
            AppAction::QuitToMenu => AppState::Menu,
            _ => self,
        }
    }
}

/// The main menu: entry 0 starts a local game, entry 1 quits.
pub struct Menu {
    hover: usize,  // 0 for Start Local Game, 1 for Quit
}

impl View for Menu {
    type V = usize;

    closed spec fn view(&self) -> usize {
        self.hover
    }
}

impl Menu {
    pub fn default() -> (m: Self)
        ensures
            m@ == 0,
    {
        Menu { hover: 0 }
    }

    /// The highlighted entry.
    pub fn hover(&self) -> (h: usize)
        ensures
            h == self@,
    {
        self.hover
    }

    /// Entry `i` of the menu: its label, and whether it is highlighted.
    pub fn entry(&self, i: usize) -> (e: (&'static str, bool))
        requires
            i < 2,
        ensures
            e.0@ == (if i == 0 {
                "Start Local Game"@
            } else {
                "Quit"@
            }),
            e.1 == (self@ == i),
    {
        let label = if i == 0 {
            "Start Local Game"
        } else {
            "Quit"
        };
        (label, self.hover == i)
    }

    /// `q` exits, `j`/Down and `k`/Up move between the two entries, Enter
    /// starts the highlighted one. The highlight never leaves the two entries.
    pub fn handle_key_event(&mut self, key: Key) -> (action: AppAction)
        ensures
            old(self)@ <= 1 ==> final(self)@ <= 1,
            final(self)@ == (match key {
                Key::Char('j') | Key::Down => if old(self)@ < 1 {
                    (old(self)@ + 1) as usize
                } else {
                    old(self)@
                },
                Key::Char('k') | Key::Up => if old(self)@ > 0 {
                    (old(self)@ - 1) as usize
                } else {
                    old(self)@
                },
                _ => old(self)@,
            }),
            action == (match key {
                Key::Char('q') => AppAction::Exit,
                Key::Enter => if old(self)@ == 0 {
                    AppAction::StartGame
                } else {
                    AppAction::Exit
                },
                _ => AppAction::Idle,
            }),
    {
        match key {
            Key::Char('q') => {
                return AppAction::Exit;
            },
            Key::Char('j') | Key::Down => {
                if self.hover < 1 {
                    self.hover += 1;
                }
            },
            Key::Char('k') | Key::Up => {
                if self.hover > 0 {
                    self.hover -= 1;
                }
            },
            Key::Enter => {
                if self.hover == 0 {
                    return AppAction::StartGame;
                } else {
                    return AppAction::Exit;
                }
            },
            _ => {},
        }
        AppAction::Idle
    }
}

} // verus!
