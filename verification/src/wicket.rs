//! The technician's terminal: its update screen, and the replay of a recording.

use vstd::prelude::*;

verus! {

/// What has to be done to the terminal.
#[derive(Debug, Clone, Copy, PartialEq, Eq, Structural)]
pub enum TerminalAction {
    EnableRawMode,
    DisableRawMode,
    EnterAlternateScreen,
    LeaveAlternateScreen,
    /// The screen has to be drawn from its start.
    InitScreen,
}

/// Steps through the events of a recording. It talks to no service: it only shows again what was
/// shown.
pub struct Runner<S> {
    pub snapshot: Option<S>,
}

impl<S> Runner<S> {
    /// A runner without a recording.
    pub fn new() -> (r: Runner<S>)
        ensures
            r.snapshot is None,
    {
        Runner { snapshot: None }
    }

    /// What prepares the terminal for drawing, in this order.
    pub fn init_terminal(&self) -> (actions: Vec<TerminalAction>)
        ensures
            actions@ == seq![TerminalAction::EnableRawMode, TerminalAction::EnterAlternateScreen],
    {
        let mut actions: Vec<TerminalAction> = Vec::new();
        actions.push(TerminalAction::EnableRawMode);
        actions.push(TerminalAction::EnterAlternateScreen);
        assert(actions@ =~= seq![
            TerminalAction::EnableRawMode,
            TerminalAction::EnterAlternateScreen,
        ]);
        actions
    }

    /// What makes the terminal what it was before, in this order.
    pub fn fini_terminal(&self) -> (actions: Vec<TerminalAction>)
        ensures
            actions@ == seq![TerminalAction::DisableRawMode, TerminalAction::LeaveAlternateScreen],
    {
        let mut actions: Vec<TerminalAction> = Vec::new();
        actions.push(TerminalAction::DisableRawMode);
        actions.push(TerminalAction::LeaveAlternateScreen);
        assert(actions@ =~= seq![
            TerminalAction::DisableRawMode,
            TerminalAction::LeaveAlternateScreen,
        ]);
        actions
    }

    /// Takes a new recording in place of the one before.
    pub fn load_snapshot(&mut self, snapshot: S)
        ensures
            final(self).snapshot == Some(snapshot),
    {
        self.snapshot = Some(snapshot);
    }

    /// What starts the replay again. The recording stays.
    pub fn restart(&mut self) -> (action: TerminalAction)
        ensures
            action == TerminalAction::InitScreen,
            final(self).snapshot == old(self).snapshot,
    {
        TerminalAction::InitScreen
    }
}

/// A screen of the terminal.
#[derive(Debug, Clone, Copy, PartialEq, Eq, Structural)]
pub enum ScreenId {
    Splash,
    Rack,
    Component,
    Update,
}

/// A control on a screen.
#[derive(Debug, Clone, Copy, PartialEq, Eq, Structural)]
pub struct ControlId(pub usize);

/// The button that shows the help, and where it is.
#[derive(Debug, Clone, Copy, PartialEq, Eq, Structural)]
pub struct HelpButtonState {
    pub x: u16,
    pub y: u16,
    pub hovered: bool,
}

/// The menu that shows the help.
#[derive(Debug, Clone, Copy, PartialEq, Eq, Structural)]
pub struct HelpMenuState {
    pub open: bool,
}

/// A button that leads to another screen.
#[derive(Debug, Clone, Copy, PartialEq, Eq, Structural)]
pub struct ScreenButtonState {
    pub screen_id: ScreenId,
    pub hovered: bool,
}

/// An entry of the help: a key, and what it does.
#[derive(Debug, PartialEq, Eq)]
pub struct HelpEntry {
    pub key: String,
    pub text: String,
}

/// The screen for updates of the rack.
#[derive(Debug, PartialEq, Eq)]
pub struct UpdateScreen {
    pub hovered: Option<ControlId>,
    pub help_data: Vec<HelpEntry>,
    pub help_button_state: HelpButtonState,
    pub help_menu_state: HelpMenuState,
    pub rack_screen_button_state: ScreenButtonState,
    pub component_screen_button_state: ScreenButtonState,
}

/// An action that a screen asks for.
#[derive(Debug, Clone, Copy, PartialEq, Eq, Structural)]
pub enum Action {
    Redraw,
    SwitchScreen(ScreenId),
    Quit,
}

/// The keys of the update screen, and what they do.
pub open spec fn update_help() -> Seq<(Seq<char>, Seq<char>)> {
    seq![
        ("<TAB>"@, "Cycle forward through components"@),
        ("<SHIFT>-<TAB>"@, "Cycle backwards through components"@),
        ("<CTRL-r"@, "Go to the rack screen"@),
        ("<CTRL-o"@, "Go to the component screen"@),
        ("<CTRL-h"@, "Toggle this help menu"@),
        ("<CTRL-c>"@, "Exit the program"@),
    ]
}

fn help(key: &str, text: &str) -> (entry: HelpEntry)
    ensures
        entry.key@ == key@,
        entry.text@ == text@,
{
    HelpEntry { key: key.to_owned(), text: text.to_owned() }
}

impl UpdateScreen {
    /// The screen as it is first shown: nothing is hovered, and the help is closed.
    pub fn new() -> (screen: UpdateScreen)
        ensures
            screen.hovered is None,
            screen.help_data@.map_values(|e: HelpEntry| (e.key@, e.text@)) == update_help(),
            screen.help_button_state == (HelpButtonState { x: 1, y: 0, hovered: false }),
            screen.help_menu_state == (HelpMenuState { open: false }),
            screen.rack_screen_button_state == (ScreenButtonState {
                screen_id: ScreenId::Rack,
                hovered: false,
            }),
            screen.component_screen_button_state == (ScreenButtonState {
                screen_id: ScreenId::Component,
                hovered: false,
            }),
    {
        let mut help_data: Vec<HelpEntry> = Vec::new();
        help_data.push(help("<TAB>", "Cycle forward through components"));
        help_data.push(help("<SHIFT>-<TAB>", "Cycle backwards through components"));
        help_data.push(help("<CTRL-r", "Go to the rack screen"));
        help_data.push(help("<CTRL-o", "Go to the component screen"));
        help_data.push(help("<CTRL-h", "Toggle this help menu"));
        help_data.push(help("<CTRL-c>", "Exit the program"));
        assert(help_data@.map_values(|e: HelpEntry| (e.key@, e.text@)) =~= update_help());
        UpdateScreen {
            hovered: None,
            help_data,
            help_button_state: HelpButtonState { x: 1, y: 0, hovered: false },
            help_menu_state: HelpMenuState { open: false },
            rack_screen_button_state: ScreenButtonState {
                screen_id: ScreenId::Rack,
                hovered: false,
            },
            component_screen_button_state: ScreenButtonState {
                screen_id: ScreenId::Component,
                hovered: false,
            },
        }
    }

    /// What an event on the screen asks for: nothing, and the screen stays as it is.
    pub fn on(&mut self) -> (actions: Vec<Action>)
        ensures
            actions@.len() == 0,
            *final(self) == *old(self),
    {
        Vec::new()
    }
}

} // verus!
