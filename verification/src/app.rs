//! The interactive application's state and its transitions.
//!
//! The screen, the in-memory host list and the input buffers live here,
//! together with the full keyboard transition function of the event loop.
//! The caller renders the state, feeds key presses in, and performs the
//! file writes that `KeyOutcome` asks for.
use vstd::prelude::*;

use crate::engine::date_rep;
use crate::engine::Config;
use crate::engine::ContributionThresholdStatus;
use crate::engine::Date;
use crate::engine::format_date;
use crate::text::dec_rep;
use crate::text::digits_val;
use crate::text::is_u32_numeral;
use crate::text::numeral_body;
use crate::text::parse_u32;
use crate::text::u32_to_string;

verus! {

/// Appends one character.  Relies on `String::push` of std.
pub assume_specification[ String::push ](s: &mut String, ch: char)
    ensures
        final(s)@ == old(s)@.push(ch),
;

/// Removes and returns the last character, `None` on an empty string.
/// Relies on `String::pop` of std.
pub assume_specification[ String::pop ](s: &mut String) -> (r: Option<char>)
    ensures
        old(s)@.len() == 0 ==> r is None && final(s)@ == old(s)@,
        old(s)@.len() > 0 ==> r == Some(old(s)@.last()) && final(s)@ == old(s)@.drop_last(),
;

/// The screen currently shown.
#[derive(PartialEq, Eq, Structural, Debug, Clone, Copy)]
pub enum CurrentScreen {
    Main,
    Editing,
    Exiting,
    Configuration,
    Help,
}

/// Which half of a host entry the editor stands in.
#[derive(PartialEq, Eq, Structural, Debug, Clone, Copy)]
pub enum CurrentlyEditing {
    Key,
    Value,
}

/// Which configuration field the configuration screen edits.
#[derive(PartialEq, Eq, Structural, Debug, Clone, Copy)]
pub enum EditingField {
    ContributionGoal,
    GithubUsername,
}

/// A key press, reduced to what the transitions distinguish.
#[derive(PartialEq, Eq, Structural, Debug, Clone, Copy)]
pub enum KeyInput {
    Char(char),
    Up,
    Down,
    Enter,
    Backspace,
    Esc,
    Tab,
    Other,
}

/// What the caller must do after a key press.
#[derive(PartialEq, Eq, Structural, Debug, Clone, Copy)]
pub enum KeyOutcome {
    /// Keep running; nothing to do.
    Continue,
    /// Leave the application.
    Exit,
    /// Persist the host list to the hosts file.
    SaveHosts,
    /// Persist the configuration to the configuration file.
    SaveConfig,
}

/// The whole in-memory state of the application.
pub struct App {
    pub host_input: String,
    pub selected_index: usize,
    pub hosts: Vec<String>,
    pub current_screen: CurrentScreen,
    pub currently_editing: Option<CurrentlyEditing>,
    pub contribution_goal_input: String,
    pub github_username_input: String,
    pub editing_field: Option<EditingField>,
    pub progress: u32,
    pub contribution_goal: u32,
    pub threshold_met_date: Option<String>,
    pub threshold_met_goal: Option<u32>,
    pub username: String,
}

/// Saving the pending host entry: a non-empty input joins the host list,
/// the input clears, editing ends, and the screen becomes `screen_after`;
/// every other field keeps its value.
pub open spec fn save_new_host_rel(pre: App, post: App, screen_after: CurrentScreen) -> bool {
    &&& post.host_input@ == Seq::<char>::empty()
    &&& post.currently_editing is None
    &&& post.current_screen == screen_after
    &&& post.hosts@ == if pre.host_input@.len() == 0 {
        pre.hosts@
    } else {
        pre.hosts@.push(pre.host_input)
    }
    &&& post.selected_index == pre.selected_index
    &&& post.contribution_goal_input == pre.contribution_goal_input
    &&& post.github_username_input == pre.github_username_input
    &&& post.editing_field == pre.editing_field
    &&& post.progress == pre.progress
    &&& post.contribution_goal == pre.contribution_goal
    &&& post.threshold_met_date == pre.threshold_met_date
    &&& post.threshold_met_goal == pre.threshold_met_goal
    &&& post.username == pre.username
}

/// The editing field after one toggle: the goal field first, then back and
/// forth between the two fields.
pub open spec fn toggled_field(f: Option<EditingField>) -> Option<EditingField> {
    match f {
        None => Some(EditingField::ContributionGoal),
        Some(EditingField::ContributionGoal) => Some(EditingField::GithubUsername),
        Some(EditingField::GithubUsername) => Some(EditingField::ContributionGoal),
    }
}

/// One character appended to `pre`'s buffer for the field being edited;
/// everything else unchanged.
pub open spec fn config_char_step(pre: App, post: App, c: char) -> bool {
    match pre.editing_field {
        Some(EditingField::ContributionGoal) => post == (App {
            contribution_goal_input: post.contribution_goal_input,
            ..pre
        }) && post.contribution_goal_input@ == pre.contribution_goal_input@.push(c),
        Some(EditingField::GithubUsername) => post == (App {
            github_username_input: post.github_username_input,
            ..pre
        }) && post.github_username_input@ == pre.github_username_input@.push(c),
        None => post == pre,
    }
}

/// One character removed from the buffer for the field being edited (no
/// change on an empty buffer); everything else unchanged.
pub open spec fn config_backspace_step(pre: App, post: App) -> bool {
    match pre.editing_field {
        Some(EditingField::ContributionGoal) => post == (App {
            contribution_goal_input: post.contribution_goal_input,
            ..pre
        }) && post.contribution_goal_input@ == if pre.contribution_goal_input@.len() > 0 {
            pre.contribution_goal_input@.drop_last()
        } else {
            pre.contribution_goal_input@
        },
        Some(EditingField::GithubUsername) => post == (App {
            github_username_input: post.github_username_input,
            ..pre
        }) && post.github_username_input@ == if pre.github_username_input@.len() > 0 {
            pre.github_username_input@.drop_last()
        } else {
            pre.github_username_input@
        },
        None => post == pre,
    }
}

/// Committing the configuration screen: a parsable goal input replaces the
/// goal (anything else leaves it), the user name takes the name input,
/// editing ends and the main screen returns; the buffers stay as typed.
pub open spec fn config_enter_step(pre: App, post: App) -> bool {
    &&& post.contribution_goal == if is_u32_numeral(pre.contribution_goal_input@) {
        digits_val(numeral_body(pre.contribution_goal_input@)) as u32
    } else {
        pre.contribution_goal
    }
    &&& post.username == pre.github_username_input
    &&& post.editing_field is None
    &&& post.current_screen == CurrentScreen::Main
    &&& post.host_input == pre.host_input
    &&& post.selected_index == pre.selected_index
    &&& post.hosts == pre.hosts
    &&& post.currently_editing == pre.currently_editing
    &&& post.contribution_goal_input == pre.contribution_goal_input
    &&& post.github_username_input == pre.github_username_input
    &&& post.progress == pre.progress
    &&& post.threshold_met_date == pre.threshold_met_date
    &&& post.threshold_met_goal == pre.threshold_met_goal
}

/// The whole keyboard transition relation: what one key press does to the
/// state on each screen, and what the caller must then do.
pub open spec fn key_step(pre: App, post: App, key: KeyInput, out: KeyOutcome) -> bool {
    match pre.current_screen {
        CurrentScreen::Main => {
            &&& out == KeyOutcome::Continue
            &&& match key {
                KeyInput::Char(c) => {
                    if c == 'i' {
                        post == (App {
                            current_screen: CurrentScreen::Editing,
                            currently_editing: Some(CurrentlyEditing::Key),
                            ..pre
                        })
                    } else if c == 'q' {
                        post == (App { current_screen: CurrentScreen::Exiting, ..pre })
                    } else if c == 'h' {
                        post == (App { current_screen: CurrentScreen::Help, ..pre })
                    } else if c == 'c' {
                        post == (App {
                            current_screen: CurrentScreen::Configuration,
                            editing_field: Some(EditingField::ContributionGoal),
                            ..pre
                        })
                    } else {
                        post == pre
                    }
                },
                _ => post == pre,
            }
        },
        CurrentScreen::Exiting => {
            match key {
                KeyInput::Char(c) => {
                    if c == 'y' || c == 'q' {
                        post == pre && out == KeyOutcome::Exit
                    } else if c == 'n' {
                        post == (App { current_screen: CurrentScreen::Main, ..pre }) && out
                            == KeyOutcome::Continue
                    } else {
                        post == pre && out == KeyOutcome::Continue
                    }
                },
                _ => post == pre && out == KeyOutcome::Continue,
            }
        },
        CurrentScreen::Editing => {
            match key {
                KeyInput::Up => {
                    &&& out == KeyOutcome::Continue
                    &&& post == (App {
                        selected_index: if pre.selected_index > 0 {
                            (pre.selected_index - 1) as usize
                        } else {
                            pre.selected_index
                        },
                        ..pre
                    })
                },
                KeyInput::Down => {
                    &&& out == KeyOutcome::Continue
                    &&& post == (App {
                        selected_index: if pre.selected_index + 1 < pre.hosts@.len() {
                            (pre.selected_index + 1) as usize
                        } else {
                            pre.selected_index
                        },
                        ..pre
                    })
                },
                KeyInput::Enter => {
                    if pre.currently_editing is Some {
                        &&& out == KeyOutcome::SaveHosts
                        &&& save_new_host_rel(pre, post, CurrentScreen::Main)
                    } else {
                        post == pre && out == KeyOutcome::Continue
                    }
                },
                KeyInput::Backspace => {
                    &&& out == KeyOutcome::Continue
                    &&& if pre.currently_editing is Some {
                        post == (App { host_input: post.host_input, ..pre })
                            && post.host_input@ == if pre.host_input@.len() > 0 {
                            pre.host_input@.drop_last()
                        } else {
                            pre.host_input@
                        }
                    } else {
                        post == pre
                    }
                },
                KeyInput::Esc => {
                    &&& out == KeyOutcome::Continue
                    &&& post == (App {
                        current_screen: CurrentScreen::Main,
                        currently_editing: None,
                        ..pre
                    })
                },
                KeyInput::Tab => {
                    &&& out == KeyOutcome::Continue
                    &&& if pre.selected_index < pre.hosts@.len() {
                        post == (App {
                            selected_index: post.selected_index,
                            hosts: post.hosts,
                            ..pre
                        }) && post.hosts@ == pre.hosts@.remove(pre.selected_index as int)
                            && post.selected_index == if pre.selected_index >= pre.hosts@.len() - 1
                            && pre.selected_index > 0 {
                            (pre.selected_index - 1) as usize
                        } else {
                            pre.selected_index
                        }
                    } else {
                        post == pre
                    }
                },
                KeyInput::Char(c) => {
                    &&& out == KeyOutcome::Continue
                    &&& if pre.currently_editing is Some {
                        post == (App { host_input: post.host_input, ..pre }) && post.host_input@
                            == pre.host_input@.push(c)
                    } else {
                        post == pre
                    }
                },
                KeyInput::Other => post == pre && out == KeyOutcome::Continue,
            }
        },
        CurrentScreen::Configuration => {
            match key {
                KeyInput::Char(c) => out == KeyOutcome::Continue && config_char_step(pre, post, c),
                KeyInput::Backspace => out == KeyOutcome::Continue && config_backspace_step(
                    pre,
                    post,
                ),
                KeyInput::Tab => out == KeyOutcome::Continue && post == (App {
                    editing_field: toggled_field(pre.editing_field),
                    ..pre
                }),
                KeyInput::Esc => out == KeyOutcome::Continue && post == (App {
                    current_screen: CurrentScreen::Main,
                    editing_field: None,
                    ..pre
                }),
                KeyInput::Enter => out == KeyOutcome::SaveConfig && config_enter_step(pre, post),
                _ => post == pre && out == KeyOutcome::Continue,
            }
        },
        CurrentScreen::Help => {
            out == KeyOutcome::Continue && post == (App {
                current_screen: CurrentScreen::Main,
                ..pre
            })
        },
    }
}

impl App {
    /// A fresh application state: main screen, no pending inputs, the host
    /// list and configuration as given, and the goal input pre-filled with
    /// the goal's decimal text.
    pub fn new(
        hosts: Vec<String>,
        current_contributions: u32,
        contribution_goal: u32,
        username: String,
        threshold_met_date: Option<String>,
        threshold_met_goal: Option<u32>,
    ) -> (app: App)
        ensures
            app.host_input@ == Seq::<char>::empty(),
            app.selected_index == 0,
            app.hosts == hosts,
            app.current_screen == CurrentScreen::Main,
            app.currently_editing is None,
            app.contribution_goal_input@ == dec_rep(contribution_goal as nat),
            app.github_username_input == username,
            app.editing_field is None,
            app.progress == current_contributions,
            app.contribution_goal == contribution_goal,
            app.threshold_met_date == threshold_met_date,
            app.threshold_met_goal == threshold_met_goal,
            app.username == username,
    {
        App {
            host_input: String::new(),
            selected_index: 0,
            hosts,
            current_screen: CurrentScreen::Main,
            currently_editing: None,
            contribution_goal_input: u32_to_string(contribution_goal),
            github_username_input: username.clone(),
            editing_field: None,
            progress: current_contributions,
            contribution_goal,
            threshold_met_goal,
            threshold_met_date,
            username,
        }
    }

    /// Append the pending host input to the host list (an empty input adds
    /// nothing), clear the input, and end entry editing.
    pub fn save_new_host(&mut self)
        ensures
            save_new_host_rel(*old(self), *final(self), old(self).current_screen),
    {
        if !self.host_input.as_str().is_empty() {
            self.hosts.push(self.host_input.clone());
        }
        self.host_input = String::new();
        self.currently_editing = None;
    }

    /// Move the configuration editor to the other field; entering the
    /// screen with no field selected starts at the contribution goal.
    pub fn toggle_editing_config(&mut self)
        ensures
            *final(self) == (App {
                editing_field: toggled_field(old(self).editing_field),
                ..*old(self)
            }),
    {
        match self.editing_field {
            Some(EditingField::GithubUsername) => {
                self.editing_field = Some(EditingField::ContributionGoal);
            },
            Some(EditingField::ContributionGoal) => {
                self.editing_field = Some(EditingField::GithubUsername);
            },
            None => {
                self.editing_field = Some(EditingField::ContributionGoal);
            },
        }
    }
}

/// The application state a start-up builds from what was read off disk:
/// the hosts file's member list, the configuration, and the persisted
/// threshold status, whose date is shown in its canonical dashed text.
/// The progress starts at zero until the first cycle reports.
pub fn init_app(
    existing_hosts: Vec<String>,
    configuration: Config,
    state: ContributionThresholdStatus,
) -> (app: App)
    requires
        state.threshold_met_date is Some ==> 0 <= state.threshold_met_date->0.year <= 9999
            && state.threshold_met_date->0.month <= 99 && state.threshold_met_date->0.day <= 99,
    ensures
        app.host_input@ == Seq::<char>::empty(),
        app.selected_index == 0,
        app.hosts == existing_hosts,
        app.current_screen == CurrentScreen::Main,
        app.currently_editing is None,
        app.contribution_goal_input@ == dec_rep(configuration.contribution_goal as nat),
        app.github_username_input == configuration.github_username,
        app.editing_field is None,
        app.progress == 0,
        app.contribution_goal == configuration.contribution_goal,
        app.threshold_met_date is Some <==> state.threshold_met_date is Some,
        state.threshold_met_date is Some ==> app.threshold_met_date->0@ == date_rep(
            state.threshold_met_date->0,
        ),
        app.threshold_met_goal == state.threshold_met_goal,
        app.username == configuration.github_username,
{
    let date_text: Option<String> = match state.threshold_met_date {
        None => None,
        Some(d) => Some(format_date(&d)),
    };
    App::new(
        existing_hosts,
        0,
        configuration.contribution_goal,
        configuration.github_username,
        date_text,
        state.threshold_met_goal,
    )
}

/// Apply one key press to the state, as `key_step` describes, and say what
/// the caller must now do: keep running, exit, or persist the host list or
/// the configuration.
pub fn handle_key(app: &mut App, key: KeyInput) -> (out: KeyOutcome)
    ensures
        key_step(*old(app), *final(app), key, out),
{
    match app.current_screen {
        CurrentScreen::Main => {
            match key {
                KeyInput::Char(c) => {
                    if c == 'i' {
                        app.current_screen = CurrentScreen::Editing;
                        app.currently_editing = Some(CurrentlyEditing::Key);
                    } else if c == 'q' {
                        app.current_screen = CurrentScreen::Exiting;
                    } else if c == 'h' {
                        app.current_screen = CurrentScreen::Help;
                    } else if c == 'c' {
                        app.current_screen = CurrentScreen::Configuration;
                        app.editing_field = Some(EditingField::ContributionGoal);
                    }
                },
                _ => {},
            }
            KeyOutcome::Continue
        },
        CurrentScreen::Exiting => {
            match key {
                KeyInput::Char(c) => {
                    if c == 'y' || c == 'q' {
                        KeyOutcome::Exit
                    } else if c == 'n' {
                        app.current_screen = CurrentScreen::Main;
                        KeyOutcome::Continue
                    } else {
                        KeyOutcome::Continue
                    }
                },
                _ => KeyOutcome::Continue,
            }
        },
        CurrentScreen::Editing => {
            match key {
                KeyInput::Up => {
                    if app.selected_index > 0 {
                        app.selected_index = app.selected_index - 1;
                    }
                    KeyOutcome::Continue
                },
                KeyInput::Down => {
                    let n = app.hosts.len();
                    if n > 0 && app.selected_index < n - 1 {
                        app.selected_index = app.selected_index + 1;
                    }
                    KeyOutcome::Continue
                },
                KeyInput::Enter => {
                    if app.currently_editing.is_some() {
                        app.save_new_host();
                        app.current_screen = CurrentScreen::Main;
                        KeyOutcome::SaveHosts
                    } else {
                        KeyOutcome::Continue
                    }
                },
                KeyInput::Backspace => {
                    if app.currently_editing.is_some() {
                        app.host_input.pop();
                    }
                    KeyOutcome::Continue
                },
                KeyInput::Esc => {
                    app.current_screen = CurrentScreen::Main;
                    app.currently_editing = None;
                    KeyOutcome::Continue
                },
                KeyInput::Tab => {
                    if app.selected_index < app.hosts.len() {
                        app.hosts.remove(app.selected_index);
                        if app.selected_index >= app.hosts.len() && app.selected_index > 0 {
                            app.selected_index = app.selected_index - 1;
                        }
                    }
                    KeyOutcome::Continue
                },
                KeyInput::Char(c) => {
                    if app.currently_editing.is_some() {
                        app.host_input.push(c);
                    }
                    KeyOutcome::Continue
                },
                KeyInput::Other => KeyOutcome::Continue,
            }
        },
        CurrentScreen::Configuration => {
            match key {
                KeyInput::Char(c) => {
                    match app.editing_field {
                        Some(EditingField::ContributionGoal) => {
                            app.contribution_goal_input.push(c);
                        },
                        Some(EditingField::GithubUsername) => {
                            app.github_username_input.push(c);
                        },
                        None => {},
                    }
                    KeyOutcome::Continue
                },
                KeyInput::Backspace => {
                    match app.editing_field {
                        Some(EditingField::ContributionGoal) => {
                            app.contribution_goal_input.pop();
                        },
                        Some(EditingField::GithubUsername) => {
                            app.github_username_input.pop();
                        },
                        None => {},
                    }
                    KeyOutcome::Continue
                },
                KeyInput::Tab => {
                    app.toggle_editing_config();
                    KeyOutcome::Continue
                },
                KeyInput::Esc => {
                    app.current_screen = CurrentScreen::Main;
                    app.editing_field = None;
                    KeyOutcome::Continue
                },
                KeyInput::Enter => {
                    match parse_u32(app.contribution_goal_input.as_str()) {
                        Some(new_goal) => {
                            app.contribution_goal = new_goal;
                        },
                        None => {},
                    }
                    app.username = app.github_username_input.clone();
                    app.editing_field = None;
                    app.current_screen = CurrentScreen::Main;
                    KeyOutcome::SaveConfig
                },
                _ => KeyOutcome::Continue,
            }
        },
        CurrentScreen::Help => {
            app.current_screen = CurrentScreen::Main;
            KeyOutcome::Continue
        },
    }
}

} // verus!
