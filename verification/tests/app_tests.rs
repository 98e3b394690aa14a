use commitblock::app::App;
use commitblock::app::CurrentScreen::Main;
use commitblock::app::EditingField::ContributionGoal;
use commitblock::app::EditingField::GithubUsername;
use commitblock::app::KeyInput;
use commitblock::app::KeyOutcome;
use commitblock::app::handle_key;
use commitblock::engine::Config;
use commitblock::engine::ContributionThresholdStatus;
use commitblock::engine::Date;

#[test]
fn can_instantiate_app() {
    let hosts: Vec<String> = vec![String::from("Commit"), String::from("Block")];
    let current_contributions = 4;
    let contribution_goal = 5;
    let username = String::from("BingBong");
    let threshold_met_date = Some(String::from("01/11/2024"));
    let threshold_met_goal = Some(4);

    let app = App::new(
        hosts.clone(),
        current_contributions,
        contribution_goal,
        username.clone(),
        threshold_met_date.clone(),
        threshold_met_goal.clone(),
    );

    assert_eq!(app.host_input, String::new());
    assert_eq!(app.hosts, hosts);
    assert_eq!(app.progress, current_contributions);
    assert_eq!(app.selected_index, 0);
    assert_eq!(app.current_screen, Main);
    assert_eq!(app.currently_editing, None);
    assert_eq!(app.contribution_goal_input, contribution_goal.to_string());
    assert_eq!(app.github_username_input, username);
    assert_eq!(app.editing_field, None);
    assert_eq!(app.contribution_goal, contribution_goal);
    assert_eq!(app.threshold_met_goal, threshold_met_goal);
    assert_eq!(app.threshold_met_date, threshold_met_date);
    assert_eq!(app.username, username);
}

#[test]
fn can_save_new_host_input_empty() {
    let hosts: Vec<String> = vec![String::from("Commit"), String::from("Block")];
    let current_contributions = 4;
    let contribution_goal = 5;
    let username = String::from("BingBong");
    let threshold_met_date = Some(String::from("01/11/2024"));
    let threshold_met_goal = Some(4);

    let mut app = App::new(
        hosts.clone(),
        current_contributions,
        contribution_goal,
        username.clone(),
        threshold_met_date.clone(),
        threshold_met_goal.clone(),
    );

    app.save_new_host();

    assert_eq!(app.host_input, String::new());
    assert_eq!(app.currently_editing, None);
    assert_eq!(app.hosts, hosts); // No new hosts saved since host_input is empty
}

#[test]
fn can_save_new_host() {
    let hosts: Vec<String> = vec![String::from("Commit"), String::from("Block")];
    let current_contributions = 4;
    let contribution_goal = 5;
    let username = String::from("BingBong");
    let threshold_met_date = Some(String::from("01/11/2024"));
    let threshold_met_goal = Some(4);

    let mut app = App::new(
        hosts.clone(),
        current_contributions,
        contribution_goal,
        username.clone(),
        threshold_met_date.clone(),
        threshold_met_goal.clone(),
    );
    app.host_input = String::from("New Host");

    app.save_new_host();

    assert_eq!(app.host_input, String::new());
    assert_eq!(app.currently_editing, None);
    assert_eq!(
        app.hosts,
        vec![String::from("Commit"), String::from("Block"), String::from("New Host")]
    );
}

#[test]
fn can_toggle_editing_config() {
    let hosts: Vec<String> = vec![String::from("Commit"), String::from("Block")];
    let current_contributions = 4;
    let contribution_goal = 5;
    let username = String::from("BingBong");
    let threshold_met_date = Some(String::from("01/11/2024"));
    let threshold_met_goal = Some(4);

    let mut app = App::new(
        hosts.clone(),
        current_contributions,
        contribution_goal,
        username.clone(),
        threshold_met_date.clone(),
        threshold_met_goal.clone(),
    );

    app.toggle_editing_config();

    assert_eq!(app.editing_field, Some(ContributionGoal));

    app.toggle_editing_config();

    assert_eq!(app.editing_field, Some(GithubUsername));
}

#[test]
fn key_presses_drive_the_screens() {
    let mut app = App::new(Vec::new(), 0, 5, String::from("user"), None, None);
    assert_eq!(handle_key(&mut app, KeyInput::Char('i')), KeyOutcome::Continue);
    assert_eq!(app.current_screen, commitblock::app::CurrentScreen::Editing);
    assert!(app.currently_editing.is_some());
    assert_eq!(handle_key(&mut app, KeyInput::Char('a')), KeyOutcome::Continue);
    assert_eq!(handle_key(&mut app, KeyInput::Char('x')), KeyOutcome::Continue);
    assert_eq!(app.host_input, "ax");
    assert_eq!(handle_key(&mut app, KeyInput::Backspace), KeyOutcome::Continue);
    assert_eq!(app.host_input, "a");
    assert_eq!(handle_key(&mut app, KeyInput::Enter), KeyOutcome::SaveHosts);
    assert_eq!(app.hosts, vec![String::from("a")]);
    assert_eq!(app.host_input, "");
    assert_eq!(app.current_screen, Main);
    assert_eq!(handle_key(&mut app, KeyInput::Char('q')), KeyOutcome::Continue);
    assert_eq!(app.current_screen, commitblock::app::CurrentScreen::Exiting);
    assert_eq!(handle_key(&mut app, KeyInput::Char('y')), KeyOutcome::Exit);
}

#[test]
fn configuration_screen_edits_goal_and_username() {
    let mut app = App::new(Vec::new(), 0, 5, String::from("user"), None, None);
    handle_key(&mut app, KeyInput::Char('c'));
    assert_eq!(app.current_screen, commitblock::app::CurrentScreen::Configuration);
    assert_eq!(app.editing_field, Some(ContributionGoal));
    // The goal buffer starts at "5"; typing a digit appends to it.
    handle_key(&mut app, KeyInput::Char('7'));
    assert_eq!(app.contribution_goal_input, "57");
    handle_key(&mut app, KeyInput::Tab);
    assert_eq!(app.editing_field, Some(GithubUsername));
    handle_key(&mut app, KeyInput::Char('!'));
    assert_eq!(app.github_username_input, "user!");
    assert_eq!(handle_key(&mut app, KeyInput::Enter), KeyOutcome::SaveConfig);
    assert_eq!(app.contribution_goal, 57);
    assert_eq!(app.username, "user!");
    assert_eq!(app.editing_field, None);
    assert_eq!(app.current_screen, Main);
}

#[test]
fn unparsable_goal_input_keeps_old_goal() {
    let mut app = App::new(Vec::new(), 0, 5, String::from("user"), None, None);
    handle_key(&mut app, KeyInput::Char('c'));
    handle_key(&mut app, KeyInput::Char('x'));
    assert_eq!(app.contribution_goal_input, "5x");
    assert_eq!(handle_key(&mut app, KeyInput::Enter), KeyOutcome::SaveConfig);
    assert_eq!(app.contribution_goal, 5);
}

#[test]
fn host_list_editor_moves_and_removes() {
    let hosts = vec![String::from("a"), String::from("b"), String::from("c")];
    let mut app = App::new(hosts, 0, 5, String::from("user"), None, None);
    handle_key(&mut app, KeyInput::Char('i'));
    handle_key(&mut app, KeyInput::Down);
    handle_key(&mut app, KeyInput::Down);
    assert_eq!(app.selected_index, 2);
    handle_key(&mut app, KeyInput::Down);
    assert_eq!(app.selected_index, 2);
    handle_key(&mut app, KeyInput::Tab);
    assert_eq!(app.hosts, vec![String::from("a"), String::from("b")]);
    assert_eq!(app.selected_index, 1);
    handle_key(&mut app, KeyInput::Up);
    assert_eq!(app.selected_index, 0);
    handle_key(&mut app, KeyInput::Esc);
    assert_eq!(app.current_screen, Main);
    assert_eq!(app.currently_editing, None);
}

#[test]
fn init_app_formats_the_stored_date() {
    let config = Config { github_username: String::from("user"), contribution_goal: 9 };
    let state = ContributionThresholdStatus {
        threshold_met_date: Some(Date { year: 2024, month: 11, day: 1 }),
        threshold_met_goal: Some(9),
    };
    let app = commitblock::app::init_app(vec![String::from("a.com")], config, state);
    assert_eq!(app.threshold_met_date, Some(String::from("2024-11-01")));
    assert_eq!(app.threshold_met_goal, Some(9));
    assert_eq!(app.progress, 0);
    assert_eq!(app.contribution_goal, 9);
    assert_eq!(app.username, "user");
    assert_eq!(app.hosts, vec![String::from("a.com")]);
}
