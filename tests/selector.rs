use git_user::identity::git_config_command;
use git_user::selector::{decimal_text, menu_choice, menu_label, menu_lines, profile_from_answers};
use git_user::{
    config_git_user, current_profile_queries, dispatch_options, get_current_profile,
    is_choise_positive, parse_profiles, MenuAction, Profile,
};

fn profile(name: &str, email: &str, description: &str) -> Profile {
    Profile {
        name: name.to_string(),
        email: email.to_string(),
        description: description.to_string(),
    }
}

fn texts(v: &[String]) -> Vec<&str> {
    v.iter().map(|s| s.as_str()).collect()
}

#[test]
fn affirmative_answers() {
    assert!(!is_choise_positive(""));
    assert!(is_choise_positive("y"));
    assert!(is_choise_positive("Y"));
    assert!(is_choise_positive("yes please"));
    assert!(!is_choise_positive("n"));
    assert!(!is_choise_positive("no"));
    assert!(is_choise_positive("  YES  "));
    assert!(is_choise_positive("y\n"));
    assert!(!is_choise_positive("ye"));
    assert!(!is_choise_positive("yo"));
    assert!(!is_choise_positive("\n"));
}

#[test]
fn menu_commands() {
    assert_eq!(menu_choice(2, "a"), MenuAction::AddProfile);
    assert_eq!(menu_choice(2, " A \n"), MenuAction::AddProfile);
    assert_eq!(menu_choice(2, "q"), MenuAction::Quit);
    assert_eq!(menu_choice(2, "Q\n"), MenuAction::Quit);
}

#[test]
fn menu_number_bounds() {
    assert_eq!(menu_choice(3, "1"), MenuAction::Apply(0));
    assert_eq!(menu_choice(3, "3\n"), MenuAction::Apply(2));
    assert_eq!(menu_choice(3, "+2"), MenuAction::Apply(1));
    assert_eq!(menu_choice(3, "0"), MenuAction::InvalidChoice(0));
    assert_eq!(menu_choice(3, "4"), MenuAction::InvalidChoice(4));
    assert_eq!(menu_choice(3, "x"), MenuAction::InvalidInput);
    assert_eq!(menu_choice(3, "-1"), MenuAction::InvalidInput);
    assert_eq!(menu_choice(3, "+"), MenuAction::InvalidInput);
    assert_eq!(menu_choice(3, ""), MenuAction::InvalidInput);
    assert_eq!(menu_choice(3, "1 2"), MenuAction::InvalidInput);
    assert_eq!(menu_choice(3, "99999999999999999999999"), MenuAction::InvalidInput);
    assert_eq!(
        menu_choice(3, &usize::MAX.to_string()),
        MenuAction::InvalidChoice(usize::MAX)
    );
}

#[test]
fn empty_store_declined_quits() {
    let profiles = parse_profiles("");
    assert_eq!(dispatch_options(&profiles, "n\n"), MenuAction::Quit);
    assert_eq!(dispatch_options(&profiles, ""), MenuAction::Quit);
    assert_eq!(dispatch_options(&profiles, "y\n"), MenuAction::AddProfile);
}

#[test]
fn selecting_the_second_stored_profile() {
    let profiles = parse_profiles("a@x.com:A # personal\nb@y.com:B # work\n");
    assert_eq!(profiles.len(), 2);
    assert_eq!(menu_label(&profiles[0]).as_str(), "a@x.com (A) -> personal");
    assert_eq!(menu_label(&profiles[1]).as_str(), "b@y.com (B) -> work");
    let action = dispatch_options(&profiles, "2\n");
    assert_eq!(action, MenuAction::Apply(1));
    let chosen = &profiles[1];
    let commands = config_git_user(&chosen.name, &chosen.email);
    assert_eq!(texts(&commands[0]), vec!["git", "config", "user.name", "b@y.com"]);
    assert_eq!(texts(&commands[1]), vec!["git", "config", "user.email", "B"]);
}

#[test]
fn menu_label_without_description() {
    assert_eq!(menu_label(&profile("N", "e", "")).as_str(), "N (e)");
}

#[test]
fn identity_queries() {
    let q = current_profile_queries();
    assert_eq!(texts(&q[0]), vec!["git", "config", "user.name"]);
    assert_eq!(texts(&q[1]), vec!["git", "config", "user.email"]);
    assert_eq!(texts(&git_config_command("k", Some("v"))), vec!["git", "config", "k", "v"]);
}

#[test]
fn current_profile_from_outputs() {
    assert_eq!(
        get_current_profile("Jane\n", "  jane@x.org\n"),
        Some(profile("Jane", "jane@x.org", ""))
    );
    assert_eq!(get_current_profile("", "jane@x.org\n"), None);
    assert_eq!(get_current_profile("Jane\n", " \n"), None);
}

#[test]
fn profile_from_trimmed_answers() {
    assert_eq!(
        profile_from_answers(" Jane \n", "\tj@x\n", " work \n"),
        profile("Jane", "j@x", "work")
    );
}

#[test]
fn menu_lines_for_two_profiles() {
    let profiles = parse_profiles("a@x.com:A # personal\nb@y.com:B # work\n");
    let lines = menu_lines(&profiles);
    assert_eq!(
        texts(&lines),
        vec![
            "  [1] a@x.com (A) -> personal",
            "  [2] b@y.com (B) -> work",
            "  [a] Add a new profile",
            "  [q] Quit",
        ]
    );
}

#[test]
fn menu_lines_number_past_nine() {
    let profiles: Vec<Profile> = (0..12).map(|i| profile(&format!("n{i}"), "e", "")).collect();
    let lines = menu_lines(&profiles);
    assert_eq!(lines.len(), 14);
    assert_eq!(lines[11].as_str(), "  [12] n11 (e)");
}

#[test]
fn decimal_numbers() {
    assert_eq!(decimal_text(0).as_str(), "0");
    assert_eq!(decimal_text(7).as_str(), "7");
    assert_eq!(decimal_text(10).as_str(), "10");
    assert_eq!(decimal_text(1203).as_str(), "1203");
    assert_eq!(decimal_text(usize::MAX), usize::MAX.to_string());
}

#[test]
fn profile_label() {
    assert_eq!(profile("Jane", "jane@x.org", "work").label().as_str(), "Jane:jane@x.org");
}
