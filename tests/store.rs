use git_user::store::{
    config_path_in, parse_line, parse_profiles, record_line_of, text_to_append,
};
use git_user::Profile;

fn profile(name: &str, email: &str, description: &str) -> Profile {
    Profile {
        name: name.to_string(),
        email: email.to_string(),
        description: description.to_string(),
    }
}

#[test]
fn parse_line_into_profile() {
    let correct_record = Profile {
        name: "name".to_string(),
        email: "email".to_string(),
        description: "description".to_string(),
    };

    // Without a `#` nothing is a description: all after the `:` is the email.
    assert_eq!(
        parse_line("name:email  description").unwrap(),
        profile("name", "email  description", "")
    );
    assert_eq!(
        parse_line("name:email description").unwrap(),
        profile("name", "email description", "")
    );
    assert_eq!(
        parse_line("name:email description ").unwrap(),
        profile("name", "email description", "")
    );
    assert_eq!(
        parse_line(" name:email description ").unwrap(),
        profile("name", "email description", "")
    );

    assert_eq!(parse_line("name:email # description").unwrap(), correct_record);
    assert_eq!(parse_line("name:email #description").unwrap(), correct_record);
    assert_eq!(parse_line("name:email #description ").unwrap(), correct_record);
    assert_eq!(parse_line(" name:email # description ").unwrap(), correct_record);
}

#[test]
fn parse_line_trims_every_field() {
    assert_eq!(
        parse_line("\t  Jane Doe  :   jane@x.org \t#   my work id  ").unwrap(),
        profile("Jane Doe", "jane@x.org", "my work id")
    );
}

#[test]
fn parse_line_without_description() {
    assert_eq!(parse_line("a:b").unwrap(), profile("a", "b", ""));
    assert_eq!(parse_line("a:b # ").unwrap(), profile("a", "b", ""));
}

#[test]
fn parse_line_rejects_empty_and_colonless_lines() {
    assert_eq!(parse_line(""), None);
    assert_eq!(parse_line("   "), None);
    assert_eq!(parse_line("just a name"), None);
    assert_eq!(parse_line("name # with:colon in the note"), None);
}

#[test]
fn parse_line_splits_at_first_delimiters() {
    assert_eq!(
        parse_line("first:second:third # note # more: text").unwrap(),
        profile("first", "second:third", "note # more: text")
    );
}

#[test]
fn parse_profiles_skips_blank_and_bad_lines() {
    let text = "a@x.com:A # personal\n\ngarbage\n  \nb@y.com:B # work\n";
    assert_eq!(
        parse_profiles(text),
        vec![profile("a@x.com", "A", "personal"), profile("b@y.com", "B", "work")]
    );
}

#[test]
fn parse_profiles_of_empty_text() {
    assert_eq!(parse_profiles(""), Vec::<Profile>::new());
    assert_eq!(parse_profiles("\n"), Vec::<Profile>::new());
}

#[test]
fn parse_profiles_last_line_without_break() {
    assert_eq!(
        parse_profiles("a:b # c\nd:e"),
        vec![profile("a", "b", "c"), profile("d", "e", "")]
    );
}

#[test]
fn record_line_always_writes_the_note_marker() {
    assert_eq!(record_line_of(&profile("N", "e@x", "")).as_str(), "N:e@x # \n");
    assert_eq!(record_line_of(&profile("N", "e@x", "d")).as_str(), "N:e@x # d\n");
}

#[test]
fn text_to_append_adds_a_break_only_where_missing() {
    let p = profile("N", "e@x", "d");
    assert_eq!(text_to_append("", &p).as_str(), "N:e@x # d\n");
    assert_eq!(text_to_append("a:b # c\n", &p).as_str(), "N:e@x # d\n");
    assert_eq!(text_to_append("a:b # c", &p).as_str(), "\nN:e@x # d\n");
}

#[test]
fn append_then_reload_gives_the_profile_last() {
    for before in ["", "a:b # c\n", "a:b # c", "x\n\n"] {
        let p = profile("New Name", "new@x.org", "fresh");
        let mut text = before.to_string();
        text.push_str(text_to_append(before, &p).as_str());
        let old = parse_profiles(before);
        let new = parse_profiles(&text);
        assert_eq!(new.len(), old.len() + 1);
        assert_eq!(new.last().unwrap(), &p);
        let old_breaks = before.matches('\n').count();
        let new_breaks = text.matches('\n').count();
        let extra = if !before.is_empty() && !before.ends_with('\n') { 1 } else { 0 };
        assert_eq!(new_breaks, old_breaks + 1 + extra);
    }
}

#[test]
fn config_path_under_home() {
    assert_eq!(config_path_in("/home/alice").as_str(), "/home/alice/.config/git-user.txt");
    assert_eq!(config_path_in("/home/alice/").as_str(), "/home/alice/.config/git-user.txt");
    assert_eq!(config_path_in("").as_str(), ".config/git-user.txt");
}
