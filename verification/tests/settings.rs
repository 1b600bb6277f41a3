use cloud_curl::auth::AuthError;
use cloud_curl::config::{get_env, handle, settings_dir, settings_file_name, Action, Commands, Settings, SettingsFlags};

fn settings(endpoint: Option<&str>, region: Option<&str>) -> Settings {
    Settings { endpoint: endpoint.map(String::from), region: region.map(String::from) }
}

fn pair(k: &str, v: &str) -> (String, String) {
    (k.to_string(), v.to_string())
}

#[test]
fn environment_is_picked_from_the_variables() {
    let vars = vec![
        pair("PATH", "/bin"),
        pair("HOME", "/home/u"),
        pair("AWS_ACCESS_KEY_ID", "AK"),
        pair("AWS_SECRET_ACCESS_KEY", "SK"),
        pair("AWS_PROFILE", "work"),
        pair("ACCESS_KEY", "not this one"),
    ];
    let env = get_env(&vars);
    assert_eq!(env.HOME, Some("/home/u".to_string()));
    assert_eq!(env.ACCESS_KEY, Some("AK".to_string()));
    assert_eq!(env.SECRET_KEY, Some("SK".to_string()));
    assert_eq!(env.AWS_PROFILE, Some("work".to_string()));
}

#[test]
fn unset_variables_are_none_and_the_last_value_counts() {
    let env = get_env(&vec![]);
    assert!(env.HOME.is_none() && env.ACCESS_KEY.is_none() && env.SECRET_KEY.is_none() && env.AWS_PROFILE.is_none());
    let env = get_env(&vec![pair("HOME", "/a"), pair("HOME", "/b")]);
    assert_eq!(env.HOME, Some("/b".to_string()));
    assert!(env.AWS_PROFILE.is_none());
}

#[test]
fn settings_directory_depends_on_home() {
    assert_eq!(settings_dir(&Some("/home/u".to_string())), "/home/u/.config/cloud-curl");
    assert_eq!(settings_dir(&None), "/etc/cloud-curl/");
    assert_eq!(settings_file_name(), "config.yml");
}

#[test]
fn merge_overwrites_only_what_is_given() {
    let mut s = settings(Some("old-endpoint"), Some("old-region"));
    s.merge(settings(None, Some("new-region")));
    assert_eq!(s.endpoint, Some("old-endpoint".to_string()));
    assert_eq!(s.region, Some("new-region".to_string()));
    s.merge(settings(Some("new-endpoint"), None));
    assert_eq!(s.endpoint, Some("new-endpoint".to_string()));
    assert_eq!(s.region, Some("new-region".to_string()));
    s.merge(settings(None, None));
    assert_eq!(s.endpoint, Some("new-endpoint".to_string()));
    let mut empty = Settings::default();
    assert!(empty.endpoint.is_none() && empty.region.is_none());
    empty.merge(settings(Some("e"), Some("r")));
    assert_eq!(empty.endpoint, Some("e".to_string()));
    assert_eq!(empty.region, Some("r".to_string()));
}

#[test]
fn render_shows_both_settings() {
    assert_eq!(settings(Some("https://e"), Some("r")).render(), "endpoint: https://e\nregion: r");
    assert_eq!(settings(None, None).render(), "endpoint: \nregion: ");
}

#[test]
fn output_fields_follow_the_flags() {
    let s = settings(Some("e"), None);
    assert_eq!(s.output_fields(SettingsFlags { endpoint: true, region: false }), vec!["endpoint: e".to_string()]);
    assert_eq!(s.output_fields(SettingsFlags { endpoint: false, region: true }), vec!["region: ".to_string()]);
    assert_eq!(
        s.output_fields(SettingsFlags { endpoint: true, region: true }),
        vec!["endpoint: e".to_string(), "region: ".to_string()]
    );
    assert_eq!(
        s.output_fields(SettingsFlags { endpoint: false, region: false }),
        vec!["endpoint: e\nregion: ".to_string()]
    );
}

#[test]
fn handle_prints_for_get_and_writes_for_set() {
    let action = handle(settings(Some("e"), Some("r")), Commands::Get(SettingsFlags { endpoint: false, region: true }));
    match action {
        Action::Print(lines) => assert_eq!(lines, vec!["region: r".to_string()]),
        Action::Write(_) => panic!("get must print"),
    }
    let action = handle(settings(Some("e"), Some("r")), Commands::Assign(settings(None, Some("r2"))));
    match action {
        Action::Write(s) => {
            assert_eq!(s.endpoint, Some("e".to_string()));
            assert_eq!(s.region, Some("r2".to_string()));
        }
        Action::Print(_) => panic!("set must write"),
    }
}

#[test]
fn every_error_has_its_message() {
    assert_eq!(AuthError::HomeDirectoryNotFound.message(), "Could not find home directory. ");
    assert_eq!(AuthError::CredentialsFileUnreadable.message(), "Could not read credentials file. ");
    assert_eq!(AuthError::ProfileNotFound.message(), "Profile could not be found. ");
    assert_eq!(
        AuthError::MalformedCredentialsFile.message(),
        "Error: Possibly malformed credentials file; key value pair is missing. "
    );
    assert_eq!(AuthError::CredentialsNotFound.message(), "Could not retrieve AWS credentials with given profile. ");
    assert_eq!(AuthError::InvalidRequest.message(), "Failed to create request. ");
    assert_eq!(AuthError::TransportError.message(), "Request failed. ");
}
