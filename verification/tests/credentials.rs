use cloud_curl::auth::AuthError;
use cloud_curl::aws::config::FileRead;
use cloud_curl::aws::credentials::{config_path, credentials_path, profile_name, Credentials, Profile};
use cloud_curl::config::Env;

fn env(access: Option<&str>, secret: Option<&str>, home: Option<&str>) -> Env {
    Env {
        AWS_PROFILE: None,
        ACCESS_KEY: access.map(String::from),
        SECRET_KEY: secret.map(String::from),
        HOME: home.map(String::from),
    }
}

fn file(text: &str) -> FileRead {
    FileRead::Contents(text.to_string())
}

#[test]
fn default_profile_resolves_from_the_credentials_file() {
    let contents = "[default]\naws_access_key_id = AKIDEXAMPLE\naws_secret_access_key = secret123\n";
    let c = Credentials::get("default", &env(None, None, Some("/home/u")), &file(contents)).unwrap();
    assert_eq!(c.access_key_id, "AKIDEXAMPLE");
    assert_eq!(c.secret_key, "secret123");
    assert_eq!(c.security_token, None);
}

#[test]
fn file_values_come_back_trimmed() {
    let contents = "[p]\n  aws_access_key_id =   AK  \naws_secret_access_key\t=\tSK\t\n";
    let c = Credentials::get("p", &env(None, None, Some("/h")), &file(contents)).unwrap();
    assert_eq!(c.access_key_id, "AK");
    assert_eq!(c.secret_key, "SK");
}

#[test]
fn environment_wins_over_any_file() {
    let e = env(Some("ENVKEY"), Some("ENVSECRET"), None);
    let files = [
        file("[default]\naws_access_key_id = FILEKEY\naws_secret_access_key = FILESECRET\naws_session_token = T\n"),
        file("[default]\nfoo=bar=baz\n"),
        file("\u{0}\u{1}garbage[[[="),
        FileRead::Missing,
        FileRead::Unreadable,
    ];
    for f in files.iter() {
        let c = Credentials::get("default", &e, f).unwrap();
        assert_eq!(c.access_key_id, "ENVKEY");
        assert_eq!(c.secret_key, "ENVSECRET");
        assert_eq!(c.security_token, None);
    }
}

#[test]
fn environment_needs_both_keys_and_neither_empty() {
    let contents = "[default]\naws_access_key_id = F\naws_secret_access_key = S\n";
    for e in [
        env(Some("K"), None, Some("/h")),
        env(None, Some("S"), Some("/h")),
        env(Some(""), Some("S"), Some("/h")),
        env(Some("K"), Some(""), Some("/h")),
    ] {
        assert!(Credentials::from_env(&e).is_none());
        let c = Credentials::get("default", &e, &file(contents)).unwrap();
        assert_eq!(c.access_key_id, "F");
        assert_eq!(c.secret_key, "S");
    }
    let both = Credentials::from_env(&env(Some("K"), Some("S"), None)).unwrap();
    assert_eq!(both.access_key_id, "K");
    assert_eq!(both.secret_key, "S");
    assert_eq!(both.security_token, None);
}

#[test]
fn missing_home_is_a_hard_failure() {
    let contents = "[default]\naws_access_key_id = F\naws_secret_access_key = S\n";
    let r = Credentials::get("default", &env(None, None, None), &file(contents));
    assert!(matches!(r, Err(AuthError::HomeDirectoryNotFound)));
    let r = Profile::get("default", &env(Some("K"), Some("S"), None), &file("[default]\nregion = r\n"));
    assert!(matches!(r, Err(AuthError::HomeDirectoryNotFound)));
}

#[test]
fn unreadable_file_is_reported() {
    let r = Credentials::get("default", &env(None, None, Some("/h")), &FileRead::Unreadable);
    assert!(matches!(r, Err(AuthError::CredentialsFileUnreadable)));
}

#[test]
fn missing_file_holds_no_credentials() {
    let r = Credentials::get("default", &env(None, None, Some("/h")), &FileRead::Missing);
    assert!(matches!(r, Err(AuthError::CredentialsNotFound)));
}

#[test]
fn missing_profile_never_gives_a_partial_result() {
    let contents = "[default]\naws_access_key_id = F\naws_secret_access_key = S\n";
    let r = Credentials::get("missing-profile", &env(None, None, Some("/h")), &file(contents));
    assert!(matches!(r, Err(AuthError::ProfileNotFound)));
}

#[test]
fn profile_with_one_key_only_is_credentials_not_found() {
    let e = env(None, None, Some("/h"));
    let r = Credentials::get("p", &e, &file("[p]\naws_access_key_id = F\n"));
    assert!(matches!(r, Err(AuthError::CredentialsNotFound)));
    let r = Credentials::get("p", &e, &file("[p]\naws_secret_access_key = S\n"));
    assert!(matches!(r, Err(AuthError::CredentialsNotFound)));
    let r = Credentials::get("p", &e, &file("[p]\n"));
    assert!(matches!(r, Err(AuthError::CredentialsNotFound)));
}

#[test]
fn malformed_line_fails_the_resolution_of_its_profile_only() {
    let contents = "[bad]\naws_access_key_id = A\naws_secret_access_key = S\nfoo=bar=baz\n[good]\naws_access_key_id = B\naws_secret_access_key = T\n";
    let e = env(None, None, Some("/h"));
    let r = Credentials::get("bad", &e, &file(contents));
    assert!(matches!(r, Err(AuthError::MalformedCredentialsFile)));
    let c = Credentials::get("good", &e, &file(contents)).unwrap();
    assert_eq!(c.access_key_id, "B");
    assert_eq!(c.secret_key, "T");
}

#[test]
fn session_token_is_read_under_either_key_name() {
    let e = env(None, None, Some("/h"));
    let base = "[p]\naws_access_key_id = A\naws_secret_access_key = S\n";
    let c = Credentials::get("p", &e, &file(&format!("{}aws_session_token = NEW\n", base))).unwrap();
    assert_eq!(c.security_token, Some("NEW".to_string()));
    let c = Credentials::get("p", &e, &file(&format!("{}aws_security_token = OLD\n", base))).unwrap();
    assert_eq!(c.security_token, Some("OLD".to_string()));
    let both = format!("{}aws_security_token = OLD\naws_session_token = NEW\n", base);
    let c = Credentials::get("p", &e, &file(&both)).unwrap();
    assert_eq!(c.security_token, Some("NEW".to_string()));
}

#[test]
fn region_of_the_profile_is_used_where_it_has_one() {
    let contents = "[dev]\nregion = eu-west-1\n[default]\nregion = us-west-2\n";
    let p = Profile::get("dev", &env(None, None, Some("/h")), &file(contents)).unwrap();
    assert_eq!(p.region, "eu-west-1");
}

#[test]
fn region_falls_back_to_default_profile_then_to_constant() {
    let e = env(None, None, Some("/h"));
    let p = Profile::get("dev", &e, &file("[dev]\noutput = json\n[default]\nregion = us-west-2\n")).unwrap();
    assert_eq!(p.region, "us-west-2");
    let p = Profile::get("dev", &e, &file("[dev]\noutput = json\n[default]\noutput = text\n")).unwrap();
    assert_eq!(p.region, "us-east-1");
    let p = Profile::get("dev", &e, &file("[dev]\noutput = json\n")).unwrap();
    assert_eq!(p.region, "us-east-1");
}

#[test]
fn region_never_fails_while_home_is_known() {
    let e = env(None, None, Some("/h"));
    for f in [
        FileRead::Missing,
        FileRead::Unreadable,
        file(""),
        file("[other]\nregion = r\n"),
        file("[dev]\nfoo=bar=baz\n"),
        file("[dev]\nfoo=bar=baz\n[default]\nalso=bad=line\n"),
    ] {
        let p = Profile::get("dev", &e, &f).unwrap();
        assert_eq!(p.region, "us-east-1");
    }
    let p = Profile::get("dev", &e, &file("[dev]\nfoo=bar=baz\n[default]\nregion = ap-south-1\n")).unwrap();
    assert_eq!(p.region, "ap-south-1");
}

#[test]
fn profile_name_defaults_to_default() {
    let mut e = env(None, None, None);
    assert_eq!(profile_name(&e), "default");
    e.AWS_PROFILE = Some("work".to_string());
    assert_eq!(profile_name(&e), "work");
}

#[test]
fn paths_lie_under_the_home_directory() {
    assert_eq!(credentials_path("/home/u"), "/home/u/.aws/credentials");
    assert_eq!(config_path("/home/u"), "/home/u/.aws/config");
    assert_eq!(credentials_path(""), "/.aws/credentials");
}
