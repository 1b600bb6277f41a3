//! Credentials and region of a profile, resolved from the environment and
//! from the files under `~/.aws`.

use crate::auth::AuthError;
use crate::aws::config::{
    any_malformed, get_profile, is_trimmed, lemma_pairs_are_trimmed, lookup, pairs, sections,
    FileRead, FileText, RawProfile,
};
use crate::text::lines;
use crate::config::{Env, EnvView};
use crate::text::opt_text;
use vstd::prelude::*;

verus! {

/// The keys that sign a request, and the session token that goes with
/// temporary keys.
#[derive(Debug)]
pub struct Credentials {
    pub access_key_id: String,
    pub secret_key: String,
    pub security_token: Option<String>,
}

/// The texts of a `Credentials`.
pub struct CredentialsView {
    pub access_key_id: Seq<char>,
    pub secret_key: Seq<char>,
    pub security_token: Option<Seq<char>>,
}

impl View for Credentials {
    type V = CredentialsView;

    open spec fn view(&self) -> CredentialsView {
        CredentialsView {
            access_key_id: self.access_key_id@,
            secret_key: self.secret_key@,
            security_token: opt_text(self.security_token),
        }
    }
}

impl CredentialsView {
    /// Neither key is empty.
    pub open spec fn complete(self) -> bool {
        self.access_key_id.len() > 0 && self.secret_key.len() > 0
    }
}

/// The credentials where there are some, else the error.
pub open spec fn credentials_view(r: Result<Credentials, AuthError>) -> Result<
    CredentialsView,
    AuthError,
> {
    match r {
        Ok(c) => Ok(c@),
        Err(e) => Err(e),
    }
}

/// The credentials that the environment gives: both keys, where both are
/// set and not empty. The environment gives no session token.
pub open spec fn from_environment(env: EnvView) -> Option<CredentialsView> {
    if env.access_key is Some && env.secret_key is Some && env.access_key->0.len() > 0
        && env.secret_key->0.len() > 0 {
        Some(
            CredentialsView {
                access_key_id: env.access_key->0,
                secret_key: env.secret_key->0,
                security_token: None,
            },
        )
    } else {
        None
    }
}

/// The session token of a profile: the value of `aws_session_token`, else
/// that of `aws_security_token`.
pub open spec fn session_token(p: Map<Seq<char>, Seq<char>>) -> Option<Seq<char>> {
    if p.contains_key("aws_session_token"@) {
        Some(p["aws_session_token"@])
    } else if p.contains_key("aws_security_token"@) {
        Some(p["aws_security_token"@])
    } else {
        None
    }
}

/// The credentials of a profile: `CredentialsNotFound` unless it has both
/// `aws_access_key_id` and `aws_secret_access_key`.
pub open spec fn from_profile(p: Map<Seq<char>, Seq<char>>) -> Result<CredentialsView, AuthError> {
    if p.contains_key("aws_access_key_id"@) && p.contains_key("aws_secret_access_key"@) {
        Ok(
            CredentialsView {
                access_key_id: p["aws_access_key_id"@],
                secret_key: p["aws_secret_access_key"@],
                security_token: session_token(p),
            },
        )
    } else {
        Err(AuthError::CredentialsNotFound)
    }
}

/// The credentials of `profile` in the credentials file. A file that could
/// not be read is `CredentialsFileUnreadable`; a missing file holds no
/// credentials; the errors of the profile lookup pass through.
pub open spec fn from_file(file: FileText, profile: Seq<char>) -> Result<
    CredentialsView,
    AuthError,
> {
    match file {
        FileText::Unreadable => Err(AuthError::CredentialsFileUnreadable),
        FileText::Missing => Err(AuthError::CredentialsNotFound),
        FileText::Contents(text) => match lookup(sections(text), profile) {
            Ok(p) => from_profile(p),
            Err(e) => Err(e),
        },
    }
}

/// The credentials of `profile`: those of the environment where it gives
/// both keys, whatever the file holds; else `HomeDirectoryNotFound` where
/// no home directory is known; else those of the credentials file.
pub open spec fn resolve(profile: Seq<char>, env: EnvView, file: FileText) -> Result<
    CredentialsView,
    AuthError,
> {
    match from_environment(env) {
        Some(c) => Ok(c),
        None => if env.home is None {
            Err(AuthError::HomeDirectoryNotFound)
        } else {
            from_file(file, profile)
        },
    }
}

/// The path of the credentials file under the home directory `home`.
pub fn credentials_path(home: &str) -> (path: String)
    ensures
        path@ == home@ + "/"@ + ".aws/credentials"@,
{
    let mut path = home.to_owned();
    path.append("/");
    path.append(".aws/credentials");
    path
}

/// The path of the configuration file under the home directory `home`.
pub fn config_path(home: &str) -> (path: String)
    ensures
        path@ == home@ + "/"@ + ".aws/config"@,
{
    let mut path = home.to_owned();
    path.append("/");
    path.append(".aws/config");
    path
}

impl Credentials {
    /// The credentials that the environment gives, if it gives both keys.
    pub fn from_env(env: &Env) -> (r: Option<Credentials>)
        ensures
            r is Some == from_environment(env@) is Some,
            r matches Some(c) ==> Some(c@) == from_environment(env@),
    {
        match (&env.ACCESS_KEY, &env.SECRET_KEY) {
            (Some(access), Some(secret)) => {
                if access.as_str().is_empty() || secret.as_str().is_empty() {
                    None
                } else {
                    Some(
                        Credentials {
                            access_key_id: access.clone(),
                            secret_key: secret.clone(),
                            security_token: None,
                        },
                    )
                }
            },
            _ => None,
        }
    }

    /// The credentials of the profile `p`.
    pub fn from_raw(p: &RawProfile) -> (r: Result<Credentials, AuthError>)
        ensures
            credentials_view(r) == from_profile(p@),
    {
        let access = p.get("aws_access_key_id");
        let secret = p.get("aws_secret_access_key");
        match (access, secret) {
            (Some(access_key_id), Some(secret_key)) => {
                let security_token = match p.get("aws_session_token") {
                    Some(t) => Some(t),
                    None => p.get("aws_security_token"),
                };
                Ok(Credentials { access_key_id, secret_key, security_token })
            },
            _ => Err(AuthError::CredentialsNotFound),
        }
    }

    /// The credentials of `profile`, from the environment `env` or else from
    /// what reading the credentials file gave.
    pub fn get(profile: &str, env: &Env, credentials_file: &FileRead) -> (r: Result<
        Credentials,
        AuthError,
    >)
        ensures
            credentials_view(r) == resolve(profile@, env@, credentials_file@),
    {
        match Credentials::from_env(env) {
            Some(c) => {
                return Ok(c);
            },
            None => {},
        }
        if env.HOME.is_none() {
            return Err(AuthError::HomeDirectoryNotFound);
        }
        match credentials_file {
            FileRead::Unreadable => Err(AuthError::CredentialsFileUnreadable),
            FileRead::Missing => Err(AuthError::CredentialsNotFound),
            FileRead::Contents(text) => match get_profile(text.as_str(), profile) {
                Ok(p) => Credentials::from_raw(&p),
                Err(e) => Err(e),
            },
        }
    }
}

/// The region of a profile.
#[derive(Debug)]
pub struct Profile {
    pub region: String,
}

impl View for Profile {
    type V = Seq<char>;

    open spec fn view(&self) -> Seq<char> {
        self.region@
    }
}

/// The region where there is one, else the error.
pub open spec fn region_view(r: Result<Profile, AuthError>) -> Result<Seq<char>, AuthError> {
    match r {
        Ok(p) => Ok(p@),
        Err(e) => Err(e),
    }
}

/// The region used where the configuration names none.
pub open spec fn fallback_region() -> Seq<char> {
    "us-east-1"@
}

/// The region that the store sets for `profile`, if the profile can be
/// read and has the key `region`.
pub open spec fn region_in(store: Map<Seq<char>, Seq<char>>, profile: Seq<char>) -> Option<
    Seq<char>,
> {
    match lookup(store, profile) {
        Ok(p) => if p.contains_key("region"@) {
            Some(p["region"@])
        } else {
            None
        },
        Err(_) => None,
    }
}

/// The region of `profile`: its own, else that of the profile `default`,
/// else the fallback region.
pub open spec fn region_of(store: Map<Seq<char>, Seq<char>>, profile: Seq<char>) -> Seq<char> {
    match region_in(store, profile) {
        Some(r) => r,
        None => match region_in(store, "default"@) {
            Some(r) => r,
            None => fallback_region(),
        },
    }
}

/// The text of a configuration file; a file that is missing or could not be
/// read counts as empty.
pub open spec fn text_or_empty(file: FileText) -> Seq<char> {
    match file {
        FileText::Contents(text) => text,
        _ => Seq::empty(),
    }
}

/// The region of `profile`: `HomeDirectoryNotFound` where no home directory
/// is known, and no other error.
pub open spec fn resolve_region(profile: Seq<char>, env: EnvView, file: FileText) -> Result<
    Seq<char>,
    AuthError,
> {
    if env.home is None {
        Err(AuthError::HomeDirectoryNotFound)
    } else {
        Ok(region_of(sections(text_or_empty(file)), profile))
    }
}

/// The region that the file `text` sets for `profile`, if any.
fn region_from(text: &str, profile: &str) -> (r: Option<String>)
    ensures
        opt_text(r) == region_in(sections(text@), profile@),
{
    match get_profile(text, profile) {
        Ok(p) => p.get("region"),
        Err(_) => None,
    }
}

impl Profile {
    /// The region of `profile`, from what reading the configuration file
    /// gave.
    pub fn get(profile: &str, env: &Env, config_file: &FileRead) -> (r: Result<Profile, AuthError>)
        ensures
            region_view(r) == resolve_region(profile@, env@, config_file@),
    {
        if env.HOME.is_none() {
            return Err(AuthError::HomeDirectoryNotFound);
        }
        let text = match config_file {
            FileRead::Contents(text) => text.as_str(),
            _ => "",
        };
        proof {
            reveal_strlit("");
            assert(""@ =~= Seq::<char>::empty());
        }
        let region = match region_from(text, profile) {
            Some(r) => r,
            None => match region_from(text, "default") {
                Some(r) => r,
                None => "us-east-1".to_owned(),
            },
        };
        Ok(Profile { region })
    }
}

/// The profile to use: the one that the environment names, else `default`.
pub open spec fn chosen_profile(env: EnvView) -> Seq<char> {
    match env.profile {
        Some(p) => p,
        None => "default"@,
    }
}

/// The profile to use: the one that the environment names, else `default`.
pub fn profile_name(env: &Env) -> (name: String)
    ensures
        name@ == chosen_profile(env@),
{
    match &env.AWS_PROFILE {
        Some(p) => p.clone(),
        None => "default".to_owned(),
    }
}

/// Where the environment gives no credentials, a home directory is known
/// and the profile in the file has both keys, the credentials are exactly
/// the two values of the profile, and neither begins or ends with
/// whitespace or is empty.
pub proof fn lemma_file_credentials_are_the_profile_values(
    profile: Seq<char>,
    env: EnvView,
    text: Seq<char>,
    p: Map<Seq<char>, Seq<char>>,
)
    requires
        from_environment(env) is None,
        env.home is Some,
        lookup(sections(text), profile) == Ok::<Map<Seq<char>, Seq<char>>, AuthError>(p),
        p.contains_key("aws_access_key_id"@),
        p.contains_key("aws_secret_access_key"@),
    ensures
        resolve(profile, env, FileText::Contents(text)) matches Ok(c) && c.access_key_id
            == p["aws_access_key_id"@] && c.secret_key == p["aws_secret_access_key"@]
            && c.security_token == session_token(p) && is_trimmed(c.access_key_id) && is_trimmed(
            c.secret_key,
        ) && c.complete(),
{
    let block = sections(text)[profile];
    assert(!any_malformed(lines(block)));
    assert(p == pairs(lines(block)));
    lemma_pairs_are_trimmed(lines(block));
}

/// Where the environment gives both keys, they are the credentials,
/// whatever the profile, the home directory and the file.
pub proof fn lemma_environment_takes_precedence(profile: Seq<char>, env: EnvView, file: FileText)
    requires
        env.access_key is Some,
        env.secret_key is Some,
        env.access_key->0.len() > 0,
        env.secret_key->0.len() > 0,
    ensures
        resolve(profile, env, file) == Ok::<CredentialsView, AuthError>(
            CredentialsView {
                access_key_id: env.access_key->0,
                secret_key: env.secret_key->0,
                security_token: None,
            },
        ),
{
}

/// A file without the section asked for gives no credentials: where the
/// environment gives none either, the outcome is an error, and it is
/// `ProfileNotFound` where a home directory is known.
pub proof fn lemma_missing_profile_is_an_error(profile: Seq<char>, env: EnvView, text: Seq<char>)
    requires
        from_environment(env) is None,
        !sections(text).contains_key(profile),
    ensures
        resolve(profile, env, FileText::Contents(text)) is Err,
        env.home is Some ==> resolve(profile, env, FileText::Contents(text)) == Err::<
            CredentialsView,
            AuthError,
        >(AuthError::ProfileNotFound),
{
}

/// Credentials that were resolved are complete: there is no outcome with
/// one key only, or with an empty key.
pub proof fn lemma_resolved_credentials_are_complete(
    profile: Seq<char>,
    env: EnvView,
    file: FileText,
)
    ensures
        resolve(profile, env, file) matches Ok(c) ==> c.complete(),
{
    if from_environment(env) is None && env.home is Some {
        if let FileText::Contents(text) = file {
            if let Ok(p) = lookup(sections(text), profile) {
                lemma_pairs_are_trimmed(lines(sections(text)[profile]));
            }
        }
    }
}

/// Where a home directory is known, the region never fails to resolve;
/// for a profile without a region of its own it is the region of the
/// profile `default`, and the fallback region where that has none.
pub proof fn lemma_region_falls_back(profile: Seq<char>, env: EnvView, file: FileText)
    requires
        env.home is Some,
    ensures
        resolve_region(profile, env, file) is Ok,
        region_in(sections(text_or_empty(file)), profile) is None ==> resolve_region(
            profile,
            env,
            file,
        ) == Ok::<Seq<char>, AuthError>(
            match region_in(sections(text_or_empty(file)), "default"@) {
                Some(r) => r,
                None => fallback_region(),
            },
        ),
        region_in(sections(text_or_empty(file)), profile) matches Some(r) ==> resolve_region(
            profile,
            env,
            file,
        ) == Ok::<Seq<char>, AuthError>(r),
{
}

} // verus!
