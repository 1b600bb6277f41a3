//! What stands between the requests and the provider modules: the errors
//! of authentication, and signing by the provider in use.

use crate::aws::config::FileRead;
use crate::aws::signing::{
    carries_signature, request_view, resolved_token, sign_request_outcome,
};
use crate::config::Env;
use crate::request::Request;
use vstd::prelude::*;

verus! {

/// Why a request could not be authenticated or sent.
#[derive(Clone, Copy, Debug, PartialEq, Eq, Structural)]
pub enum AuthError {
    /// No home directory is known, so the configuration files cannot be located.
    HomeDirectoryNotFound,
    /// The credentials file exists but could not be read.
    CredentialsFileUnreadable,
    /// The file holds no section with the requested name.
    ProfileNotFound,
    /// A line of the requested section is no key-value pair.
    MalformedCredentialsFile,
    /// The profile lacks an access key or a secret key.
    CredentialsNotFound,
    /// The request cannot be signed as it stands.
    InvalidRequest,
    /// The transport failed to deliver the request.
    TransportError,
}

impl AuthError {
    /// The text shown to the user for this error.
    pub open spec fn message_text(self) -> Seq<char> {
        match self {
            AuthError::HomeDirectoryNotFound => "Could not find home directory. "@,
            AuthError::CredentialsFileUnreadable => "Could not read credentials file. "@,
            AuthError::ProfileNotFound => "Profile could not be found. "@,
            AuthError::MalformedCredentialsFile => "Error: Possibly malformed credentials file; key value pair is missing. "@,
            AuthError::CredentialsNotFound => "Could not retrieve AWS credentials with given profile. "@,
            AuthError::InvalidRequest => "Failed to create request. "@,
            AuthError::TransportError => "Request failed. "@,
        }
    }

    /// The text shown to the user for this error.
    pub fn message(&self) -> (s: String)
        ensures
            s@ == self.message_text(),
    {
        match self {
            AuthError::HomeDirectoryNotFound => "Could not find home directory. ".to_owned(),
            AuthError::CredentialsFileUnreadable => "Could not read credentials file. ".to_owned(),
            AuthError::ProfileNotFound => "Profile could not be found. ".to_owned(),
            AuthError::MalformedCredentialsFile => "Error: Possibly malformed credentials file; key value pair is missing. ".to_owned(),
            AuthError::CredentialsNotFound => "Could not retrieve AWS credentials with given profile. ".to_owned(),
            AuthError::InvalidRequest => "Failed to create request. ".to_owned(),
            AuthError::TransportError => "Request failed. ".to_owned(),
        }
    }
}

/// Signs `request` for the provider in use, which is AWS: credentials and
/// region are resolved from `env` and from what reading the two files
/// under `~/.aws` gave, and the request is signed at the time `timestamp`,
/// in seconds since the Unix epoch. A request that comes back is
/// `request` with the signature for the resolved credentials.
pub fn sign_request(
    request: Request,
    env: &Env,
    credentials_file: &FileRead,
    config_file: &FileRead,
    timestamp: u64,
) -> (r: Result<Request, AuthError>)
    ensures
        request_view(r) == sign_request_outcome(
            request@,
            env@,
            credentials_file@,
            config_file@,
            timestamp,
        ),
        r matches Ok(s) ==> carries_signature(
            request@,
            resolved_token(env@, credentials_file@),
            s@,
        ),
{
    crate::aws::signing::sign_request(request, env, credentials_file, config_file, timestamp)
}

} // verus!
