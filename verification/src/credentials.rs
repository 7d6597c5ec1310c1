//! Validation of the credential configuration, and the request header
//! value computed from it.
//!
//! The configuration file itself is read and parsed by the unverified
//! shell, which hands the credential section over in the plain shape
//! below; picking the three credentials out of it, with the exact error
//! for each way the section can be deficient, is verified here.

use vstd::prelude::*;

use vstd::string::StringExecFns;

verus! {

/// A configuration entry as the credential logic sees it: string text,
/// or a value of some other shape.
pub enum ConfigValue {
    Text(String),
    Other,
}

/// The credential section of the configuration; each entry may be
/// missing, or present with either shape.
pub struct CredentialSection {
    pub api_key: Option<ConfigValue>,
    pub organization: Option<ConfigValue>,
    pub project: Option<ConfigValue>,
}

/// The three credentials once validated.
#[derive(Debug)]
pub struct Credentials {
    pub api_key: String,
    pub organization: String,
    pub project: String,
}

/// Why credential extraction failed.
#[derive(PartialEq, Eq, Structural, Clone, Copy, Debug)]
pub enum CredentialError {
    /// The configuration has no credential section at all.
    MissingSection,
    /// The section has no `api_key` entry.
    MissingApiKey,
    /// The `api_key` entry is not a string.
    ApiKeyNotText,
    /// The section has no `organization` entry.
    MissingOrganization,
    /// The `organization` entry is not a string.
    OrganizationNotText,
    /// The section has no `project` entry.
    MissingProject,
    /// The `project` entry is not a string.
    ProjectNotText,
}

/// The first problem with the section, checked in the order the
/// credentials are read, or `None` when all three are present as text.
pub open spec fn first_credential_error(section: Option<CredentialSection>) -> Option<
    CredentialError,
> {
    match section {
        None => Some(CredentialError::MissingSection),
        Some(s) => match s.api_key {
            None => Some(CredentialError::MissingApiKey),
            Some(ConfigValue::Other) => Some(CredentialError::ApiKeyNotText),
            Some(ConfigValue::Text(_)) => match s.organization {
                None => Some(CredentialError::MissingOrganization),
                Some(ConfigValue::Other) => Some(CredentialError::OrganizationNotText),
                Some(ConfigValue::Text(_)) => match s.project {
                    None => Some(CredentialError::MissingProject),
                    Some(ConfigValue::Other) => Some(CredentialError::ProjectNotText),
                    Some(ConfigValue::Text(_)) => None,
                },
            },
        },
    }
}

/// The text of an entry that is present as text, empty otherwise.
pub open spec fn entry_text(v: Option<ConfigValue>) -> Seq<char> {
    match v {
        Some(ConfigValue::Text(t)) => t@,
        _ => Seq::<char>::empty(),
    }
}

/// Picks the three credentials out of the section: succeeds exactly
/// when the section is present and all three entries are present as
/// text, handing their text back verbatim; fails with the error of the
/// first deficiency, in reading order.
pub fn extract_credentials(section: &Option<CredentialSection>) -> (r: Result<
    Credentials,
    CredentialError,
>)
    ensures
        match r {
            Ok(c) => first_credential_error(*section) is None && *section is Some && c.api_key@
                == entry_text(section->Some_0.api_key) && c.organization@ == entry_text(
                section->Some_0.organization,
            ) && c.project@ == entry_text(section->Some_0.project),
            Err(e) => first_credential_error(*section) == Some(e),
        },
{
    let s = match section {
        Some(s) => s,
        None => {
            return Err(CredentialError::MissingSection);
        },
    };
    let api_key = match &s.api_key {
        None => {
            return Err(CredentialError::MissingApiKey);
        },
        Some(ConfigValue::Other) => {
            return Err(CredentialError::ApiKeyNotText);
        },
        Some(ConfigValue::Text(t)) => t.clone(),
    };
    let organization = match &s.organization {
        None => {
            return Err(CredentialError::MissingOrganization);
        },
        Some(ConfigValue::Other) => {
            return Err(CredentialError::OrganizationNotText);
        },
        Some(ConfigValue::Text(t)) => t.clone(),
    };
    let project = match &s.project {
        None => {
            return Err(CredentialError::MissingProject);
        },
        Some(ConfigValue::Other) => {
            return Err(CredentialError::ProjectNotText);
        },
        Some(ConfigValue::Text(t)) => t.clone(),
    };
    Ok(Credentials { api_key, organization, project })
}

/// The authorization header value for `api_key`: the bearer scheme,
/// one space, then the key verbatim.
pub fn authorization_value(api_key: &str) -> (r: String)
    ensures
        r@ == "Bearer "@ + api_key@,
{
    let mut r = String::from_str("Bearer ");
    r.append(api_key);
    r
}

} // verus!
