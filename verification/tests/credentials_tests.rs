use rustyai::credentials::{
    authorization_value, extract_credentials, ConfigValue, CredentialError, CredentialSection,
};

fn text(s: &str) -> Option<ConfigValue> {
    Some(ConfigValue::Text(s.to_string()))
}

fn full_section() -> CredentialSection {
    CredentialSection {
        api_key: text("k"),
        organization: text("o"),
        project: text("p"),
    }
}

#[test]
fn all_entries_present_as_text_succeed() {
    let c = extract_credentials(&Some(full_section())).unwrap();
    assert_eq!(c.api_key, "k".to_string());
    assert_eq!(c.organization, "o".to_string());
    assert_eq!(c.project, "p".to_string());
}

#[test]
fn missing_section_is_reported() {
    assert_eq!(
        extract_credentials(&None).unwrap_err(),
        CredentialError::MissingSection
    );
}

#[test]
fn missing_api_key_is_reported() {
    let mut s = full_section();
    s.api_key = None;
    assert_eq!(
        extract_credentials(&Some(s)).unwrap_err(),
        CredentialError::MissingApiKey
    );
}

#[test]
fn non_text_api_key_is_reported() {
    let mut s = full_section();
    s.api_key = Some(ConfigValue::Other);
    assert_eq!(
        extract_credentials(&Some(s)).unwrap_err(),
        CredentialError::ApiKeyNotText
    );
}

#[test]
fn missing_organization_is_reported() {
    let mut s = full_section();
    s.organization = None;
    assert_eq!(
        extract_credentials(&Some(s)).unwrap_err(),
        CredentialError::MissingOrganization
    );
}

#[test]
fn non_text_organization_is_reported() {
    let mut s = full_section();
    s.organization = Some(ConfigValue::Other);
    assert_eq!(
        extract_credentials(&Some(s)).unwrap_err(),
        CredentialError::OrganizationNotText
    );
}

#[test]
fn missing_project_is_reported() {
    let mut s = full_section();
    s.project = None;
    assert_eq!(
        extract_credentials(&Some(s)).unwrap_err(),
        CredentialError::MissingProject
    );
}

#[test]
fn non_text_project_is_reported() {
    let mut s = full_section();
    s.project = Some(ConfigValue::Other);
    assert_eq!(
        extract_credentials(&Some(s)).unwrap_err(),
        CredentialError::ProjectNotText
    );
}

#[test]
fn earlier_deficiencies_win() {
    // Both api_key and project are missing: the error names the first
    // entry in reading order.
    let s = CredentialSection {
        api_key: None,
        organization: text("o"),
        project: None,
    };
    assert_eq!(
        extract_credentials(&Some(s)).unwrap_err(),
        CredentialError::MissingApiKey
    );
}

#[test]
fn authorization_value_uses_the_bearer_scheme() {
    assert_eq!(authorization_value("abc123"), "Bearer abc123".to_string());
    assert_eq!(authorization_value(""), "Bearer ".to_string());
}
