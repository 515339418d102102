use boost::credential_manager::load_credential_file;
use boost::credential_manager::load_homeserver_creds;
use boost::credential_manager::BridgeBotCredentials;
use boost::credential_manager::CredFileError;
use boost::credential_manager::CredentialError;
use boost::credential_manager::set_credential;

#[test]
fn homeserver_creds_parse() {
    let contents = b"[homeserver]\nurl=https://example.org\nusername=@admin:example.org\npassword=hunter2\n".to_vec();
    let c = load_homeserver_creds(&contents).unwrap();
    assert_eq!(c.address, "https://example.org");
    assert_eq!(c.username, "@admin:example.org");
    assert_eq!(c.password, "hunter2");
}

#[test]
fn homeserver_creds_last_setting_wins() {
    let contents = b"url=a\nurl=b\n".to_vec();
    let c = load_homeserver_creds(&contents).unwrap();
    assert_eq!(c.address, "b");
}

#[test]
fn homeserver_creds_reject_unknown_key() {
    let contents = b"url=a\nport=8448\n".to_vec();
    assert!(matches!(
        load_homeserver_creds(&contents),
        Err(CredFileError::UnknownKey)
    ));
}

#[test]
fn homeserver_creds_reject_bad_line() {
    let contents = b"url=a\njust some text\n".to_vec();
    assert!(matches!(
        load_homeserver_creds(&contents),
        Err(CredFileError::InvalidLine)
    ));
}

#[test]
fn credential_file_parses_two_sections() {
    let contents = b"[one]\r\nbot_address=@Bot1:HS\r\nservice_name=discord\r\nusername=Alice\r\npassword=hash-one\r\n\r\n[two]\r\nbot_address=@bot2:hs\r\nservice_name=instagram\r\nusername=bob\r\npassword=hash-two\r\n".to_vec();
    let creds = load_credential_file(&contents).unwrap();
    assert_eq!(creds.len(), 2);
    // Addresses and usernames are lowercased at load time.
    assert_eq!(creds[0].bot_address, "@bot1:hs");
    assert_eq!(creds[0].service_name, "discord");
    assert_eq!(creds[0].username, "alice");
    assert_eq!(creds[1].bot_address, "@bot2:hs");
    assert_eq!(creds[1].service_name, "instagram");
    assert_eq!(creds[1].username, "bob");
}

#[test]
fn credential_file_rejects_duplicate_bot_address() {
    let contents = b"[one]\nbot_address=@bot:hs\nservice_name=discord\nusername=a\npassword=h\n[two]\nbot_address=@BOT:hs\nservice_name=instagram\nusername=b\npassword=h\n".to_vec();
    assert!(matches!(
        load_credential_file(&contents),
        Err(CredFileError::DuplicateBotAddress)
    ));
}

#[test]
fn credential_file_rejects_missing_values() {
    let contents = b"[one]\nbot_address=@bot:hs\nservice_name=discord\nusername=a\n".to_vec();
    assert!(matches!(
        load_credential_file(&contents),
        Err(CredFileError::MissingValues)
    ));
}

#[test]
fn credential_file_rejects_unsupported_platform() {
    let contents = b"[one]\nbot_address=@bot:hs\nservice_name=skype\nusername=a\npassword=h\n".to_vec();
    assert!(matches!(
        load_credential_file(&contents),
        Err(CredFileError::UnsupportedPlatform)
    ));
}

#[test]
fn credential_file_rejects_double_set() {
    let contents = b"[one]\nbot_address=@a:hs\nbot_address=@b:hs\n".to_vec();
    assert!(matches!(
        load_credential_file(&contents),
        Err(CredFileError::DoubleSet)
    ));
}

#[test]
fn credential_file_rejects_empty_value() {
    let contents = b"[one]\nbot_address=\n".to_vec();
    assert!(matches!(
        load_credential_file(&contents),
        Err(CredFileError::EmptyValue)
    ));
}

#[test]
fn credential_file_rejects_unknown_key() {
    let contents = b"[one]\ncolour=blue\n".to_vec();
    assert!(matches!(
        load_credential_file(&contents),
        Err(CredFileError::UnknownKey)
    ));
}

#[test]
fn credential_file_empty_text_yields_no_credentials() {
    let creds = load_credential_file(&b"\n\n".to_vec()).unwrap();
    assert_eq!(creds.len(), 0);
}

#[test]
fn validate_credentials_against_bcrypt() {
    let hash = bcrypt::hash("open sesame", 4).unwrap();
    let cred = BridgeBotCredentials::new(
        "@bot:hs".to_string(),
        "discord".to_string(),
        "ali baba".to_string(),
        hash,
    );
    assert_eq!(cred.validate_credentials("ali baba", b"open sesame"), Ok(true));
    assert_eq!(cred.validate_credentials("ali baba", b"wrong"), Ok(false));
    assert_eq!(cred.validate_credentials("cassim", b"open sesame"), Ok(false));
}

#[test]
fn validate_credentials_fails_closed_on_bad_hash() {
    let cred = BridgeBotCredentials::new(
        "@bot:hs".to_string(),
        "discord".to_string(),
        "user".to_string(),
        "not a hash".to_string(),
    );
    assert_eq!(
        cred.validate_credentials("user", b"pw"),
        Err(CredentialError::VerifierFailure)
    );
}

#[test]
fn set_credential_refuses_second_setting() {
    let mut store = String::new();
    assert_eq!(set_credential(&mut store, "username", "a".to_string()), Ok(()));
    assert_eq!(store, "a");
    assert_eq!(
        set_credential(&mut store, "username", "b".to_string()),
        Err(CredFileError::DoubleSet)
    );
    assert_eq!(store, "a");
}
