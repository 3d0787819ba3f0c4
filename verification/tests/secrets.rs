use std::path::PathBuf;

use stash::secrets::{
    read_string, secret_contents, secret_name, FilesystemSecretsController, FilesystemSecretsReader,
    KubernetesSecretsControllerConfig, SecretError,
};

#[test]
fn filesystem_secrets_keep_their_path() {
    let path = PathBuf::from("/var/secrets");
    let controller = FilesystemSecretsController::new(path.clone());
    assert_eq!(controller.path(), &path);
    let reader = FilesystemSecretsReader::new(path.clone());
    assert_eq!(reader.path(), &path);
}

#[test]
fn cluster_secrets_are_named_after_their_id() {
    assert_eq!(secret_name("u1"), "user-managed-u1");
    assert_eq!(secret_name(""), "user-managed-");
    let config = KubernetesSecretsControllerConfig {
        context: "minikube".to_string(),
        field_manager: "environmentd".to_string(),
    };
    let copy = config.clone();
    assert_eq!(copy.context, "minikube");
    assert_eq!(copy.field_manager, "environmentd");
}

#[test]
fn secrets_are_read_as_utf8() {
    assert_eq!(read_string(b"hunter2"), Ok("hunter2".to_string()));
    assert_eq!(read_string(b""), Ok(String::new()));
    assert_eq!(read_string("pässwörd".as_bytes()), Ok("pässwörd".to_string()));
    assert_eq!(
        read_string(&[0xff, 0xfe]),
        Err("converting secret value to string".to_string())
    );
}

#[test]
fn contents_are_taken_from_the_data_of_a_secret() {
    let data = vec![
        ("other".to_string(), vec![1u8]),
        ("contents".to_string(), vec![2u8, 3]),
        ("contents".to_string(), vec![4u8]),
    ];
    assert_eq!(secret_contents(Some(data)), Ok(vec![2u8, 3]));
    assert_eq!(secret_contents(None), Err(SecretError::MissingData));
    assert_eq!(
        secret_contents(Some(vec![("Contents".to_string(), vec![1u8])])),
        Err(SecretError::MissingContents)
    );
    assert_eq!(secret_contents(Some(vec![])), Err(SecretError::MissingContents));
    assert_eq!(
        SecretError::MissingData.message(),
        "internal error: secret missing data field"
    );
    assert_eq!(
        SecretError::MissingContents.message(),
        "internal error: secret missing contents field"
    );
}
