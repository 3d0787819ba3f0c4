//! Secrets and where they are kept.
//!
//! The controllers that write secrets and the readers that read them do
//! their work on a filesystem or against a cluster. What is decided here is
//! how a secret is named and what its contents must look like.

use std::path::PathBuf;
use vstd::prelude::*;
use vstd::utf8::{decode_utf8, valid_utf8};
use crate::codec::Codec;

verus! {

/// `std::path::PathBuf`, a path of the operating system. Nothing is known
/// of what a path holds.
#[verifier::external_type_specification]
#[verifier::external_body]
pub struct ExPathBuf(PathBuf);

/// A controller that stores secrets in plaintext on the local filesystem.
///
/// For use only in development and testing.
#[derive(Debug)]
pub struct FilesystemSecretsController {
    path: PathBuf,
}

impl FilesystemSecretsController {
    /// The directory that the secrets are stored in.
    pub closed spec fn spec_path(&self) -> PathBuf {
        self.path
    }

    /// Constructs a new filesystem secrets controller.
    ///
    /// Secrets will be stored at the specified path.
    pub fn new(path: PathBuf) -> (controller: Self)
        ensures
            controller.spec_path() == path,
    {
        Self { path }
    }

    /// The directory that the secrets are stored in.
    pub fn path(&self) -> (path: &PathBuf)
        ensures
            *path == self.spec_path(),
    {
        &self.path
    }
}

/// A reader of the secrets that a [`FilesystemSecretsController`] manages.
#[derive(Debug)]
pub struct FilesystemSecretsReader {
    path: PathBuf,
}

impl FilesystemSecretsReader {
    /// The directory that the secrets are read from.
    pub closed spec fn spec_path(&self) -> PathBuf {
        self.path
    }

    /// Constructs a new filesystem secrets reader.
    ///
    /// Secrets will be read from the specified path.
    pub fn new(path: PathBuf) -> (reader: Self)
        ensures
            reader.spec_path() == path,
    {
        Self { path }
    }

    /// The directory that the secrets are read from.
    pub fn path(&self) -> (path: &PathBuf)
        ensures
            *path == self.spec_path(),
    {
        &self.path
    }
}

/// Configures a controller that stores secrets in a Kubernetes cluster.
#[derive(Debug, Clone)]
pub struct KubernetesSecretsControllerConfig {
    /// The name of a Kubernetes context to use, if the Kubernetes
    /// configuration is loaded from the local kubeconfig.
    pub context: String,
    /// The field manager to present as when interacting with the Kubernetes
    /// API.
    pub field_manager: String,
}

/// The name of the entry of a cluster secret that holds the contents.
pub open spec fn contents_field() -> Seq<char> {
    "contents"@
}

/// The name under which the cluster keeps the secret with the given id:
/// `user-managed-` and the id.
pub fn secret_name(id: &str) -> (name: String)
    ensures
        name@ == "user-managed-"@ + id@,
{
    let mut name = String::from_str("user-managed-");
    name.append(id);
    name
}

/// Returns the string contents of a secret.
///
/// Returns an error if the secret's contents cannot be decoded as UTF-8.
pub fn read_string(contents: &[u8]) -> (r: Result<String, String>)
    ensures
        match r {
            Ok(text) => valid_utf8(contents@) && text@ == decode_utf8(contents@),
            Err(message) => !valid_utf8(contents@) && message@
                == "converting secret value to string"@,
        },
{
    match String::decode(contents) {
        Ok(text) => Ok(text),
        Err(_) => Err(String::from_str("converting secret value to string")),
    }
}

/// What is wrong with a cluster secret that cannot be read.
#[derive(Clone, Copy, Debug, PartialEq, Eq, Structural)]
pub enum SecretError {
    /// The secret has no data at all.
    MissingData,
    /// The data of the secret has no entry for the contents.
    MissingContents,
}

impl SecretError {
    /// The error in words.
    pub fn message(&self) -> (text: &'static str)
        ensures
            text@ == match *self {
                SecretError::MissingData => "internal error: secret missing data field"@,
                SecretError::MissingContents => "internal error: secret missing contents field"@,
            },
    {
        match self {
            SecretError::MissingData => "internal error: secret missing data field",
            SecretError::MissingContents => "internal error: secret missing contents field",
        }
    }
}

/// Whether the data has an entry for the contents.
pub open spec fn has_contents(data: Seq<(String, Vec<u8>)>) -> bool {
    exists|i: int| 0 <= i < data.len() && (#[trigger] data[i]).0@ == contents_field()
}

/// Takes the contents out of the data of a cluster secret: the first entry
/// named `contents`.
#[verifier::loop_isolation(false)]
pub fn secret_contents(data: Option<Vec<(String, Vec<u8>)>>) -> (r: Result<Vec<u8>, SecretError>)
    ensures
        match r {
            Ok(contents) => data matches Some(entries) && exists|i: int|
                0 <= i < entries.len() && (#[trigger] entries[i]).0@ == contents_field()
                    && entries[i].1@ == contents@ && forall|j: int|
                    0 <= j < i ==> (#[trigger] entries[j]).0@ != contents_field(),
            Err(SecretError::MissingData) => data is None,
            Err(SecretError::MissingContents) => data matches Some(entries) && !has_contents(entries@),
        },
{
    let entries = match data {
        Some(entries) => entries,
        None => {
            return Err(SecretError::MissingData);
        },
    };
    let wanted = String::from_str("contents");
    let mut i: usize = 0;
    while i < entries.len()
        invariant
            i <= entries.len(),
            wanted@ == contents_field(),
            forall|j: int| 0 <= j < i ==> (#[trigger] entries[j]).0@ != contents_field(),
        decreases entries.len() - i,
    {
        if entries[i].0 == wanted {
            let contents = entries[i].1.clone();
            assert(entries[i as int].0@ == contents_field() && entries[i as int].1@ == contents@);
            return Ok(contents);
        }
        i += 1;
    }
    Err(SecretError::MissingContents)
}

} // verus!
