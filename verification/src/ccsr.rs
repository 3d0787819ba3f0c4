//! The requests and the errors of a client of a Confluent-compatible schema
//! registry.
//!
//! Sending a request is not done here. What is decided here is where a
//! request goes, what its body is, how the answer of the registry is read as
//! an error, and which configuration a client is built from.

use vstd::prelude::*;
use vstd::std_specs::convert::FromSpecImpl;
use crate::text::{push_signed_decimal, signed_decimal};

verus! {

/// `reqwest::Error`, an error of sending a request.
#[verifier::external_type_specification]
#[verifier::external_body]
pub struct ExReqwestError(reqwest::Error);

/// `reqwest::Url`, a parsed URL.
#[verifier::external_type_specification]
#[verifier::external_body]
pub struct ExUrl(reqwest::Url);

/// `native_tls::Error`, an error of reading a certificate.
#[verifier::external_type_specification]
#[verifier::external_body]
pub struct ExTlsError(native_tls::Error);

/// Whether the text holds no NUL character, so that it can be handed on as
/// a C string.
pub open spec fn without_nul(text: Seq<char>) -> bool {
    forall|i: int| 0 <= i < text.len() ==> text[i] != '\0'
}

/// `reqwest::Identity::from_pkcs12_der`: whether the archive and the
/// password make an identity. Nothing is claimed of when they do: the TLS
/// library of the platform reads the archive, and it is not the same on
/// every machine. The password is handed on as a C string, so it must hold
/// no NUL character.
#[verifier::external_body]
fn check_pkcs12_der(der: &[u8], password: &str) -> (r: Result<(), reqwest::Error>)
    requires
        without_nul(password@),
{
    reqwest::Identity::from_pkcs12_der(der, password).map(|_| ())
}

/// `native_tls::Certificate::from_pem` and, on what it read,
/// `native_tls::Certificate::to_der`: a certificate in the PEM format,
/// written in the DER format. Nothing is claimed of when this succeeds nor
/// of what is written: the TLS library of the platform does both. What the
/// first call reads goes straight into the second and is seen nowhere else.
/// The length of the input is taken as a 32-bit number, so the input must
/// be no longer than that.
#[verifier::external_body]
fn pem_to_der(pem: &[u8]) -> (r: Result<Vec<u8>, native_tls::Error>)
    requires
        pem@.len() <= i32::MAX,
{
    native_tls::Certificate::from_pem(pem)?.to_der()
}

/// `native_tls::Certificate::from_der`: whether the bytes are a certificate
/// in the DER format. Nothing is claimed of when they are: the TLS library
/// of the platform reads them.
#[verifier::external_body]
fn check_der(der: &[u8]) -> (r: Result<(), native_tls::Error>) {
    native_tls::Certificate::from_der(der).map(|_| ())
}

/// A client certificate with its key, kept as a PKCS #12 archive and the
/// password of the archive.
#[derive(Clone, Debug)]
pub struct Identity {
    der: Vec<u8>,
    password: String,
}

impl Identity {
    /// The archive.
    pub closed spec fn spec_der(&self) -> Seq<u8> {
        self.der@
    }

    /// The password of the archive.
    pub closed spec fn spec_password(&self) -> Seq<char> {
        self.password@
    }

    /// Keeps the archive and its password, if the two make an identity.
    /// The password must hold no NUL character.
    ///
    /// Whether they do is for the TLS library of the platform to say; what
    /// is kept once it has spoken is said by [`Identity::checked`].
    pub fn from_pkcs12_der(der: Vec<u8>, password: String) -> (r: Result<Self, reqwest::Error>)
        requires
            without_nul(password@),
        ensures
            r matches Ok(identity) ==> identity.spec_der() == der@ && identity.spec_password()
                == password@,
    {
        let check = check_pkcs12_der(der.as_slice(), password.as_str());
        Identity::checked(der, password, check)
    }

    /// The outcome for an archive whose check came out as `check`: the
    /// archive with its password where the check went well, and the error of
    /// the check where it did not.
    pub fn checked(der: Vec<u8>, password: String, check: Result<(), reqwest::Error>) -> (r: Result<
        Identity,
        reqwest::Error,
    >)
        ensures
            match check {
                Ok(_) => r matches Ok(identity) && identity.spec_der() == der@
                    && identity.spec_password() == password@,
                Err(e) => r == Err::<Identity, reqwest::Error>(e),
            },
    {
        match check {
            Ok(_) => Ok(Identity { der, password }),
            Err(e) => Err(e),
        }
    }

    /// The archive.
    pub fn der(&self) -> (der: &Vec<u8>)
        ensures
            der@ == self.spec_der(),
    {
        &self.der
    }

    /// The password of the archive.
    pub fn password(&self) -> (password: &String)
        ensures
            password@ == self.spec_password(),
    {
        &self.password
    }
}

/// A certificate, kept in the DER format.
#[derive(Clone, Debug)]
pub struct Certificate {
    der: Vec<u8>,
}

impl Certificate {
    /// The certificate in the DER format.
    pub closed spec fn spec_der(&self) -> Seq<u8> {
        self.der@
    }

    /// Reads a certificate in the PEM format and keeps it in the DER format.
    /// The input must be no longer than a 32-bit length can say.
    ///
    /// Whether the bytes hold a certificate, and what its DER form is, is
    /// for the TLS library of the platform to say; what is kept once it has
    /// spoken is said by [`Certificate::converted`].
    pub fn from_pem(pem: &[u8]) -> (r: Result<Certificate, native_tls::Error>)
        requires
            pem@.len() <= i32::MAX,
    {
        Certificate::converted(pem_to_der(pem))
    }

    /// The outcome for a certificate whose conversion to the DER format came
    /// out as `der`: a certificate of those bytes where it went well, and
    /// the error of the conversion where it did not.
    pub fn converted(der: Result<Vec<u8>, native_tls::Error>) -> (r: Result<
        Certificate,
        native_tls::Error,
    >)
        ensures
            match der {
                Ok(bytes) => r matches Ok(certificate) && certificate.spec_der() == bytes@,
                Err(e) => r == Err::<Certificate, native_tls::Error>(e),
            },
    {
        match der {
            Ok(der) => Ok(Certificate { der }),
            Err(e) => Err(e),
        }
    }

    /// Keeps a certificate in the DER format, if it is one.
    ///
    /// Whether the bytes are a certificate is for the TLS library of the
    /// platform to say; what is kept once it has spoken is said by
    /// [`Certificate::checked`].
    pub fn from_der(der: &[u8]) -> (r: Result<Certificate, native_tls::Error>)
        ensures
            r matches Ok(certificate) ==> certificate.spec_der() == der@,
    {
        Certificate::checked(der, check_der(der))
    }

    /// The outcome for bytes whose check came out as `check`: a certificate
    /// of those bytes where the check went well, and the error of the check
    /// where it did not.
    pub fn checked(der: &[u8], check: Result<(), native_tls::Error>) -> (r: Result<
        Certificate,
        native_tls::Error,
    >)
        ensures
            match check {
                Ok(_) => r matches Ok(certificate) && certificate.spec_der() == der@,
                Err(e) => r == Err::<Certificate, native_tls::Error>(e),
            },
    {
        match check {
            Ok(_) => Ok(Certificate { der: crate::lexical::copy_bytes(der) }),
            Err(e) => Err(e),
        }
    }

    /// The certificate in the DER format.
    pub fn der(&self) -> (der: &Vec<u8>)
        ensures
            der@ == self.spec_der(),
    {
        &self.der
    }
}

/// Represents the schema registry to connect to, including potential TLS
/// configuration.
#[derive(Debug)]
pub struct ClientConfig {
    pub url: reqwest::Url,
    pub root_certs: Vec<Certificate>,
    pub identity: Option<Identity>,
}

impl ClientConfig {
    /// Constructs a new `ClientConfig`: no root certificate, no identity.
    pub fn new(url: reqwest::Url) -> (config: ClientConfig)
        ensures
            config.url == url,
            config.root_certs@.len() == 0,
            config.identity is None,
    {
        ClientConfig { url, root_certs: Vec::new(), identity: None }
    }

    /// Adds a custom root certificate, behind those that are there.
    pub fn add_root_certificate(self, cert: Certificate) -> (config: ClientConfig)
        ensures
            config.url == self.url,
            config.root_certs@ == self.root_certs@.push(cert),
            config.identity == self.identity,
    {
        let mut config = self;
        config.root_certs.push(cert);
        config
    }

    /// Sets the identity to be used for client certificate authentication.
    pub fn identity(self, identity: Identity) -> (config: ClientConfig)
        ensures
            config.url == self.url,
            config.root_certs == self.root_certs,
            config.identity == Some(identity),
    {
        let mut config = self;
        config.identity = Some(identity);
        config
    }
}

/// A schema of the registry.
#[derive(Debug)]
pub struct Schema {
    pub id: i32,
    pub raw: String,
}

/// The path of the schema with the given id.
pub fn schema_by_id_path(id: i32) -> (path: String)
    ensures
        path@ == "/schemas/ids/"@ + signed_decimal(id as int),
{
    let mut path = String::from_str("/schemas/ids/");
    push_signed_decimal(&mut path, id as i64);
    path
}

/// The path of the latest schema of a subject.
pub fn latest_schema_path(subject: &str) -> (path: String)
    ensures
        path@ == "/subjects/"@ + subject@ + "/versions/latest"@,
{
    let mut path = String::from_str("/subjects/");
    path.append(subject);
    path.append("/versions/latest");
    path
}

/// The path under which a schema of a subject is published.
pub fn versions_path(subject: &str) -> (path: String)
    ensures
        path@ == "/subjects/"@ + subject@ + "/versions"@,
{
    let mut path = String::from_str("/subjects/");
    path.append(subject);
    path.append("/versions");
    path
}

/// The path of the list of subjects.
pub fn subjects_path() -> (path: String)
    ensures
        path@ == "/subjects"@,
{
    String::from_str("/subjects")
}

/// The path of a subject.
pub fn subject_path(subject: &str) -> (path: String)
    ensures
        path@ == "/subjects/"@ + subject@,
{
    let mut path = String::from_str("/subjects/");
    path.append(subject);
    path
}

/// The JSON text of an object with one member, a string `value` under the
/// name `key`.
pub uninterp spec fn json_member(key: Seq<char>, value: Seq<char>) -> Seq<char>;

/// `serde_json`: the text of the JSON object that holds the string `value`
/// under the name `key` and nothing else.
#[verifier::external_body]
fn json_member_text(key: &str, value: &str) -> (body: String)
    ensures
        body@ == json_member(key@, value@),
{
    let mut object = serde_json::Map::new();
    object.insert(key.to_string(), serde_json::Value::String(value.to_string()));
    serde_json::Value::Object(object).to_string()
}

/// A request to publish a schema: where it goes and what it says.
#[derive(Debug)]
pub struct PublishRequest {
    pub path: String,
    pub body: String,
}

/// The request that publishes `schema` for `subject`: it goes to the versions
/// of the subject and carries the schema as the member `schema` of a JSON
/// object.
pub fn publish_request(subject: &str, schema: &str) -> (request: PublishRequest)
    ensures
        request.path@ == "/subjects/"@ + subject@ + "/versions"@,
        request.body@ == json_member("schema"@, schema@),
{
    PublishRequest { path: versions_path(subject), body: json_member_text("schema", schema) }
}

/// What the registry says of an error.
#[derive(Debug)]
pub struct ErrorResponse {
    pub error_code: i32,
    pub message: String,
}

/// An error that no request has a name for.
#[derive(Debug)]
pub enum UnhandledError {
    Transport(reqwest::Error),
    Api { code: i32, message: String },
}

/// The error for an answer that is no success: what the registry says of
/// it, or the status of the answer where the registry's words cannot be
/// read.
pub fn api_error(status: u16, details: Option<ErrorResponse>) -> (e: UnhandledError)
    ensures
        match details {
            Some(response) => e matches UnhandledError::Api { code, message } && code
                == response.error_code && message == response.message,
            None => e matches UnhandledError::Api { code, message } && code == status && message@
                == "unable to decode error details"@,
        },
{
    match details {
        Some(response) => UnhandledError::Api { code: response.error_code, message: response.message },
        None => UnhandledError::Api {
            code: status as i32,
            message: String::from_str("unable to decode error details"),
        },
    }
}

impl FromSpecImpl<reqwest::Error> for UnhandledError {
    open spec fn obeys_from_spec() -> bool {
        true
    }

    open spec fn from_spec(err: reqwest::Error) -> UnhandledError {
        UnhandledError::Transport(err)
    }
}

impl From<reqwest::Error> for UnhandledError {
    fn from(err: reqwest::Error) -> (e: UnhandledError) {
        UnhandledError::Transport(err)
    }
}

/// The text of an error of the registry: `server error`, the code and the
/// message.
pub open spec fn server_error_text(code: i32, message: Seq<char>) -> Seq<char> {
    "server error "@ + signed_decimal(code as int) + ": "@ + message
}

fn server_error(code: i32, message: &str) -> (text: String)
    ensures
        text@ == server_error_text(code, message@),
{
    let mut text = String::from_str("server error ");
    push_signed_decimal(&mut text, code as i64);
    text.append(": ");
    text.append(message);
    text
}

/// The text of an error of sending: `transport: ` and what the error says of
/// itself.
fn transport_error(err: &reqwest::Error) -> (text: String)
    ensures
        "transport: "@.is_prefix_of(text@),
{
    let mut text = String::from_str("transport: ");
    let detail = err.to_string();
    text.append(detail.as_str());
    text
}

/// Why a schema could not be had by its id.
#[derive(Debug)]
pub enum GetByIdError {
    SchemaNotFound,
    Transport(reqwest::Error),
    Server { code: i32, message: String },
}

impl FromSpecImpl<UnhandledError> for GetByIdError {
    open spec fn obeys_from_spec() -> bool {
        true
    }

    open spec fn from_spec(err: UnhandledError) -> GetByIdError {
        match err {
            UnhandledError::Transport(err) => GetByIdError::Transport(err),
            UnhandledError::Api { code, message } => if code == 40403 {
                GetByIdError::SchemaNotFound
            } else {
                GetByIdError::Server { code, message }
            },
        }
    }
}

impl From<UnhandledError> for GetByIdError {
    fn from(err: UnhandledError) -> (e: GetByIdError) {
        match err {
            UnhandledError::Transport(err) => GetByIdError::Transport(err),
            UnhandledError::Api { code, message } => match code {
                40403 => GetByIdError::SchemaNotFound,
                _ => GetByIdError::Server { code, message },
            },
        }
    }
}

impl GetByIdError {
    /// The error in words.
    pub fn to_string(&self) -> (text: String)
        ensures
            match *self {
                GetByIdError::SchemaNotFound => text@ == "schema not found"@,
                GetByIdError::Transport(_) => "transport: "@.is_prefix_of(text@),
                GetByIdError::Server { code, message } => text@ == server_error_text(code, message@),
            },
    {
        match self {
            GetByIdError::SchemaNotFound => String::from_str("schema not found"),
            GetByIdError::Transport(err) => transport_error(err),
            GetByIdError::Server { code, message } => server_error(*code, message.as_str()),
        }
    }
}

/// Why the latest schema of a subject could not be had.
#[derive(Debug)]
pub enum GetBySubjectError {
    SubjectNotFound,
    Transport(reqwest::Error),
    Server { code: i32, message: String },
}

impl FromSpecImpl<UnhandledError> for GetBySubjectError {
    open spec fn obeys_from_spec() -> bool {
        true
    }

    open spec fn from_spec(err: UnhandledError) -> GetBySubjectError {
        match err {
            UnhandledError::Transport(err) => GetBySubjectError::Transport(err),
            UnhandledError::Api { code, message } => if code == 40401 {
                GetBySubjectError::SubjectNotFound
            } else {
                GetBySubjectError::Server { code, message }
            },
        }
    }
}

impl From<UnhandledError> for GetBySubjectError {
    fn from(err: UnhandledError) -> (e: GetBySubjectError) {
        match err {
            UnhandledError::Transport(err) => GetBySubjectError::Transport(err),
            UnhandledError::Api { code, message } => match code {
                40401 => GetBySubjectError::SubjectNotFound,
                _ => GetBySubjectError::Server { code, message },
            },
        }
    }
}

impl GetBySubjectError {
    /// The error in words.
    pub fn to_string(&self) -> (text: String)
        ensures
            match *self {
                GetBySubjectError::SubjectNotFound => text@ == "subject not found"@,
                GetBySubjectError::Transport(_) => "transport: "@.is_prefix_of(text@),
                GetBySubjectError::Server { code, message } => text@ == server_error_text(
                    code,
                    message@,
                ),
            },
    {
        match self {
            GetBySubjectError::SubjectNotFound => String::from_str("subject not found"),
            GetBySubjectError::Transport(err) => transport_error(err),
            GetBySubjectError::Server { code, message } => server_error(*code, message.as_str()),
        }
    }
}

/// Why a schema could not be published.
#[derive(Debug)]
pub enum PublishError {
    IncompatibleSchema,
    InvalidSchema,
    Transport(reqwest::Error),
    Server { code: i32, message: String },
}

impl FromSpecImpl<UnhandledError> for PublishError {
    open spec fn obeys_from_spec() -> bool {
        true
    }

    open spec fn from_spec(err: UnhandledError) -> PublishError {
        match err {
            UnhandledError::Transport(err) => PublishError::Transport(err),
            UnhandledError::Api { code, message } => if code == 409 {
                PublishError::IncompatibleSchema
            } else if code == 42201 {
                PublishError::InvalidSchema
            } else {
                PublishError::Server { code, message }
            },
        }
    }
}

impl From<UnhandledError> for PublishError {
    fn from(err: UnhandledError) -> (e: PublishError) {
        match err {
            UnhandledError::Transport(err) => PublishError::Transport(err),
            UnhandledError::Api { code, message } => match code {
                409 => PublishError::IncompatibleSchema,
                42201 => PublishError::InvalidSchema,
                _ => PublishError::Server { code, message },
            },
        }
    }
}

impl PublishError {
    /// The error in words. The words for a schema that is incompatible or
    /// invalid are those of the registry itself.
    pub fn to_string(&self) -> (text: String)
        ensures
            match *self {
                PublishError::IncompatibleSchema => text@
                    == "schema being registered is incompatible with an earlier schema"@,
                PublishError::InvalidSchema => text@ == "input schema is an invalid avro schema"@,
                PublishError::Transport(_) => "transport: "@.is_prefix_of(text@),
                PublishError::Server { code, message } => text@ == server_error_text(code, message@),
            },
    {
        match self {
            PublishError::IncompatibleSchema => String::from_str(
                "schema being registered is incompatible with an earlier schema",
            ),
            PublishError::InvalidSchema => String::from_str("input schema is an invalid avro schema"),
            PublishError::Transport(err) => transport_error(err),
            PublishError::Server { code, message } => server_error(*code, message.as_str()),
        }
    }
}

/// Why the subjects could not be listed.
#[derive(Debug)]
pub enum ListError {
    Transport(reqwest::Error),
    Server { code: i32, message: String },
}

impl FromSpecImpl<UnhandledError> for ListError {
    open spec fn obeys_from_spec() -> bool {
        true
    }

    open spec fn from_spec(err: UnhandledError) -> ListError {
        match err {
            UnhandledError::Transport(err) => ListError::Transport(err),
            UnhandledError::Api { code, message } => ListError::Server { code, message },
        }
    }
}

impl From<UnhandledError> for ListError {
    fn from(err: UnhandledError) -> (e: ListError) {
        match err {
            UnhandledError::Transport(err) => ListError::Transport(err),
            UnhandledError::Api { code, message } => ListError::Server { code, message },
        }
    }
}

impl ListError {
    /// The error in words.
    pub fn to_string(&self) -> (text: String)
        ensures
            match *self {
                ListError::Transport(_) => "transport: "@.is_prefix_of(text@),
                ListError::Server { code, message } => text@ == server_error_text(code, message@),
            },
    {
        match self {
            ListError::Transport(err) => transport_error(err),
            ListError::Server { code, message } => server_error(*code, message.as_str()),
        }
    }
}

/// Why a subject could not be deleted.
#[derive(Debug)]
pub enum DeleteError {
    SubjectNotFound,
    Transport(reqwest::Error),
    Server { code: i32, message: String },
}

impl FromSpecImpl<UnhandledError> for DeleteError {
    open spec fn obeys_from_spec() -> bool {
        true
    }

    open spec fn from_spec(err: UnhandledError) -> DeleteError {
        match err {
            UnhandledError::Transport(err) => DeleteError::Transport(err),
            UnhandledError::Api { code, message } => if code == 40401 {
                DeleteError::SubjectNotFound
            } else {
                DeleteError::Server { code, message }
            },
        }
    }
}

impl From<UnhandledError> for DeleteError {
    fn from(err: UnhandledError) -> (e: DeleteError) {
        match err {
            UnhandledError::Transport(err) => DeleteError::Transport(err),
            UnhandledError::Api { code, message } => match code {
                40401 => DeleteError::SubjectNotFound,
                _ => DeleteError::Server { code, message },
            },
        }
    }
}

impl DeleteError {
    /// The error in words.
    pub fn to_string(&self) -> (text: String)
        ensures
            match *self {
                DeleteError::SubjectNotFound => text@ == "subject not found"@,
                DeleteError::Transport(_) => "transport: "@.is_prefix_of(text@),
                DeleteError::Server { code, message } => text@ == server_error_text(code, message@),
            },
    {
        match self {
            DeleteError::SubjectNotFound => String::from_str("subject not found"),
            DeleteError::Transport(err) => transport_error(err),
            DeleteError::Server { code, message } => server_error(*code, message.as_str()),
        }
    }
}

} // verus!
