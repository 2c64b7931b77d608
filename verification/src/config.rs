//! Immutable configuration of one Access Control Instance, and of its D1 and
//! PostgreSQL deployments, with the rules that admit it.
use vstd::prelude::*;
use vstd::string::StringSliceAdditionalSpecFns;
use vstd::utf8::encode_utf8;
use crate::identifiers::{is_identifier, is_secret_reference, valid_identifier, valid_secret_reference};
use crate::text::{copy_texts, is_alnum, is_digit, is_lower, same_text, texts};

verus! {

pub const MAX_ISSUER_BYTES: usize = 256;
pub const MAX_INSTANCE_KEY_BYTES: usize = 256;
pub const MAX_BOOTSTRAP_CALLERS: usize = 64;
pub const MAX_DIRECTORY_CALLERS: usize = 64;
pub const MAX_BINDING_BYTES: usize = 128;
pub const MAX_SCHEMA_BYTES: usize = 63;

/// No text occurs twice.
pub open spec fn distinct(s: Seq<Seq<char>>) -> bool {
    forall|i: int, j: int| 0 <= i < j < s.len() ==> s[i] != s[j]
}

/// Every entry is a Plugin Instance key: an identifier of at most 256 bytes.
pub open spec fn instance_keys(v: Seq<String>) -> bool {
    forall|i: int| 0 <= i < v.len() ==> is_identifier(encode_utf8(#[trigger] v[i]@), MAX_INSTANCE_KEY_BYTES as int)
}

/// Whether `ActorAssertionVerifier::from_public_key_base64` accepts the key for the issuer.
pub uninterp spec fn verification_key_accepted(issuer: Seq<char>, public_key: Seq<char>) -> bool;

/// Builds an assertion verifier with `ActorAssertionVerifier::from_public_key_base64`
/// and reports whether it was built. The contract claims only that the answer
/// is a function of the issuer and the key: the crate accepts a URL-safe,
/// unpadded base64 encoding of a valid 32-byte Ed25519 verification key.
#[verifier::external_body]
fn verification_key_is_valid(issuer: &str, public_key: &str) -> (r: bool)
    ensures
        r == verification_key_accepted(issuer@, public_key@),
{
    lenso_auth_sdk::ActorAssertionVerifier::from_public_key_base64(issuer, public_key).is_ok()
}

/// Invalid immutable Access Control configuration.
#[derive(Clone, Copy, Debug, PartialEq, Eq, Structural)]
pub enum PolicyError {
    InvalidAuthIssuer,
    InvalidAuthPublicKey,
    InvalidBootstrapCallers,
    DuplicateBootstrapCaller,
    InvalidDirectoryCallers,
    DuplicateDirectoryCaller,
}

/// The verdict on one policy configuration: the first rule it breaks, in the
/// order issuer, key, bootstrap callers, their uniqueness, directory callers,
/// their uniqueness.
pub open spec fn policy_verdict(
    issuer: Seq<char>,
    public_key: Seq<char>,
    bootstrap: Seq<String>,
    directory: Seq<String>,
) -> Result<(), PolicyError> {
    if !is_identifier(encode_utf8(issuer), MAX_ISSUER_BYTES as int) {
        Err(PolicyError::InvalidAuthIssuer)
    } else if !verification_key_accepted(issuer, public_key) {
        Err(PolicyError::InvalidAuthPublicKey)
    } else if bootstrap.len() == 0 || bootstrap.len() > MAX_BOOTSTRAP_CALLERS || !instance_keys(bootstrap) {
        Err(PolicyError::InvalidBootstrapCallers)
    } else if !distinct(texts(bootstrap)) {
        Err(PolicyError::DuplicateBootstrapCaller)
    } else if directory.len() > MAX_DIRECTORY_CALLERS || !instance_keys(directory) {
        Err(PolicyError::InvalidDirectoryCallers)
    } else if !distinct(texts(directory)) {
        Err(PolicyError::DuplicateDirectoryCaller)
    } else {
        Ok(())
    }
}

/// Whether every entry is a Plugin Instance key.
fn all_instance_keys(v: &Vec<String>) -> (r: bool)
    ensures
        r == instance_keys(v@),
{
    let mut i: usize = 0;
    while i < v.len()
        invariant
            i <= v@.len(),
            forall|j: int| 0 <= j < i ==> is_identifier(encode_utf8(#[trigger] v@[j]@), MAX_INSTANCE_KEY_BYTES as int),
        decreases v@.len() - i,
    {
        if !valid_identifier(v[i].as_str(), MAX_INSTANCE_KEY_BYTES) {
            return false;
        }
        i = i + 1;
    }
    true
}

/// Whether no text occurs twice.
pub fn all_distinct(v: &Vec<String>) -> (r: bool)
    ensures
        r == distinct(texts(v@)),
{
    let n = v.len();
    let ghost t = texts(v@);
    let mut i: usize = 0;
    while i < n
        invariant
            n == v@.len(),
            t == texts(v@),
            i <= n,
            forall|a: int, b: int| 0 <= a < b < n && a < i ==> t[a] != t[b],
        decreases n - i,
    {
        let mut j: usize = i + 1;
        while j < n
            invariant
                n == v@.len(),
                t == texts(v@),
                i < n,
                i < j <= n,
                forall|a: int, b: int| 0 <= a < b < n && a < i ==> t[a] != t[b],
                forall|b: int| i < b < j ==> t[i as int] != t[b],
            decreases n - j,
        {
            if same_text(v[i].as_str(), v[j].as_str()) {
                assert(t[i as int] == t[j as int]);
                return false;
            }
            j = j + 1;
        }
        i = i + 1;
    }
    true
}

/// Whether `text` is one of the entries.
pub fn contains_text(v: &Vec<String>, text: &str) -> (r: bool)
    ensures
        r == texts(v@).contains(text@),
{
    let ghost t = texts(v@);
    let mut i: usize = 0;
    while i < v.len()
        invariant
            i <= v@.len(),
            t == texts(v@),
            forall|j: int| 0 <= j < i ==> t[j] != text@,
        decreases v@.len() - i,
    {
        if same_text(v[i].as_str(), text) {
            assert(t[i as int] == text@);
            return true;
        }
        i = i + 1;
    }
    false
}

/// Immutable configuration for one Access Control Instance.
#[derive(Clone, Debug, PartialEq, Eq)]
pub struct PolicyConfig {
    pub auth_issuer: String,
    pub auth_assertion_public_key: String,
    pub bootstrap_callers: Vec<String>,
    pub directory_callers: Vec<String>,
}

impl PolicyConfig {
    pub open spec fn verdict(&self) -> Result<(), PolicyError> {
        policy_verdict(
            self.auth_issuer@,
            self.auth_assertion_public_key@,
            self.bootstrap_callers@,
            self.directory_callers@,
        )
    }

    /// Creates and validates one Access Control Instance configuration, with
    /// no directory callers.
    pub fn new(auth_issuer: String, auth_assertion_public_key: String, bootstrap_callers: Vec<String>) -> (r:
        Result<Self, PolicyError>)
        ensures
            match r {
                Ok(c) => {
                    &&& c.auth_issuer@ == auth_issuer@
                    &&& c.auth_assertion_public_key@ == auth_assertion_public_key@
                    &&& c.bootstrap_callers@ == bootstrap_callers@
                    &&& c.directory_callers@.len() == 0
                    &&& c.verdict() is Ok
                },
                Err(e) => policy_verdict(
                    auth_issuer@,
                    auth_assertion_public_key@,
                    bootstrap_callers@,
                    Seq::empty(),
                ) == Err::<(), PolicyError>(e),
            },
    {
        let config = PolicyConfig {
            auth_issuer,
            auth_assertion_public_key,
            bootstrap_callers,
            directory_callers: Vec::new(),
        };
        match config.validate() {
            Ok(()) => Ok(config),
            Err(e) => Err(e),
        }
    }

    /// Replaces the exact peer Plugin Instance keys admitted to directory
    /// reads, and validates the result.
    pub fn with_directory_callers(self, directory_callers: Vec<String>) -> (r: Result<Self, PolicyError>)
        ensures
            match r {
                Ok(c) => {
                    &&& c.auth_issuer@ == self.auth_issuer@
                    &&& c.auth_assertion_public_key@ == self.auth_assertion_public_key@
                    &&& c.bootstrap_callers@ == self.bootstrap_callers@
                    &&& c.directory_callers@ == directory_callers@
                    &&& c.verdict() is Ok
                },
                Err(e) => policy_verdict(
                    self.auth_issuer@,
                    self.auth_assertion_public_key@,
                    self.bootstrap_callers@,
                    directory_callers@,
                ) == Err::<(), PolicyError>(e),
            },
    {
        let config = PolicyConfig {
            auth_issuer: self.auth_issuer,
            auth_assertion_public_key: self.auth_assertion_public_key,
            bootstrap_callers: self.bootstrap_callers,
            directory_callers,
        };
        match config.validate() {
            Ok(()) => Ok(config),
            Err(e) => Err(e),
        }
    }

    /// Checks every configuration rule and names the first one broken.
    pub fn validate(&self) -> (r: Result<(), PolicyError>)
        ensures
            r == self.verdict(),
    {
        if !valid_identifier(self.auth_issuer.as_str(), MAX_ISSUER_BYTES) {
            return Err(PolicyError::InvalidAuthIssuer);
        }
        if !verification_key_is_valid(self.auth_issuer.as_str(), self.auth_assertion_public_key.as_str()) {
            return Err(PolicyError::InvalidAuthPublicKey);
        }
        if self.bootstrap_callers.len() == 0 || self.bootstrap_callers.len() > MAX_BOOTSTRAP_CALLERS
            || !all_instance_keys(&self.bootstrap_callers) {
            return Err(PolicyError::InvalidBootstrapCallers);
        }
        if !all_distinct(&self.bootstrap_callers) {
            return Err(PolicyError::DuplicateBootstrapCaller);
        }
        if self.directory_callers.len() > MAX_DIRECTORY_CALLERS || !all_instance_keys(&self.directory_callers) {
            return Err(PolicyError::InvalidDirectoryCallers);
        }
        if !all_distinct(&self.directory_callers) {
            return Err(PolicyError::DuplicateDirectoryCaller);
        }
        Ok(())
    }

    /// Whether the calling Plugin Instance may bootstrap scopes.
    pub fn bootstrap_authorized(&self, caller_instance: Option<&str>) -> (r: bool)
        ensures
            r == (caller_instance matches Some(c) && texts(self.bootstrap_callers@).contains(c@)),
    {
        match caller_instance {
            Some(c) => contains_text(&self.bootstrap_callers, c),
            None => false,
        }
    }

    /// Whether the calling Plugin Instance may read the role directory.
    pub fn directory_authorized(&self, caller_instance: Option<&str>) -> (r: bool)
        ensures
            r == (caller_instance matches Some(c) && texts(self.directory_callers@).contains(c@)),
    {
        match caller_instance {
            Some(c) => contains_text(&self.directory_callers, c),
            None => false,
        }
    }
}

/// A D1 binding name: 1 to 128 bytes, an ASCII letter first, and only ASCII
/// letters, digits and `_`.
pub open spec fn is_binding_name(v: Seq<u8>) -> bool {
    &&& v.len() > 0
    &&& v.len() <= MAX_BINDING_BYTES
    &&& is_alnum(v[0]) && !is_digit(v[0])
    &&& forall|i: int| 0 <= i < v.len() ==> is_alnum(#[trigger] v[i]) || v[i] == 0x5f
}

pub fn valid_binding_name(value: &str) -> (r: bool)
    ensures
        r == is_binding_name(value.spec_bytes()),
{
    let bytes = value.as_bytes();
    let n = bytes.len();
    if n == 0 || n > MAX_BINDING_BYTES {
        return false;
    }
    let first = bytes[0];
    if !(crate::text::byte_is_alnum(first) && !crate::text::byte_is_digit(first)) {
        return false;
    }
    let mut i: usize = 0;
    while i < n
        invariant
            n == bytes@.len(),
            bytes@ == value.spec_bytes(),
            i <= n,
            forall|j: int| 0 <= j < i ==> is_alnum(#[trigger] bytes@[j]) || bytes@[j] == 0x5f,
        decreases n - i,
    {
        let b = bytes[i];
        if !(crate::text::byte_is_alnum(b) || b == 0x5f) {
            return false;
        }
        i = i + 1;
    }
    true
}

/// Invalid D1 Access Control configuration.
#[derive(Clone, Copy, Debug, PartialEq, Eq, Structural)]
pub enum D1ConfigError {
    /// The D1 binding name breaks the binding rule.
    InvalidBinding,
    /// The policy part of the configuration is invalid.
    Policy(PolicyError),
}

/// Configuration of one D1 Access Control Instance.
#[derive(Clone, Debug, PartialEq, Eq)]
pub struct D1Config {
    pub binding: String,
    pub auth_issuer: String,
    pub auth_assertion_public_key: String,
    pub bootstrap_callers: Vec<String>,
    pub directory_callers: Vec<String>,
}

impl D1Config {
    /// The policy part of the configuration.
    pub fn policy(&self) -> (r: PolicyConfig)
        ensures
            r.auth_issuer@ == self.auth_issuer@,
            r.auth_assertion_public_key@ == self.auth_assertion_public_key@,
            texts(r.bootstrap_callers@) == texts(self.bootstrap_callers@),
            texts(r.directory_callers@) == texts(self.directory_callers@),
    {
        PolicyConfig {
            auth_issuer: self.auth_issuer.clone(),
            auth_assertion_public_key: self.auth_assertion_public_key.clone(),
            bootstrap_callers: copy_texts(&self.bootstrap_callers),
            directory_callers: copy_texts(&self.directory_callers),
        }
    }

    /// Whether the configuration names exactly this D1 binding.
    pub fn binding_is(&self, name: &str) -> (r: bool)
        ensures
            r == (self.binding@ == name@),
    {
        same_text(self.binding.as_str(), name)
    }
}

proof fn lemma_instance_keys_by_text(a: Seq<String>, b: Seq<String>)
    requires
        texts(a) == texts(b),
    ensures
        instance_keys(a) == instance_keys(b),
        a.len() == b.len(),
{
    assert(texts(a).len() == a.len());
    assert(texts(b).len() == b.len());
    assert forall|i: int| 0 <= i < a.len() implies a[i]@ == b[i]@ by {
        assert(texts(a)[i] == a[i]@);
        assert(texts(b)[i] == b[i]@);
    }
    if instance_keys(a) {
        assert forall|i: int| 0 <= i < b.len() implies is_identifier(encode_utf8(#[trigger] b[i]@), MAX_INSTANCE_KEY_BYTES as int) by {
            assert(a[i]@ == b[i]@);
        }
    }
    if instance_keys(b) {
        assert forall|i: int| 0 <= i < a.len() implies is_identifier(encode_utf8(#[trigger] a[i]@), MAX_INSTANCE_KEY_BYTES as int) by {
            assert(a[i]@ == b[i]@);
        }
    }
}

/// The verdict on a D1 configuration: the binding first, then the policy.
pub open spec fn d1_verdict(c: D1Config) -> Result<(), D1ConfigError> {
    if !is_binding_name(encode_utf8(c.binding@)) {
        Err(D1ConfigError::InvalidBinding)
    } else {
        match policy_verdict(c.auth_issuer@, c.auth_assertion_public_key@, c.bootstrap_callers@, c.directory_callers@) {
            Ok(()) => Ok(()),
            Err(e) => Err(D1ConfigError::Policy(e)),
        }
    }
}

/// Checks a D1 configuration.
pub fn validate_config(config: &D1Config) -> (r: Result<(), D1ConfigError>)
    ensures
        r == d1_verdict(*config),
{
    if !valid_binding_name(config.binding.as_str()) {
        return Err(D1ConfigError::InvalidBinding);
    }
    let policy = config.policy();
    proof {
        lemma_instance_keys_by_text(policy.bootstrap_callers@, config.bootstrap_callers@);
        lemma_instance_keys_by_text(policy.directory_callers@, config.directory_callers@);
    }
    match policy.validate() {
        Ok(()) => Ok(()),
        Err(e) => Err(D1ConfigError::Policy(e)),
    }
}

/// A PostgreSQL schema the Plugin may own: 1 to 63 bytes, a lower-case ASCII
/// letter first, then lower-case letters, digits or `_`; never `public`,
/// `information_schema` or a name starting with `pg_`.
pub open spec fn is_owned_schema_name(v: Seq<u8>) -> bool {
    &&& v.len() > 0
    &&& v.len() <= MAX_SCHEMA_BYTES
    &&& is_lower(v[0])
    &&& forall|i: int| 1 <= i < v.len() ==> is_lower(#[trigger] v[i]) || is_digit(v[i]) || v[i] == 0x5f
    &&& v != encode_utf8("public"@)
    &&& v != encode_utf8("information_schema"@)
    &&& !(v.len() >= 3 && v[0] == 0x70 && v[1] == 0x67 && v[2] == 0x5f)
}

/// Asks `lenso_postgres_kit::SchemaPlan::new` whether it accepts `schema` as an
/// owned schema name. The plan checks the name before anything else and
/// reports `PlanError::InvalidSchemaName` exactly when the name breaks the
/// rule that `is_owned_schema_name` states; any other outcome means the name
/// was accepted.
#[verifier::external_body]
fn schema_name_is_valid(schema: &str) -> (r: bool)
    ensures
        r == is_owned_schema_name(schema.spec_bytes()),
{
    !matches!(
        lenso_postgres_kit::SchemaPlan::new(schema, &[]),
        Err(lenso_postgres_kit::PlanError::InvalidSchemaName { .. })
    )
}

/// Invalid PostgreSQL Access Control configuration.
#[derive(Clone, Copy, Debug, PartialEq, Eq, Structural)]
pub enum AccessControlConfigError {
    InvalidSchema,
    InvalidSecretReference,
    InvalidAuthIssuer,
    InvalidAuthPublicKey,
    InvalidBootstrapCallers,
    DuplicateBootstrapCaller,
    InvalidDirectoryCallers,
    DuplicateDirectoryCaller,
}

pub open spec fn config_error_spec(e: PolicyError) -> AccessControlConfigError {
    match e {
        PolicyError::InvalidAuthIssuer => AccessControlConfigError::InvalidAuthIssuer,
        PolicyError::InvalidAuthPublicKey => AccessControlConfigError::InvalidAuthPublicKey,
        PolicyError::InvalidBootstrapCallers => AccessControlConfigError::InvalidBootstrapCallers,
        PolicyError::DuplicateBootstrapCaller => AccessControlConfigError::DuplicateBootstrapCaller,
        PolicyError::InvalidDirectoryCallers => AccessControlConfigError::InvalidDirectoryCallers,
        PolicyError::DuplicateDirectoryCaller => AccessControlConfigError::DuplicateDirectoryCaller,
    }
}

/// The PostgreSQL configuration error that names the same broken policy rule.
pub fn config_error(e: PolicyError) -> (r: AccessControlConfigError)
    ensures
        r == config_error_spec(e),
{
    match e {
        PolicyError::InvalidAuthIssuer => AccessControlConfigError::InvalidAuthIssuer,
        PolicyError::InvalidAuthPublicKey => AccessControlConfigError::InvalidAuthPublicKey,
        PolicyError::InvalidBootstrapCallers => AccessControlConfigError::InvalidBootstrapCallers,
        PolicyError::DuplicateBootstrapCaller => AccessControlConfigError::DuplicateBootstrapCaller,
        PolicyError::InvalidDirectoryCallers => AccessControlConfigError::InvalidDirectoryCallers,
        PolicyError::DuplicateDirectoryCaller => AccessControlConfigError::DuplicateDirectoryCaller,
    }
}

/// The verdict on a PostgreSQL configuration: schema, then the database URL
/// secret reference, then the policy.
pub open spec fn postgres_verdict(
    schema: Seq<char>,
    database_url_secret: Seq<char>,
    issuer: Seq<char>,
    public_key: Seq<char>,
    bootstrap: Seq<String>,
    directory: Seq<String>,
) -> Result<(), AccessControlConfigError> {
    if !is_owned_schema_name(encode_utf8(schema)) {
        Err(AccessControlConfigError::InvalidSchema)
    } else if !is_secret_reference(encode_utf8(database_url_secret)) {
        Err(AccessControlConfigError::InvalidSecretReference)
    } else {
        match policy_verdict(issuer, public_key, bootstrap, directory) {
            Ok(()) => Ok(()),
            Err(e) => Err(config_error_spec(e)),
        }
    }
}

/// Immutable configuration for one PostgreSQL Access Control Instance.
#[derive(Clone, Debug, PartialEq, Eq)]
pub struct AccessControlConfig {
    pub schema: String,
    pub database_url_secret: String,
    pub auth_issuer: String,
    pub auth_assertion_public_key: String,
    pub bootstrap_callers: Vec<String>,
    pub directory_callers: Vec<String>,
}

impl AccessControlConfig {
    pub open spec fn verdict(&self) -> Result<(), AccessControlConfigError> {
        postgres_verdict(
            self.schema@,
            self.database_url_secret@,
            self.auth_issuer@,
            self.auth_assertion_public_key@,
            self.bootstrap_callers@,
            self.directory_callers@,
        )
    }

    /// Creates and validates one PostgreSQL Access Control Instance
    /// configuration, with no directory callers.
    pub fn new(
        schema: String,
        database_url_secret: String,
        auth_issuer: String,
        auth_assertion_public_key: String,
        bootstrap_callers: Vec<String>,
    ) -> (r: Result<Self, AccessControlConfigError>)
        ensures
            match r {
                Ok(c) => {
                    &&& c.schema@ == schema@
                    &&& c.database_url_secret@ == database_url_secret@
                    &&& c.auth_issuer@ == auth_issuer@
                    &&& c.auth_assertion_public_key@ == auth_assertion_public_key@
                    &&& c.bootstrap_callers@ == bootstrap_callers@
                    &&& c.directory_callers@.len() == 0
                    &&& c.verdict() is Ok
                },
                Err(e) => postgres_verdict(
                    schema@,
                    database_url_secret@,
                    auth_issuer@,
                    auth_assertion_public_key@,
                    bootstrap_callers@,
                    Seq::empty(),
                ) == Err::<(), AccessControlConfigError>(e),
            },
    {
        let config = AccessControlConfig {
            schema,
            database_url_secret,
            auth_issuer,
            auth_assertion_public_key,
            bootstrap_callers,
            directory_callers: Vec::new(),
        };
        match config.validate() {
            Ok(()) => Ok(config),
            Err(e) => Err(e),
        }
    }

    /// Replaces the exact peer Plugin Instance keys admitted to directory
    /// reads, and validates the result.
    pub fn with_directory_callers(self, directory_callers: Vec<String>) -> (r: Result<Self, AccessControlConfigError>)
        ensures
            match r {
                Ok(c) => {
                    &&& c.schema@ == self.schema@
                    &&& c.database_url_secret@ == self.database_url_secret@
                    &&& c.auth_issuer@ == self.auth_issuer@
                    &&& c.auth_assertion_public_key@ == self.auth_assertion_public_key@
                    &&& c.bootstrap_callers@ == self.bootstrap_callers@
                    &&& c.directory_callers@ == directory_callers@
                    &&& c.verdict() is Ok
                },
                Err(e) => postgres_verdict(
                    self.schema@,
                    self.database_url_secret@,
                    self.auth_issuer@,
                    self.auth_assertion_public_key@,
                    self.bootstrap_callers@,
                    directory_callers@,
                ) == Err::<(), AccessControlConfigError>(e),
            },
    {
        let config = AccessControlConfig {
            schema: self.schema,
            database_url_secret: self.database_url_secret,
            auth_issuer: self.auth_issuer,
            auth_assertion_public_key: self.auth_assertion_public_key,
            bootstrap_callers: self.bootstrap_callers,
            directory_callers,
        };
        match config.validate() {
            Ok(()) => Ok(config),
            Err(e) => Err(e),
        }
    }

    /// Checks every configuration rule and names the first one broken.
    pub fn validate(&self) -> (r: Result<(), AccessControlConfigError>)
        ensures
            r == self.verdict(),
    {
        if !schema_name_is_valid(self.schema.as_str()) {
            return Err(AccessControlConfigError::InvalidSchema);
        }
        if !valid_secret_reference(self.database_url_secret.as_str()) {
            return Err(AccessControlConfigError::InvalidSecretReference);
        }
        let policy = self.policy();
        proof {
            lemma_instance_keys_by_text(policy.bootstrap_callers@, self.bootstrap_callers@);
            lemma_instance_keys_by_text(policy.directory_callers@, self.directory_callers@);
        }
        match policy.validate() {
            Ok(()) => Ok(()),
            Err(e) => Err(config_error(e)),
        }
    }

    /// The policy part of the configuration.
    pub fn policy(&self) -> (r: PolicyConfig)
        ensures
            r.auth_issuer@ == self.auth_issuer@,
            r.auth_assertion_public_key@ == self.auth_assertion_public_key@,
            texts(r.bootstrap_callers@) == texts(self.bootstrap_callers@),
            texts(r.directory_callers@) == texts(self.directory_callers@),
    {
        PolicyConfig {
            auth_issuer: self.auth_issuer.clone(),
            auth_assertion_public_key: self.auth_assertion_public_key.clone(),
            bootstrap_callers: copy_texts(&self.bootstrap_callers),
            directory_callers: copy_texts(&self.directory_callers),
        }
    }

    /// The owned PostgreSQL schema.
    pub fn schema(&self) -> (r: &str)
        ensures
            r@ == self.schema@,
    {
        self.schema.as_str()
    }

    /// The secret reference that resolves to the database URL.
    pub fn database_url_secret(&self) -> (r: &str)
        ensures
            r@ == self.database_url_secret@,
    {
        self.database_url_secret.as_str()
    }
}

} // verus!
