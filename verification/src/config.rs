//! Process configuration and the checks the auth layer runs against it.
//! Reading the environment is the host's business; the host fills this
//! struct and the library takes it from there.

use subtle::ConstantTimeEq;
use vstd::prelude::*;

verus! {

/// Process configuration, one field per knob.
#[derive(Debug, Clone)]
pub struct AppConfig {
    /// Bind address.
    pub listen_addr: String,
    /// Database URL.
    pub database_url: String,
    /// Path to the TLS certificate PEM file.
    pub tls_cert_path: Option<String>,
    /// Path to the TLS private key PEM file.
    pub tls_key_path: Option<String>,
    /// Bootstrap admin username (first-run only).
    pub bootstrap_user: Option<String>,
    /// Bootstrap admin password (first-run only).
    pub bootstrap_password: Option<String>,
    /// Re-enable bootstrap credentials alongside the identity provider.
    pub break_glass: bool,
    /// Container engine socket path.
    pub docker_host: String,
    /// Local models directory.
    pub model_path: String,
    /// Host-side models path for child container bind mounts.
    pub model_host_path: String,
    /// Static UI files path.
    pub ui_path: String,
    /// API subdomain hostname.
    pub api_hostname: String,
    /// Chat subdomain hostname.
    pub chat_hostname: String,
    /// Cookie domain for cross-subdomain sharing.
    pub cookie_domain: Option<String>,
    /// Container network name for backend containers.
    pub backend_network: String,
    /// ACME contact email; enables automatic certificate provisioning.
    pub acme_contact: Option<String>,
    /// Use the certificate authority's staging environment.
    pub acme_staging: bool,
    /// Chat UI backend URL.
    pub webui_backend_url: String,
    /// Pre-shared API key for chat UI calls into the proxy.
    pub webui_api_key: Option<String>,
    /// Max seconds to hold a queued request.
    pub queue_timeout_secs: u64,
    /// Set the Secure flag on session cookies.
    pub secure_cookies: bool,
    /// Encryption key for identity-provider client secrets at rest.
    pub db_encryption_key: Option<String>,
    /// Previous encryption key, set during key rotation.
    pub db_encryption_key_old: Option<String>,
}

/// Certificate provisioning configuration derived from hostnames and the
/// contact email.
#[derive(Debug, Clone)]
pub struct AcmeSettings {
    pub domains: Vec<String>,
    pub contact: String,
    pub staging: bool,
}

/// What `tls_paths` reports when a path is missing.
#[derive(Debug, Clone, Copy, PartialEq, Eq, Structural)]
pub enum ConfigError {
    TlsCertMissing,
    TlsKeyMissing,
}

impl ConfigError {
    /// The human-readable description of this error.
    pub fn message(&self) -> (r: String)
        ensures
            *self == ConfigError::TlsCertMissing ==> r@ == "TLS_CERT_PATH not set"@,
            *self == ConfigError::TlsKeyMissing ==> r@ == "TLS_KEY_PATH not set"@,
    {
        match self {
            ConfigError::TlsCertMissing => String::from_str("TLS_CERT_PATH not set"),
            ConfigError::TlsKeyMissing => String::from_str("TLS_KEY_PATH not set"),
        }
    }
}

/// Relies on `subtle::ConstantTimeEq::ct_eq` for byte slices: the resulting
/// choice is set exactly when the slices are equal, compared in constant
/// time.
#[verifier::external_body]
fn ct_bytes_eq(a: &[u8], b: &[u8]) -> (r: bool)
    ensures
        r == (a@ == b@),
{
    a.ct_eq(b).into()
}

impl AppConfig {
    /// Both bootstrap credentials are configured.
    pub fn has_bootstrap_creds(&self) -> (r: bool)
        ensures
            r == (self.bootstrap_user is Some && self.bootstrap_password is Some),
    {
        self.bootstrap_user.is_some() && self.bootstrap_password.is_some()
    }

    /// Checks the provided credentials against the configured ones, in
    /// constant time per comparison.
    pub fn validate_bootstrap_creds(&self, user: &str, password: &str) -> (r: bool)
        ensures
            r == ((self.bootstrap_user matches Some(u) && u@ == user@) && (
            self.bootstrap_password matches Some(p) && p@ == password@)),
    {
        match (&self.bootstrap_user, &self.bootstrap_password) {
            (Some(u), Some(p)) => {
                let user_match = ct_bytes_eq(u.as_str().as_bytes(), user.as_bytes());
                let pass_match = ct_bytes_eq(p.as_str().as_bytes(), password.as_bytes());
                proof {
                    vstd::utf8::encode_utf8_decode_utf8(u@);
                    vstd::utf8::encode_utf8_decode_utf8(user@);
                    vstd::utf8::encode_utf8_decode_utf8(p@);
                    vstd::utf8::encode_utf8_decode_utf8(password@);
                }
                user_match && pass_match
            },
            _ => false,
        }
    }

    /// The TLS certificate and key paths; an error names the one missing.
    pub fn tls_paths(&self) -> (r: Result<(String, String), ConfigError>)
        ensures
            match r {
                Ok(p) => (self.tls_cert_path matches Some(c) && p.0@ == c@) && (
                self.tls_key_path matches Some(k) && p.1@ == k@),
                Err(e) => (e == ConfigError::TlsCertMissing && self.tls_cert_path is None) || (e
                    == ConfigError::TlsKeyMissing && self.tls_cert_path is Some
                    && self.tls_key_path is None),
            },
    {
        let cert = match &self.tls_cert_path {
            Some(c) => c.clone(),
            None => {
                return Err(ConfigError::TlsCertMissing);
            },
        };
        let key = match &self.tls_key_path {
            Some(k) => k.clone(),
            None => {
                return Err(ConfigError::TlsKeyMissing);
            },
        };
        Ok((cert, key))
    }

    /// The external URL of the API subdomain; the scheme follows the
    /// secure-cookies switch.
    pub fn api_external_url(&self) -> (r: String)
        ensures
            self.secure_cookies ==> r@ == "https://"@ + self.api_hostname@,
            !self.secure_cookies ==> r@ == "http://"@ + self.api_hostname@,
    {
        let mut s = if self.secure_cookies {
            String::from_str("https://")
        } else {
            String::from_str("http://")
        };
        s.append(self.api_hostname.as_str());
        s
    }

    /// The external URL of the chat subdomain.
    pub fn chat_external_url(&self) -> (r: String)
        ensures
            self.secure_cookies ==> r@ == "https://"@ + self.chat_hostname@,
            !self.secure_cookies ==> r@ == "http://"@ + self.chat_hostname@,
    {
        let mut s = if self.secure_cookies {
            String::from_str("https://")
        } else {
            String::from_str("http://")
        };
        s.append(self.chat_hostname.as_str());
        s
    }

    /// Certificate provisioning settings, when a contact email is set. The
    /// domains are the API and chat hostnames.
    pub fn acme_config(&self) -> (r: Option<AcmeSettings>)
        ensures
            match r {
                Some(a) => self.acme_contact matches Some(c) && a.contact@ == c@ && a.staging
                    == self.acme_staging && a.domains@.len() == 2 && a.domains@[0]@
                    == self.api_hostname@ && a.domains@[1]@ == self.chat_hostname@,
                None => self.acme_contact is None,
            },
    {
        match &self.acme_contact {
            Some(contact) => {
                let mut domains: Vec<String> = Vec::new();
                domains.push(self.api_hostname.clone());
                domains.push(self.chat_hostname.clone());
                Some(AcmeSettings { domains, contact: contact.clone(), staging: self.acme_staging })
            },
            None => None,
        }
    }
}

} // verus!
