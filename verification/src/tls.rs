//! Kernel TLS: the socket options that hand a finished session to the kernel, and
//! the server's certificate and key.

use vstd::prelude::*;
use vstd::utf8::is_ascii_chars_encode_utf8;

use crate::bytes::{push_bytes, text};

verus! {

// Linux kTLS constants, from <linux/tls.h> and <linux/tcp.h>.
pub const SOL_TLS: i32 = 282;

pub const TLS_TX: i32 = 1;

pub const TLS_RX: i32 = 2;

pub const TCP_ULP: i32 = 31;

// TLS version wire values.
pub const TLS_1_2_VERSION: u16 = 0x0303;

pub const TLS_1_3_VERSION: u16 = 0x0304;

// Cipher type IDs from <linux/tls.h>.
pub const TLS_CIPHER_AES_GCM_128: u16 = 51;

pub const TLS_CIPHER_AES_GCM_256: u16 = 52;

pub const TLS_CIPHER_CHACHA20_POLY1305: u16 = 54;

/// The protocol version that a handshake agreed on.
#[derive(Debug, Clone, Copy, PartialEq, Eq, Structural)]
pub enum TlsVersion {
    Tls12,
    Tls13,
    Other,
}

/// The cipher, key and initialisation vector of one direction of a session.
pub enum TrafficSecrets {
    Aes128Gcm { key: Vec<u8>, iv: Vec<u8> },
    Aes256Gcm { key: Vec<u8>, iv: Vec<u8> },
    Chacha20Poly1305 { key: Vec<u8>, iv: Vec<u8> },
    Other,
}

impl TrafficSecrets {
    /// The initialisation vector of an AES cipher holds the 4 bytes of the salt and
    /// the 8 bytes of the explicit part.
    pub open spec fn wf(self) -> bool {
        match self {
            TrafficSecrets::Aes128Gcm { iv, .. } => iv@.len() >= 12,
            TrafficSecrets::Aes256Gcm { iv, .. } => iv@.len() >= 12,
            _ => true,
        }
    }
}

/// The secrets of a session with the sequence number of the next record, in the
/// direction that is sent and in the one that is received.
pub struct SessionSecrets {
    pub tx: (u64, TrafficSecrets),
    pub rx: (u64, TrafficSecrets),
}

impl SessionSecrets {
    pub open spec fn wf(self) -> bool {
        self.tx.1.wf() && self.rx.1.wf()
    }
}

/// Why a session cannot be handed to the kernel.
#[derive(Debug, Clone, Copy, PartialEq, Eq, Structural)]
pub enum KtlsError {
    UnsupportedVersion,
    UnsupportedCipher,
    Aes128KeyLength,
    Aes256KeyLength,
    Chacha20IvLength,
    Chacha20KeyLength,
}

impl KtlsError {
    pub open spec fn unsupported(self) -> bool {
        self == KtlsError::UnsupportedVersion || self == KtlsError::UnsupportedCipher
    }

    /// Whether the session is of a kind that the kernel does not know, rather than
    /// one with malformed secrets.
    pub fn is_unsupported(self) -> (r: bool)
        ensures
            r == self.unsupported(),
    {
        self == KtlsError::UnsupportedVersion || self == KtlsError::UnsupportedCipher
    }

    pub open spec fn text(self) -> Seq<char> {
        match self {
            KtlsError::UnsupportedVersion => "unsupported TLS version for kTLS"@,
            KtlsError::UnsupportedCipher => "cipher suite not supported by kTLS"@,
            KtlsError::Aes128KeyLength => "AES-128 key must be 16 bytes"@,
            KtlsError::Aes256KeyLength => "AES-256 key must be 32 bytes"@,
            KtlsError::Chacha20IvLength => "ChaCha20 IV must be 12 bytes"@,
            KtlsError::Chacha20KeyLength => "ChaCha20 key must be 32 bytes"@,
        }
    }

    pub fn message(self) -> (r: &'static str)
        ensures
            r@ == self.text(),
    {
        match self {
            KtlsError::UnsupportedVersion => "unsupported TLS version for kTLS",
            KtlsError::UnsupportedCipher => "cipher suite not supported by kTLS",
            KtlsError::Aes128KeyLength => "AES-128 key must be 16 bytes",
            KtlsError::Aes256KeyLength => "AES-256 key must be 32 bytes",
            KtlsError::Chacha20IvLength => "ChaCha20 IV must be 12 bytes",
            KtlsError::Chacha20KeyLength => "ChaCha20 key must be 32 bytes",
        }
    }
}

/// The `len` low bytes of `n`, the most significant one first.
pub open spec fn be_bytes(n: nat, len: nat) -> Seq<u8>
    decreases len,
{
    if len == 0 {
        Seq::empty()
    } else {
        be_bytes(n / 256, (len - 1) as nat).push((n % 256) as u8)
    }
}

/// The number whose bytes are `s`, the most significant one first.
pub open spec fn be_value(s: Seq<u8>) -> nat
    decreases s.len(),
{
    if s.len() == 0 {
        0
    } else {
        be_value(s.drop_last()) * 256 + s.last() as nat
    }
}

proof fn lemma_be_bytes(n: nat, len: nat)
    ensures
        be_bytes(n, len).len() == len,
    decreases len,
{
    if len > 0 {
        lemma_be_bytes(n / 256, (len - 1) as nat);
    }
}

/// How many numbers `len` bytes can hold.
spec fn byte_range(len: nat) -> nat
    decreases len,
{
    if len == 0 {
        1
    } else {
        256 * byte_range((len - 1) as nat)
    }
}

proof fn lemma_be_value(n: nat, len: nat)
    requires
        n < byte_range(len),
    ensures
        be_value(be_bytes(n, len)) == n,
    decreases len,
{
    if len > 0 {
        lemma_be_value(n / 256, (len - 1) as nat);
        assert(be_bytes(n, len).drop_last() =~= be_bytes(n / 256, (len - 1) as nat));
    }
}

/// Appends the `len` low bytes of `n`, the most significant one first.
fn push_be(out: &mut Vec<u8>, n: u64, len: u8)
    ensures
        final(out)@ == old(out)@ + be_bytes(n as nat, len as nat),
    decreases len,
{
    if len == 0 {
        assert(out@ =~= old(out)@ + be_bytes(n as nat, len as nat));
        return;
    }
    push_be(out, n / 256, len - 1);
    out.push((n % 256) as u8);
    assert(out@ =~= old(out)@ + be_bytes(n as nat, len as nat));
}

/// The two bytes of `n` in the order of the machine.
pub open spec fn half_bytes(n: u16, little_endian: bool) -> Seq<u8> {
    if little_endian {
        seq![(n % 256) as u8, (n / 256) as u8]
    } else {
        seq![(n / 256) as u8, (n % 256) as u8]
    }
}

/// Appends the two bytes of `n` in the order of the machine.
fn push_half(out: &mut Vec<u8>, n: u16, little_endian: bool)
    ensures
        final(out)@ == old(out)@ + half_bytes(n, little_endian),
{
    if little_endian {
        out.push((n % 256) as u8);
        out.push((n / 256) as u8);
    } else {
        out.push((n / 256) as u8);
        out.push((n % 256) as u8);
    }
    assert(out@ =~= old(out)@ + half_bytes(n, little_endian));
}

/// The kernel's crypto info: version and cipher type in the machine's byte order,
/// then the cipher's own fields, then the record sequence number, big-endian.
pub open spec fn crypto_info_bytes(
    version: u16,
    cipher: u16,
    iv: Seq<u8>,
    key: Seq<u8>,
    salt: Seq<u8>,
    seq: u64,
    little_endian: bool,
) -> Seq<u8> {
    half_bytes(version, little_endian) + half_bytes(cipher, little_endian) + iv + key + salt
        + be_bytes(seq as nat, 8)
}

/// The crypto info of one direction, or why there is none.
pub open spec fn crypto_info_spec(
    secrets: TrafficSecrets,
    seq: u64,
    version: u16,
    little_endian: bool,
) -> Result<Seq<u8>, KtlsError> {
    match secrets {
        TrafficSecrets::Aes128Gcm { key, iv } => if key@.len() != 16 {
            Err(KtlsError::Aes128KeyLength)
        } else {
            Ok(
                crypto_info_bytes(
                    version,
                    TLS_CIPHER_AES_GCM_128,
                    iv@.subrange(4, 12),
                    key@,
                    iv@.subrange(0, 4),
                    seq,
                    little_endian,
                ),
            )
        },
        TrafficSecrets::Aes256Gcm { key, iv } => if key@.len() != 32 {
            Err(KtlsError::Aes256KeyLength)
        } else {
            Ok(
                crypto_info_bytes(
                    version,
                    TLS_CIPHER_AES_GCM_256,
                    iv@.subrange(4, 12),
                    key@,
                    iv@.subrange(0, 4),
                    seq,
                    little_endian,
                ),
            )
        },
        TrafficSecrets::Chacha20Poly1305 { key, iv } => if iv@.len() != 12 {
            Err(KtlsError::Chacha20IvLength)
        } else if key@.len() != 32 {
            Err(KtlsError::Chacha20KeyLength)
        } else {
            Ok(
                crypto_info_bytes(
                    version,
                    TLS_CIPHER_CHACHA20_POLY1305,
                    iv@,
                    key@,
                    Seq::empty(),
                    seq,
                    little_endian,
                ),
            )
        },
        TrafficSecrets::Other => Err(KtlsError::UnsupportedCipher),
    }
}

fn encode_info(
    version: u16,
    cipher: u16,
    iv: &[u8],
    key: &[u8],
    salt: &[u8],
    seq: u64,
    little_endian: bool,
) -> (r: Vec<u8>)
    ensures
        r@ == crypto_info_bytes(version, cipher, iv@, key@, salt@, seq, little_endian),
{
    let mut r: Vec<u8> = Vec::new();
    push_half(&mut r, version, little_endian);
    push_half(&mut r, cipher, little_endian);
    push_bytes(&mut r, iv);
    push_bytes(&mut r, key);
    push_bytes(&mut r, salt);
    push_be(&mut r, seq, 8);
    assert(r@ =~= crypto_info_bytes(version, cipher, iv@, key@, salt@, seq, little_endian));
    r
}

/// Lays out the kernel's crypto info for one direction of a session.
pub fn crypto_info(
    secrets: &TrafficSecrets,
    seq: u64,
    version: u16,
    little_endian: bool,
) -> (r: Result<Vec<u8>, KtlsError>)
    requires
        secrets.wf(),
    ensures
        match r {
            Ok(info) => crypto_info_spec(*secrets, seq, version, little_endian) == Ok::<
                Seq<u8>,
                KtlsError,
            >(info@),
            Err(e) => crypto_info_spec(*secrets, seq, version, little_endian) == Err::<
                Seq<u8>,
                KtlsError,
            >(e),
        },
{
    match secrets {
        TrafficSecrets::Aes128Gcm { key, iv } => {
            if key.len() != 16 {
                return Err(KtlsError::Aes128KeyLength);
            }
            let iv = iv.as_slice();
            Ok(
                encode_info(
                    version,
                    TLS_CIPHER_AES_GCM_128,
                    &iv[4..12],
                    key.as_slice(),
                    &iv[0..4],
                    seq,
                    little_endian,
                ),
            )
        },
        TrafficSecrets::Aes256Gcm { key, iv } => {
            if key.len() != 32 {
                return Err(KtlsError::Aes256KeyLength);
            }
            let iv = iv.as_slice();
            Ok(
                encode_info(
                    version,
                    TLS_CIPHER_AES_GCM_256,
                    &iv[4..12],
                    key.as_slice(),
                    &iv[0..4],
                    seq,
                    little_endian,
                ),
            )
        },
        TrafficSecrets::Chacha20Poly1305 { key, iv } => {
            if iv.len() != 12 {
                return Err(KtlsError::Chacha20IvLength);
            }
            if key.len() != 32 {
                return Err(KtlsError::Chacha20KeyLength);
            }
            let iv = iv.as_slice();
            let none = &iv[0..0];
            assert(none@ =~= Seq::empty());
            Ok(
                encode_info(
                    version,
                    TLS_CIPHER_CHACHA20_POLY1305,
                    iv,
                    key.as_slice(),
                    none,
                    seq,
                    little_endian,
                ),
            )
        },
        TrafficSecrets::Other => Err(KtlsError::UnsupportedCipher),
    }
}

/// The protocol level that a socket option belongs to.
#[derive(Debug, Clone, Copy, PartialEq, Eq, Structural)]
pub enum OptionLevel {
    Tcp,
    Tls,
}

/// A socket option to set.
pub struct SocketOption {
    pub level: OptionLevel,
    pub name: i32,
    pub value: Vec<u8>,
}

impl SocketOption {
    /// This is the option `name` at `level` with the value `value`.
    pub open spec fn is(self, level: OptionLevel, name: i32, value: Seq<u8>) -> bool {
        self.level == level && self.name == name && self.value@ == value
    }
}

/// The socket options that hand a session to the kernel, in the order in which they
/// are to be set, and what is wrong with the session once they are set.
pub struct KtlsSetup {
    pub options: Vec<SocketOption>,
    pub failure: Option<KtlsError>,
}

/// The wire value of a version that kernel TLS supports.
pub open spec fn wire_version(version: TlsVersion) -> Option<u16> {
    match version {
        TlsVersion::Tls12 => Some(TLS_1_2_VERSION),
        TlsVersion::Tls13 => Some(TLS_1_3_VERSION),
        TlsVersion::Other => None,
    }
}

impl KtlsSetup {
    /// This is how a session of `version` with `secrets` is handed over: nothing is
    /// set for an unsupported version; otherwise the TLS layer is enabled first, then
    /// the sending direction and then the receiving one are installed, up to the
    /// first one whose secrets do not do.
    pub open spec fn hands_over(
        self,
        version: TlsVersion,
        secrets: SessionSecrets,
        little_endian: bool,
    ) -> bool {
        let n = self.options@.len();
        match wire_version(version) {
            None => n == 0 && self.failure == Some(KtlsError::UnsupportedVersion),
            Some(wire) => {
                &&& n >= 1
                &&& self.options@[0].is(OptionLevel::Tcp, TCP_ULP, text("tls"))
                &&& match crypto_info_spec(secrets.tx.1, secrets.tx.0, wire, little_endian) {
                    Err(e) => n == 1 && self.failure == Some(e),
                    Ok(tx) => {
                        &&& n >= 2
                        &&& self.options@[1].is(OptionLevel::Tls, TLS_TX, tx)
                        &&& match crypto_info_spec(
                            secrets.rx.1,
                            secrets.rx.0,
                            wire,
                            little_endian,
                        ) {
                            Err(e) => n == 2 && self.failure == Some(e),
                            Ok(rx) => {
                                &&& n == 3
                                &&& self.options@[2].is(OptionLevel::Tls, TLS_RX, rx)
                                &&& self.failure is None
                            },
                        }
                    },
                }
            },
        }
    }
}

/// Works out how to enable kernel TLS for a session.
///
/// Once the options are set, all reads and writes on the socket are transparently
/// decrypted and encrypted by the kernel.
pub fn setup_ktls(version: TlsVersion, secrets: &SessionSecrets, little_endian: bool) -> (r:
    KtlsSetup)
    requires
        secrets.wf(),
    ensures
        r.hands_over(version, *secrets, little_endian),
{
    let mut options: Vec<SocketOption> = Vec::new();
    let wire: u16 = match version {
        TlsVersion::Tls12 => TLS_1_2_VERSION,
        TlsVersion::Tls13 => TLS_1_3_VERSION,
        TlsVersion::Other => {
            return KtlsSetup { options, failure: Some(KtlsError::UnsupportedVersion) };
        },
    };
    // The kernel expects exactly the 3 bytes "tls", without a terminator.
    let mut ulp: Vec<u8> = Vec::new();
    push_bytes(&mut ulp, "tls".as_bytes());
    assert(ulp@ =~= text("tls"));
    options.push(SocketOption { level: OptionLevel::Tcp, name: TCP_ULP, value: ulp });
    match crypto_info(&secrets.tx.1, secrets.tx.0, wire, little_endian) {
        Ok(info) => options.push(
            SocketOption { level: OptionLevel::Tls, name: TLS_TX, value: info },
        ),
        Err(e) => return KtlsSetup { options, failure: Some(e) },
    }
    match crypto_info(&secrets.rx.1, secrets.rx.0, wire, little_endian) {
        Ok(info) => options.push(
            SocketOption { level: OptionLevel::Tls, name: TLS_RX, value: info },
        ),
        Err(e) => return KtlsSetup { options, failure: Some(e) },
    }
    KtlsSetup { options, failure: None }
}

/// An error of the operating system or of a reader, as `std::io` reports it.
#[verifier::external_type_specification]
#[verifier::external_body]
pub struct ExIoError(std::io::Error);

/// The reason for which `rustls` rejects a certificate or a key.
#[verifier::external_type_specification]
#[verifier::external_body]
pub struct ExTlsError(rustls::Error);

/// The configuration of the TLS sessions of a server.
#[verifier::external_type_specification]
#[verifier::external_body]
pub struct ExServerConfig(rustls::ServerConfig);

/// The encoding of a private key.
#[derive(Debug, Clone, Copy, PartialEq, Eq, Structural)]
pub enum KeyFormat {
    Pkcs1,
    Sec1,
    Pkcs8,
}

/// A private key in DER.
#[derive(Debug)]
pub struct PrivateKey {
    pub format: KeyFormat,
    pub der: Vec<u8>,
}

/// Why a file could not be had: it could not be opened, or reading it failed after the
/// bytes `before`.
#[derive(Debug)]
pub enum FileError {
    Open(std::io::Error),
    Read { before: Vec<u8>, error: std::io::Error },
}

/// Why no server configuration can be made.
#[derive(Debug)]
pub enum ConfigError {
    /// A file could not be opened.
    Unreadable(std::io::Error),
    MalformedCertificates(std::io::Error),
    NoCertificates,
    MalformedKey(std::io::Error),
    NoKey,
    Rejected(rustls::Error),
}

/// The certificates, in DER, that `rustls_pemfile::certs` finds in a PEM file, in
/// their order; `None` if it comes upon a malformed section.
pub uninterp spec fn certificates_in(pem: Seq<u8>) -> Option<Seq<Seq<u8>>>;

/// The first private key that `rustls_pemfile::private_key` finds in a PEM file, if
/// there is any; `None` if it comes upon a malformed section before.
pub uninterp spec fn private_key_in(pem: Seq<u8>) -> Option<Option<(KeyFormat, Seq<u8>)>>;

/// The bytes of each of `certs`.
pub open spec fn der_of(certs: Seq<Vec<u8>>) -> Seq<Seq<u8>> {
    certs.map_values(|cert: Vec<u8>| cert@)
}

/// Calls `rustls_pemfile::certs` on a PEM file in memory. What comes back is named by
/// `certificates_in`; nothing is claimed of which error it is.
#[verifier::external_body]
fn pem_certs(pem: &[u8]) -> (r: Result<Vec<Vec<u8>>, std::io::Error>)
    ensures
        match r {
            Ok(certs) => certificates_in(pem@) == Some(der_of(certs@)),
            Err(_) => certificates_in(pem@) is None,
        },
{
    let mut reader = pem;
    rustls_pemfile::certs(&mut reader).map(|cert| cert.map(|der| der.to_vec())).collect()
}

/// Calls `rustls_pemfile::private_key` on a PEM file in memory. What comes back is
/// named by `private_key_in`; nothing is claimed of which error it is. A key has one of
/// three formats, though the type that says so is open to more.
#[verifier::external_body]
fn pem_private_key(pem: &[u8]) -> (r: Result<Option<PrivateKey>, std::io::Error>)
    ensures
        match r {
            Ok(Some(key)) => private_key_in(pem@) == Some(Some((key.format, key.der@))),
            Ok(None) => private_key_in(pem@) == Some(None::<(KeyFormat, Seq<u8>)>),
            Err(_) => private_key_in(pem@) is None,
        },
{
    let mut reader = pem;
    let key = rustls_pemfile::private_key(&mut reader)?;
    Ok(key.map(|key| PrivateKey {
        format: match key {
            rustls::pki_types::PrivateKeyDer::Pkcs1(_) => KeyFormat::Pkcs1,
            rustls::pki_types::PrivateKeyDer::Sec1(_) => KeyFormat::Sec1,
            _ => KeyFormat::Pkcs8,
        },
        der: key.secret_der().to_vec(),
    }))
}

/// The sessions of `config` let their secrets be extracted: its field
/// `enable_secret_extraction` is set.
pub uninterp spec fn extracts_secrets(config: rustls::ServerConfig) -> bool;

/// The sessions of `config` ask the client for a certificate.
pub uninterp spec fn asks_for_client_certificate(config: rustls::ServerConfig) -> bool;

/// The sessions of `config` present the certificates `chain`, and sign with the private
/// key whose encoding in `format` is `der`.
pub uninterp spec fn presents(
    config: rustls::ServerConfig,
    chain: Seq<Seq<u8>>,
    format: KeyFormat,
    der: Seq<u8>,
) -> bool;

/// `config` is what a server with the certificates `chain` and the private key `der`
/// uses when its sessions go to the kernel.
pub open spec fn suits_kernel_tls(
    config: rustls::ServerConfig,
    chain: Seq<Seq<u8>>,
    format: KeyFormat,
    der: Seq<u8>,
) -> bool {
    &&& presents(config, chain, format, der)
    &&& extracts_secrets(config)
    &&& !asks_for_client_certificate(config)
}

/// Builds a `rustls::ServerConfig`: it calls `ServerConfig::builder`,
/// `with_no_client_auth` and `with_single_cert`, and sets `enable_secret_extraction`. A
/// configuration that comes back presents `certs` and signs with `key`, asks for no
/// client certificate, and lets session secrets be extracted if and only if
/// `secret_extraction` holds. Whether the certificates and the key are accepted rests
/// on the cryptography provider that the process installed, or else on the one that was
/// built in, and is not claimed; nor is which error comes back. Whatever the arguments
/// are, `ServerConfig::builder` panics in a process whose provider has no usable cipher
/// suites.
#[verifier::external_body]
pub(crate) fn single_cert_config(
    certs: Vec<Vec<u8>>,
    key: PrivateKey,
    secret_extraction: bool,
) -> (r: Result<rustls::ServerConfig, rustls::Error>)
    ensures
        r matches Ok(config) ==> presents(config, der_of(certs@), key.format, key.der@),
        r matches Ok(config) ==> !asks_for_client_certificate(config),
        r matches Ok(config) ==> extracts_secrets(config) == secret_extraction,
{
    let chain = certs.into_iter().map(rustls::pki_types::CertificateDer::from).collect();
    let key = match key.format {
        KeyFormat::Pkcs1 => rustls::pki_types::PrivatePkcs1KeyDer::from(key.der).into(),
        KeyFormat::Sec1 => rustls::pki_types::PrivateSec1KeyDer::from(key.der).into(),
        KeyFormat::Pkcs8 => rustls::pki_types::PrivatePkcs8KeyDer::from(key.der).into(),
    };
    let builder = rustls::ServerConfig::builder().with_no_client_auth();
    let mut config = builder.with_single_cert(chain, key)?;
    config.enable_secret_extraction = secret_extraction;
    Ok(config)
}

/// The certificates of a PEM file; an error if it is malformed or holds none.
pub fn read_certificates(pem: &[u8]) -> (r: Result<Vec<Vec<u8>>, ConfigError>)
    ensures
        match r {
            Ok(certs) => certs@.len() > 0 && certificates_in(pem@) == Some(der_of(certs@)),
            Err(ConfigError::NoCertificates) => certificates_in(pem@) == Some(
                Seq::<Seq<u8>>::empty(),
            ),
            Err(ConfigError::MalformedCertificates(_)) => certificates_in(pem@) is None,
            Err(_) => false,
        },
{
    let found = pem_certs(pem);
    proof {
        if found is Ok && found->Ok_0@.len() == 0 {
            assert(der_of(found->Ok_0@) =~= Seq::empty());
        }
    }
    some_certificates(found)
}

/// What becomes of the certificates that were `found`, of which there must be one.
pub fn some_certificates(found: Result<Vec<Vec<u8>>, std::io::Error>) -> (r: Result<
    Vec<Vec<u8>>,
    ConfigError,
>)
    ensures
        match found {
            Ok(certs) => r == (if certs@.len() == 0 {
                Err::<Vec<Vec<u8>>, ConfigError>(ConfigError::NoCertificates)
            } else {
                Ok(certs)
            }),
            Err(e) => r == Err::<Vec<Vec<u8>>, ConfigError>(ConfigError::MalformedCertificates(e)),
        },
{
    match found {
        Ok(certs) => {
            if certs.len() == 0 {
                Err(ConfigError::NoCertificates)
            } else {
                Ok(certs)
            }
        },
        Err(e) => Err(ConfigError::MalformedCertificates(e)),
    }
}

/// The first private key of a PEM file; an error if it is malformed or holds none.
pub fn read_private_key(pem: &[u8]) -> (r: Result<PrivateKey, ConfigError>)
    ensures
        match r {
            Ok(key) => private_key_in(pem@) == Some(Some((key.format, key.der@))),
            Err(ConfigError::NoKey) => private_key_in(pem@) == Some(None::<(KeyFormat, Seq<u8>)>),
            Err(ConfigError::MalformedKey(_)) => private_key_in(pem@) is None,
            Err(_) => false,
        },
{
    some_key(pem_private_key(pem))
}

/// What becomes of the private key that was `found`, if there was one.
pub fn some_key(found: Result<Option<PrivateKey>, std::io::Error>) -> (r: Result<
    PrivateKey,
    ConfigError,
>)
    ensures
        match found {
            Ok(Some(key)) => r == Ok::<PrivateKey, ConfigError>(key),
            Ok(None) => r == Err::<PrivateKey, ConfigError>(ConfigError::NoKey),
            Err(e) => r == Err::<PrivateKey, ConfigError>(ConfigError::MalformedKey(e)),
        },
{
    match found {
        Ok(Some(key)) => Ok(key),
        Ok(None) => Err(ConfigError::NoKey),
        Err(e) => Err(ConfigError::MalformedKey(e)),
    }
}

/// `r` is what an attempt to build a configuration with secret extraction from these
/// very certificates and this key can come to.
pub closed spec fn is_outcome_for(
    certs: Vec<Vec<u8>>,
    key: PrivateKey,
    r: Result<rustls::ServerConfig, ConfigError>,
) -> bool {
    match r {
        Ok(config) => call_ensures(single_cert_config, (certs, key, true), Ok(config)),
        Err(ConfigError::Rejected(e)) => call_ensures(
            single_cert_config,
            (certs, key, true),
            Err(e),
        ),
        Err(_) => false,
    }
}

/// `r` is what an attempt to build a configuration from `chain` and the key `der` can
/// come to.
pub open spec fn is_outcome_of(
    chain: Seq<Seq<u8>>,
    format: KeyFormat,
    der: Seq<u8>,
    r: Result<rustls::ServerConfig, ConfigError>,
) -> bool {
    exists|certs: Vec<Vec<u8>>, key: PrivateKey|
        #![trigger is_outcome_for(certs, key, r)]
        der_of(certs@) == chain && key.format == format && key.der@ == der && is_outcome_for(
            certs,
            key,
            r,
        )
}

/// Build a `ServerConfig` from certificates and their key.
///
/// It lets the secrets of a session be extracted after the handshake, which handing
/// the session to the kernel needs.
///
/// Which certificates and keys are accepted rests on the cryptography provider of the
/// process, and is not stated. [`accepted`] says what follows from either outcome.
pub fn server_config(certs: Vec<Vec<u8>>, key: PrivateKey) -> (r: Result<
    rustls::ServerConfig,
    ConfigError,
>)
    ensures
        is_outcome_for(certs, key, r),
        match r {
            Ok(config) => suits_kernel_tls(config, der_of(certs@), key.format, key.der@),
            Err(e) => e is Rejected,
        },
{
    let build = single_cert_config;
    let result = build(certs, key, true);
    assert(call_ensures(single_cert_config, (certs, key, true), result));
    accepted(result)
}

/// What becomes of a configuration that `rustls` accepted or rejected.
pub fn accepted(result: Result<rustls::ServerConfig, rustls::Error>) -> (r: Result<
    rustls::ServerConfig,
    ConfigError,
>)
    ensures
        match result {
            Ok(config) => r == Ok::<rustls::ServerConfig, ConfigError>(config),
            Err(e) => r == Err::<rustls::ServerConfig, ConfigError>(ConfigError::Rejected(e)),
        },
{
    match result {
        Ok(config) => Ok(config),
        Err(e) => Err(ConfigError::Rejected(e)),
    }
}

/// A byte that ends a line of a PEM file.
pub open spec fn ends_line(b: u8) -> bool {
    b == 10 || b == 13
}

/// `s` without an unfinished line at its end.
pub open spec fn whole_lines(s: Seq<u8>) -> Seq<u8>
    decreases s.len(),
{
    if s.len() == 0 || ends_line(s.last()) {
        s
    } else {
        whole_lines(s.drop_last())
    }
}

/// Cuts an unfinished line off the end of `s`.
fn cut_unfinished_line(s: &[u8]) -> (r: &[u8])
    ensures
        r@ == whole_lines(s@),
{
    let mut n: usize = s.len();
    assert(s@.take(n as int) =~= s@);
    while n > 0 && s[n - 1] != 10 && s[n - 1] != 13
        invariant
            n <= s@.len(),
            whole_lines(s@.take(n as int)) == whole_lines(s@),
        decreases n,
    {
        assert(s@.take(n as int).drop_last() =~= s@.take(n - 1));
        n -= 1;
    }
    let r = &s[0..n];
    assert(r@ =~= s@.take(n as int));
    r
}

/// The certificates of a file; an error if it could not be had, is malformed or holds
/// none.
///
/// A file that cannot be read to its end gives the read error, unless what was read is
/// malformed: which error comes then is not stated.
pub fn load_certificates(file: Result<Vec<u8>, FileError>) -> (r: Result<
    Vec<Vec<u8>>,
    ConfigError,
>)
    ensures
        match file {
            Err(FileError::Open(e)) => r == Err::<Vec<Vec<u8>>, ConfigError>(
                ConfigError::Unreadable(e),
            ),
            Err(FileError::Read { before, error }) => {
                &&& r matches Err(ConfigError::MalformedCertificates(_))
                &&& certificates_in(whole_lines(before@)) is Some ==> r == Err::<
                    Vec<Vec<u8>>,
                    ConfigError,
                >(ConfigError::MalformedCertificates(error))
            },
            Ok(pem) => match certificates_in(pem@) {
                None => r matches Err(ConfigError::MalformedCertificates(_)),
                Some(chain) => if chain.len() == 0 {
                    r matches Err(ConfigError::NoCertificates)
                } else {
                    r matches Ok(certs) && der_of(certs@) == chain
                },
            },
        },
{
    match file {
        Ok(pem) => read_certificates(pem.as_slice()),
        Err(FileError::Open(e)) => Err(ConfigError::Unreadable(e)),
        Err(FileError::Read { error, .. }) => Err(ConfigError::MalformedCertificates(error)),
    }
}

/// This is what becomes of the certificates `chain` and of the key file that was read.
/// What follows the first key does not matter, even if it cannot be read.
pub open spec fn configures(
    chain: Seq<Seq<u8>>,
    key_file: Result<Vec<u8>, FileError>,
    r: Result<rustls::ServerConfig, ConfigError>,
) -> bool {
    match key_file {
        Err(FileError::Open(e)) => r == Err::<rustls::ServerConfig, ConfigError>(
            ConfigError::Unreadable(e),
        ),
        Err(FileError::Read { before, error }) => match private_key_in(whole_lines(before@)) {
            None => r matches Err(ConfigError::MalformedKey(_)),
            Some(None) => r == Err::<rustls::ServerConfig, ConfigError>(
                ConfigError::MalformedKey(error),
            ),
            Some(Some((format, der))) => {
                &&& is_outcome_of(chain, format, der, r)
                &&& match r {
                    Ok(config) => suits_kernel_tls(config, chain, format, der),
                    Err(e) => e is Rejected,
                }
            },
        },
        Ok(pem) => match private_key_in(pem@) {
            None => r matches Err(ConfigError::MalformedKey(_)),
            Some(None) => r matches Err(ConfigError::NoKey),
            Some(Some((format, der))) => {
                &&& is_outcome_of(chain, format, der, r)
                &&& match r {
                    Ok(config) => suits_kernel_tls(config, chain, format, der),
                    Err(e) => e is Rejected,
                }
            },
        },
    }
}

/// Build a `ServerConfig` from certificates and the file of their key.
///
/// Whether `rustls` accepts them is not stated, as for [`server_config`]; nor is which
/// error comes when reading fails after a malformed section, or inside one.
pub fn configure(certs: Vec<Vec<u8>>, key_file: Result<Vec<u8>, FileError>) -> (r: Result<
    rustls::ServerConfig,
    ConfigError,
>)
    ensures
        configures(der_of(certs@), key_file, r),
{
    match key_file {
        Ok(pem) => match read_private_key(pem.as_slice()) {
            Ok(key) => server_config(certs, key),
            Err(e) => Err(e),
        },
        Err(FileError::Open(e)) => Err(ConfigError::Unreadable(e)),
        Err(FileError::Read { before, error }) => {
            match read_private_key(cut_unfinished_line(before.as_slice())) {
                Ok(key) => server_config(certs, key),
                Err(_) => Err(ConfigError::MalformedKey(error)),
            }
        },
    }
}

/// Build a `ServerConfig` from PEM certificate and key files. The key file is asked for
/// only when the certificates are sound.
///
/// Whether `rustls` accepts them is not stated, as for [`server_config`].
pub fn load_server_config<K: FnOnce() -> Result<Vec<u8>, FileError>>(
    cert_file: Result<Vec<u8>, FileError>,
    key_file: K,
) -> (r: Result<rustls::ServerConfig, ConfigError>)
    requires
        key_file.requires(()),
    ensures
        match cert_file {
            Err(FileError::Open(e)) => r == Err::<rustls::ServerConfig, ConfigError>(
                ConfigError::Unreadable(e),
            ),
            Err(FileError::Read { before, error }) => {
                &&& r matches Err(ConfigError::MalformedCertificates(_))
                &&& certificates_in(whole_lines(before@)) is Some ==> r == Err::<
                    rustls::ServerConfig,
                    ConfigError,
                >(ConfigError::MalformedCertificates(error))
            },
            Ok(pem) => match certificates_in(pem@) {
                None => r matches Err(ConfigError::MalformedCertificates(_)),
                Some(chain) => if chain.len() == 0 {
                    r matches Err(ConfigError::NoCertificates)
                } else {
                    exists|key: Result<Vec<u8>, FileError>|
                        #![trigger key_file.ensures((), key)]
                        key_file.ensures((), key) && configures(chain, key, r)
                },
            },
        },
{
    match load_certificates(cert_file) {
        Ok(certs) => configure(certs, key_file()),
        Err(e) => Err(e),
    }
}

/// Every crypto info has the size that the kernel expects of its cipher.
pub proof fn law_crypto_info_size(
    secrets: TrafficSecrets,
    seq: u64,
    version: u16,
    little_endian: bool,
)
    requires
        secrets.wf(),
    ensures
        crypto_info_spec(secrets, seq, version, little_endian) matches Ok(info) ==> info.len() == (
        match secrets {
            TrafficSecrets::Aes128Gcm { .. } => 40nat,
            _ => 56nat,
        }),
{
    lemma_be_bytes(seq as nat, 8);
}

/// The sequence number is recovered from its eight bytes.
pub proof fn law_sequence_round_trip(seq: u64)
    ensures
        be_bytes(seq as nat, 8).len() == 8,
        be_value(be_bytes(seq as nat, 8)) == seq,
{
    lemma_be_bytes(seq as nat, 8);
    reveal_with_fuel(byte_range, 9);
    lemma_be_value(seq as nat, 8);
}

/// What becomes of certificates and a key is what `rustls` makes of these very
/// certificates and this key, asked for a configuration with secret extraction: its
/// configuration, or its error, and nothing else.
pub(crate) proof fn law_configuration_is_what_rustls_makes(
    certs: Vec<Vec<u8>>,
    key: PrivateKey,
    r: Result<rustls::ServerConfig, ConfigError>,
)
    ensures
        is_outcome_for(certs, key, r) <==> match r {
            Ok(config) => call_ensures(single_cert_config, (certs, key, true), Ok(config)),
            Err(e) => e is Rejected && call_ensures(
                single_cert_config,
                (certs, key, true),
                Err(e->Rejected_0),
            ),
        },
{
}

/// Sound files always come to what `rustls` makes of the certificates and the key in
/// them, however many certificates there are: no other error comes. Without a key, or
/// with a malformed one, no configuration comes.
pub(crate) proof fn law_sound_files_come_to_rustls(
    chain: Seq<Seq<u8>>,
    pem: Vec<u8>,
    r: Result<rustls::ServerConfig, ConfigError>,
)
    requires
        configures(chain, Ok(pem), r),
    ensures
        match private_key_in(pem@) {
            Some(Some((format, der))) => exists|
                certs: Vec<Vec<u8>>,
                key: PrivateKey,
                result: Result<rustls::ServerConfig, rustls::Error>,
            |
                {
                    &&& #[trigger] call_ensures(single_cert_config, (certs, key, true), result)
                    &&& certs@.len() == chain.len()
                    &&& forall|i: int|
                        0 <= i < chain.len() ==> (#[trigger] certs@[i])@ == chain[i]
                    &&& key.format == format
                    &&& key.der@ == der
                    &&& match result {
                        Ok(config) => r == Ok::<rustls::ServerConfig, ConfigError>(config),
                        Err(e) => r == Err::<rustls::ServerConfig, ConfigError>(
                            ConfigError::Rejected(e),
                        ),
                    }
                },
            Some(None) => r matches Err(e) && e is NoKey,
            None => r matches Err(e) && e is MalformedKey,
        },
{
    if let Some(Some((format, der))) = private_key_in(pem@) {
        let (certs, key) = choose|certs: Vec<Vec<u8>>, key: PrivateKey|
            #![trigger is_outcome_for(certs, key, r)]
            der_of(certs@) == chain && key.format == format && key.der@ == der && is_outcome_for(
                certs,
                key,
                r,
            );
        assert(is_outcome_for(certs, key, r));
        let result: Result<rustls::ServerConfig, rustls::Error> = match r {
            Ok(config) => Ok(config),
            Err(e) => Err(e->Rejected_0),
        };
        assert(call_ensures(single_cert_config, (certs, key, true), result));
        assert forall|i: int| 0 <= i < chain.len() implies (#[trigger] certs@[i])@ == chain[i] by {
            assert(der_of(certs@)[i] == certs@[i]@);
        }
    }
}

/// A configuration that comes from files presents their certificates, signs with their
/// key, lets secrets be extracted and asks for no client certificate.
pub proof fn law_configuration_holds_what_was_read(
    chain: Seq<Seq<u8>>,
    key_file: Result<Vec<u8>, FileError>,
    config: rustls::ServerConfig,
)
    requires
        configures(chain, key_file, Ok(config)),
    ensures
        extracts_secrets(config),
        !asks_for_client_certificate(config),
        key_file matches Ok(pem) ==> private_key_in(pem@) matches Some(Some((format, der)))
            && presents(config, chain, format, der),
{
}

/// Cutting off an unfinished line leaves a start of the bytes that ends a line, and
/// takes off nothing that holds the end of one.
pub proof fn law_whole_lines(s: Seq<u8>)
    ensures
        whole_lines(s).len() <= s.len(),
        whole_lines(s) == s.take(whole_lines(s).len() as int),
        whole_lines(s).len() > 0 ==> whole_lines(s).last() == 10 || whole_lines(s).last() == 13,
        forall|i: int| whole_lines(s).len() <= i < s.len() ==> s[i] != 10 && s[i] != 13,
    decreases s.len(),
{
    if s.len() == 0 || ends_line(s.last()) {
        assert(whole_lines(s) =~= s.take(whole_lines(s).len() as int));
    } else {
        law_whole_lines(s.drop_last());
        let n = whole_lines(s).len() as int;
        assert(s.drop_last().take(n) =~= s.take(n));
        assert forall|i: int| n <= i < s.len() implies s[i] != 10 && s[i] != 13 by {
            if i < s.len() - 1 {
                assert(s.drop_last()[i] == s[i]);
            }
        }
    }
}

/// The eight bytes of a sequence number, read as digits to the base 256, are the number.
proof fn lemma_be_digits(n: u64)
    ensures
        be_bytes(n as nat, 8).len() == 8,
        ({
            let b = be_bytes(n as nat, 8);
            n == b[7] + 256 * (b[6] + 256 * (b[5] + 256 * (b[4] + 256 * (b[3] + 256 * (b[2] + 256 * (
            b[1] + 256 * b[0]))))))
        }),
{
    lemma_be_bytes(n as nat, 8);
    reveal_with_fuel(be_bytes, 9);
}

/// The crypto info of a session is laid out as the kernel reads it: version and cipher
/// in the machine's byte order, then initialisation vector, key and salt byte for byte,
/// then the sequence number with its most significant byte first.
pub proof fn law_crypto_info_layout(
    secrets: TrafficSecrets,
    seq: u64,
    version: u16,
    little_endian: bool,
    info: Seq<u8>,
)
    requires
        secrets.wf(),
        crypto_info_spec(secrets, seq, version, little_endian) == Ok::<Seq<u8>, KtlsError>(info),
    ensures
        little_endian ==> version == info[0] + 256 * info[1],
        !little_endian ==> version == 256 * info[0] + info[1],
        (if little_endian {
            info[2] + 256 * info[3]
        } else {
            256 * info[2] + info[3]
        }) == (match secrets {
            TrafficSecrets::Aes128Gcm { .. } => 51int,
            TrafficSecrets::Aes256Gcm { .. } => 52int,
            TrafficSecrets::Chacha20Poly1305 { .. } => 54int,
            TrafficSecrets::Other => 0int,
        }),
        match secrets {
            TrafficSecrets::Aes128Gcm { key, iv } => {
                &&& info.len() == 40
                &&& info.subrange(4, 12) == iv@.subrange(4, 12)
                &&& info.subrange(12, 28) == key@
                &&& info.subrange(28, 32) == iv@.subrange(0, 4)
            },
            TrafficSecrets::Aes256Gcm { key, iv } => {
                &&& info.len() == 56
                &&& info.subrange(4, 12) == iv@.subrange(4, 12)
                &&& info.subrange(12, 44) == key@
                &&& info.subrange(44, 48) == iv@.subrange(0, 4)
            },
            TrafficSecrets::Chacha20Poly1305 { key, iv } => {
                &&& info.len() == 56
                &&& info.subrange(4, 16) == iv@
                &&& info.subrange(16, 48) == key@
            },
            TrafficSecrets::Other => false,
        },
        ({
            let n = info.len() as int;
            seq == info[n - 1] + 256 * (info[n - 2] + 256 * (info[n - 3] + 256 * (info[n - 4] + 256 * (
            info[n - 5] + 256 * (info[n - 6] + 256 * (info[n - 7] + 256 * info[n - 8]))))))
        }),
{
    lemma_be_digits(seq);
    match secrets {
        TrafficSecrets::Aes128Gcm { key, iv } => {
            assert(info.subrange(4, 12) =~= iv@.subrange(4, 12));
            assert(info.subrange(12, 28) =~= key@);
            assert(info.subrange(28, 32) =~= iv@.subrange(0, 4));
            assert(info.subrange(32, 40) =~= be_bytes(seq as nat, 8));
            assert forall|k: int| 0 <= k < 8 implies info[32 + k] == #[trigger] be_bytes(
                seq as nat,
                8,
            )[k] by {
                assert(info.subrange(32, 40)[k] == info[32 + k]);
            }
        },
        TrafficSecrets::Aes256Gcm { key, iv } => {
            assert(info.subrange(4, 12) =~= iv@.subrange(4, 12));
            assert(info.subrange(12, 44) =~= key@);
            assert(info.subrange(44, 48) =~= iv@.subrange(0, 4));
            assert(info.subrange(48, 56) =~= be_bytes(seq as nat, 8));
            assert forall|k: int| 0 <= k < 8 implies info[48 + k] == #[trigger] be_bytes(
                seq as nat,
                8,
            )[k] by {
                assert(info.subrange(48, 56)[k] == info[48 + k]);
            }
        },
        TrafficSecrets::Chacha20Poly1305 { key, iv } => {
            assert(info.subrange(4, 16) =~= iv@);
            assert(info.subrange(16, 48) =~= key@);
            assert(info.subrange(48, 56) =~= be_bytes(seq as nat, 8));
            assert forall|k: int| 0 <= k < 8 implies info[48 + k] == #[trigger] be_bytes(
                seq as nat,
                8,
            )[k] by {
                assert(info.subrange(48, 56)[k] == info[48 + k]);
            }
        },
        TrafficSecrets::Other => {},
    }
}

/// There is a crypto info exactly for the secrets whose cipher the kernel knows and
/// whose lengths are those of the cipher, whatever the sequence number and the version
/// are; for any others the error says what is wrong.
pub proof fn law_crypto_info_is_had(
    secrets: TrafficSecrets,
    seq: u64,
    version: u16,
    little_endian: bool,
)
    ensures
        ({
            let r = crypto_info_spec(secrets, seq, version, little_endian);
            match secrets {
                TrafficSecrets::Aes128Gcm { key, .. } => {
                    &&& r is Ok <==> key@.len() == 16
                    &&& r is Err ==> r->Err_0 == KtlsError::Aes128KeyLength
                },
                TrafficSecrets::Aes256Gcm { key, .. } => {
                    &&& r is Ok <==> key@.len() == 32
                    &&& r is Err ==> r->Err_0 == KtlsError::Aes256KeyLength
                },
                TrafficSecrets::Chacha20Poly1305 { key, iv } => {
                    &&& r is Ok <==> key@.len() == 32 && iv@.len() == 12
                    &&& iv@.len() != 12 ==> r == Err::<Seq<u8>, KtlsError>(
                        KtlsError::Chacha20IvLength,
                    )
                    &&& iv@.len() == 12 && key@.len() != 32 ==> r == Err::<Seq<u8>, KtlsError>(
                        KtlsError::Chacha20KeyLength,
                    )
                },
                TrafficSecrets::Other => r == Err::<Seq<u8>, KtlsError>(
                    KtlsError::UnsupportedCipher,
                ),
            }
        }),
{
}

/// A session is handed over completely or fails: one of TLS 1.2 or TLS 1.3 whose two
/// directions the kernel can take sets `tls` as the upper layer and then the crypto info
/// of each direction, sending first, with the wire value of its version in both; any
/// other one fails, and fails before anything is set if its version is another.
pub proof fn law_hand_over_is_complete(
    setup: KtlsSetup,
    version: TlsVersion,
    secrets: SessionSecrets,
    little_endian: bool,
)
    requires
        setup.hands_over(version, secrets, little_endian),
    ensures
        version == TlsVersion::Other ==> setup.options@.len() == 0 && setup.failure == Some(
            KtlsError::UnsupportedVersion,
        ),
        version != TlsVersion::Other ==> {
            let wire = if version == TlsVersion::Tls12 {
                0x0303u16
            } else {
                0x0304u16
            };
            let tx = crypto_info_spec(secrets.tx.1, secrets.tx.0, wire, little_endian);
            let rx = crypto_info_spec(secrets.rx.1, secrets.rx.0, wire, little_endian);
            let options = setup.options@;
            &&& setup.failure is None <==> tx is Ok && rx is Ok
            &&& options.len() == 1 + (if tx is Ok {
                1int
            } else {
                0
            }) + (if tx is Ok && rx is Ok {
                1int
            } else {
                0
            })
            &&& options[0].level == OptionLevel::Tcp && options[0].name == 31
            &&& options[0].value@ == seq!['t' as u8, 'l' as u8, 's' as u8]
            &&& tx is Ok ==> options[1].level == OptionLevel::Tls && options[1].name == 1
                && options[1].value@ == tx->Ok_0
            &&& tx is Ok && rx is Ok ==> options[2].level == OptionLevel::Tls && options[2].name == 2
                && options[2].value@ == rx->Ok_0
            &&& tx is Err ==> setup.failure == Some(tx->Err_0)
            &&& tx is Ok && rx is Err ==> setup.failure == Some(rx->Err_0)
        },
{
    reveal_strlit("tls");
    is_ascii_chars_encode_utf8("tls"@);
    assert(text("tls") =~= seq!['t' as u8, 'l' as u8, 's' as u8]);
}

/// [`crypto_info`] and [`setup_ktls`] return what the laws on their layout speak of.
pub proof fn law_setup_returns_the_hand_over(
    secrets: &TrafficSecrets,
    seq: u64,
    wire: u16,
    version: TlsVersion,
    session: &SessionSecrets,
    little_endian: bool,
    info: Result<Vec<u8>, KtlsError>,
    setup: KtlsSetup,
)
    requires
        call_ensures(crypto_info, (secrets, seq, wire, little_endian), info),
        call_ensures(setup_ktls, (version, session, little_endian), setup),
    ensures
        info is Ok <==> crypto_info_spec(*secrets, seq, wire, little_endian) is Ok,
        info is Ok ==> crypto_info_spec(*secrets, seq, wire, little_endian)->Ok_0 == info->Ok_0@,
        info is Err ==> crypto_info_spec(*secrets, seq, wire, little_endian)->Err_0 == info->Err_0,
        setup.hands_over(version, *session, little_endian),
{
}

/// The certificates that are read are all those of the file, in their order, however
/// many there are; only a file without any, or a malformed one, is an error.
pub proof fn law_all_certificates_are_read(pem: &[u8], r: Result<Vec<Vec<u8>>, ConfigError>)
    requires
        call_ensures(read_certificates, (pem,), r),
    ensures
        match certificates_in(pem@) {
            Some(chain) => if chain.len() > 0 {
                &&& r is Ok
                &&& r->Ok_0@.len() == chain.len()
                &&& forall|i: int| 0 <= i < chain.len() ==> (#[trigger] r->Ok_0@[i])@ == chain[i]
            } else {
                r is Err && r->Err_0 is NoCertificates
            },
            None => r is Err && r->Err_0 is MalformedCertificates,
        },
{
    if let Ok(certs) = r {
        assert forall|i: int| 0 <= i < certs@.len() implies (#[trigger] certs@[i])@
            == certificates_in(pem@)->0[i] by {
            assert(der_of(certs@)[i] == certs@[i]@);
        }
    }
}

/// The same holds of a certificate file that was opened and read; one that was not gives
/// its error.
pub proof fn law_all_certificates_are_loaded(
    file: Result<Vec<u8>, FileError>,
    r: Result<Vec<Vec<u8>>, ConfigError>,
)
    requires
        call_ensures(load_certificates, (file,), r),
    ensures
        match file {
            Ok(pem) => match certificates_in(pem@) {
                Some(chain) => if chain.len() > 0 {
                    &&& r is Ok
                    &&& r->Ok_0@.len() == chain.len()
                    &&& forall|i: int| 0 <= i < chain.len() ==> (#[trigger] r->Ok_0@[i])@ == chain[i]
                } else {
                    r is Err && r->Err_0 is NoCertificates
                },
                None => r is Err && r->Err_0 is MalformedCertificates,
            },
            Err(FileError::Open(e)) => r == Err::<Vec<Vec<u8>>, ConfigError>(
                ConfigError::Unreadable(e),
            ),
            Err(FileError::Read { .. }) => r is Err && r->Err_0 is MalformedCertificates,
        },
{
    if let (Ok(pem), Ok(certs)) = (file, r) {
        assert forall|i: int| 0 <= i < certs@.len() implies (#[trigger] certs@[i])@
            == certificates_in(pem@)->0[i] by {
            assert(der_of(certs@)[i] == certs@[i]@);
        }
    }
}

/// The private key that is read is the first one of the file, in its format, byte for
/// byte.
pub proof fn law_first_key_is_read(pem: &[u8], r: Result<PrivateKey, ConfigError>)
    requires
        call_ensures(read_private_key, (pem,), r),
    ensures
        match private_key_in(pem@) {
            Some(Some((format, der))) => r is Ok && r->Ok_0.format == format && r->Ok_0.der@ == der,
            Some(None) => r is Err && r->Err_0 is NoKey,
            None => r is Err && r->Err_0 is MalformedKey,
        },
{
}

/// [`server_config`] returns what `rustls` makes of its arguments; a configuration
/// presents these certificates, signs with this key, lets secrets be extracted and asks
/// for no client certificate.
pub(crate) proof fn law_server_config_returns_what_rustls_makes(
    certs: Vec<Vec<u8>>,
    key: PrivateKey,
    r: Result<rustls::ServerConfig, ConfigError>,
)
    requires
        call_ensures(server_config, (certs, key), r),
    ensures
        match r {
            Ok(config) => {
                &&& call_ensures(single_cert_config, (certs, key, true), Ok(config))
                &&& presents(config, der_of(certs@), key.format, key.der@)
                &&& extracts_secrets(config)
                &&& !asks_for_client_certificate(config)
            },
            Err(e) => e is Rejected && call_ensures(
                single_cert_config,
                (certs, key, true),
                Err(e->Rejected_0),
            ),
        },
{
}

/// A key file that could not be opened gives its error; one that could not be read to
/// its end does so unless a key comes before.
pub proof fn law_unreadable_key_file(
    certs: Vec<Vec<u8>>,
    key_file: Result<Vec<u8>, FileError>,
    r: Result<rustls::ServerConfig, ConfigError>,
)
    requires
        call_ensures(configure, (certs, key_file), r),
    ensures
        configures(der_of(certs@), key_file, r),
        key_file matches Err(FileError::Open(e)) ==> r == Err::<rustls::ServerConfig, ConfigError>(
            ConfigError::Unreadable(e),
        ),
        key_file matches Err(FileError::Read { before, error }) ==> (private_key_in(
            whole_lines(before@),
        ) == Some(None::<(KeyFormat, Seq<u8>)>) ==> r == Err::<rustls::ServerConfig, ConfigError>(
            ConfigError::MalformedKey(error),
        )),
{
}

/// Files that hold certificates come to what becomes of these certificates, all of them,
/// and of the key file; files that hold none never do.
pub proof fn law_loaded_files_are_configured<K: FnOnce() -> Result<Vec<u8>, FileError>>(
    cert_file: Result<Vec<u8>, FileError>,
    key_file: K,
    r: Result<rustls::ServerConfig, ConfigError>,
)
    requires
        call_ensures(load_server_config::<K>, (cert_file, key_file), r),
    ensures
        match cert_file {
            Ok(pem) => match certificates_in(pem@) {
                Some(chain) => if chain.len() > 0 {
                    exists|key: Result<Vec<u8>, FileError>|
                        #![trigger key_file.ensures((), key)]
                        key_file.ensures((), key) && configures(chain, key, r)
                } else {
                    r is Err && r->Err_0 is NoCertificates
                },
                None => r is Err && r->Err_0 is MalformedCertificates,
            },
            Err(FileError::Open(e)) => r == Err::<rustls::ServerConfig, ConfigError>(
                ConfigError::Unreadable(e),
            ),
            Err(FileError::Read { .. }) => r is Err && r->Err_0 is MalformedCertificates,
        },
{
}

} // verus!
