use vstd::prelude::*;
use vstd::string::StringExecFns;

verus! {

/// Why a transport configuration is refused before any connection attempt.
#[derive(Clone, Copy, Debug, PartialEq, Eq, Structural)]
pub enum ConfigError {
    /// Transport security was switched off and certificate material given too.
    InsecureWithCertificates,
    /// A client that uses TLS has no CA certificate to check the server with.
    MissingCaCert,
    /// A certificate was given without its key, or a key without its certificate.
    IncompleteIdentity,
    /// A server that uses TLS has no certificate and key to present.
    MissingIdentity,
}

/// How a client secures its connection; PEM texts are carried as given.
pub enum ClientSecurity {
    /// No TLS.
    Insecure,
    /// TLS; the server's certificate is checked against `ca_cert`.
    ServerAuth { ca_cert: String },
    /// As `ServerAuth`, and the client presents `cert` with `key`.
    Mutual { ca_cert: String, cert: String, key: String },
}

/// How a server secures its connections; PEM texts are carried as given.
pub enum ServerSecurity {
    /// No TLS.
    Insecure,
    /// TLS with the server presenting `cert` with `key`.
    Tls { cert: String, key: String },
    /// As `Tls`, and every client must present a certificate that `client_ca` signed.
    MutualTls { cert: String, key: String, client_ca: String },
}

/// The client's security mode for a configuration, or why it is refused.
pub open spec fn client_mode(
    insecure: bool,
    ca_cert: bool,
    cert: bool,
    key: bool,
) -> Result<int, ConfigError> {
    if insecure && (ca_cert || cert || key) {
        Err(ConfigError::InsecureWithCertificates)
    } else if insecure {
        Ok(0)
    } else if !ca_cert {
        Err(ConfigError::MissingCaCert)
    } else if cert != key {
        Err(ConfigError::IncompleteIdentity)
    } else if cert {
        Ok(2)
    } else {
        Ok(1)
    }
}

/// The server's security mode for a configuration, or why it is refused.
pub open spec fn server_mode(insecure: bool, cert: bool, key: bool, ca_cert: bool) -> Result<
    int,
    ConfigError,
> {
    if insecure && (ca_cert || cert || key) {
        Err(ConfigError::InsecureWithCertificates)
    } else if insecure {
        Ok(0)
    } else if !cert || !key {
        Err(ConfigError::MissingIdentity)
    } else if ca_cert {
        Ok(2)
    } else {
        Ok(1)
    }
}

impl ClientSecurity {
    /// 0 for no TLS, 1 for server authentication, 2 for mutual authentication.
    pub open spec fn level(&self) -> int {
        match self {
            ClientSecurity::Insecure => 0,
            ClientSecurity::ServerAuth { .. } => 1,
            ClientSecurity::Mutual { .. } => 2,
        }
    }

    /// Whether the connection uses TLS.
    pub fn uses_tls(&self) -> (r: bool)
        ensures
            r == (self.level() != 0),
    {
        !matches!(self, ClientSecurity::Insecure)
    }
}

impl ServerSecurity {
    /// 0 for no TLS, 1 for TLS, 2 for TLS that requires a client certificate.
    pub open spec fn level(&self) -> int {
        match self {
            ServerSecurity::Insecure => 0,
            ServerSecurity::Tls { .. } => 1,
            ServerSecurity::MutualTls { .. } => 2,
        }
    }

    /// Whether a client must present a certificate before any call.
    pub fn requires_client_identity(&self) -> (r: bool)
        ensures
            r == (self.level() == 2),
    {
        matches!(self, ServerSecurity::MutualTls { .. })
    }
}

/// Chooses the client's security mode: exactly one of `insecure` and a CA
/// certificate; a certificate and key, given together, add a client identity.
pub fn client_security(
    insecure: bool,
    ca_cert: Option<String>,
    cert: Option<String>,
    key: Option<String>,
) -> (r: Result<ClientSecurity, ConfigError>)
    ensures
        match client_mode(insecure, ca_cert is Some, cert is Some, key is Some) {
            Err(e) => r == Err::<ClientSecurity, _>(e),
            Ok(level) => r matches Ok(s) && s.level() == level && match s {
                ClientSecurity::Insecure => true,
                ClientSecurity::ServerAuth { ca_cert: c } => ca_cert == Some(c),
                ClientSecurity::Mutual { ca_cert: c, cert: i, key: k } => {
                    &&& ca_cert == Some(c)
                    &&& cert == Some(i)
                    &&& key == Some(k)
                },
            },
        },
{
    if insecure {
        if ca_cert.is_some() || cert.is_some() || key.is_some() {
            return Err(ConfigError::InsecureWithCertificates);
        }
        return Ok(ClientSecurity::Insecure);
    }
    match ca_cert {
        None => Err(ConfigError::MissingCaCert),
        Some(ca) => match (cert, key) {
            (Some(c), Some(k)) => Ok(ClientSecurity::Mutual { ca_cert: ca, cert: c, key: k }),
            (None, None) => Ok(ClientSecurity::ServerAuth { ca_cert: ca }),
            _ => Err(ConfigError::IncompleteIdentity),
        },
    }
}

/// Chooses the server's security mode: exactly one of `insecure` and a
/// certificate with its key; a CA certificate makes client identities required.
pub fn server_security(
    insecure: bool,
    cert: Option<String>,
    key: Option<String>,
    ca_cert: Option<String>,
) -> (r: Result<ServerSecurity, ConfigError>)
    ensures
        match server_mode(insecure, cert is Some, key is Some, ca_cert is Some) {
            Err(e) => r == Err::<ServerSecurity, _>(e),
            Ok(level) => r matches Ok(s) && s.level() == level && match s {
                ServerSecurity::Insecure => true,
                ServerSecurity::Tls { cert: i, key: k } => cert == Some(i) && key == Some(k),
                ServerSecurity::MutualTls { cert: i, key: k, client_ca: c } => {
                    &&& cert == Some(i)
                    &&& key == Some(k)
                    &&& ca_cert == Some(c)
                },
            },
        },
{
    if insecure {
        if ca_cert.is_some() || cert.is_some() || key.is_some() {
            return Err(ConfigError::InsecureWithCertificates);
        }
        return Ok(ServerSecurity::Insecure);
    }
    match (cert, key) {
        (Some(c), Some(k)) => match ca_cert {
            Some(ca) => Ok(ServerSecurity::MutualTls { cert: c, key: k, client_ca: ca }),
            None => Ok(ServerSecurity::Tls { cert: c, key: k }),
        },
        _ => Err(ConfigError::MissingIdentity),
    }
}

/// The decimal digit `d`.
pub open spec fn digit_char(d: int) -> char {
    seq!['0', '1', '2', '3', '4', '5', '6', '7', '8', '9'][d]
}

/// `n` written in decimal, without leading zeros.
pub open spec fn decimal(n: nat) -> Seq<char>
    decreases n,
{
    if n < 10 {
        seq![digit_char(n as int)]
    } else {
        decimal(n / 10).push(digit_char((n % 10) as int))
    }
}

/// The host part of a URI. `ip` is what the host reads as when parsed as an
/// IP address: whether it is IPv6, and the address's canonical text. An IPv6
/// address is written in brackets, an IPv4 address as its canonical text, and
/// a host that is no address as given.
pub open spec fn authority_of(host: Seq<char>, ip: Option<(bool, Seq<char>)>) -> Seq<char> {
    match ip {
        Some((true, text)) => seq!['['] + text + seq![']'],
        Some((false, text)) => text,
        None => host,
    }
}

/// The content of a parsed address: whether it is IPv6, and its text.
pub open spec fn ip_view(ip: Option<(bool, String)>) -> Option<(bool, Seq<char>)> {
    match ip {
        Some((v6, text)) => Some((v6, text@)),
        None => None,
    }
}

/// The URI a client connects to.
pub open spec fn uri_of(host: Seq<char>, ip: Option<(bool, Seq<char>)>, port: u16, tls: bool) -> Seq<
    char,
> {
    let scheme = if tls {
        seq!['h', 't', 't', 'p', 's']
    } else {
        seq!['h', 't', 't', 'p']
    };
    scheme + seq![':', '/', '/'] + authority_of(host, ip) + seq![':'] + decimal(port as nat)
}

fn digit_text(d: u16) -> (s: &'static str)
    requires
        d < 10,
    ensures
        s@ == seq![digit_char(d as int)],
{
    proof {
        reveal_strlit("0");
        reveal_strlit("1");
        reveal_strlit("2");
        reveal_strlit("3");
        reveal_strlit("4");
        reveal_strlit("5");
        reveal_strlit("6");
        reveal_strlit("7");
        reveal_strlit("8");
        reveal_strlit("9");
    }
    let s = match d {
        0 => "0",
        1 => "1",
        2 => "2",
        3 => "3",
        4 => "4",
        5 => "5",
        6 => "6",
        7 => "7",
        8 => "8",
        _ => "9",
    };
    assert(s@ =~= seq![digit_char(d as int)]);
    s
}

/// `port` written in decimal.
pub fn port_text(port: u16) -> (r: String)
    ensures
        r@ == decimal(port as nat),
{
    let mut acc = String::from_str(digit_text(port % 10));
    let mut m: u16 = port / 10;
    assert(m == 0 ==> acc@ =~= decimal(port as nat));
    assert(m > 0 ==> decimal(port as nat) =~= decimal(m as nat) + acc@);
    while m > 0
        invariant
            m == 0 ==> decimal(port as nat) == acc@,
            m > 0 ==> decimal(port as nat) == decimal(m as nat) + acc@,
        decreases m,
    {
        let ghost before = acc@;
        acc = String::from_str(digit_text(m % 10)).concat(acc.as_str());
        proof {
            if m >= 10 {
                assert(decimal(m as nat) == decimal((m / 10) as nat).push(digit_char((m % 10) as int)));
                assert(decimal(m as nat) + before =~= decimal((m / 10) as nat) + acc@);
            } else {
                assert(decimal(m as nat) + before =~= acc@);
            }
        }
        m = m / 10;
    }
    acc
}

/// The URI a client connects to: the scheme that `tls` calls for, the host,
/// and the port. `ip` is the host parsed as an IP address, where it is one:
/// whether it is IPv6, and its canonical text.
pub fn create_uri(host: &str, ip: Option<(bool, String)>, port: u16, tls: bool) -> (r: String)
    ensures
        r@ == uri_of(host@, ip_view(ip), port, tls),
{
    proof {
        reveal_strlit("https://");
        reveal_strlit("http://");
        reveal_strlit("[");
        reveal_strlit("]");
        reveal_strlit(":");
    }
    let ghost ipv = ip_view(ip);
    let mut uri = if tls {
        String::from_str("https://")
    } else {
        String::from_str("http://")
    };
    match ip {
        Some((true, text)) => {
            uri.append("[");
            uri.append(text.as_str());
            uri.append("]");
        },
        Some((false, text)) => uri.append(text.as_str()),
        None => uri.append(host),
    }
    uri.append(":");
    let port_digits = port_text(port);
    uri.append(port_digits.as_str());
    assert(uri@ =~= uri_of(host@, ipv, port, tls));
    uri
}

} // verus!
