//! The server that the environment names.

use vstd::prelude::*;

use crate::text::{chars_of, parse_unsigned};

verus! {

/// The file that the environment is read from.
pub const ENV_FILE: &'static str = ".env";

/// The file whose variables take the place of those of [`ENV_FILE`].
pub const ENV_LOCAL_FILE: &'static str = ".env.local";

/// A server, and who logs in to it.
pub struct FtpEnv {
    pub host: String,
    pub port: u16,
    pub user: String,
    pub password: String,
}

/// What an [`FtpEnv`] says.
#[verifier::ext_equal]
pub struct EnvView {
    pub host: Seq<char>,
    pub port: u16,
    pub user: Seq<char>,
    pub password: Seq<char>,
}

impl DeepView for FtpEnv {
    type V = EnvView;

    open spec fn deep_view(&self) -> EnvView {
        EnvView {
            host: self.host@,
            port: self.port,
            user: self.user@,
            password: self.password@,
        }
    }
}

/// The port that a text names: 21 where there is none, or none that a port can have.
pub open spec fn port_of(text: Option<Seq<char>>) -> u16 {
    match text {
        Some(text) => match crate::text::unsigned_value(text, 10, u16::MAX as int) {
            Some(port) => port as u16,
            None => 21,
        },
        None => 21,
    }
}

/// The port that a text names.
pub fn port_or_default(text: &str) -> (r: u16)
    ensures
        r == port_of(Some(text@)),
{
    match parse_unsigned(chars_of(text).as_slice(), 10, u16::MAX as u64) {
        Some(port) => port as u16,
        None => 21,
    }
}

/// Whether `r` is the server that `lookup` names. The host, the user and the password are needed;
/// the port is not.
pub open spec fn names_server<F: FnMut(&str) -> Option<String>>(lookup: F, r: Option<EnvView>) -> bool {
    exists|host: Option<String>|
        {
            &&& #[trigger] call_ensures(lookup, ("FTP_SERVER_URL",), host)
            &&& match host {
                Some(host) => names_login(lookup, host@, r),
                None => r.is_none(),
            }
        }
}

/// Whether `r` is the server `host` with the port, the user and the password that `lookup` names.
pub open spec fn names_login<F: FnMut(&str) -> Option<String>>(
    lookup: F,
    host: Seq<char>,
    r: Option<EnvView>,
) -> bool {
    exists|port: Option<String>, user: Option<String>|
        {
            &&& #[trigger] call_ensures(lookup, ("FTP_PORT",), port)
            &&& #[trigger] call_ensures(lookup, ("FTP_USER",), user)
            &&& match user {
                Some(user) => names_password(lookup, host, port_of(port.deep_view()), user@, r),
                None => r.is_none(),
            }
        }
}

/// Whether `r` is the given server and user with the password that `lookup` names.
pub open spec fn names_password<F: FnMut(&str) -> Option<String>>(
    lookup: F,
    host: Seq<char>,
    port: u16,
    user: Seq<char>,
    r: Option<EnvView>,
) -> bool {
    exists|password: Option<String>|
        {
            &&& #[trigger] call_ensures(lookup, ("FTP_PWD",), password)
            &&& match password {
                Some(password) => r == Some(EnvView { host, port, user, password: password@ }),
                None => r.is_none(),
            }
        }
}

/// The server that `lookup` names.
pub fn ftp_env_from_lookup(mut lookup: impl FnMut(&str) -> Option<String>) -> (r: Option<FtpEnv>)
    requires
        forall|key: &str| #[trigger] call_requires(lookup, (key,)),
    ensures
        names_server(lookup, r.deep_view()),
{
    let host = match lookup("FTP_SERVER_URL") {
        Some(host) => host,
        None => {
            return None;
        },
    };
    let port_text = lookup("FTP_PORT");
    let port = match &port_text {
        Some(text) => port_or_default(text.as_str()),
        None => 21,
    };
    let user = match lookup("FTP_USER") {
        Some(user) => user,
        None => {
            assert(names_login(lookup, host@, None));
            return None;
        },
    };
    let password = lookup("FTP_PWD");
    let r = match password {
        Some(password) => Some(FtpEnv { host, port, user, password }),
        None => None,
    };
    assert(names_password(lookup, host@, port, user@, r.deep_view()));
    assert(names_login(lookup, host@, r.deep_view()));
    r
}

/// The server that the values of the four variables name.
pub open spec fn env_of(
    host: Option<Seq<char>>,
    port: Option<Seq<char>>,
    user: Option<Seq<char>>,
    password: Option<Seq<char>>,
) -> Option<EnvView> {
    match (host, user, password) {
        (Some(host), Some(user), Some(password)) => Some(
            EnvView { host, port: port_of(port), user, password },
        ),
        _ => None,
    }
}

/// A lookup that always gives the same answers names the server that these answers make up.
pub proof fn lookup_names_the_values<F: FnMut(&str) -> Option<String>>(
    lookup: F,
    values: Map<Seq<char>, Seq<char>>,
    r: Option<EnvView>,
)
    requires
        names_server(lookup, r),
        forall|key: &str, value: Option<String>| #[trigger]
            call_ensures(lookup, (key,), value) ==> value.deep_view() == (if values.contains_key(
                key@,
            ) {
                Some(values[key@])
            } else {
                None
            }),
    ensures
        ({
            let value = |key: Seq<char>|
                if values.contains_key(key) {
                    Some(values[key])
                } else {
                    None
                };
            r == env_of(
                value("FTP_SERVER_URL"@),
                value("FTP_PORT"@),
                value("FTP_USER"@),
                value("FTP_PWD"@),
            )
        }),
{
}

/// A port is read as it is written; what is no number, or none that a port can have, counts as the
/// port of FTP.
pub proof fn ports_read_back(n: int, text: Seq<char>)
    requires
        0 <= n,
    ensures
        port_of(Some(crate::text::decimal(n))) == if n <= 65_535 {
            n
        } else {
            21
        },
        !crate::text::is_number(crate::text::unsigned_part(text), 10) ==> port_of(Some(text)) == 21,
        port_of(None) == 21,
{
    crate::text::decimal_reads_back(n, n);
    if n <= 65_535 {
        crate::text::decimal_reads_back(n, u16::MAX as int);
    }
}

/// A server is named by its host, who logs in and the password, each taken from its own variable;
/// without any of the three there is none.
pub proof fn servers_are_named_in_full(
    host: Seq<char>,
    port: Option<Seq<char>>,
    user: Seq<char>,
    password: Seq<char>,
)
    ensures
        env_of(Some(host), port, Some(user), Some(password)) matches Some(e) && e.host == host
            && e.user == user && e.password == password && e.port == port_of(port),
        forall|h: Option<Seq<char>>, u: Option<Seq<char>>, p: Option<Seq<char>>| #[trigger]
            env_of(h, port, u, p).is_some() <==> h.is_some() && u.is_some() && p.is_some(),
{
}

} // verus!
