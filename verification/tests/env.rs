use std::collections::HashMap;

use ftp_slint::store::env::{ftp_env_from_lookup, port_or_default, ENV_FILE, ENV_LOCAL_FILE};

fn map_lookup<'a>(map: &'a [(&'a str, &'a str)]) -> impl FnMut(&str) -> Option<String> + 'a {
    let map: HashMap<String, String> = map
        .iter()
        .map(|(k, v)| (k.to_string(), v.to_string()))
        .collect();
    move |key| map.get(key).cloned()
}

#[test]
fn parses_all_four_vars() {
    let lookup = map_lookup(&[
        ("FTP_SERVER_URL", "192.0.2.1"),
        ("FTP_PORT", "2121"),
        ("FTP_USER", "u"),
        ("FTP_PWD", "p"),
    ]);
    let env = ftp_env_from_lookup(lookup).expect("应有完整环境");
    assert_eq!(env.host, "192.0.2.1");
    assert_eq!(env.port, 2121);
    assert_eq!(env.user, "u");
    assert_eq!(env.password, "p");
}

#[test]
fn port_defaults_to_21_when_missing_or_invalid() {
    let lookup = map_lookup(&[("FTP_SERVER_URL", "h"), ("FTP_USER", "u"), ("FTP_PWD", "p")]);
    assert_eq!(ftp_env_from_lookup(lookup).unwrap().port, 21);

    let lookup = map_lookup(&[
        ("FTP_SERVER_URL", "h"),
        ("FTP_PORT", "not-a-number"),
        ("FTP_USER", "u"),
        ("FTP_PWD", "p"),
    ]);
    assert_eq!(ftp_env_from_lookup(lookup).unwrap().port, 21);
}

#[test]
fn missing_any_required_var_yields_none() {
    assert!(ftp_env_from_lookup(|_| None).is_none());

    let lookup = map_lookup(&[("FTP_SERVER_URL", "h")]);
    assert!(ftp_env_from_lookup(lookup).is_none());

    let lookup = map_lookup(&[("FTP_SERVER_URL", "h"), ("FTP_USER", "u")]);
    assert!(ftp_env_from_lookup(lookup).is_none());

    let lookup = map_lookup(&[("FTP_SERVER_URL", "h"), ("FTP_USER", "u"), ("FTP_PWD", "p")]);
    assert!(
        ftp_env_from_lookup(lookup).is_some(),
        "仅缺端口时使用默认值"
    );
}

#[test]
fn lookups_stop_at_the_first_missing_variable() {
    let mut asked: Vec<String> = Vec::new();
    let found = ftp_env_from_lookup(|key| {
        asked.push(key.to_string());
        if key == "FTP_USER" {
            None
        } else {
            Some("x".to_string())
        }
    });
    assert!(found.is_none());
    assert_eq!(asked, ["FTP_SERVER_URL", "FTP_PORT", "FTP_USER"]);
}

#[test]
fn ports_are_sixteen_bits_wide() {
    assert_eq!(port_or_default("65535"), 65535);
    assert_eq!(port_or_default("65536"), 21);
    assert_eq!(port_or_default("+22"), 22);
    assert_eq!(port_or_default("-22"), 21);
    assert_eq!(port_or_default(" 22"), 21);
    assert_eq!(port_or_default(""), 21);
    assert_eq!(port_or_default("0"), 0);
}

#[test]
fn env_files_have_their_names() {
    assert_eq!(ENV_FILE, ".env");
    assert_eq!(ENV_LOCAL_FILE, ".env.local");
}
