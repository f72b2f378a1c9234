//! Runtime settings of the client: the mailbox endpoint and its pinned certificate.
//! The URL comes from the environment's override, else a `mailbox_url = ...` line of
//! `seqr.toml` in the configuration directory, else the built-in default; the pinned
//! certificate from `mailbox_cert.pem` there, else the built-in one. Reading the files
//! and the environment happens outside; the choice among the values happens here.

use vstd::prelude::*;

use crate::chars::{lines, lines_spec, second_field, second_field_spec, strip_prefix, strip_prefix_spec, trim, trim_matches, trim_matches_spec, trim_spec};

verus! {

/// The user's commissioned mailbox helper (TLS-terminated, self-signed).
pub const DEFAULT_MAILBOX_URL: &'static str = "https://37.27.248.79:8443";

/// The mailbox's pinned CA certificate, built in so a fresh install trusts the default
/// mailbox with no setup.
pub const DEFAULT_MAILBOX_CERT: &'static str = "-----BEGIN CERTIFICATE-----
MIIBmTCCAT+gAwIBAgIUfCCcHaV7k1gBD7GLjugDvVBt3fAwCgYIKoZIzj0EAwIw
GjEYMBYGA1UEAwwPc2Vxci1tYWlsYm94LWNhMB4XDTI2MDYyNjA5MTQyOVoXDTM2
MDYyMzA5MTQyOVowGjEYMBYGA1UEAwwPc2Vxci1tYWlsYm94LWNhMFkwEwYHKoZI
zj0CAQYIKoZIzj0DAQcDQgAE1KY1+cTfyOCCTpdxvhiCT9ZdPiBeLhCAg1XphPvL
SFbcVxeXW8avBW+floDu6Vl1lLmK4E8bRuUwN1h4SiaQRaNjMGEwHQYDVR0OBBYE
FMLDkwhdVOkDZpFxl5UYkRWdaRD3MB8GA1UdIwQYMBaAFMLDkwhdVOkDZpFxl5UY
kRWdaRD3MA8GA1UdEwEB/wQFMAMBAf8wDgYDVR0PAQH/BAQDAgEGMAoGCCqGSM49
BAMCA0gAMEUCIQCuWhioV7/orkjprqN2ikjFb7q/o1NFo+iVCyTNuWwZ2wIgaGYa
DPvPWBKhv2aNWNRNlblRJZG7SR81ALwVgcqRGMY=
-----END CERTIFICATE-----
";

/// The client's settings.
#[derive(Debug, Clone, PartialEq, Eq)]
pub struct AppConfig {
    pub mailbox_url: String,
    /// PEM of the mailbox's self-signed certificate to pin (`None`: system roots only).
    pub mailbox_cert: Option<String>,
}

impl Default for AppConfig {
    /// The built-in mailbox and certificate.
    fn default() -> (c: Self)
        ensures
            c.mailbox_url@ == DEFAULT_MAILBOX_URL@,
            c.mailbox_cert matches Some(p) && p@ == DEFAULT_MAILBOX_CERT@,
    {
        AppConfig {
            mailbox_url: String::from_str(DEFAULT_MAILBOX_URL),
            mailbox_cert: Some(String::from_str(DEFAULT_MAILBOX_CERT)),
        }
    }
}

/// The URL a line of `seqr.toml` sets: for a line that starts (after whitespace) with
/// `mailbox_url`, the text between its first `=` and the next, trimmed and with
/// surrounding `"` removed.
pub open spec fn line_setting(line: Seq<char>) -> Option<Seq<char>> {
    match strip_prefix_spec(trim_spec(line), "mailbox_url"@) {
        Some(rest) => match second_field_spec(rest, '=') {
            Some(v) => Some(trim_matches_spec(trim_spec(v), '"')),
            None => None,
        },
        None => None,
    }
}

/// The URL the last setting line of a file sets, if any line sets one.
pub open spec fn last_setting(lines: Seq<Seq<char>>) -> Option<Seq<char>>
    decreases lines.len(),
{
    if lines.len() == 0 {
        None
    } else {
        match line_setting(lines.last()) {
            Some(v) => Some(v),
            None => last_setting(lines.drop_last()),
        }
    }
}

/// The URL of one line, if it sets one.
fn setting_of(line: &str) -> (r: Option<String>)
    ensures
        match line_setting(line@) {
            Some(v) => r matches Some(s) && s@ == v,
            None => r is None,
        },
{
    let t = trim(line);
    match strip_prefix(t, "mailbox_url") {
        Some(rest) => match second_field(rest, '=') {
            Some(v) => Some(String::from_str(trim_matches(trim(v), '"'))),
            None => None,
        },
        None => None,
    }
}

impl AppConfig {
    /// The settings from what the configuration directory and the environment hold:
    /// the text of `seqr.toml`, the `SEQR_MAILBOX_URL` override and the PEM of
    /// `mailbox_cert.pem` (each `None` where absent). The override wins over the file,
    /// which wins over the default.
    pub fn resolve(toml_text: Option<String>, env_url: Option<String>, cert_pem: Option<String>) -> (c: AppConfig)
        ensures
            c.mailbox_url@ == match env_url {
                Some(u) => u@,
                None => match toml_text {
                    Some(t) => match last_setting(lines_spec(t@)) {
                        Some(v) => v,
                        None => DEFAULT_MAILBOX_URL@,
                    },
                    None => DEFAULT_MAILBOX_URL@,
                },
            },
            cert_pem is None ==> (c.mailbox_cert matches Some(p) && p@ == DEFAULT_MAILBOX_CERT@),
            cert_pem matches Some(p) ==> c.mailbox_cert == Some(p),
    {
        let mut cfg = AppConfig::default();
        match &toml_text {
            Some(text) => {
                let ls = lines(text.as_str());
                let ghost all = ls@.map_values(|l: String| l@);
                let mut i: usize = 0;
                proof {
                    assert(all.take(0) =~= Seq::<Seq<char>>::empty());
                }
                while i < ls.len()
                    invariant
                        0 <= i <= ls@.len(),
                        all == ls@.map_values(|l: String| l@),
                        all == lines_spec(text@),
                        match last_setting(all.take(i as int)) {
                            Some(v) => cfg.mailbox_url@ == v,
                            None => cfg.mailbox_url@ == DEFAULT_MAILBOX_URL@,
                        },
                        cfg.mailbox_cert matches Some(p) && p@ == DEFAULT_MAILBOX_CERT@,
                    decreases ls@.len() - i,
                {
                    proof {
                        assert(all.take(i + 1).drop_last() =~= all.take(i as int));
                        assert(all.take(i + 1).last() == ls@[i as int]@);
                    }
                    match setting_of(ls[i].as_str()) {
                        Some(v) => {
                            cfg.mailbox_url = v;
                        },
                        None => {},
                    }
                    i = i + 1;
                }
                proof {
                    assert(all.take(ls@.len() as int) =~= all);
                }
            },
            None => {},
        }
        match env_url {
            Some(url) => {
                cfg.mailbox_url = url;
            },
            None => {},
        }
        match cert_pem {
            Some(pem) => {
                cfg.mailbox_cert = Some(pem);
            },
            None => {},
        }
        cfg
    }
}

} // verus!
