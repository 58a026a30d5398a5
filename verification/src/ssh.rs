//! The SSH client: configuration, the decisions of a session, directory
//! listings over SFTP and the detection of services on the remote host.

pub mod service_detector;
pub mod session;
pub mod sftp;

use vstd::prelude::*;

verus! {

/// How to authenticate.
#[derive(Clone, Debug)]
pub enum SshAuth {
    /// With a password.
    Password(String),
    /// With a private key read from a file, decrypted with the passphrase
    /// where there is one.
    KeyFile { path: String, passphrase: Option<String> },
    /// Through an SSH agent.
    Agent,
}

/// Where to connect, and as whom.
#[derive(Clone, Debug)]
pub struct SshConfig {
    pub host: String,
    pub port: u16,
    pub username: String,
    pub auth: SshAuth,
}

impl Default for SshConfig {
    /// `root` on `localhost`, port 22, through the agent.
    fn default() -> (config: Self)
        ensures
            config.host@ == "localhost"@,
            config.port == 22,
            config.username@ == "root"@,
            config.auth is Agent,
    {
        SshConfig {
            host: String::from_str("localhost"),
            port: 22,
            username: String::from_str("root"),
            auth: SshAuth::Agent,
        }
    }
}

impl SshAuth {
    /// The method that a numeric code names, with its credential: 0 is a
    /// password, 1 the path of a key file without passphrase. No other
    /// code names a method.
    pub fn from_code(code: i32, credential: String) -> (auth: Option<SshAuth>)
        ensures
            code == 0 ==> (auth matches Some(SshAuth::Password(p)) && p@ == credential@),
            code == 1 ==> (auth matches Some(SshAuth::KeyFile { path, passphrase })
                && path@ == credential@ && passphrase is None),
            code != 0 && code != 1 ==> auth is None,
    {
        if code == 0 {
            Some(SshAuth::Password(credential))
        } else if code == 1 {
            Some(SshAuth::KeyFile { path: credential, passphrase: None })
        } else {
            None
        }
    }
}

} // verus!
