//! The configuration of the two inbound protocol fronts.  The servers
//! themselves — SSH, TLS and HTTP handling — live with the runtime around
//! the library; what is modeled here is the configured shape they start
//! from.

use vstd::prelude::*;

use crate::util::LiteralOrFile;

verus! {

/// One authorized SFTP client: its public key and the destination and gate
/// its uploads are bound to.
#[derive(Debug)]
pub struct ConfigListenerSftpAuthorizedKey {
    pub public_key: String,
    pub destination: String,
    pub gate: String,
}

/// An SFTP front: where to listen, the host key, and who may connect.
#[derive(Debug)]
pub struct ConfigListenerSftp {
    pub listen_on: Vec<String>,
    pub host_key: LiteralOrFile,
    pub authorized_keys: Vec<ConfigListenerSftpAuthorizedKey>,
}

/// One WebDAV account: its password hash and the destination and gate its
/// uploads are bound to.
#[derive(Debug)]
pub struct ConfigListenerWebdavUser {
    pub password: String,
    pub destination: String,
    pub gate: String,
}

/// A WebDAV front: where to listen, the TLS key material, and the accounts.
#[derive(Debug)]
pub struct ConfigListenerWebdav {
    pub listen_on: Vec<String>,
    pub certificate_chain: LiteralOrFile,
    pub private_key: LiteralOrFile,
    pub users: Vec<(String, ConfigListenerWebdavUser)>,
}

/// A WebDAV front with its key material already read in.
#[derive(Debug)]
pub struct ConfigListenerWebdavEnriched {
    pub listen_on: Vec<String>,
    pub certificate_chain: String,
    pub private_key: String,
    pub users: Vec<(String, ConfigListenerWebdavUser)>,
}

impl ConfigListenerWebdavEnriched {
    /// Pairs a WebDAV front's configuration with its resolved certificate
    /// chain and private key, which the caller has read from wherever the
    /// configuration pointed.
    pub fn new(
        listen_on: Vec<String>,
        certificate_chain: String,
        private_key: String,
        users: Vec<(String, ConfigListenerWebdavUser)>,
    ) -> (r: ConfigListenerWebdavEnriched)
        ensures
            r.listen_on == listen_on,
            r.certificate_chain == certificate_chain,
            r.private_key == private_key,
            r.users == users,
    {
        ConfigListenerWebdavEnriched { listen_on, certificate_chain, private_key, users }
    }
}

/// One configured inbound front.
#[derive(Debug)]
pub enum ConfigListener {
    Sftp(ConfigListenerSftp),
    Webdav(ConfigListenerWebdav),
}

/// One inbound front with its key material resolved.
#[derive(Debug)]
pub enum ConfigListenerEnriched {
    Sftp(ConfigListenerSftp),
    Webdav(ConfigListenerWebdavEnriched),
}

} // verus!
