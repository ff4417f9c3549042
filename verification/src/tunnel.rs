//! Reverse SSH port forward laptop:`local_port` <- bastion:`remote_port`: what
//! it is set up with.

use vstd::prelude::*;
use crate::text;

verus! {

#[derive(Debug, Clone, PartialEq, Eq)]
pub struct SshConfig {
    pub host: String,
    pub port: u16,
    pub username: String,
    pub auth: SshAuth,
    /// Seconds between keepalive messages.
    pub keepalive_secs: u64,
}

#[derive(Debug, Clone, PartialEq, Eq)]
pub enum SshAuth {
    Agent,
    KeyFile { private_key: String, passphrase: Option<String> },
}

/// What is wrong with the set-up.
#[derive(Debug, Clone, Copy, PartialEq, Eq)]
pub enum SshFault {
    EmptyHost,
    ZeroPort,
    EmptyUsername,
    EmptyKeyPath,
}

impl SshFault {
    pub open spec fn text(self) -> Seq<char> {
        match self {
            SshFault::EmptyHost => "ssh host must not be empty"@,
            SshFault::ZeroPort => "ssh port must be > 0"@,
            SshFault::EmptyUsername => "ssh username must not be empty"@,
            SshFault::EmptyKeyPath => "ssh key path must not be empty"@,
        }
    }

    /// The error in words.
    pub fn message(&self) -> (r: String)
        ensures
            r@ == self.text(),
    {
        match self {
            SshFault::EmptyHost => "ssh host must not be empty".to_owned(),
            SshFault::ZeroPort => "ssh port must be > 0".to_owned(),
            SshFault::EmptyUsername => "ssh username must not be empty".to_owned(),
            SshFault::EmptyKeyPath => "ssh key path must not be empty".to_owned(),
        }
    }
}

impl SshConfig {
    /// The first thing wrong with the set-up, if anything is.
    pub open spec fn fault(self) -> Option<SshFault> {
        if text::is_blank(self.host@) {
            Some(SshFault::EmptyHost)
        } else if self.port == 0 {
            Some(SshFault::ZeroPort)
        } else if text::is_blank(self.username@) {
            Some(SshFault::EmptyUsername)
        } else if self.auth matches SshAuth::KeyFile { private_key, .. } && private_key@.len()
            == 0 {
            Some(SshFault::EmptyKeyPath)
        } else {
            None
        }
    }

    pub fn validate(&self) -> (r: Result<(), SshFault>)
        ensures
            r == (match self.fault() {
                None => Ok::<(), SshFault>(()),
                Some(fault) => Err(fault),
            }),
    {
        if text::blank(self.host.as_str()) {
            return Err(SshFault::EmptyHost);
        }
        if self.port == 0 {
            return Err(SshFault::ZeroPort);
        }
        if text::blank(self.username.as_str()) {
            return Err(SshFault::EmptyUsername);
        }
        if let SshAuth::KeyFile { private_key, .. } = &self.auth {
            if private_key.as_str().unicode_len() == 0 {
                return Err(SshFault::EmptyKeyPath);
            }
        }
        Ok(())
    }
}

/// A setting passes exactly if its host and its user are more than white space, its
/// port is not zero and the file of its key, where it has one, is named; else the first
/// of these that is not so is the fault.
pub proof fn law_ssh_setting_passes(config: SshConfig, r: Result<(), SshFault>)
    requires
        call_ensures(SshConfig::validate, (&config,), r),
    ensures
        ({
            let host = exists|i: int|
                0 <= i < config.host@.len() && !text::is_white(#[trigger] config.host@[i]);
            let user = exists|i: int|
                0 <= i < config.username@.len() && !text::is_white(#[trigger] config.username@[i]);
            let key = config.auth matches SshAuth::KeyFile { private_key, .. } ==> private_key@.len()
                > 0;
            &&& r is Ok <==> host && config.port > 0 && user && key
            &&& !host ==> r == Err::<(), SshFault>(SshFault::EmptyHost)
            &&& host && config.port == 0 ==> r == Err::<(), SshFault>(SshFault::ZeroPort)
            &&& host && config.port > 0 && !user ==> r == Err::<(), SshFault>(
                SshFault::EmptyUsername,
            )
            &&& host && config.port > 0 && user && !key ==> r == Err::<(), SshFault>(
                SshFault::EmptyKeyPath,
            )
        }),
{
}

} // verus!
