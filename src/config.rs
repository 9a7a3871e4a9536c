//! The process-wide settings: the sandbox root and the default encryption.
use vstd::prelude::*;

use crate::error::Error;
use crate::models::{EncryptionConfig, PingRequest, PingResponse};

verus! {

/// The settings given once at startup.
#[derive(Debug, Default)]
pub struct Config {
    /// The directory under which relative database paths are kept. The
    /// current working directory when not given.
    pub base_path: Option<String>,
    /// The encryption of every database whose load names none.
    pub encryption: Option<EncryptionConfig>,
}

/// The sandbox root: the configured one, else the current directory, else `.`.
pub open spec fn base_path_of(configured: Option<String>, current_dir: Option<String>) -> Seq<char> {
    match configured {
        Some(b) => b@,
        None => match current_dir {
            Some(d) => d@,
            None => seq!['.'],
        },
    }
}

/// The settings in effect.
#[derive(Debug)]
pub struct Libsql(pub Config);

impl Libsql {
    /// Answers a ping with the value it carried.
    pub fn ping(&self, payload: PingRequest) -> (r: Result<PingResponse, Error>)
        ensures
            r matches Ok(resp) && resp.value == payload.value,
    {
        Ok(PingResponse { value: payload.value })
    }

    /// The sandbox root, given the current directory where it could be read.
    pub fn base_path(&self, current_dir: Option<String>) -> (r: String)
        ensures
            r@ == base_path_of(self.0.base_path, current_dir),
    {
        match &self.0.base_path {
            Some(b) => b.clone(),
            None => match current_dir {
                Some(d) => d,
                None => {
                    proof {
                        reveal_strlit(".");
                    }
                    let dot = String::from_str(".");
                    assert(dot@ =~= seq!['.']);
                    dot
                },
            },
        }
    }

    /// The default encryption, if one is configured.
    pub fn encryption(&self) -> (r: Option<&EncryptionConfig>)
        ensures
            self.0.encryption matches Some(e) ==> r == Some(&e),
            self.0.encryption is None ==> r is None,
    {
        self.0.encryption.as_ref()
    }

    /// The encryption of a load: the one it asks for, else the default.
    pub fn load_encryption(&self, requested: Option<EncryptionConfig>) -> (r: Option<
        EncryptionConfig,
    >)
        ensures
            requested is Some ==> r == requested,
            requested is None ==> (match self.0.encryption {
                Some(e) => r matches Some(c) && c.cipher == e.cipher && c.key@ == e.key@,
                None => r is None,
            }),
    {
        match requested {
            Some(e) => Some(e),
            None => match &self.0.encryption {
                Some(e) => Some(e.duplicate()),
                None => None,
            },
        }
    }

    /// Whether a default encryption is configured.
    pub fn encrypted(&self) -> (r: bool)
        ensures
            r == self.0.encryption is Some,
    {
        self.0.encryption.is_some()
    }
}

} // verus!
