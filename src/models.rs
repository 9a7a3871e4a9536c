//! The plain data that crosses the library's surface.
use vstd::prelude::*;

verus! {

/// The cipher of an encrypted database.
#[derive(Debug, Clone, Copy, PartialEq, Eq, Structural)]
pub enum Cipher {
    Aes256Cbc,
}

/// How a database is encrypted: the cipher and the key.
#[derive(Debug, PartialEq)]
pub struct EncryptionConfig {
    pub cipher: Cipher,
    pub key: Vec<u8>,
}

impl EncryptionConfig {
    /// A copy with the same cipher and key.
    pub fn duplicate(&self) -> (r: EncryptionConfig)
        ensures
            r.cipher == self.cipher,
            r.key@ == self.key@,
    {
        let key = self.key.clone();
        assert(key@ =~= self.key@);
        EncryptionConfig { cipher: self.cipher, key }
    }
}

/// What a caller asks of a load.
#[derive(Debug)]
pub struct LoadOptions {
    /// The logical path, such as `sqlite:test.db` or `test.db`.
    pub path: String,
    /// The encryption for this database, in place of the default one.
    pub encryption: Option<EncryptionConfig>,
    /// The remote database that a local replica follows.
    pub sync_url: Option<String>,
    /// The token for the remote database.
    pub auth_token: Option<String>,
}

/// The outcome of a statement that returns no rows.
#[derive(Debug, Clone, Copy, PartialEq, Eq, Structural)]
pub struct QueryResult {
    /// The number of rows changed.
    pub rows_affected: u64,
    /// The row id of the last insert on the connection.
    pub last_insert_id: i64,
}

/// A ping, kept for older callers.
#[derive(Debug)]
pub struct PingRequest {
    pub value: Option<String>,
}

/// The answer to a ping: the value sent.
#[derive(Debug, Default, PartialEq)]
pub struct PingResponse {
    pub value: Option<String>,
}

} // verus!
