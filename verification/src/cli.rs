//! The `insert` command's key type: four ASCII bytes naming the kind of
//! key put into the keystore.

use vstd::prelude::*;
use vstd::utf8::encode_utf8;

verus! {

/// Errors of the command line.
#[derive(Clone, Copy, Debug, PartialEq, Eq, Structural)]
pub enum CliError {
    /// The key type is not four bytes long.
    KeyTypeInvalid,
    /// The keystore refused the key.
    KeyStoreOperation,
}

/// Inserting a key into the keystore of a node.
pub struct InsertKeyCmd {
    /// The secret key URI; prompted for when not given.
    pub suri: Option<String>,
    /// The key type, such as "gran" or "imon".
    pub key_type: String,
}

impl InsertKeyCmd {
    /// The key type id: the four bytes of the key type, refused when it is
    /// not exactly four bytes long.
    pub fn key_type_id(&self) -> (r: Result<[u8; 4], CliError>)
        ensures
            match r {
                Ok(id) => encode_utf8(self.key_type@).len() == 4 && id@ == encode_utf8(self.key_type@),
                Err(e) => e == CliError::KeyTypeInvalid && encode_utf8(self.key_type@).len() != 4,
            },
    {
        let b = self.key_type.as_str().as_bytes();
        if b.len() != 4 {
            return Err(CliError::KeyTypeInvalid);
        }
        let id: [u8; 4] = [b[0], b[1], b[2], b[3]];
        assert(id@ =~= b@);
        Ok(id)
    }
}

} // verus!
