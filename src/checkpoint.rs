use vstd::prelude::*;
use crate::text::{decimal, decimal_of};
use crate::util::millis_since_epoch;
use vstd::string::StringSliceAdditionalSpecFns;

verus! {

/// A saved copy of one file.
#[derive(Debug)]
pub struct CheckpointFile {
    pub path: String,
    pub content: String,
    pub hash: String,
}

/// A named set of saved files to restore later.
#[derive(Debug)]
pub struct Checkpoint {
    pub id: String,
    pub timestamp: u64,
    pub description: String,
    pub files: Vec<CheckpointFile>,
}

impl Checkpoint {
    /// An empty checkpoint taken now, identified by its time in seconds.
    pub fn new(description: &str) -> (r: Checkpoint)
        ensures
            r.id@ == "checkpoint_"@ + decimal_of(r.timestamp as nat),
            r.description@ == description@,
            r.files@.len() == 0,
    {
        let ms = millis_since_epoch();
        let secs = ms / 1000;
        let timestamp: u64 = if secs > u64::MAX as u128 { u64::MAX } else { secs as u64 };
        Checkpoint::at(timestamp, description)
    }

    /// An empty checkpoint taken at `timestamp` seconds since the epoch.
    pub fn at(timestamp: u64, description: &str) -> (r: Checkpoint)
        ensures
            r.id@ == "checkpoint_"@ + decimal_of(timestamp as nat),
            r.timestamp == timestamp,
            r.description@ == description@,
            r.files@.len() == 0,
    {
        let mut id = "checkpoint_".to_owned();
        let n = decimal(timestamp);
        id.append(n.as_str());
        Checkpoint { id, timestamp, description: description.to_owned(), files: Vec::new() }
    }
}


/// The MD5 digest of some bytes, written as `md5::Digest` formats itself
/// in lower-case hex.
pub uninterp spec fn md5_hex_of(data: Seq<u8>) -> Seq<char>;

/// Relies on `md5::compute` and the `LowerHex` format of its `Digest`: the
/// digest of the bytes, each of its sixteen bytes as two hex digits.
#[verifier::external_body]
fn md5_hex(data: &[u8]) -> (r: String)
    ensures
        r@ == md5_hex_of(data@),
        r@.len() == 32,
{
    format!("{:x}", md5::compute(data))
}

impl Checkpoint {
    /// Saves a file's content in the checkpoint, with the MD5 digest of its
    /// UTF-8 bytes.
    pub fn add_content(&mut self, path: &str, content: &str)
        ensures
            final(self).files@.len() == old(self).files@.len() + 1,
            final(self).files@.drop_last() == old(self).files@,
            final(self).files@.last().path@ == path@,
            final(self).files@.last().content@ == content@,
            final(self).files@.last().hash@ == md5_hex_of(content.spec_bytes()),
            final(self).id == old(self).id,
            final(self).timestamp == old(self).timestamp,
            final(self).description == old(self).description,
    {
        let hash = md5_hex(content.as_bytes());
        let ghost before = self.files@;
        self.files.push(CheckpointFile { path: path.to_owned(), content: content.to_owned(), hash });
        proof {
            assert(self.files@.drop_last() =~= before);
        }
    }
}

} // verus!
