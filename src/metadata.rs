use crate::bencode::decode_exact;
use crate::bytes::append_bytes;
use crate::digest::{digest_equals, sha1_digest, sha1_of};
use crate::extension::{DataMetaData, MetaData};
use crate::torrent::{decoded_whole, info_accepted, Info};
use vstd::prelude::*;

verus! {

/// Why fetching the metadata failed.
#[derive(Debug, PartialEq, Eq, Structural, Clone, Copy)]
pub enum MetadataError {
    /// A chunk arrived for another piece than the next one expected.
    OutOfOrder,
    /// A chunk disagrees with the total size announced, or would run past it.
    SizeMismatch,
    /// The assembled bytes do not hash to the content's identifier.
    MetadataIntegrityFailure,
    /// The assembled bytes are not an info dictionary.
    MalformedMetadata,
}

/// The metadata being reassembled from chunks that arrive in piece order.
pub struct MetadataAssembly {
    /// The size announced with the first chunk; 0 before it.
    pub total_size: u32,
    /// The piece expected next.
    pub next_piece: u8,
    /// The chunks received so far, end to end.
    pub bytes: Vec<u8>,
}

impl MetadataAssembly {
    pub open spec fn wf(&self) -> bool {
        &&& self.bytes@.len() <= self.total_size
        &&& self.next_piece == 0 ==> self.bytes@.len() == 0
    }

    /// Every announced byte has arrived.
    pub open spec fn spec_complete(&self) -> bool {
        self.next_piece > 0 && self.bytes@.len() == self.total_size
    }

    pub fn new() -> (r: MetadataAssembly)
        ensures
            r.wf(),
            r.total_size == 0,
            r.next_piece == 0,
            r.bytes@.len() == 0,
    {
        MetadataAssembly { total_size: 0, next_piece: 0, bytes: Vec::new() }
    }

    /// The request for the next chunk.
    pub fn next_request(&self) -> (r: MetaData)
        ensures
            r.msg_type == 0,
            r.piece == self.next_piece,
    {
        MetaData { msg_type: 0, piece: self.next_piece }
    }

    pub fn is_complete(&self) -> (r: bool)
        ensures
            r == self.spec_complete(),
    {
        self.next_piece > 0 && self.bytes.len() == self.total_size as usize
    }

    /// Takes a chunk. It must be the next piece, agree with the size announced with the
    /// first chunk, and not run past it.
    pub fn on_data(&mut self, header: &DataMetaData, chunk: &Vec<u8>) -> (r: Result<
        (),
        MetadataError,
    >)
        requires
            old(self).wf(),
        ensures
            final(self).wf(),
            ({
                let size = if old(self).next_piece == 0 {
                    header.total_size
                } else {
                    old(self).total_size
                };
                if header.piece != old(self).next_piece || old(self).next_piece == 255 {
                    r == Err::<(), MetadataError>(MetadataError::OutOfOrder) && *final(self)
                        == *old(self)
                } else if header.total_size != size || old(self).bytes@.len() + chunk@.len()
                    > size {
                    r == Err::<(), MetadataError>(MetadataError::SizeMismatch) && *final(self)
                        == *old(self)
                } else {
                    &&& r is Ok
                    &&& final(self).bytes@ == old(self).bytes@ + chunk@
                    &&& final(self).total_size == size
                    &&& final(self).next_piece == old(self).next_piece + 1
                }
            }),
    {
        if header.piece != self.next_piece || self.next_piece == 255 {
            return Err(MetadataError::OutOfOrder);
        }
        let size = if self.next_piece == 0 {
            header.total_size
        } else {
            self.total_size
        };
        if header.total_size != size || chunk.len() > size as usize - self.bytes.len() {
            return Err(MetadataError::SizeMismatch);
        }
        append_bytes(&mut self.bytes, chunk);
        self.total_size = size;
        self.next_piece = self.next_piece + 1;
        Ok(())
    }

    /// The metadata, once complete, if its bytes hash to `info_hash` and hold an info
    /// dictionary.
    pub fn finish(&self, info_hash: &[u8; 20]) -> (r: Result<Info, MetadataError>)
        requires
            self.spec_complete(),
        ensures
            match r {
                Ok(info) => sha1_of(self.bytes@) == info_hash@ && (decoded_whole(self.bytes@) matches Some(
                    v,
                ) && info.read_from(v)),
                Err(MetadataError::MetadataIntegrityFailure) => sha1_of(self.bytes@) != info_hash@,
                Err(MetadataError::MalformedMetadata) => sha1_of(self.bytes@) == info_hash@ && !(
                decoded_whole(self.bytes@) matches Some(v) && info_accepted(v)),
                Err(_) => false,
            },
    {
        let digest = sha1_digest(&self.bytes);
        check_metadata(&self.bytes, &digest, info_hash)
    }
}

/// Reads assembled metadata whose digest is `digest`: refused unless it equals
/// `info_hash`.
pub fn check_metadata(bytes: &Vec<u8>, digest: &[u8; 20], info_hash: &[u8; 20]) -> (r: Result<
    Info,
    MetadataError,
>)
    ensures
        match r {
            Ok(info) => digest@ == info_hash@ && (decoded_whole(bytes@) matches Some(v)
                && info.read_from(v)),
            Err(MetadataError::MetadataIntegrityFailure) => digest@ != info_hash@,
            Err(MetadataError::MalformedMetadata) => digest@ == info_hash@ && !(decoded_whole(
                bytes@,
            ) matches Some(v) && info_accepted(v)),
            Err(_) => false,
        },
{
    if !digest_equals(digest, info_hash) {
        return Err(MetadataError::MetadataIntegrityFailure);
    }
    let value = match decode_exact(bytes) {
        Ok(v) => v,
        Err(_) => {
            return Err(MetadataError::MalformedMetadata);
        },
    };
    match Info::from_bencode(&value) {
        Ok(info) => Ok(info),
        Err(_) => Err(MetadataError::MalformedMetadata),
    }
}

} // verus!
