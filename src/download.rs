use crate::bytes::{append_bytes, be_u32};
use crate::digest::{digest_equals, sha1_digest, sha1_of};
use crate::message::{MessageTag, ReceivePayload, RequestPayload};
use crate::torrent::Info;
use vstd::prelude::*;

verus! {

/// Size of every block but the last of a piece.
pub const BLOCK_SIZE: usize = 16384;

impl Info {
    /// The piece hashes agree with the sizes: `pieces_length > 0` and there are
    /// `ceil(length / pieces_length)` hashes; sizes and counts fit the wire's 32-bit fields.
    pub open spec fn wf(&self) -> bool {
        let n = self.pieces.0@.len();
        &&& self.pieces_length > 0
        &&& 1 <= n <= u32::MAX
        &&& self.pieces_length <= u32::MAX
        &&& self.pieces_length * (n - 1) < self.length <= self.pieces_length * n
    }

    /// Whether the piece hashes agree with the sizes.
    pub fn is_consistent(&self) -> (r: bool)
        ensures
            r == self.wf(),
    {
        let n = self.pieces.0.len();
        if self.pieces_length == 0 || n == 0 || n > 4294967295 || self.pieces_length > 4294967295 {
            return false;
        }
        let before_last = match self.pieces_length.checked_mul(n - 1) {
            Some(p) => p,
            None => {
                return false;
            },
        };
        if before_last >= self.length {
            return false;
        }
        assert(self.pieces_length * n == self.pieces_length * (n - 1) + self.pieces_length)
            by (nonlinear_arith);
        match before_last.checked_add(self.pieces_length) {
            Some(all) => self.length <= all,
            None => true,
        }
    }
}

/// Size of piece `index` of `count`: every piece but the last is `piece_length` long,
/// the last holds what remains.
pub open spec fn spec_piece_size(length: int, piece_length: int, count: int, index: int) -> int {
    if index < count - 1 {
        piece_length
    } else {
        length - piece_length * (count - 1)
    }
}

/// Number of blocks in a piece: `ceil(piece_size / BLOCK_SIZE)`.
pub open spec fn spec_block_count(piece_size: int) -> int {
    (piece_size + BLOCK_SIZE - 1) / BLOCK_SIZE as int
}

/// Size of block `block` of a piece: every block but the last is `BLOCK_SIZE` long.
pub open spec fn spec_block_size(piece_size: int, block: int) -> int {
    if block < spec_block_count(piece_size) - 1 {
        BLOCK_SIZE as int
    } else {
        piece_size - BLOCK_SIZE * (spec_block_count(piece_size) - 1)
    }
}

/// Size of piece `index`.
pub fn piece_size(info: &Info, index: usize) -> (r: usize)
    requires
        info.wf(),
        index < info.pieces.0@.len(),
    ensures
        r == spec_piece_size(
            info.length as int,
            info.pieces_length as int,
            info.pieces.0@.len() as int,
            index as int,
        ),
        0 < r <= info.pieces_length,
{
    let n = info.pieces.0.len();
    if index < n - 1 {
        info.pieces_length
    } else {
        proof {
            assert(info.pieces_length * n == info.pieces_length * (n - 1) + info.pieces_length)
                by (nonlinear_arith);
        }
        info.length - info.pieces_length * (n - 1)
    }
}

/// Number of blocks in a piece of `piece_size` bytes.
pub fn block_count(piece_size: usize) -> (r: usize)
    ensures
        r == spec_block_count(piece_size as int),
{
    piece_size / BLOCK_SIZE + if piece_size % BLOCK_SIZE == 0 {
        0
    } else {
        1
    }
}

/// Size of block `block` of a piece of `piece_size` bytes.
pub fn block_size(piece_size: usize, block: usize) -> (r: usize)
    requires
        piece_size > 0,
        block < spec_block_count(piece_size as int),
    ensures
        r == spec_block_size(piece_size as int, block as int),
        0 < r <= BLOCK_SIZE,
{
    let count = block_count(piece_size);
    if block < count - 1 {
        BLOCK_SIZE
    } else {
        assert(BLOCK_SIZE * (count - 1) < piece_size <= BLOCK_SIZE * count) by (nonlinear_arith)
            requires
                count == (piece_size + BLOCK_SIZE - 1) / BLOCK_SIZE as int,
                piece_size > 0,
        ;
        assert(BLOCK_SIZE * count == BLOCK_SIZE * (count - 1) + BLOCK_SIZE) by (nonlinear_arith);
        piece_size - BLOCK_SIZE * (count - 1)
    }
}

/// Why a download stopped.
#[derive(Debug, PartialEq, Eq, Structural, Clone, Copy)]
pub enum DownloadError {
    /// A block arrived for another piece or offset than the one requested, or with
    /// another length.
    ProtocolDesync,
    /// The reassembled piece does not hash to the expected digest.
    HashMismatch(usize),
    /// A message came that the current stage does not allow.
    UnexpectedMessage,
}

/// One piece being fetched block by block, one request at a time.
pub struct PieceDownload {
    pub piece_index: usize,
    pub piece_size: usize,
    /// The blocks received so far, in offset order.
    pub blocks: Vec<u8>,
}

impl PieceDownload {
    pub open spec fn wf(&self) -> bool {
        &&& 0 < self.piece_size <= u32::MAX
        &&& self.piece_index <= u32::MAX
        &&& self.blocks@.len() <= self.piece_size
    }

    /// All the blocks have arrived.
    pub open spec fn spec_done(&self) -> bool {
        self.blocks@.len() == self.piece_size
    }

    /// The request for the next block: at the first missing offset, as long as a block or
    /// what remains of the piece.
    pub open spec fn spec_next(&self) -> RequestPayload {
        let remaining = self.piece_size - self.blocks@.len();
        RequestPayload {
            index: self.piece_index as u32,
            begin: self.blocks@.len() as u32,
            length: (if remaining < BLOCK_SIZE {
                remaining
            } else {
                BLOCK_SIZE as int
            }) as u32,
        }
    }

    /// Starts fetching piece `index`.
    pub fn new(info: &Info, index: usize) -> (r: PieceDownload)
        requires
            info.wf(),
            index < info.pieces.0@.len(),
        ensures
            r.wf(),
            r.piece_index == index,
            r.piece_size == spec_piece_size(
                info.length as int,
                info.pieces_length as int,
                info.pieces.0@.len() as int,
                index as int,
            ),
            r.blocks@.len() == 0,
    {
        PieceDownload { piece_index: index, piece_size: piece_size(info, index), blocks: Vec::new() }
    }

    pub fn is_done(&self) -> (r: bool)
        ensures
            r == self.spec_done(),
    {
        self.blocks.len() == self.piece_size
    }

    /// The request for the next block, unless every block has arrived.
    pub fn next_request(&self) -> (r: Option<RequestPayload>)
        requires
            self.wf(),
        ensures
            match r {
                Some(q) => !self.spec_done() && q == self.spec_next(),
                None => self.spec_done(),
            },
    {
        if self.blocks.len() == self.piece_size {
            return None;
        }
        let remaining = self.piece_size - self.blocks.len();
        let length = if remaining < BLOCK_SIZE {
            remaining
        } else {
            BLOCK_SIZE
        };
        Some(
            RequestPayload {
                index: self.piece_index as u32,
                begin: self.blocks.len() as u32,
                length: length as u32,
            },
        )
    }

    /// Takes the answer to the outstanding request: it must name this piece and the next
    /// offset and hold as many bytes as were asked for.
    pub fn on_block(&mut self, block: &ReceivePayload) -> (r: Result<(), DownloadError>)
        requires
            old(self).wf(),
            !old(self).spec_done(),
        ensures
            final(self).wf(),
            final(self).piece_index == old(self).piece_index,
            final(self).piece_size == old(self).piece_size,
            ({
                let q = old(self).spec_next();
                if block.index == q.index && block.begin == q.begin && block.block@.len()
                    == q.length {
                    r is Ok && final(self).blocks@ == old(self).blocks@ + block.block@
                } else {
                    r == Err::<(), DownloadError>(DownloadError::ProtocolDesync)
                        && final(self).blocks@ == old(self).blocks@
                }
            }),
    {
        let q = match self.next_request() {
            Some(q) => q,
            None => {
                return Err(DownloadError::ProtocolDesync);
            },
        };
        if block.index != q.index || block.begin != q.begin || block.block.len() != q.length as usize {
            return Err(DownloadError::ProtocolDesync);
        }
        let mut i: usize = 0;
        let ghost before = self.blocks@;
        while i < block.block.len()
            invariant
                i <= block.block.len(),
                self.piece_index == old(self).piece_index,
                self.piece_size == old(self).piece_size,
                before == old(self).blocks@,
                self.blocks@ == before + block.block@.subrange(0, i as int),
            decreases block.block.len() - i,
        {
            self.blocks.push(block.block[i]);
            i = i + 1;
            assert(self.blocks@ =~= before + block.block@.subrange(0, i as int));
        }
        assert(block.block@.subrange(0, i as int) =~= block.block@);
        Ok(())
    }

    /// The whole piece, if it hashes to `expected`.
    pub fn finish(self, expected: &[u8; 20]) -> (r: Result<Vec<u8>, DownloadError>)
        requires
            self.spec_done(),
        ensures
            match r {
                Ok(data) => data@ == self.blocks@ && sha1_of(data@) == expected@,
                Err(e) => e == DownloadError::HashMismatch(self.piece_index) && sha1_of(
                    self.blocks@,
                ) != expected@,
            },
    {
        let digest = sha1_digest(&self.blocks);
        check_piece(self.blocks, &digest, expected, self.piece_index)
    }
}

/// Accepts a piece whose digest is `digest` exactly when it equals `expected`.
pub fn check_piece(data: Vec<u8>, digest: &[u8; 20], expected: &[u8; 20], index: usize) -> (r:
    Result<Vec<u8>, DownloadError>)
    ensures
        match r {
            Ok(d) => d@ == data@ && digest@ == expected@,
            Err(e) => e == DownloadError::HashMismatch(index) && digest@ != expected@,
        },
{
    if digest_equals(digest, expected) {
        Ok(data)
    } else {
        Err(DownloadError::HashMismatch(index))
    }
}

/// Where a connection's download stands.
#[derive(Debug, PartialEq, Eq, Structural, Clone, Copy)]
pub enum Stage {
    /// Waiting for the peer's bitfield.
    AwaitBitfield,
    /// Interest sent; waiting to be unchoked.
    AwaitUnchoke,
    /// One block request outstanding.
    Requesting,
    /// Every piece asked for has arrived and been verified.
    Complete,
}

/// What the connection should do next.
#[derive(Debug, PartialEq, Eq)]
pub enum Action {
    SendInterested,
    SendRequest(RequestPayload),
    /// Nothing to send; wait for the next message.
    Wait,
    /// The download is complete.
    Finished,
}

/// The download of pieces `current.piece_index .. end` over one connection.
pub struct Session {
    pub stage: Stage,
    pub current: PieceDownload,
    /// One past the last piece to fetch.
    pub end: usize,
    /// The verified pieces so far, in order.
    pub output: Vec<u8>,
}

/// A `Piece` body answers request `q`: same piece, same offset, as many bytes as asked.
pub open spec fn answers(q: RequestPayload, payload: Seq<u8>) -> bool {
    &&& payload.len() >= 8
    &&& be_u32(payload[0], payload[1], payload[2], payload[3]) == q.index
    &&& be_u32(payload[4], payload[5], payload[6], payload[7]) == q.begin
    &&& payload.len() - 8 == q.length
}

impl Session {
    pub open spec fn wf(&self, info: &Info) -> bool {
        &&& info.wf()
        &&& self.current.wf()
        &&& self.current.piece_index < self.end <= info.pieces.0@.len()
        &&& self.current.piece_size == spec_piece_size(
            info.length as int,
            info.pieces_length as int,
            info.pieces.0@.len() as int,
            self.current.piece_index as int,
        )
        &&& self.stage != Stage::Requesting ==> self.current.blocks@.len() == 0
        &&& self.stage == Stage::Requesting ==> !self.current.spec_done()
    }

    /// A download of pieces `first .. end`, waiting for the peer's bitfield.
    pub fn new(info: &Info, first: usize, end: usize) -> (r: Session)
        requires
            info.wf(),
            first < end <= info.pieces.0@.len(),
        ensures
            r.wf(info),
            r.stage == Stage::AwaitBitfield,
            r.current.piece_index == first,
            r.end == end,
            r.output@.len() == 0,
    {
        Session {
            stage: Stage::AwaitBitfield,
            current: PieceDownload::new(info, first),
            end,
            output: Vec::new(),
        }
    }

    /// Takes the next message from the peer and says what to send.
    pub fn on_message(&mut self, info: &Info, tag: MessageTag, payload: Vec<u8>) -> (r: Result<
        Action,
        DownloadError,
    >)
        requires
            old(self).wf(info),
        ensures
            r is Ok ==> final(self).wf(info),
            final(self).end == old(self).end,
            old(self).stage == Stage::AwaitBitfield ==> if tag == MessageTag::Bitfield {
                r == Ok::<Action, DownloadError>(Action::SendInterested) && final(self).stage
                    == Stage::AwaitUnchoke && final(self).current == old(self).current
                    && final(self).output@ == old(self).output@
            } else {
                r == Err::<Action, DownloadError>(DownloadError::UnexpectedMessage)
            },
            old(self).stage == Stage::AwaitUnchoke ==> if tag == MessageTag::Unchoke {
                r == Ok::<Action, DownloadError>(Action::SendRequest(old(self).current.spec_next()))
                    && final(self).stage == Stage::Requesting && final(self).current
                    == old(self).current && final(self).output@ == old(self).output@
            } else {
                r == Err::<Action, DownloadError>(DownloadError::UnexpectedMessage)
            },
            old(self).stage == Stage::Complete ==> r == Ok::<Action, DownloadError>(Action::Wait)
                && *final(self) == *old(self),
            old(self).stage == Stage::Requesting && tag != MessageTag::Piece ==> r == Ok::<
                Action,
                DownloadError,
            >(Action::Wait) && *final(self) == *old(self),
            old(self).stage == Stage::Requesting && tag == MessageTag::Piece && !answers(
                old(self).current.spec_next(),
                payload@,
            ) ==> r == Err::<Action, DownloadError>(DownloadError::ProtocolDesync),
            old(self).stage == Stage::Requesting && tag == MessageTag::Piece && answers(
                old(self).current.spec_next(),
                payload@,
            ) ==> ({
                let blocks = old(self).current.blocks@ + payload@.subrange(8, payload@.len() as int);
                let idx = old(self).current.piece_index;
                if blocks.len() < old(self).current.piece_size {
                    &&& final(self).stage == Stage::Requesting
                    &&& final(self).current.piece_index == idx
                    &&& final(self).current.blocks@ == blocks
                    &&& final(self).output@ == old(self).output@
                    &&& r == Ok::<Action, DownloadError>(Action::SendRequest(final(self).current.spec_next()))
                } else if sha1_of(blocks) != info.pieces.0@[idx as int]@ {
                    r == Err::<Action, DownloadError>(DownloadError::HashMismatch(idx))
                } else {
                    &&& final(self).output@ == old(self).output@ + blocks
                    &&& if idx + 1 < old(self).end {
                        &&& final(self).stage == Stage::Requesting
                        &&& final(self).current.piece_index == idx + 1
                        &&& r == Ok::<Action, DownloadError>(Action::SendRequest(final(self).current.spec_next()))
                    } else {
                        final(self).stage == Stage::Complete && r == Ok::<Action, DownloadError>(
                            Action::Finished,
                        )
                    }
                }
            }),
    {
        match self.stage {
            Stage::AwaitBitfield => {
                if tag == MessageTag::Bitfield {
                    self.stage = Stage::AwaitUnchoke;
                    Ok(Action::SendInterested)
                } else {
                    Err(DownloadError::UnexpectedMessage)
                }
            },
            Stage::AwaitUnchoke => {
                if tag == MessageTag::Unchoke {
                    self.stage = Stage::Requesting;
                    match self.current.next_request() {
                        Some(q) => Ok(Action::SendRequest(q)),
                        None => Err(DownloadError::ProtocolDesync),
                    }
                } else {
                    Err(DownloadError::UnexpectedMessage)
                }
            },
            Stage::Complete => Ok(Action::Wait),
            Stage::Requesting => {
                if tag != MessageTag::Piece {
                    return Ok(Action::Wait);
                }
                if payload.len() < 8 {
                    return Err(DownloadError::ProtocolDesync);
                }
                let mut body = payload;
                let ghost whole = body@;
                let block = ReceivePayload::new(&mut body);
                match self.current.on_block(&block) {
                    Ok(()) => {},
                    Err(e) => {
                        return Err(e);
                    },
                }
                if !self.current.is_done() {
                    return match self.current.next_request() {
                        Some(q) => Ok(Action::SendRequest(q)),
                        None => Err(DownloadError::ProtocolDesync),
                    };
                }
                let idx = self.current.piece_index;
                let next = if idx + 1 < self.end {
                    idx + 1
                } else {
                    idx
                };
                let mut finished = PieceDownload::new(info, next);
                core::mem::swap(&mut self.current, &mut finished);
                let data = match finished.finish(&info.pieces.0[idx]) {
                    Ok(d) => d,
                    Err(e) => {
                        return Err(e);
                    },
                };
                append_bytes(&mut self.output, &data);
                if idx + 1 < self.end {
                    match self.current.next_request() {
                        Some(q) => Ok(Action::SendRequest(q)),
                        None => Err(DownloadError::ProtocolDesync),
                    }
                } else {
                    self.stage = Stage::Complete;
                    Ok(Action::Finished)
                }
            },
        }
    }
}

} // verus!
