//! Cutting the container stream into its records.
//!
//! A stream starts with eight signature bytes. After them come records,
//! each made of a four-byte big-endian payload length, a four-byte tag, the
//! payload, and a four-byte checksum. The checksum is stepped over, not
//! verified. The record tagged as the end record closes the sequence.

use vstd::prelude::*;
use vstd::slice::slice_subrange;
use vstd::slice::slice_to_vec;
use crate::error::DecodeError;
use crate::error::FormatError;

verus! {

/// The eight bytes every stream starts with.
pub open spec fn signature() -> Seq<u8> {
    seq![137u8, 80u8, 78u8, 71u8, 13u8, 10u8, 26u8, 10u8]
}

/// Whether the eight bytes of `s` from `pos` on are the signature.
pub open spec fn signature_at(s: Seq<u8>, pos: int) -> bool {
    0 <= pos && pos + 8 <= s.len() && s.subrange(pos, pos + 8) == signature()
}

/// The number that four bytes spell, most significant byte first.
pub open spec fn be32(b0: u8, b1: u8, b2: u8, b3: u8) -> u32 {
    (b0 * 0x100_0000 + b1 * 0x1_0000 + b2 * 0x100 + b3) as u32
}

/// What a record's tag says the record is.
#[derive(Debug, Clone, Copy, PartialEq, Eq)]
pub enum ChunkKind {
    /// The header record, which carries the image metadata.
    Header,
    /// A record that carries a piece of the compressed image data.
    ImageData,
    /// The record that closes the stream.
    End,
    /// Any other record, with its tag.
    Other([u8; 4]),
}

/// The kind of the record that carries `tag`: the three known tags are the
/// ASCII letters `IHDR`, `IDAT` and `IEND`.
pub open spec fn kind_of(tag: [u8; 4]) -> ChunkKind {
    if tag[0] == 73 && tag[1] == 72 && tag[2] == 68 && tag[3] == 82 {
        ChunkKind::Header
    } else if tag[0] == 73 && tag[1] == 68 && tag[2] == 65 && tag[3] == 84 {
        ChunkKind::ImageData
    } else if tag[0] == 73 && tag[1] == 69 && tag[2] == 78 && tag[3] == 68 {
        ChunkKind::End
    } else {
        ChunkKind::Other(tag)
    }
}

/// One record of the stream, as a mathematical value.
pub struct Record {
    pub length: u32,
    pub tag: [u8; 4],
    pub payload: Seq<u8>,
    pub checksum: [u8; 4],
}

/// One record of the stream.
#[derive(Debug)]
pub struct Chunk {
    /// The declared length of the payload.
    pub length: u32,
    /// The tag.
    pub chunk_type: [u8; 4],
    /// The payload.
    pub chunk_data: Vec<u8>,
    /// The checksum as it stood in the stream.
    pub crc: [u8; 4],
}

impl View for Chunk {
    type V = Record;

    open spec fn view(&self) -> Record {
        Record {
            length: self.length,
            tag: self.chunk_type,
            payload: self.chunk_data@,
            checksum: self.crc,
        }
    }
}

impl Chunk {
    /// The payload is as long as the record declares.
    pub open spec fn wf(&self) -> bool {
        self.chunk_data.len() == self.length
    }

    /// What the tag says this record is.
    pub fn kind(&self) -> (k: ChunkKind)
        ensures
            k == kind_of(self.chunk_type),
    {
        let t = &self.chunk_type;
        if t[0] == 73 && t[1] == 72 && t[2] == 68 && t[3] == 82 {
            ChunkKind::Header
        } else if t[0] == 73 && t[1] == 68 && t[2] == 65 && t[3] == 84 {
            ChunkKind::ImageData
        } else if t[0] == 73 && t[1] == 69 && t[2] == 78 && t[3] == 68 {
            ChunkKind::End
        } else {
            ChunkKind::Other(self.chunk_type)
        }
    }
}

/// The payload length that the record starting at `pos` declares.
pub open spec fn length_at(s: Seq<u8>, pos: int) -> u32 {
    be32(s[pos], s[pos + 1], s[pos + 2], s[pos + 3])
}

/// Whether `s` holds a whole record from `pos` on: the length and the tag,
/// then as many payload bytes as the length says, then the checksum.
pub open spec fn record_fits(s: Seq<u8>, pos: int) -> bool {
    0 <= pos && pos + 8 <= s.len() && pos + 12 + length_at(s, pos) <= s.len()
}

/// Where the record that starts at `pos` ends.
pub open spec fn record_end(s: Seq<u8>, pos: int) -> int {
    pos + 12 + length_at(s, pos)
}

/// The record that starts at `pos`, where `s` holds all of it.
pub open spec fn record_at(s: Seq<u8>, pos: int) -> Option<Record> {
    if record_fits(s, pos) {
        let length = length_at(s, pos);
        let body = pos + 8;
        let tail = body + length;
        Some(
            Record {
                length,
                tag: [s[pos + 4], s[pos + 5], s[pos + 6], s[pos + 7]],
                payload: s.subrange(body, tail),
                checksum: [s[tail], s[tail + 1], s[tail + 2], s[tail + 3]],
            },
        )
    } else {
        None
    }
}

/// The records of `s` from `pos` up to and including the first end record,
/// or `None` where the stream breaks off before that.
pub open spec fn records_from(s: Seq<u8>, pos: int) -> Option<Seq<Record>>
    decreases s.len() - pos,
{
    match record_at(s, pos) {
        None => None,
        Some(record) => if kind_of(record.tag) is End {
            Some(seq![record])
        } else {
            match records_from(s, record_end(s, pos)) {
                None => None,
                Some(rest) => Some(seq![record] + rest),
            }
        },
    }
}

/// Tells whether `signature` holds the eight signature bytes.
pub fn verify_signature(signature: &[u8; 8]) -> (ok: bool)
    ensures
        ok == (signature@ == self::signature()),
{
    let ok = signature[0] == 137 && signature[1] == 80 && signature[2] == 78 && signature[3] == 71
        && signature[4] == 13 && signature[5] == 10 && signature[6] == 26 && signature[7] == 10;
    proof {
        if ok {
            assert(signature@ =~= self::signature());
        }
    }
    ok
}

/// Reads four bytes as a number, most significant byte first.
pub fn read_be32(b0: u8, b1: u8, b2: u8, b3: u8) -> (n: u32)
    ensures
        n == be32(b0, b1, b2, b3),
        n == b0 * 0x100_0000 + b1 * 0x1_0000 + b2 * 0x100 + b3,
{
    b0 as u32 * 0x100_0000 + b1 as u32 * 0x1_0000 + b2 as u32 * 0x100 + b3 as u32
}

/// What a reader stands for: the stream it walks, how far it has come, and
/// whether it has handed out the end record.
pub struct ReaderState {
    pub stream: Seq<u8>,
    pub position: int,
    pub finished: bool,
}

/// A forward-only walk over the records of a stream. It does not restart:
/// a fresh walk takes a fresh reader.
pub struct ChunkReader<'a> {
    stream: &'a [u8],
    position: usize,
    finished: bool,
}

impl<'a> View for ChunkReader<'a> {
    type V = ReaderState;

    closed spec fn view(&self) -> ReaderState {
        ReaderState {
            stream: self.stream@,
            position: self.position as int,
            finished: self.finished,
        }
    }
}

impl<'a> ChunkReader<'a> {
    #[verifier::type_invariant]
    spec fn in_bounds(self) -> bool {
        self.position <= self.stream.len()
    }

    /// A reader at the start of `stream`.
    pub fn new(stream: &'a [u8]) -> (reader: Self)
        ensures
            reader@ == (ReaderState { stream: stream@, position: 0, finished: false }),
    {
        ChunkReader { stream, position: 0, finished: false }
    }

    /// Whether the end record has been handed out.
    pub fn is_finished(&self) -> (done: bool)
        ensures
            done == self@.finished,
    {
        self.finished
    }

    /// How many bytes of the stream lie behind the reader.
    pub fn position(&self) -> (pos: usize)
        ensures
            pos == self@.position,
            pos <= self@.stream.len(),
    {
        proof {
            use_type_invariant(self);
        }
        self.position
    }

    /// Steps over the signature. Where the next eight bytes are not the
    /// signature, or fewer than eight are left, the stream is refused and
    /// the reader stays where it was.
    pub fn read_signature(&mut self) -> (res: Result<(), DecodeError>)
        ensures
            final(self)@.stream == old(self)@.stream,
            final(self)@.finished == old(self)@.finished,
            signature_at(old(self)@.stream, old(self)@.position) ==> res == Ok::<
                (),
                DecodeError,
            >(()) && final(self)@.position == old(self)@.position + 8,
            !signature_at(old(self)@.stream, old(self)@.position) ==> res == Err::<
                (),
                DecodeError,
            >(DecodeError::Format(FormatError::BadSignature)) && final(self)@ == old(self)@,
    {
        proof {
            use_type_invariant(&*self);
        }
        let pos = self.position;
        if self.stream.len() - pos < 8 {
            return Err(DecodeError::Format(FormatError::BadSignature));
        }
        let s = self.stream;
        let found: [u8; 8] = [
            s[pos],
            s[pos + 1],
            s[pos + 2],
            s[pos + 3],
            s[pos + 4],
            s[pos + 5],
            s[pos + 6],
            s[pos + 7],
        ];
        proof {
            assert(found@ =~= s@.subrange(pos as int, pos + 8));
        }
        if verify_signature(&found) {
            self.position = pos + 8;
            Ok(())
        } else {
            Err(DecodeError::Format(FormatError::BadSignature))
        }
    }

    /// Hands out the next record.
    ///
    /// After the end record has been handed out there is no next record,
    /// and the result is `Ok(None)`. Where the stream holds fewer bytes
    /// than the record needs, as when the declared length reaches beyond
    /// the end of the stream, the read fails as truncated and the reader
    /// stays where it was.
    pub fn next_record(&mut self) -> (res: Result<Option<Chunk>, DecodeError>)
        ensures
            final(self)@.stream == old(self)@.stream,
            old(self)@.finished ==> (res matches Ok(None)) && final(self)@ == old(self)@,
            !old(self)@.finished ==> match record_at(old(self)@.stream, old(self)@.position) {
                Some(record) => {
                    &&& res matches Ok(Some(chunk))
                    &&& chunk@ == record
                    &&& chunk.wf()
                    &&& final(self)@.position == record_end(
                        old(self)@.stream,
                        old(self)@.position,
                    )
                    &&& final(self)@.finished == (kind_of(record.tag) is End)
                },
                None => (res matches Err(DecodeError::TruncatedStream)) && final(self)@ == old(
                    self,
                )@,
            },
            !old(self)@.finished && record_end(old(self)@.stream, old(self)@.position) > old(
                self,
            )@.stream.len() ==> res matches Err(DecodeError::TruncatedStream),
            final(self)@.position <= final(self)@.stream.len(),
    {
        proof {
            use_type_invariant(&*self);
        }
        if self.finished {
            return Ok(None);
        }
        let s = self.stream;
        let pos = self.position;
        let left = s.len() - pos;
        if left < 8 {
            return Err(DecodeError::TruncatedStream);
        }
        let length = read_be32(s[pos], s[pos + 1], s[pos + 2], s[pos + 3]);
        if left - 8 < 4 || left - 12 < length as usize {
            return Err(DecodeError::TruncatedStream);
        }
        let body = pos + 8;
        let tail = body + length as usize;
        let chunk = Chunk {
            length,
            chunk_type: [s[pos + 4], s[pos + 5], s[pos + 6], s[pos + 7]],
            chunk_data: slice_to_vec(slice_subrange(s, body, tail)),
            crc: [s[tail], s[tail + 1], s[tail + 2], s[tail + 3]],
        };
        let ends = match chunk.kind() {
            ChunkKind::End => true,
            _ => false,
        };
        self.position = tail + 4;
        self.finished = ends;
        Ok(Some(chunk))
    }
}

} // verus!
