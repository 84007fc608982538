//! Gathering the compressed image data from the records after the header.

use vstd::prelude::*;
use crate::chunk::kind_of;
use crate::chunk::record_end;
use crate::chunk::records_from;
use crate::chunk::ChunkKind;
use crate::chunk::ChunkReader;
use crate::chunk::ReaderState;
use crate::chunk::Record;
use crate::error::DecodeError;
use crate::error::FormatError;

verus! {

/// What `record` adds to the image data: its payload where it is an
/// image-data record, nothing otherwise.
pub open spec fn contribution(record: Record) -> Seq<u8> {
    if kind_of(record.tag) is ImageData {
        record.payload
    } else {
        Seq::empty()
    }
}

/// The payloads of the image-data records among `records`, one after the
/// other in the order of the records.
pub open spec fn image_data(records: Seq<Record>) -> Seq<u8>
    decreases records.len(),
{
    if records.len() == 0 {
        Seq::empty()
    } else {
        image_data(records.drop_last()) + contribution(records.last())
    }
}

/// Whether one of `records` is an image-data record.
pub open spec fn has_image_data(records: Seq<Record>) -> bool {
    exists|i: int| 0 <= i < records.len() && kind_of(#[trigger] records[i].tag) is ImageData
}

/// The compressed image data that a reader in the given state leads to, or
/// why there is none: the stream breaks off before the end record, or no
/// image-data record comes before it.
pub open spec fn assembled(state: ReaderState) -> Result<Seq<u8>, DecodeError> {
    if state.finished {
        Err(DecodeError::Format(FormatError::MissingImageData))
    } else {
        match records_from(state.stream, state.position) {
            None => Err(DecodeError::TruncatedStream),
            Some(records) => if has_image_data(records) {
                Ok(image_data(records))
            } else {
                Err(DecodeError::Format(FormatError::MissingImageData))
            },
        }
    }
}

/// `seen` followed by what is still to come, where the stream does not
/// break off.
spec fn joined(seen: Seq<Record>, rest: Option<Seq<Record>>) -> Option<Seq<Record>> {
    match rest {
        None => None,
        Some(rest) => Some(seen + rest),
    }
}

/// One more record adds its contribution at the end.
proof fn lemma_push_record(seen: Seq<Record>, record: Record)
    ensures
        image_data(seen.push(record)) == image_data(seen) + contribution(record),
        has_image_data(seen.push(record)) <==> has_image_data(seen) || kind_of(
            record.tag,
        ) is ImageData,
{
    let more = seen.push(record);
    assert(more.drop_last() =~= seen);
    assert(more.last() == record);
    if has_image_data(seen) {
        let i = choose|i: int| 0 <= i < seen.len() && kind_of(#[trigger] seen[i].tag) is ImageData;
        assert(kind_of(more[i].tag) is ImageData);
    }
    if kind_of(record.tag) is ImageData {
        assert(kind_of(more[seen.len() as int].tag) is ImageData);
    }
    if has_image_data(more) {
        let i = choose|i: int| 0 <= i < more.len() && kind_of(#[trigger] more[i].tag) is ImageData;
        if i < seen.len() {
            assert(kind_of(seen[i].tag) is ImageData);
        }
    }
}

/// Reads on to the end record and returns the payloads of the image-data
/// records on the way, concatenated in stream order.
///
/// Records that are neither image data nor the end record are stepped
/// over. The read fails as truncated where the stream breaks off before
/// the end record, and with `MissingImageData` where the end record comes
/// before any image-data record.
pub fn assemble_image_data(reader: &mut ChunkReader) -> (res: Result<Vec<u8>, DecodeError>)
    ensures
        final(reader)@.stream == old(reader)@.stream,
        match assembled(old(reader)@) {
            Ok(data) => res matches Ok(buffer) && buffer@ == data,
            Err(e) => res == Err::<Vec<u8>, DecodeError>(e),
        },
        res is Ok ==> final(reader)@.finished,
{
    let mut data: Vec<u8> = Vec::new();
    let mut found = false;
    let ghost start = reader@;
    let ghost mut seen: Seq<Record> = Seq::empty();
    loop
        invariant
            start == old(reader)@,
            reader@.stream == start.stream,
            start.finished ==> reader@.finished && seen.len() == 0,
            !start.finished && reader@.finished ==> records_from(start.stream, start.position)
                == Some(seen),
            !start.finished && !reader@.finished ==> records_from(start.stream, start.position)
                == joined(seen, records_from(start.stream, reader@.position)),
            data@ == image_data(seen),
            found == has_image_data(seen),
        ensures
            reader@.finished,
        decreases reader@.stream.len() - reader@.position,
    {
        let ghost before = reader@;
        let chunk = match reader.next_record() {
            Ok(Some(chunk)) => chunk,
            Ok(None) => {
                break ;
            },
            Err(e) => {
                return Err(e);
            },
        };
        proof {
            let record = chunk@;
            lemma_push_record(seen, record);
            if kind_of(record.tag) is End {
                assert(seen + seq![record] =~= seen.push(record));
            } else {
                let rest = records_from(start.stream, record_end(start.stream, before.position));
                if rest is Some {
                    assert(seen + (seq![record] + rest->0) =~= seen.push(record) + rest->0);
                }
            }
            seen = seen.push(record);
        }
        match chunk.kind() {
            ChunkKind::ImageData => {
                data.extend_from_slice(chunk.chunk_data.as_slice());
                found = true;
                assert(data@ =~= image_data(seen));
            },
            _ => {
                assert(data@ =~= image_data(seen));
            },
        }
    }
    if found {
        Ok(data)
    } else {
        Err(DecodeError::Format(FormatError::MissingImageData))
    }
}

} // verus!
