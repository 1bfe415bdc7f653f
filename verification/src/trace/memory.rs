//! Reading a NUL-terminated string out of a traced process, chunk by chunk.

use vstd::prelude::*;
use crate::trace::error::{read_text, ReadError};

verus! {

/// How many bytes one read of the process's memory brings.
pub const CHUNK_BYTES: usize = 8;

/// No string is read further than this many bytes.
pub const MAX_STRING_BYTES: usize = 4096;

/// Where a reader stands.
#[derive(Clone, Copy, Debug, PartialEq, Eq, Structural)]
pub enum ReadStatus {
    /// More chunks are wanted.
    Reading,
    /// The terminator was found, or the longest string allowed was read.
    Complete,
    /// A chunk could not be had.
    Failed(ReadError),
}

/// A reader as plain values.
pub struct ReaderModel {
    /// The address of the string's first byte.
    pub start: u64,
    /// The bytes read so far, the terminator not among them.
    pub collected: Seq<u8>,
    /// Where the reader stands.
    pub status: ReadStatus,
}

/// The length of the part of `bytes` before its first NUL, or of all of it
/// where it holds none.
pub open spec fn text_length(bytes: Seq<u8>) -> nat
    decreases bytes.len(),
{
    if bytes.len() == 0 || bytes[0] == 0 {
        0
    } else {
        1 + text_length(bytes.drop_first())
    }
}

/// What `String::from_utf8_lossy` makes of `bytes`.
pub uninterp spec fn lossy_text(bytes: Seq<u8>) -> Seq<char>;

impl ReaderModel {
    /// A reader that has read nothing yet.
    pub open spec fn fresh(start: u64) -> ReaderModel {
        ReaderModel { start, collected: Seq::empty(), status: ReadStatus::Reading }
    }

    /// The address of the chunk wanted next, while one is wanted.
    pub open spec fn wanted(self) -> Option<u64> {
        if self.status == ReadStatus::Reading {
            Some((self.start + self.collected.len()) as u64)
        } else {
            None
        }
    }

    /// The reader after it was given `chunk`, the result of the read it
    /// asked for: `None` where the read failed.
    pub open spec fn supplied(self, chunk: Option<Seq<u8>>) -> ReaderModel {
        if self.status != ReadStatus::Reading {
            self
        } else {
            match chunk {
                None => ReaderModel {
                    status: ReadStatus::Failed(
                        ReadError::Unreadable {
                            address: (self.start + self.collected.len()) as u64,
                        },
                    ),
                    ..self
                },
                Some(bytes) => {
                    let kept = bytes.take(text_length(bytes) as int);
                    let collected = self.collected + kept;
                    let status = if text_length(bytes) < bytes.len() || collected.len()
                        >= MAX_STRING_BYTES {
                        ReadStatus::Complete
                    } else if self.start + collected.len() > u64::MAX {
                        ReadStatus::Failed(ReadError::AddressOverflow)
                    } else {
                        ReadStatus::Reading
                    };
                    ReaderModel { collected, status, ..self }
                },
            }
        }
    }

    /// The reader after it was given each of `chunks` in turn.
    pub open spec fn supplied_all(self, chunks: Seq<Option<Seq<u8>>>) -> ReaderModel
        decreases chunks.len(),
    {
        if chunks.len() == 0 {
            self
        } else {
            self.supplied(chunks[0]).supplied_all(chunks.drop_first())
        }
    }

    /// What the read comes to: the text, or why there is none. A reader
    /// that still wants a chunk did not get it.
    pub open spec fn outcome(self) -> Result<Seq<char>, ReadError> {
        match self.status {
            ReadStatus::Complete => Ok(lossy_text(self.collected)),
            ReadStatus::Failed(e) => Err(e),
            ReadStatus::Reading => Err(
                ReadError::Unreadable { address: (self.start + self.collected.len()) as u64 },
            ),
        }
    }

    /// What holds of every reader that the operations can reach.
    pub open spec fn wf(self) -> bool {
        &&& self.collected.len() <= MAX_STRING_BYTES + CHUNK_BYTES
        &&& self.status == ReadStatus::Reading ==> self.start + self.collected.len() <= u64::MAX
            && self.collected.len() < MAX_STRING_BYTES
        &&& forall|i: int| 0 <= i < self.collected.len() ==> self.collected[i] != 0
    }
}

/// The chunks as sequences of bytes.
pub open spec fn chunk_views(chunks: Seq<Option<[u8; 8]>>) -> Seq<Option<Seq<u8>>> {
    Seq::new(
        chunks.len(),
        |i: int|
            match chunks[i] {
                Some(bytes) => Some(bytes@),
                None => None,
            },
    )
}

/// `String::from_utf8_lossy`: the text that the bytes encode, with the
/// replacement character in place of whatever is not UTF-8. Bytes that
/// are UTF-8 come out as the text they encode.
#[verifier::external_body]
fn decode_lossy(bytes: &Vec<u8>) -> (text: String)
    ensures
        text@ == lossy_text(bytes@),
        vstd::utf8::valid_utf8(bytes@) ==> text@ == vstd::utf8::decode_utf8(bytes@),
{
    String::from_utf8_lossy(bytes).into_owned()
}

/// Reads a string that starts at a given address, one chunk at a time.
/// Whoever can read the process's memory asks [`CStringReader::request`]
/// for the address to read, and hands the chunk to
/// [`CStringReader::supply`], until no address is asked for.
pub struct CStringReader {
    start: u64,
    collected: Vec<u8>,
    status: ReadStatus,
}

impl View for CStringReader {
    type V = ReaderModel;

    closed spec fn view(&self) -> ReaderModel {
        ReaderModel { start: self.start, collected: self.collected@, status: self.status }
    }
}

impl CStringReader {
    /// A reader for the string at `address`.
    pub fn new(address: u64) -> (reader: CStringReader)
        ensures
            reader@ == ReaderModel::fresh(address),
            reader@.wf(),
    {
        CStringReader { start: address, collected: Vec::new(), status: ReadStatus::Reading }
    }

    /// The address of the chunk to read next; `None` once the read is over.
    pub fn request(&self) -> (address: Option<u64>)
        requires
            self@.wf(),
        ensures
            address == self@.wanted(),
    {
        match self.status {
            ReadStatus::Reading => Some(self.start + (self.collected.len() as u64)),
            _ => None,
        }
    }

    /// Takes the chunk that was asked for, or `None` where reading it
    /// failed. The bytes before the chunk's first NUL are kept. The read
    /// is over when a NUL was seen, when the longest string allowed was
    /// read, or when a chunk could not be had.
    pub fn supply(&mut self, chunk: Option<[u8; 8]>)
        requires
            old(self)@.wf(),
        ensures
            final(self)@.wf(),
            final(self)@ == old(self)@.supplied(
                match chunk {
                    Some(bytes) => Some(bytes@),
                    None => None,
                },
            ),
    {
        match self.status {
            ReadStatus::Reading => {},
            _ => {
                return ;
            },
        }
        let next: u64 = self.start + (self.collected.len() as u64);
        match chunk {
            None => {
                self.status = ReadStatus::Failed(ReadError::Unreadable { address: next });
            },
            Some(bytes) => {
                let ghost before = self.collected@;
                let mut i: usize = 0;
                while i < 8 && bytes[i] != 0
                    invariant
                        i <= 8,
                        self.start == old(self).start,
                        self.status == ReadStatus::Reading,
                        self.collected@ == before + bytes@.take(i as int),
                        forall|j: int| 0 <= j < i ==> bytes@[j] != 0,
                        before.len() < MAX_STRING_BYTES,
                    decreases 8 - i,
                {
                    self.collected.push(bytes[i]);
                    assert(bytes@.take(i + 1) =~= bytes@.take(i as int).push(bytes@[i as int]));
                    i += 1;
                }
                proof {
                    lemma_text_length(bytes@, i as int);
                }
                if i < 8 || self.collected.len() >= MAX_STRING_BYTES {
                    self.status = ReadStatus::Complete;
                } else if self.start > u64::MAX - (self.collected.len() as u64) {
                    self.status = ReadStatus::Failed(ReadError::AddressOverflow);
                }
            },
        }
    }

    /// Ends the read: the text where the read is complete, with what is
    /// not UTF-8 replaced; else the reason why there is none.
    pub fn finish(self) -> (text: Result<String, ReadError>)
        requires
            self@.wf(),
        ensures
            read_text(text) == self@.outcome(),
    {
        match self.status {
            ReadStatus::Complete => Ok(decode_lossy(&self.collected)),
            ReadStatus::Failed(e) => Err(e),
            ReadStatus::Reading => Err(
                ReadError::Unreadable { address: self.start + (self.collected.len() as u64) },
            ),
        }
    }
}

/// Where the bytes before `end` hold no NUL and `end` is the end of the
/// bytes or the place of a NUL, `end` is the length of the text.
pub proof fn lemma_text_length(bytes: Seq<u8>, end: int)
    requires
        0 <= end <= bytes.len(),
        forall|j: int| 0 <= j < end ==> bytes[j] != 0,
        end < bytes.len() ==> bytes[end] == 0,
    ensures
        text_length(bytes) == end,
    decreases bytes.len(),
{
    if bytes.len() == 0 || bytes[0] == 0 {
    } else {
        let rest = bytes.drop_first();
        assert forall|j: int| 0 <= j < end - 1 implies rest[j] != 0 by {
            assert(rest[j] == bytes[j + 1]);
        }
        lemma_text_length(rest, end - 1);
    }
}

/// Reads the string at `address` from the chunks that the successive
/// reads brought, `None` standing for a read that failed. Chunks after
/// the end of the read are not looked at; where the chunks run out before
/// it, the chunk that is missing counts as unreadable.
pub fn read_c_string(address: u64, chunks: &Vec<Option<[u8; 8]>>) -> (text: Result<
    String,
    ReadError,
>)
    ensures
        read_text(text) == ReaderModel::fresh(address).supplied_all(
            chunk_views(chunks@),
        ).outcome(),
{
    let mut reader = CStringReader::new(address);
    let ghost all = chunk_views(chunks@);
    let mut i: usize = 0;
    proof {
        assert(all.skip(0) =~= all);
    }
    while i < chunks.len()
        invariant
            i <= chunks.len(),
            all == chunk_views(chunks@),
            reader@.wf(),
            reader@.supplied_all(all.skip(i as int)) == ReaderModel::fresh(address).supplied_all(
                all,
            ),
        decreases chunks.len() - i,
    {
        let ghost before = reader@;
        reader.supply(chunks[i]);
        proof {
            assert(all.skip(i as int)[0] == all[i as int]);
            assert(all.skip(i as int).drop_first() =~= all.skip(i + 1));
        }
        i += 1;
    }
    proof {
        assert(all.skip(chunks.len() as int) =~= Seq::<Option<Seq<u8>>>::empty());
    }
    reader.finish()
}

/// The bytes of the chunks one after another.
pub open spec fn stream(chunks: Seq<Seq<u8>>) -> Seq<u8>
    decreases chunks.len(),
{
    if chunks.len() == 0 {
        Seq::empty()
    } else {
        chunks[0] + stream(chunks.drop_first())
    }
}

/// The chunks as the results of reads that all went well.
pub open spec fn all_read(chunks: Seq<Seq<u8>>) -> Seq<Option<Seq<u8>>> {
    Seq::new(chunks.len(), |i: int| Some(chunks[i]))
}

/// The text of two runs of bytes one after the other ends in the first
/// run if that holds a NUL, and else goes on with the text of the second.
pub proof fn lemma_text_length_of_sum(a: Seq<u8>, b: Seq<u8>)
    ensures
        text_length(a + b) == if text_length(a) < a.len() {
            text_length(a)
        } else {
            a.len() + text_length(b)
        },
        text_length(a) <= a.len(),
    decreases a.len(),
{
    if a.len() == 0 {
        assert(a + b =~= b);
    } else {
        assert((a + b)[0] == a[0]);
        assert((a + b).drop_first() =~= a.drop_first() + b);
        lemma_text_length_of_sum(a.drop_first(), b);
    }
}

/// A reader that does not want a chunk takes none.
pub proof fn lemma_reader_at_rest(m: ReaderModel, chunks: Seq<Option<Seq<u8>>>)
    requires
        m.status != ReadStatus::Reading,
    ensures
        m.supplied_all(chunks) == m,
    decreases chunks.len(),
{
    if chunks.len() > 0 {
        lemma_reader_at_rest(m, chunks.drop_first());
    }
}

/// A reader that is given chunks of full length which hold a NUL, not
/// too far on and within the address space, comes to its end with the
/// bytes before that NUL added to those it had.
pub proof fn lemma_reader_stops_at_terminator(m: ReaderModel, chunks: Seq<Seq<u8>>)
    requires
        m.status == ReadStatus::Reading,
        forall|i: int| 0 <= i < chunks.len() ==> (#[trigger] chunks[i]).len() == CHUNK_BYTES,
        text_length(stream(chunks)) < stream(chunks).len(),
        m.collected.len() + text_length(stream(chunks)) < MAX_STRING_BYTES,
        m.start + m.collected.len() + text_length(stream(chunks)) <= u64::MAX,
    ensures
        m.supplied_all(all_read(chunks)).status == ReadStatus::Complete,
        m.supplied_all(all_read(chunks)).collected == m.collected + stream(chunks).take(
            text_length(stream(chunks)) as int,
        ),
    decreases chunks.len(),
{
    if chunks.len() > 0 {
        let first = chunks[0];
        let rest = chunks.drop_first();
        let given = all_read(chunks);
        let next = m.supplied(Some(first));
        let whole = stream(chunks);
        lemma_text_length_of_sum(first, stream(rest));
        assert(given[0] == Some(first));
        assert(given.drop_first() =~= all_read(rest));
        assert(first.len() == CHUNK_BYTES);
        if text_length(first) < first.len() {
            lemma_reader_at_rest(next, all_read(rest));
            assert(whole.take(text_length(whole) as int) =~= first.take(
                text_length(first) as int,
            ));
        } else {
            assert(first.take(text_length(first) as int) =~= first);
            assert forall|i: int| 0 <= i < rest.len() implies (#[trigger] rest[i]).len()
                == CHUNK_BYTES by {
                assert(rest[i] == chunks[i + 1]);
            }
            lemma_reader_stops_at_terminator(next, rest);
            assert(whole.take(text_length(whole) as int) =~= first + stream(rest).take(
                text_length(stream(rest)) as int,
            ));
            assert(m.collected + first + stream(rest).take(text_length(stream(rest)) as int)
                =~= m.collected + (first + stream(rest).take(
                text_length(stream(rest)) as int,
            )));
        }
    }
}

/// Reading stops at the terminator. Where every read brings a full chunk
/// and the chunks hold a NUL within the longest string allowed and
/// within the address space, what is read is the text of the bytes
/// before the first NUL.
pub proof fn lemma_read_stops_at_terminator(address: u64, chunks: Seq<Seq<u8>>)
    requires
        forall|i: int| 0 <= i < chunks.len() ==> (#[trigger] chunks[i]).len() == CHUNK_BYTES,
        text_length(stream(chunks)) < stream(chunks).len(),
        text_length(stream(chunks)) < MAX_STRING_BYTES,
        address + text_length(stream(chunks)) <= u64::MAX,
    ensures
        ReaderModel::fresh(address).supplied_all(all_read(chunks)).outcome() == Ok::<
            Seq<char>,
            ReadError,
        >(lossy_text(stream(chunks).take(text_length(stream(chunks)) as int))),
{
    let m = ReaderModel::fresh(address);
    lemma_reader_stops_at_terminator(m, chunks);
    assert(m.collected + stream(chunks).take(text_length(stream(chunks)) as int) =~= stream(
        chunks,
    ).take(text_length(stream(chunks)) as int));
}

/// Reading fails at the first read that fails. Where the reads bring
/// full chunks without a NUL, fewer than fill the longest string
/// allowed, and then one fails, the failure is reported with the address
/// of the chunk that could not be read.
pub proof fn lemma_read_fails_at_unreadable(address: u64, chunks: Seq<Seq<u8>>)
    requires
        forall|i: int| 0 <= i < chunks.len() ==> (#[trigger] chunks[i]).len() == CHUNK_BYTES,
        text_length(stream(chunks)) == stream(chunks).len(),
        stream(chunks).len() < MAX_STRING_BYTES,
        address + stream(chunks).len() <= u64::MAX,
    ensures
        ReaderModel::fresh(address).supplied_all(all_read(chunks).push(None)).outcome() == Err::<
            Seq<char>,
            ReadError,
        >(ReadError::Unreadable { address: (address + stream(chunks).len()) as u64 }),
{
    lemma_reader_fails(ReaderModel::fresh(address), chunks);
}

proof fn lemma_reader_fails(m: ReaderModel, chunks: Seq<Seq<u8>>)
    requires
        m.status == ReadStatus::Reading,
        forall|i: int| 0 <= i < chunks.len() ==> (#[trigger] chunks[i]).len() == CHUNK_BYTES,
        text_length(stream(chunks)) == stream(chunks).len(),
        m.collected.len() + stream(chunks).len() < MAX_STRING_BYTES,
        m.start + m.collected.len() + stream(chunks).len() <= u64::MAX,
    ensures
        m.supplied_all(all_read(chunks).push(None)).status == ReadStatus::Failed(
            ReadError::Unreadable {
                address: (m.start + m.collected.len() + stream(chunks).len()) as u64,
            },
        ),
    decreases chunks.len(),
{
    let given = all_read(chunks).push(None);
    if chunks.len() == 0 {
        assert(given[0] == None::<Seq<u8>>);
        assert(given.drop_first() =~= Seq::<Option<Seq<u8>>>::empty());
        assert(m.supplied(None).supplied_all(given.drop_first()) == m.supplied(None));
    } else {
        let first = chunks[0];
        let rest = chunks.drop_first();
        let next = m.supplied(Some(first));
        lemma_text_length_of_sum(first, stream(rest));
        lemma_text_length_of_sum(stream(rest), Seq::empty());
        assert(given[0] == Some(first));
        assert(given.drop_first() =~= all_read(rest).push(None));
        assert(first.len() == CHUNK_BYTES);
        assert(first.take(text_length(first) as int) =~= first);
        assert forall|i: int| 0 <= i < rest.len() implies (#[trigger] rest[i]).len()
            == CHUNK_BYTES by {
            assert(rest[i] == chunks[i + 1]);
        }
        lemma_reader_fails(next, rest);
    }
}

} // verus!
