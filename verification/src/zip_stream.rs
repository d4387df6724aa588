//! A streaming archive writer: which entry operations to perform, in which order, on which bytes.

use async_zip::Compression;
use vstd::prelude::*;
use vstd::slice::slice_subrange;

verus! {

/// Compression method for a streamed ZIP entry.
#[derive(Debug, Clone, Copy, PartialEq, Eq, Structural)]
pub enum ZipStreamMethod {
    /// No compression. CPU-free; archive size ~= sum of object sizes.
    Stored,
    /// DEFLATE compression.
    Deflate,
}

/// The compression methods of `async_zip`.
///
/// Trusted: `Compression` is an enum without data, with the variants of the outside declaration.
#[verifier::external_type_specification]
pub struct ExCompression(async_zip::Compression);

/// The compression of `async_zip` that a method stands for.
pub open spec fn compression_of(method: ZipStreamMethod) -> Compression {
    match method {
        ZipStreamMethod::Stored => Compression::Stored,
        ZipStreamMethod::Deflate => Compression::Deflate,
    }
}

impl From<ZipStreamMethod> for Compression {
    fn from(method: ZipStreamMethod) -> (compression: Self) {
        match method {
            ZipStreamMethod::Stored => Compression::Stored,
            ZipStreamMethod::Deflate => Compression::Deflate,
        }
    }
}

impl vstd::std_specs::convert::FromSpecImpl<ZipStreamMethod> for Compression {
    open spec fn obeys_from_spec() -> bool {
        true
    }

    open spec fn from_spec(method: ZipStreamMethod) -> Self {
        compression_of(method)
    }
}

/// How many bytes of an entry are read at a time.
pub const CHUNK_SIZE: usize = 65536;

/// One entry of an archive.
pub struct ArchiveEntry {
    pub name: Seq<char>,
    pub method: ZipStreamMethod,
    pub data: Seq<u8>,
}

/// An entry that has just been opened: it has no data yet.
pub open spec fn empty_entry(name: Seq<char>, method: ZipStreamMethod) -> ArchiveEntry {
    ArchiveEntry { name, method, data: Seq::empty() }
}

/// The entry with one more chunk written to it.
pub open spec fn with_chunk(entry: ArchiveEntry, chunk: Seq<u8>) -> ArchiveEntry {
    ArchiveEntry { data: entry.data + chunk, ..entry }
}

/// A chunk that was read for an entry and is not written yet.
pub struct PendingChunk {
    pub entry: ArchiveEntry,
    pub chunk: Seq<u8>,
}

/// What the addition of an entry does next. `E` is the error of a failed operation.
pub enum AddView<E> {
    Open(ArchiveEntry),
    Read(ArchiveEntry),
    Write(PendingChunk),
    Close(ArchiveEntry),
    Added,
    Failed(E),
}

/// What a step is answered.
pub enum AddReply<E> {
    /// The entry is open.
    Opened,
    /// These bytes were read; none at all means that the data is over.
    Read(Seq<u8>),
    /// The chunk is written.
    Written,
    /// The entry is closed.
    Closed,
    /// The operation failed.
    Failed(E),
}

/// What follows a step and its answer. A failure of any operation ends the addition with its error;
/// an addition that is over stays as it is, and so does one that gets an answer to another step.
pub open spec fn next_add<E>(step: AddView<E>, reply: AddReply<E>) -> AddView<E> {
    match (step, reply) {
        (AddView::Added, _) => step,
        (AddView::Failed(_), _) => step,
        (_, AddReply::Failed(error)) => AddView::Failed(error),
        (AddView::Open(entry), AddReply::Opened) => AddView::Read(entry),
        (AddView::Read(entry), AddReply::Read(chunk)) => if chunk.len() == 0 {
            AddView::Close(entry)
        } else {
            AddView::Write(PendingChunk { entry, chunk })
        },
        (AddView::Write(pending), AddReply::Written) => AddView::Read(
            with_chunk(pending.entry, pending.chunk),
        ),
        (AddView::Close(_), AddReply::Closed) => AddView::Added,
        _ => step,
    }
}

/// A streaming, ZIP64-capable archive writer. Its view is the entries that were written in full.
///
/// The writer decides; opening, reading, writing and closing are left to the caller. The addition
/// of an entry is a chain of [`AddStep`]s: each says what to do next and takes the outcome.
pub struct ZipStreamWriter {
    entries: Ghost<Seq<ArchiveEntry>>,
}

impl View for ZipStreamWriter {
    type V = Seq<ArchiveEntry>;

    closed spec fn view(&self) -> Seq<ArchiveEntry> {
        self.entries@
    }
}

impl ZipStreamWriter {
    /// Create a new streaming writer.
    pub fn new() -> (writer: Self)
        ensures
            writer@ == Seq::<ArchiveEntry>::empty(),
    {
        ZipStreamWriter { entries: Ghost(Seq::empty()) }
    }

    /// Append one entry named `name`, with all the bytes that are read for it.
    pub fn add<E>(&self, name: &str, method: ZipStreamMethod) -> (step: AddStep<E>)
        ensures
            step@ == AddView::<E>::Open(empty_entry(name@, method)),
            step matches AddStep::Open(opening) && opening@.name == name@ && opening@.method == method
                && opening@.data.len() == 0,
    {
        AddStep::Open(OpenEntry { name: name.to_owned(), method })
    }

    /// Whether the archive is written with ZIP64 records whatever its size: it always is, so it may
    /// exceed 4 GiB and 65535 entries.
    pub fn forces_zip64(&self) -> (forced: bool)
        ensures
            forced,
    {
        true
    }

    /// Finish the archive: no entry can follow.
    pub fn finish(self) -> (step: CloseArchive)
        ensures
            step@ == self@,
    {
        CloseArchive { entries: self.entries }
    }
}

/// The next thing to do is to close the archive: to write the central directory of its entries.
pub struct CloseArchive {
    entries: Ghost<Seq<ArchiveEntry>>,
}

impl View for CloseArchive {
    type V = Seq<ArchiveEntry>;

    closed spec fn view(&self) -> Seq<ArchiveEntry> {
        self.entries@
    }
}

impl CloseArchive {
    /// The archive is closed.
    pub fn closed<E>(self) -> (outcome: Result<(), E>)
        ensures
            outcome == Ok::<(), E>(()),
    {
        Ok(())
    }

    /// The archive could not be closed.
    pub fn failed<E>(self, error: E) -> (outcome: Result<(), E>)
        ensures
            outcome == Err::<(), E>(error),
    {
        Err(error)
    }
}

/// A step of the addition of an entry. `E` is the error of a failed operation.
pub enum AddStep<E> {
    /// Open the entry.
    Open(OpenEntry),
    /// Read into the buffer.
    Read(ReadChunk),
    /// Write the chunk that was read.
    Write(WriteChunk),
    /// Close the entry.
    Close(CloseEntry),
    /// The entry is part of the archive.
    Added,
    /// An operation failed with this error. The entry is no part of the archive.
    Failed(E),
}

impl<E> View for AddStep<E> {
    type V = AddView<E>;

    open spec fn view(&self) -> AddView<E> {
        match *self {
            AddStep::Open(step) => AddView::Open(step@),
            AddStep::Read(step) => AddView::Read(step@),
            AddStep::Write(step) => AddView::Write(step@),
            AddStep::Close(step) => AddView::Close(step@),
            AddStep::Added => AddView::Added,
            AddStep::Failed(error) => AddView::Failed(error),
        }
    }
}

/// The next thing to do is to open an entry.
pub struct OpenEntry {
    name: String,
    method: ZipStreamMethod,
}

impl View for OpenEntry {
    type V = ArchiveEntry;

    closed spec fn view(&self) -> ArchiveEntry {
        empty_entry(self.name@, self.method)
    }
}

impl OpenEntry {
    /// The name of the entry.
    pub fn name(&self) -> (name: &str)
        ensures
            name@ == self@.name,
    {
        self.name.as_str()
    }

    /// The compression of the entry.
    pub fn compression(&self) -> (compression: Compression)
        ensures
            compression == compression_of(self@.method),
            compression == Compression::Stored <==> self@.method == ZipStreamMethod::Stored,
            compression == Compression::Deflate <==> self@.method == ZipStreamMethod::Deflate,
    {
        Compression::from(self.method)
    }

    /// The entry is open.
    pub fn opened<E>(self) -> (step: AddStep<E>)
        ensures
            step@ == next_add(AddView::Open(self@), AddReply::<E>::Opened),
            step matches AddStep::Read(reading) && reading.buffer().len() == CHUNK_SIZE,
            step matches AddStep::Read(reading) && reading@ == self@ && reading.buffer().len() == 64
                * 1024,
    {
        let buf: Vec<u8> = vec![0u8; CHUNK_SIZE];
        AddStep::Read(
            ReadChunk { name: self.name, method: self.method, data: Ghost(Seq::empty()), buf },
        )
    }

    /// The entry could not be opened.
    pub fn failed<E>(self, error: E) -> (step: AddStep<E>)
        ensures
            step@ == next_add(AddView::Open(self@), AddReply::Failed(error)),
            step == AddStep::Failed(error),
    {
        AddStep::Failed(error)
    }
}

/// The next thing to do is to read into the buffer.
pub struct ReadChunk {
    name: String,
    method: ZipStreamMethod,
    data: Ghost<Seq<u8>>,
    buf: Vec<u8>,
}

impl View for ReadChunk {
    type V = ArchiveEntry;

    closed spec fn view(&self) -> ArchiveEntry {
        ArchiveEntry { name: self.name@, method: self.method, data: self.data@ }
    }
}

impl ReadChunk {
    /// What the buffer holds.
    pub closed spec fn buffer(&self) -> Seq<u8> {
        self.buf@
    }

    /// The buffer to read into.
    pub fn buffer_mut(&mut self) -> (buffer: &mut [u8])
        ensures
            buffer@ == old(self).buffer(),
            final(self).buffer() == final(buffer)@,
            final(self)@ == old(self)@,
    {
        self.buf.as_mut_slice()
    }

    /// How many bytes the buffer has room for.
    pub fn capacity(&self) -> (capacity: usize)
        ensures
            capacity == self.buffer().len(),
    {
        self.buf.len()
    }

    /// The first `read` bytes of the buffer were read. None at all means that the data is over.
    pub fn read<E>(self, read: usize) -> (step: AddStep<E>)
        requires
            read <= self.buffer().len(),
        ensures
            step@ == next_add(
                AddView::Read(self@),
                AddReply::<E>::Read(self.buffer().take(read as int)),
            ),
            step matches AddStep::Write(writing) ==> writing.buffer() == self.buffer(),
            read == 0 ==> (step matches AddStep::Close(closing) && closing@ == self@),
            read > 0 ==> (step matches AddStep::Write(writing) && writing@.chunk
                == self.buffer().subrange(0, read as int) && writing@.entry == self@),
    {
        if read == 0 {
            AddStep::Close(CloseEntry { name: self.name, method: self.method, data: self.data })
        } else {
            AddStep::Write(
                WriteChunk {
                    name: self.name,
                    method: self.method,
                    data: self.data,
                    buf: self.buf,
                    len: read,
                },
            )
        }
    }

    /// The read failed.
    pub fn failed<E>(self, error: E) -> (step: AddStep<E>)
        ensures
            step@ == next_add(AddView::Read(self@), AddReply::Failed(error)),
            step == AddStep::Failed(error),
    {
        AddStep::Failed(error)
    }
}

/// The next thing to do is to write the chunk that was read.
pub struct WriteChunk {
    name: String,
    method: ZipStreamMethod,
    data: Ghost<Seq<u8>>,
    buf: Vec<u8>,
    len: usize,
}

impl View for WriteChunk {
    type V = PendingChunk;

    closed spec fn view(&self) -> PendingChunk {
        PendingChunk {
            entry: ArchiveEntry { name: self.name@, method: self.method, data: self.data@ },
            chunk: self.buf@.take(self.len as int),
        }
    }
}

impl WriteChunk {
    #[verifier::type_invariant]
    spec fn chunk_is_in_the_buffer(self) -> bool {
        self.len <= self.buf@.len()
    }

    /// What the buffer holds.
    pub closed spec fn buffer(&self) -> Seq<u8> {
        self.buf@
    }

    /// The bytes to write: never more than the buffer holds.
    pub fn chunk(&self) -> (chunk: &[u8])
        ensures
            chunk@ == self@.chunk,
            chunk@.len() <= self.buffer().len(),
    {
        proof {
            use_type_invariant(self);
        }
        slice_subrange(self.buf.as_slice(), 0, self.len)
    }

    /// The chunk is written.
    pub fn written<E>(self) -> (step: AddStep<E>)
        ensures
            step@ == next_add(AddView::Write(self@), AddReply::<E>::Written),
            step matches AddStep::Read(reading) && reading.buffer() == self.buffer(),
            step matches AddStep::Read(reading) && reading@.name == self@.entry.name
                && reading@.method == self@.entry.method && reading@.data == self@.entry.data
                + self@.chunk,
    {
        AddStep::Read(
            ReadChunk {
                name: self.name,
                method: self.method,
                data: Ghost(self.data@ + self.buf@.take(self.len as int)),
                buf: self.buf,
            },
        )
    }

    /// The chunk could not be written.
    pub fn failed<E>(self, error: E) -> (step: AddStep<E>)
        ensures
            step@ == next_add(AddView::Write(self@), AddReply::Failed(error)),
            step == AddStep::Failed(error),
    {
        AddStep::Failed(error)
    }
}

/// The next thing to do is to close the entry.
pub struct CloseEntry {
    name: String,
    method: ZipStreamMethod,
    data: Ghost<Seq<u8>>,
}

impl View for CloseEntry {
    type V = ArchiveEntry;

    closed spec fn view(&self) -> ArchiveEntry {
        ArchiveEntry { name: self.name@, method: self.method, data: self.data@ }
    }
}

impl CloseEntry {
    /// The entry is closed: it is part of the archive.
    pub fn closed<E>(self, writer: &mut ZipStreamWriter) -> (step: AddStep<E>)
        ensures
            final(writer)@ == old(writer)@.push(self@),
            step@ == next_add(AddView::Close(self@), AddReply::<E>::Closed),
            step is Added,
    {
        writer.entries = Ghost(
            writer.entries@.push(
                ArchiveEntry { name: self.name@, method: self.method, data: self.data@ },
            ),
        );
        AddStep::Added
    }

    /// The entry could not be closed.
    pub fn failed<E>(self, error: E) -> (step: AddStep<E>)
        ensures
            step@ == next_add(AddView::Close(self@), AddReply::Failed(error)),
            step == AddStep::Failed(error),
    {
        AddStep::Failed(error)
    }
}

/// Where the addition of an entry stands after the replies.
pub open spec fn run_add<E>(
    name: Seq<char>,
    method: ZipStreamMethod,
    replies: Seq<AddReply<E>>,
) -> AddView<E>
    decreases replies.len(),
{
    if replies.len() == 0 {
        AddView::Open(empty_entry(name, method))
    } else {
        next_add(run_add(name, method, replies.drop_last()), replies.last())
    }
}

/// What was read for an entry: every answer to a read, in turn.
pub open spec fn chunks_read<E>(
    name: Seq<char>,
    method: ZipStreamMethod,
    replies: Seq<AddReply<E>>,
) -> Seq<Seq<u8>>
    decreases replies.len(),
{
    if replies.len() == 0 {
        Seq::empty()
    } else {
        let before = chunks_read(name, method, replies.drop_last());
        match (run_add(name, method, replies.drop_last()), replies.last()) {
            (AddView::Read(_), AddReply::Read(chunk)) => before.push(chunk),
            _ => before,
        }
    }
}

/// What holds of an addition at every point.
spec fn is_on_course<E>(
    name: Seq<char>,
    method: ZipStreamMethod,
    replies: Seq<AddReply<E>>,
) -> bool {
    let chunks = chunks_read(name, method, replies);
    let whole = ArchiveEntry { name, method, data: chunks.flatten() };
    match run_add(name, method, replies) {
        AddView::Open(entry) => entry == whole && chunks.len() == 0,
        AddView::Read(entry) => entry == whole,
        AddView::Write(pending) => with_chunk(pending.entry, pending.chunk) == whole,
        AddView::Close(entry) => {
            &&& entry == whole
            &&& chunks.len() > 0
            &&& chunks.last().len() == 0
        },
        AddView::Added => chunks.len() > 0 && chunks.last().len() == 0,
        AddView::Failed(_) => true,
    }
}

proof fn lemma_is_on_course<E>(
    name: Seq<char>,
    method: ZipStreamMethod,
    replies: Seq<AddReply<E>>,
)
    ensures
        is_on_course(name, method, replies),
    decreases replies.len(),
{
    if replies.len() == 0 {
        assert(chunks_read(name, method, replies).flatten() =~= Seq::empty());
    } else {
        let before = replies.drop_last();
        let chunks = chunks_read(name, method, before);
        lemma_is_on_course(name, method, before);
        match (run_add(name, method, before), replies.last()) {
            (AddView::Read(entry), AddReply::Read(chunk)) => {
                chunks.lemma_flatten_push(chunk);
                assert(chunk.len() == 0 ==> entry.data + chunk =~= entry.data);
            },
            _ => {},
        }
    }
}

/// An entry is closed, and so becomes part of the archive, with exactly the bytes that were read
/// for it, in the order of reading, under its name and method; and not before a read has found the
/// data to be over.
pub proof fn law_entry_holds_what_was_read<E>(
    name: Seq<char>,
    method: ZipStreamMethod,
    replies: Seq<AddReply<E>>,
)
    requires
        run_add(name, method, replies) is Close,
    ensures
        run_add(name, method, replies)->Close_0 == (ArchiveEntry {
            name,
            method,
            data: chunks_read(name, method, replies).flatten(),
        }),
        chunks_read(name, method, replies).len() > 0,
        chunks_read(name, method, replies).last().len() == 0,
{
    lemma_is_on_course(name, method, replies);
}

/// An addition succeeds only when the entry was closed, never after a failure.
pub proof fn law_an_addition_succeeds_only_by_closing<E>(
    name: Seq<char>,
    method: ZipStreamMethod,
    replies: Seq<AddReply<E>>,
    reply: AddReply<E>,
)
    requires
        run_add(name, method, replies.push(reply)) is Added,
    ensures
        run_add(name, method, replies) is Added || (run_add(name, method, replies) is Close
            && reply is Closed),
{
    assert(replies.push(reply).drop_last() =~= replies);
}

/// Whatever operation fails, the addition ends in its error.
pub proof fn law_a_failed_operation_ends_the_addition<E>(
    name: Seq<char>,
    method: ZipStreamMethod,
    replies: Seq<AddReply<E>>,
    error: E,
)
    requires
        !(run_add(name, method, replies) is Added),
        !(run_add(name, method, replies) is Failed),
    ensures
        run_add(name, method, replies.push(AddReply::Failed(error))) == AddView::Failed(error),
{
    assert(replies.push(AddReply::Failed(error)).drop_last() =~= replies);
}

/// An addition that is over stays as it is: after a failure nothing more is read, and the error
/// stays the result.
pub proof fn law_the_end_of_an_addition_is_final<E>(
    name: Seq<char>,
    method: ZipStreamMethod,
    replies: Seq<AddReply<E>>,
    more: Seq<AddReply<E>>,
)
    requires
        run_add(name, method, replies) is Added || run_add(name, method, replies) is Failed,
    ensures
        run_add(name, method, replies + more) == run_add(name, method, replies),
        chunks_read(name, method, replies + more) == chunks_read(name, method, replies),
    decreases more.len(),
{
    if more.len() > 0 {
        law_the_end_of_an_addition_is_final(name, method, replies, more.drop_last());
        assert((replies + more).drop_last() =~= replies + more.drop_last());
    } else {
        assert(replies + more =~= replies);
    }
}

/// The chunks that were handed out and written for an entry, in turn.
pub open spec fn chunks_written<E>(
    name: Seq<char>,
    method: ZipStreamMethod,
    replies: Seq<AddReply<E>>,
) -> Seq<Seq<u8>>
    decreases replies.len(),
{
    if replies.len() == 0 {
        Seq::empty()
    } else {
        let before = chunks_written(name, method, replies.drop_last());
        match (run_add(name, method, replies.drop_last()), replies.last()) {
            (AddView::Write(pending), AddReply::Written) => before.push(pending.chunk),
            _ => before,
        }
    }
}

proof fn lemma_written_is_what_was_read<E>(
    name: Seq<char>,
    method: ZipStreamMethod,
    replies: Seq<AddReply<E>>,
)
    ensures
        match run_add(name, method, replies) {
            AddView::Write(pending) => chunks_written(name, method, replies).flatten()
                + pending.chunk == chunks_read(name, method, replies).flatten(),
            AddView::Failed(_) => true,
            _ => chunks_written(name, method, replies).flatten() == chunks_read(
                name,
                method,
                replies,
            ).flatten(),
        },
    decreases replies.len(),
{
    if replies.len() > 0 {
        let before = replies.drop_last();
        lemma_written_is_what_was_read(name, method, before);
        let chunks = chunks_read(name, method, before);
        let written = chunks_written(name, method, before);
        match (run_add(name, method, before), replies.last()) {
            (AddView::Read(_), AddReply::Read(chunk)) => {
                chunks.lemma_flatten_push(chunk);
                assert(chunk.len() == 0 ==> chunks.flatten() + chunk =~= chunks.flatten());
            },
            (AddView::Write(pending), AddReply::Written) => {
                written.lemma_flatten_push(pending.chunk);
            },
            _ => {},
        }
    }
}

/// When an entry is to be closed, and when it is added, the chunks that were written, joined, are the
/// bytes that were read, joined: nothing is lost, repeated or changed between a read and a write.
pub proof fn law_what_is_written_is_what_was_read<E>(
    name: Seq<char>,
    method: ZipStreamMethod,
    replies: Seq<AddReply<E>>,
)
    requires
        run_add(name, method, replies) is Close || run_add(name, method, replies) is Added,
    ensures
        chunks_written(name, method, replies).flatten() == chunks_read(
            name,
            method,
            replies,
        ).flatten(),
{
    lemma_written_is_what_was_read(name, method, replies);
}

/// After a read of some bytes, exactly these are to be written; once they are written the next bytes
/// are to be read, and the entry has them at its end. After a read of none the entry is to be closed
/// as it is. Name and method stay.
pub proof fn law_bytes_that_are_read_are_written_next<E>(entry: ArchiveEntry, bytes: Seq<u8>)
    requires
        bytes.len() > 0,
    ensures
        next_add(AddView::Read(entry), AddReply::<E>::Read(bytes)) is Write,
        next_add(AddView::Read(entry), AddReply::<E>::Read(bytes))->Write_0.chunk == bytes,
        next_add(
            next_add(AddView::Read(entry), AddReply::<E>::Read(bytes)),
            AddReply::<E>::Written,
        ) == AddView::<E>::Read(
            ArchiveEntry { name: entry.name, method: entry.method, data: entry.data + bytes },
        ),
        next_add(AddView::Read(entry), AddReply::<E>::Read(Seq::empty())) == AddView::<E>::Close(
            entry,
        ),
{
}

/// The answers to an addition in which every operation succeeds and the reads give `chunks` in turn,
/// up to the end of the data.
pub open spec fn smooth_replies<E>(chunks: Seq<Seq<u8>>) -> Seq<AddReply<E>>
    decreases chunks.len(),
{
    if chunks.len() == 0 {
        seq![AddReply::Opened]
    } else {
        smooth_replies(chunks.drop_last()).push(AddReply::Read(chunks.last())).push(
            AddReply::Written,
        )
    }
}

proof fn lemma_smooth<E>(name: Seq<char>, method: ZipStreamMethod, chunks: Seq<Seq<u8>>)
    requires
        forall|i: int| 0 <= i < chunks.len() ==> (#[trigger] chunks[i]).len() > 0,
    ensures
        run_add(name, method, smooth_replies::<E>(chunks)) == AddView::<E>::Read(
            ArchiveEntry { name, method, data: chunks.flatten() },
        ),
        chunks_written(name, method, smooth_replies::<E>(chunks)) == chunks,
    decreases chunks.len(),
{
    if chunks.len() == 0 {
        assert(smooth_replies::<E>(chunks) == seq![AddReply::<E>::Opened]);
        assert(seq![AddReply::<E>::Opened].drop_last() =~= Seq::empty());
        assert(run_add(name, method, Seq::<AddReply<E>>::empty()) == AddView::<E>::Open(
            empty_entry(name, method),
        ));
        assert(chunks_written(name, method, Seq::<AddReply<E>>::empty()) =~= Seq::empty());
        assert(chunks.flatten() =~= Seq::empty());
    } else {
        let before = chunks.drop_last();
        let chunk = chunks.last();
        assert(chunks[chunks.len() - 1].len() > 0);
        assert forall|i: int| 0 <= i < before.len() implies (#[trigger] before[i]).len() > 0 by {
            assert(chunks[i].len() > 0);
        }
        lemma_smooth::<E>(name, method, before);
        let replies = smooth_replies::<E>(before);
        let reading = replies.push(AddReply::Read(chunk));
        assert(reading.drop_last() =~= replies);
        let all = reading.push(AddReply::Written);
        assert(all.drop_last() =~= reading);
        assert(smooth_replies::<E>(chunks) == all);
        let entry = ArchiveEntry { name, method, data: before.flatten() };
        assert(run_add(name, method, reading) == AddView::<E>::Write(PendingChunk { entry, chunk }));
        assert(chunks_written(name, method, reading) == before);
        assert(run_add(name, method, all) == next_add(
            run_add(name, method, reading),
            AddReply::Written,
        ));
        assert(chunks_written(name, method, all) == before.push(chunk));
        before.lemma_flatten_push(chunk);
        assert(before.push(chunk) =~= chunks);
    }
}

/// An addition in which every operation succeeds ends in an entry with its whole name, its method and
/// all the bytes of its reads, and each read was written as it was read; once closed it is added.
pub proof fn law_an_addition_without_failure_succeeds<E>(
    name: Seq<char>,
    method: ZipStreamMethod,
    chunks: Seq<Seq<u8>>,
)
    requires
        forall|i: int| 0 <= i < chunks.len() ==> (#[trigger] chunks[i]).len() > 0,
    ensures
        run_add(
            name,
            method,
            smooth_replies::<E>(chunks).push(AddReply::Read(Seq::empty())),
        ) == AddView::<E>::Close(ArchiveEntry { name, method, data: chunks.flatten() }),
        chunks_written(
            name,
            method,
            smooth_replies::<E>(chunks).push(AddReply::Read(Seq::empty())),
        ) == chunks,
        run_add(
            name,
            method,
            smooth_replies::<E>(chunks).push(AddReply::Read(Seq::empty())).push(AddReply::Closed),
        ) == AddView::<E>::Added,
{
    lemma_smooth::<E>(name, method, chunks);
    let replies = smooth_replies::<E>(chunks);
    let over = replies.push(AddReply::Read(Seq::empty()));
    assert(over.drop_last() =~= replies);
    assert(over.push(AddReply::Closed).drop_last() =~= over);
}

/// An addition that is answered no failure does not fail.
pub proof fn law_an_addition_fails_only_by_a_failure<E>(
    name: Seq<char>,
    method: ZipStreamMethod,
    replies: Seq<AddReply<E>>,
)
    requires
        forall|i: int| 0 <= i < replies.len() ==> !((#[trigger] replies[i]) is Failed),
    ensures
        !(run_add(name, method, replies) is Failed),
    decreases replies.len(),
{
    if replies.len() > 0 {
        assert(!(replies[replies.len() - 1] is Failed));
        assert forall|i: int| 0 <= i < replies.drop_last().len() implies !((
        #[trigger] replies.drop_last()[i]) is Failed) by {
            assert(!(replies[i] is Failed));
        }
        law_an_addition_fails_only_by_a_failure(name, method, replies.drop_last());
    }
}

/// An entry begins with its whole name, its method and no data; each method is compressed as it says.
pub proof fn law_an_entry_begins_as_it_was_asked_for(name: Seq<char>, method: ZipStreamMethod)
    ensures
        empty_entry(name, method).name == name,
        empty_entry(name, method).method == method,
        empty_entry(name, method).data.len() == 0,
        method == ZipStreamMethod::Stored ==> compression_of(method) == Compression::Stored,
        method == ZipStreamMethod::Deflate ==> compression_of(method) == Compression::Deflate,
{
}

/// A step shows which step it is and, of a failed one, the error.
pub proof fn law_an_addition_step_shows_what_it_is<E>(step: AddStep<E>)
    ensures
        step matches AddStep::Open(s) ==> step@ == AddView::<E>::Open(s@),
        step matches AddStep::Read(s) ==> step@ == AddView::<E>::Read(s@),
        step matches AddStep::Write(s) ==> step@ == AddView::<E>::Write(s@),
        step matches AddStep::Close(s) ==> step@ == AddView::<E>::Close(s@),
        step is Added <==> step@ is Added,
        step matches AddStep::Failed(error) ==> step@ == AddView::Failed(error),
{
}

} // verus!
