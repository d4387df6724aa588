use async_zip::base::write::ZipFileWriter;
use async_zip::{Compression, ZipEntryBuilder};
use futures::executor::block_on;
use futures::future::join;
use futures::io::AsyncWriteExt as _;
use std::io::{Cursor, Read};
use tokio::io::{AsyncRead, AsyncReadExt, AsyncWrite, DuplexStream};
use tokio_util::compat::Compat;
use zip_download::zip_stream::{AddStep, CloseEntry, OpenEntry, ReadChunk, WriteChunk, ZipStreamMethod, ZipStreamWriter, CHUNK_SIZE};

/// Performs on a real archive what the writer decides.
struct Archiver<W: AsyncWrite + Unpin> {
    inner: ZipFileWriter<Compat<W>>,
    writer: ZipStreamWriter,
}

impl<W: AsyncWrite + Unpin> Archiver<W> {
    fn new(sink: W) -> Self {
        let writer = ZipStreamWriter::new();
        let inner = ZipFileWriter::with_tokio(sink);
        let inner = if writer.forces_zip64() { inner.force_zip64() } else { inner };
        Archiver { inner, writer }
    }

    async fn add<R: AsyncRead + Unpin>(&mut self, name: &str, mut reader: R, method: ZipStreamMethod) -> Result<(), String> {
        let AddStep::Open(open) = self.writer.add::<String>(name, method) else { panic!("nothing to open") };
        let builder = ZipEntryBuilder::new(open.name().to_owned().into(), open.compression());
        let (mut entry, mut step) = match self.inner.write_entry_stream(builder).await {
            Ok(stream) => (Some(stream), open.opened()),
            Err(e) => (None, open.failed(e.to_string())),
        };
        loop {
            step = match step {
                AddStep::Open(_) => panic!("opened twice"),
                AddStep::Read(mut chunk) => match reader.read(chunk.buffer_mut()).await {
                    Ok(read) => chunk.read(read),
                    Err(e) => chunk.failed(e.to_string()),
                },
                AddStep::Write(chunk) => match entry.as_mut().unwrap().write_all(chunk.chunk()).await {
                    Ok(()) => chunk.written(),
                    Err(e) => chunk.failed(e.to_string()),
                },
                AddStep::Close(close) => match entry.take().unwrap().close().await {
                    Ok(()) => close.closed(&mut self.writer),
                    Err(e) => close.failed(e.to_string()),
                },
                AddStep::Added => return Ok(()),
                AddStep::Failed(error) => return Err(error),
            };
        }
    }

    async fn finish(self) -> Result<W, String> {
        let closing = self.writer.finish();
        match self.inner.close().await {
            Ok(sink) => closing.closed().map(|()| sink.into_inner()),
            Err(e) => match closing.failed(e.to_string()) {
                Ok(()) => panic!("the archive is not closed"),
                Err(error) => Err(error),
            },
        }
    }
}

async fn produce(sink: DuplexStream, entries: &[(String, Vec<u8>, ZipStreamMethod)]) {
    let mut writer = Archiver::new(sink);
    for (name, data, method) in entries {
        writer.add(name, &data[..], *method).await.expect("add entry");
    }
    writer.finish().await.expect("finish archive");
}

fn collect_stream_zip(entries: Vec<(String, Vec<u8>, ZipStreamMethod)>) -> Vec<u8> {
    let (sink, mut read_half) = tokio::io::duplex(64 * 1024);
    let mut bytes = Vec::new();
    let (_, drained) = block_on(join(produce(sink, &entries), read_half.read_to_end(&mut bytes)));
    drained.expect("drain archive");
    bytes
}

fn data_of(archive: &mut zip::ZipArchive<Cursor<Vec<u8>>>, name: &str) -> Vec<u8> {
    let mut data = Vec::new();
    archive.by_name(name).expect("entry").read_to_end(&mut data).expect("data");
    data
}

#[test]
fn zip_stream_writer_round_trips_through_extractor() {
    let bytes = collect_stream_zip(vec![
        ("root/a.txt".to_string(), b"hello".to_vec(), ZipStreamMethod::Stored),
        ("root/sub/b.txt".to_string(), b"world".to_vec(), ZipStreamMethod::Deflate),
    ]);
    let mut archive = zip::ZipArchive::new(Cursor::new(bytes)).expect("zip crate reads archive");
    assert_eq!(archive.len(), 2);
    assert_eq!(data_of(&mut archive, "root/a.txt"), b"hello");
    assert_eq!(data_of(&mut archive, "root/sub/b.txt"), b"world");
}

#[test]
fn zip_stream_writer_emits_zip64_for_many_entries() {
    // More than 65535 entries need the ZIP64 end of the central directory.
    let count = 70_000_u32;
    let entries = (0..count)
        .map(|i| (format!("f/{i}"), Vec::new(), ZipStreamMethod::Stored))
        .collect::<Vec<_>>();
    let bytes = collect_stream_zip(entries);
    let archive = zip::ZipArchive::new(Cursor::new(bytes)).expect("zip crate reads zip64 archive");
    assert_eq!(archive.len() as u32, count);
}

#[test]
fn zip_stream_writer_errors_when_sink_closes() {
    let (sink, read_half) = tokio::io::duplex(1024);
    drop(read_half);
    let mut writer = Archiver::new(sink);
    let big = vec![0_u8; 1024 * 1024];
    let result = block_on(async {
        writer.add("a.bin", &big[..], ZipStreamMethod::Stored).await?;
        writer.finish().await?;
        Ok::<_, String>(())
    });
    assert!(result.is_err(), "writer should error once the sink is closed");
}

#[test]
fn archive_always_ends_with_zip64_records() {
    let bytes = collect_stream_zip(Vec::new());
    assert_eq!(bytes[..4].to_vec(), b"PK\x06\x06".to_vec());
    assert!(bytes.windows(4).any(|w| w == b"PK\x06\x07"));
    assert!(ZipStreamWriter::new().forces_zip64());
}

#[test]
fn entries_longer_than_a_chunk_keep_their_bytes() {
    let data: Vec<u8> = (0..3 * CHUNK_SIZE + 17).map(|i| (i % 251) as u8).collect();
    let bytes = collect_stream_zip(vec![
        ("s".to_string(), data.clone(), ZipStreamMethod::Stored),
        ("d".to_string(), data.clone(), ZipStreamMethod::Deflate),
        ("e".to_string(), Vec::new(), ZipStreamMethod::Deflate),
    ]);
    let mut archive = zip::ZipArchive::new(Cursor::new(bytes)).unwrap();
    assert_eq!(data_of(&mut archive, "s"), data);
    assert_eq!(data_of(&mut archive, "d"), data);
    assert_eq!(data_of(&mut archive, "e"), Vec::<u8>::new());
    assert_eq!(archive.by_name("s").unwrap().compression(), zip::CompressionMethod::Stored);
    assert_eq!(archive.by_name("d").unwrap().compression(), zip::CompressionMethod::Deflated);
}

fn opening() -> OpenEntry {
    match ZipStreamWriter::new().add::<u32>("n", ZipStreamMethod::Deflate) {
        AddStep::Open(step) => step,
        _ => panic!("nothing to open"),
    }
}

fn reading() -> ReadChunk {
    match opening().opened::<u32>() {
        AddStep::Read(step) => step,
        _ => panic!("nothing to read"),
    }
}

fn writing(data: &[u8]) -> WriteChunk {
    let mut step = reading();
    step.buffer_mut()[..data.len()].copy_from_slice(data);
    match step.read::<u32>(data.len()) {
        AddStep::Write(step) => step,
        _ => panic!("nothing to write"),
    }
}

fn closing() -> CloseEntry {
    match reading().read::<u32>(0) {
        AddStep::Close(step) => step,
        _ => panic!("the data is not over"),
    }
}

#[test]
fn chunk_is_what_was_read() {
    assert_eq!(CHUNK_SIZE, 64 * 1024);
    assert_eq!(opening().name(), "n");
    assert_eq!(reading().buffer_mut().len(), CHUNK_SIZE);
    assert_eq!(reading().capacity(), CHUNK_SIZE);
    let write = writing(b"abc");
    assert_eq!(write.chunk(), b"abc");
    let AddStep::Read(read) = write.written::<u32>() else { panic!("nothing to read") };
    let AddStep::Close(close) = read.read::<u32>(0) else { panic!("the data is not over") };
    assert!(matches!(close.closed::<u32>(&mut ZipStreamWriter::new()), AddStep::Added));
}

#[test]
fn failed_operations_end_in_their_error() {
    assert!(matches!(opening().failed(1), AddStep::Failed(1)));
    assert!(matches!(reading().failed(2), AddStep::Failed(2)));
    assert!(matches!(writing(b"x").failed(3), AddStep::Failed(3)));
    assert!(matches!(closing().failed(4), AddStep::Failed(4)));
    assert_eq!(ZipStreamWriter::new().finish().failed(5), Err(5));
    assert_eq!(ZipStreamWriter::new().finish().closed::<u32>(), Ok(()));
}

/// Gives some bytes, then an error; counts how often it is read.
struct BrokenReader {
    reads: usize,
}

impl AsyncRead for BrokenReader {
    fn poll_read(
        mut self: std::pin::Pin<&mut Self>,
        _cx: &mut std::task::Context<'_>,
        buf: &mut tokio::io::ReadBuf<'_>,
    ) -> std::task::Poll<std::io::Result<()>> {
        self.reads += 1;
        if self.reads < 3 {
            buf.put_slice(b"data");
            std::task::Poll::Ready(Ok(()))
        } else {
            std::task::Poll::Ready(Err(std::io::Error::other("disk gone")))
        }
    }
}

#[test]
fn failed_read_is_an_error_and_the_last_read() {
    let mut reader = BrokenReader { reads: 0 };
    let mut writer = Archiver::new(Vec::new());
    let result = block_on(writer.add("a", &mut reader, ZipStreamMethod::Stored));
    assert_eq!(result, Err("disk gone".to_string()));
    assert_eq!(reader.reads, 3);
    let bytes = block_on(writer.finish()).unwrap();
    let archive = zip::ZipArchive::new(Cursor::new(bytes)).unwrap();
    assert_eq!(archive.len(), 0);
}

#[test]
fn methods_are_those_of_the_archive() {
    assert_eq!(Compression::from(ZipStreamMethod::Stored), Compression::Stored);
    assert_eq!(Compression::from(ZipStreamMethod::Deflate), Compression::Deflate);
    assert_eq!(opening().compression(), Compression::Deflate);
}
