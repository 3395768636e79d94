use apk::error::ApkError;
use apk::options::EntryOptions;
use apk::writer::is_indexed;
use apk::writer::ArchiveWriter;
use std::io::Cursor;
use std::io::Read;
use zip::ZipArchive;

fn open(bytes: Vec<u8>) -> ZipArchive<Cursor<Vec<u8>>> {
    ZipArchive::new(Cursor::new(bytes)).unwrap()
}

fn contents(archive: &mut ZipArchive<Cursor<Vec<u8>>>, name: &str) -> Vec<u8> {
    let mut data = Vec::new();
    archive.by_name(name).unwrap().read_to_end(&mut data).unwrap();
    data
}

fn data_start(archive: &mut ZipArchive<Cursor<Vec<u8>>>, name: &str) -> u64 {
    archive.by_name(name).unwrap().data_start()
}

#[test]
fn new_writer_is_empty_and_closed() {
    let writer = ArchiveWriter::new();
    assert!(!writer.is_open());
    assert!(!writer.has_failed());
    assert!(!writer.contains("a.txt"));
    let mut archive = open(writer.finalize().unwrap());
    assert_eq!(archive.len(), 0);
    assert!(archive.by_name("a.txt").is_err());
}

#[test]
fn aligned_entry_starts_on_its_boundary() {
    let mut writer = ArchiveWriter::new();
    // A local header takes 30 bytes and the name: data of "a" would start at 31.
    let pad = writer.start_entry("a", EntryOptions::Aligned(4)).unwrap();
    assert_eq!(pad, 5);
    writer.write(b"0123456789").unwrap();
    // 36 + 10 + 30 + 8 = 84: the header of a padding field alone leads to 88.
    let pad = writer.start_entry("lib/x.so", EntryOptions::Aligned(8)).unwrap();
    assert_eq!(pad, 4);
    writer.write(b"native").unwrap();
    let mut archive = open(writer.finalize().unwrap());
    assert_eq!(data_start(&mut archive, "a"), 36);
    assert_eq!(data_start(&mut archive, "lib/x.so"), 88);
    assert_eq!(contents(&mut archive, "a"), b"0123456789");
    assert_eq!(contents(&mut archive, "lib/x.so"), b"native");
}

#[test]
fn every_alignment_is_met() {
    let aligns: [u16; 8] = [2, 3, 4, 16, 64, 100, 4096, 16384];
    let mut writer = ArchiveWriter::new();
    let mut names = Vec::new();
    for (i, align) in aligns.iter().enumerate() {
        let name = format!("dir/{}{}", "n".repeat(i), align);
        writer.start_entry(&name, EntryOptions::Aligned(*align)).unwrap();
        writer.write(&vec![7u8; 3 * i + 1]).unwrap();
        names.push(name);
    }
    let mut archive = open(writer.finalize().unwrap());
    for (i, align) in aligns.iter().enumerate() {
        assert_eq!(data_start(&mut archive, &names[i]) % u64::from(*align), 0);
        assert_eq!(contents(&mut archive, &names[i]), vec![7u8; 3 * i + 1]);
    }
}

#[test]
fn aligned_data_gets_no_padding() {
    let mut writer = ArchiveWriter::new();
    // 30 + 2 = 32 is a multiple of 4, 8, 16 and 32.
    assert_eq!(writer.start_entry("ab", EntryOptions::Aligned(32)).unwrap(), 0);
    let mut archive = open(writer.finalize().unwrap());
    assert_eq!(data_start(&mut archive, "ab"), 32);
}

#[test]
fn unaligned_and_compressed_entries_get_no_padding() {
    let mut writer = ArchiveWriter::new();
    assert_eq!(writer.start_entry("a", EntryOptions::Unaligned).unwrap(), 0);
    writer.write(b"x").unwrap();
    assert_eq!(writer.start_entry("b", EntryOptions::Compressed).unwrap(), 0);
    writer.write(b"y").unwrap();
    assert_eq!(writer.start_entry("c", EntryOptions::Aligned(1)).unwrap(), 0);
    assert_eq!(writer.start_entry("d", EntryOptions::Aligned(0)).unwrap(), 0);
    let mut archive = open(writer.finalize().unwrap());
    assert_eq!(data_start(&mut archive, "a"), 31);
    assert_eq!(archive.by_name("a").unwrap().compression(), zip::CompressionMethod::Stored);
    assert_eq!(archive.by_name("b").unwrap().compression(), zip::CompressionMethod::Deflated);
    assert_eq!(archive.by_name("c").unwrap().compression(), zip::CompressionMethod::Stored);
    assert_eq!(contents(&mut archive, "b"), b"y");
}

#[test]
fn padding_follows_the_formula() {
    for align in [2u16, 4, 8, 4096] {
        for len in 1usize..12 {
            let name = "n".repeat(len);
            let mut writer = ArchiveWriter::new();
            let pad = writer.start_entry(&name, EntryOptions::Aligned(align)).unwrap();
            let unpadded = 30 + len as u64;
            let a = u64::from(align);
            let expected = if unpadded % a != 0 { 4 + (a - (unpadded + 4) % a) % a } else { 0 };
            assert_eq!(pad, expected);
            let mut archive = open(writer.finalize().unwrap());
            assert_eq!(data_start(&mut archive, &name), unpadded + pad);
        }
    }
}

#[test]
fn write_adds_to_the_open_entry() {
    let mut writer = ArchiveWriter::new();
    writer.start_entry("a.txt", EntryOptions::Compressed).unwrap();
    assert!(writer.is_open());
    writer.write(b"hello, ").unwrap();
    writer.write(b"").unwrap();
    writer.write(b"world").unwrap();
    writer.start_entry("b.txt", EntryOptions::Unaligned).unwrap();
    writer.write(b"second").unwrap();
    let mut archive = open(writer.finalize().unwrap());
    assert_eq!(archive.len(), 2);
    assert_eq!(contents(&mut archive, "a.txt"), b"hello, world");
    assert_eq!(contents(&mut archive, "b.txt"), b"second");
}

#[test]
fn write_without_an_open_entry_fails() {
    let mut writer = ArchiveWriter::new();
    assert_eq!(writer.write(b"x"), Err(ApkError::Io("no entry is open".to_string())));
    assert!(!writer.has_failed());
    writer.start_entry("a", EntryOptions::Unaligned).unwrap();
    writer.write(b"x").unwrap();
    let mut archive = open(writer.finalize().unwrap());
    assert_eq!(contents(&mut archive, "a"), b"x");
}

#[test]
fn duplicate_name_is_refused_and_writer_stays_usable() {
    let mut writer = ArchiveWriter::new();
    writer.start_entry("a.txt", EntryOptions::Compressed).unwrap();
    writer.write(b"first").unwrap();
    assert_eq!(
        writer.start_entry("a.txt", EntryOptions::Unaligned),
        Err(ApkError::DuplicateEntry("a.txt".to_string()))
    );
    assert!(!writer.has_failed());
    assert!(writer.is_open());
    writer.write(b" still").unwrap();
    writer.start_entry("b.txt", EntryOptions::Compressed).unwrap();
    writer.write(b"second").unwrap();
    let mut archive = open(writer.finalize().unwrap());
    assert_eq!(archive.len(), 2);
    assert_eq!(contents(&mut archive, "a.txt"), b"first still");
    assert_eq!(contents(&mut archive, "b.txt"), b"second");
}

#[test]
fn contains_tells_the_names_that_were_added() {
    let mut writer = ArchiveWriter::new();
    writer.start_entry("res/a", EntryOptions::Compressed).unwrap();
    writer.start_entry("res/b", EntryOptions::Compressed).unwrap();
    assert!(writer.contains("res/a"));
    assert!(writer.contains("res/b"));
    assert!(!writer.contains("res/c"));
    assert!(!writer.contains("res"));
}

#[test]
fn copy_raw_keeps_stored_bytes_and_checksum() {
    let mut first = ArchiveWriter::new();
    first.start_entry("lib/a.so", EntryOptions::Compressed).unwrap();
    first.write(&vec![42u8; 5000]).unwrap();
    first.start_entry("plain", EntryOptions::Unaligned).unwrap();
    first.write(b"plain text").unwrap();
    let mut source = open(first.finalize().unwrap());

    let (crc, stored) = {
        let entry = source.by_name("lib/a.so").unwrap();
        (entry.crc32(), entry.compressed_size())
    };
    let mut raw = Vec::new();
    source.by_index_raw(0).unwrap().read_to_end(&mut raw).unwrap();
    assert_eq!(raw.len() as u64, stored);
    assert!(stored < 5000);

    let mut writer = ArchiveWriter::new();
    writer.copy_raw(source.by_index_raw(0).unwrap()).unwrap();
    assert!(!writer.is_open());
    assert!(writer.contains("lib/a.so"));
    writer.copy_raw(source.by_name("plain").unwrap()).unwrap();
    let mut copy = open(writer.finalize().unwrap());
    assert_eq!(copy.len(), 2);
    {
        let entry = copy.by_name("lib/a.so").unwrap();
        assert_eq!(entry.crc32(), crc);
        assert_eq!(entry.compressed_size(), stored);
        assert_eq!(entry.size(), 5000);
        assert_eq!(entry.compression(), zip::CompressionMethod::Deflated);
    }
    let mut copied = Vec::new();
    copy.by_index_raw(0).unwrap().read_to_end(&mut copied).unwrap();
    assert_eq!(copied, raw);
    assert_eq!(contents(&mut copy, "lib/a.so"), vec![42u8; 5000]);
    assert_eq!(contents(&mut copy, "plain"), b"plain text");
}

#[test]
fn copy_raw_refuses_a_taken_name() {
    let mut first = ArchiveWriter::new();
    first.start_entry("a", EntryOptions::Compressed).unwrap();
    first.write(b"from the source").unwrap();
    let mut source = open(first.finalize().unwrap());

    let mut writer = ArchiveWriter::new();
    writer.start_entry("a", EntryOptions::Unaligned).unwrap();
    writer.write(b"own").unwrap();
    assert_eq!(
        writer.copy_raw(source.by_index_raw(0).unwrap()),
        Err(ApkError::DuplicateEntry("a".to_string()))
    );
    assert!(writer.is_open());
    writer.write(b" data").unwrap();
    let mut archive = open(writer.finalize().unwrap());
    assert_eq!(archive.len(), 1);
    assert_eq!(contents(&mut archive, "a"), b"own data");
}

#[test]
fn write_after_copy_raw_fails() {
    let mut first = ArchiveWriter::new();
    first.start_entry("a", EntryOptions::Compressed).unwrap();
    first.write(b"abc").unwrap();
    let mut source = open(first.finalize().unwrap());

    let mut writer = ArchiveWriter::new();
    writer.copy_raw(source.by_index_raw(0).unwrap()).unwrap();
    assert_eq!(writer.write(b"x"), Err(ApkError::Io("no entry is open".to_string())));
    let mut archive = open(writer.finalize().unwrap());
    assert_eq!(contents(&mut archive, "a"), b"abc");
}

#[test]
fn failed_output_poisons_the_writer() {
    let mut writer = ArchiveWriter::new();
    writer.start_entry("a", EntryOptions::Unaligned).unwrap();
    // The data of "b" would start at 31 + 65470 + 31 = 65532, and the filler
    // up to the next multiple of 65535 does not fit into a padding field.
    writer.write(&vec![0u8; 65470]).unwrap();
    let failure = writer.start_entry("b", EntryOptions::Aligned(65535));
    assert!(matches!(failure, Err(ApkError::Io(_))));
    assert!(writer.has_failed());
    assert!(!writer.is_open());
    let failed = ApkError::Io("the archive writer has failed".to_string());
    assert_eq!(writer.start_entry("c", EntryOptions::Unaligned).unwrap_err(), failed);
    assert_eq!(writer.write(b"x").unwrap_err(), failed);
    assert_eq!(writer.finalize().unwrap_err(), failed);
}

#[test]
fn entries_of_an_archive_are_indexed_and_streamed_ones_are_not() {
    let mut first = ArchiveWriter::new();
    first.start_entry("a", EntryOptions::Unaligned).unwrap();
    first.write(b"abc").unwrap();
    first.start_entry("b", EntryOptions::Compressed).unwrap();
    first.write(b"def").unwrap();
    let bytes = first.finalize().unwrap();
    let mut source = open(bytes.clone());
    assert!(is_indexed(&source.by_index(0).unwrap()));
    assert!(is_indexed(&source.by_index_raw(1).unwrap()));
    assert!(is_indexed(&source.by_name("b").unwrap()));
    let mut stream = Cursor::new(bytes);
    let streamed = zip::read::read_zipfile_from_stream(&mut stream).unwrap().unwrap();
    assert_eq!(streamed.name(), "a");
    assert!(!is_indexed(&streamed));
}

#[test]
fn copy_raw_keeps_method_and_size() {
    let mut first = ArchiveWriter::new();
    first.start_entry("stored", EntryOptions::Unaligned).unwrap();
    first.write(&vec![9u8; 70]).unwrap();
    first.start_entry("deflated", EntryOptions::Compressed).unwrap();
    first.write(&vec![9u8; 900]).unwrap();
    let mut source = open(first.finalize().unwrap());
    let mut writer = ArchiveWriter::new();
    writer.copy_raw(source.by_index_raw(1).unwrap()).unwrap();
    writer.copy_raw(source.by_index_raw(0).unwrap()).unwrap();
    let mut copy = open(writer.finalize().unwrap());
    {
        let entry = copy.by_index(0).unwrap();
        assert_eq!(entry.name(), "deflated");
        assert_eq!(entry.compression(), zip::CompressionMethod::Deflated);
        assert_eq!(entry.size(), 900);
    }
    {
        let entry = copy.by_index(1).unwrap();
        assert_eq!(entry.name(), "stored");
        assert_eq!(entry.compression(), zip::CompressionMethod::Stored);
        assert_eq!(entry.size(), 70);
        assert_eq!(entry.compressed_size(), 70);
    }
    assert_eq!(contents(&mut copy, "deflated"), vec![9u8; 900]);
    assert_eq!(contents(&mut copy, "stored"), vec![9u8; 70]);
}
