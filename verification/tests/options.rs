use apk::Compression;
use apk::EntryOptions;

#[test]
fn alignment_is_one_unless_given() {
    assert_eq!(EntryOptions::Unaligned.alignment(), 1);
    assert_eq!(EntryOptions::Compressed.alignment(), 1);
    assert_eq!(EntryOptions::Aligned(4).alignment(), 4);
    assert_eq!(EntryOptions::Aligned(4096).alignment(), 4096);
    assert_eq!(EntryOptions::Aligned(0).alignment(), 0);
    assert_eq!(EntryOptions::Aligned(u16::MAX).alignment(), 65535);
}

#[test]
fn only_compressed_entries_are_deflated() {
    assert_eq!(EntryOptions::Unaligned.compression(), Compression::Stored);
    assert_eq!(EntryOptions::Aligned(4096).compression(), Compression::Stored);
    assert_eq!(EntryOptions::Compressed.compression(), Compression::Deflated);
}
