use vole::store::{palette_snapshot, PALETTE_SNAPSHOT_KIND};

#[test]
fn palette_snapshot_prefixes_the_kind_byte() {
    assert_eq!(PALETTE_SNAPSHOT_KIND, 0xE0);
    assert_eq!(palette_snapshot(&[1, 2, 3]), vec![0xE0, 1, 2, 3]);
    assert_eq!(palette_snapshot(&[]), vec![0xE0]);
    assert_eq!(palette_snapshot(&[9, 9]), palette_snapshot(&[9, 9]));
    assert_ne!(palette_snapshot(&[9, 9]), palette_snapshot(&[9]));
}
