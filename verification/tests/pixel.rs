use vole::error::VoleError;
use vole::limits::Limits;
use vole::pixel::Canvas;

#[test]
fn canvas_geometry_is_validated() {
    let limits = Limits::default();
    assert_eq!(Canvas::new(0, 4, 1, &limits).err(), Some(VoleError::DimensionTooLarge));
    assert_eq!(Canvas::from_parts(2, 2, vec![0; 3]).err(), Some(VoleError::LengthMismatch));
    assert_eq!(Canvas::from_parts(0, 2, vec![]).err(), Some(VoleError::DimensionTooLarge));
    let c = Canvas::new(3, 2, 5, &limits).unwrap();
    assert_eq!((c.width(), c.height(), c.sample_count()), (3, 2, 6));
    assert_eq!(c.as_slice(), &[5u8; 6][..]);
    let z = Canvas::zeroed(3, 2, &limits).unwrap();
    assert!(!c.exactly_matches(&z));
}

#[test]
fn fills_clip_at_the_borders() {
    let limits = Limits::default();
    let mut c = Canvas::zeroed(4, 3, &limits).unwrap();
    c.fill_rect_clipped(9, -5, 1, 2, 99);
    assert_eq!(
        c.as_slice(),
        &[0, 0, 0, 0, 9, 9, 0, 0, 9, 9, 0, 0][..]
    );
    c.fill_rect_clipped(1, 3, 3, 1, 1);
    assert_eq!(c.get(1, 1), 9);
    c.fill_all(4);
    assert_eq!(c.as_slice(), &[4u8; 12][..]);
}

#[test]
fn blit_overwrites_the_clipped_box() {
    let limits = Limits::default();
    let mut c = Canvas::zeroed(3, 3, &limits).unwrap();
    c.blit(&[1, 2, 3, 4], 2, 2, 2, -1);
    assert_eq!(c.as_slice(), &[0, 0, 3, 0, 0, 0, 0, 0, 0][..]);
    c.blit(&[7, 8, 9, 10], 2, 2, 0, 0);
    assert_eq!(c.get(1, 1), 10);
    c.blit(&[5], 1, 1, 10, 10);
    let (w, h, data) = c.into_parts();
    assert_eq!((w, h), (3, 3));
    assert_eq!(data, vec![7, 8, 3, 9, 10, 0, 0, 0, 0]);
}
