use f103_stream::cell::SharedCell;

#[test]
fn take_after_replace_returns_value() {
    let mut c: SharedCell<u32> = SharedCell::empty();
    assert!(c.is_empty());
    assert_eq!(c.replace(7), Ok(()));
    assert!(!c.is_empty());
    assert_eq!(c.take(), Some(7));
    assert_eq!(c.take(), None);
}

#[test]
fn replace_on_full_cell_is_rejected() {
    let mut c = SharedCell::new(1u8);
    assert_eq!(c.replace(2), Err(2));
    assert_eq!(c.take(), Some(1));
    assert_eq!(c.replace(3), Ok(()));
    assert_eq!(c.take(), Some(3));
}
