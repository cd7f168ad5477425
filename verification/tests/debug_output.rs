use kboot::debug_text::{debug_writes, DEBUG_ATTRIBUTE};

#[test]
fn debug_message_goes_to_its_row() {
    assert_eq!(
        debug_writes(2, b"Hi"),
        vec![(320, b'H'), (321, 0x0F), (322, b'i'), (323, 0x0F)]
    );
    assert_eq!(DEBUG_ATTRIBUTE, 0x0F);
}

#[test]
fn debug_message_on_first_row() {
    let w = debug_writes(0, b"OK!");
    assert_eq!(w.len(), 6);
    assert_eq!(w[4], (4, b'!'));
    assert_eq!(w[5], (5, DEBUG_ATTRIBUTE));
}

#[test]
fn empty_debug_message_writes_nothing() {
    assert!(debug_writes(10, b"").is_empty());
}
