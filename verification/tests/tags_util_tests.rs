use il2_iltags::io::array::ByteArrayReader;
use il2_iltags::io::LimitedReader;
use il2_iltags::tags::standard::{ILAnyTag, ILStandardTagFactory, ILStringTag, IL_STRING_TAG_ID};
use il2_iltags::tags::util::{
    iltag_are_equal, iltag_clone, iltag_clone_with_factory, limited_reader_ensure_empty,
};
use il2_iltags::tags::{ErrorKind, ILDefaultWithIdTagCreator, ILRawTag};

#[test]
fn test_iltag_are_equal() {
    let sample = "abcde";
    let a = ILStringTag::with_value(sample);
    let b = ILRawTag::with_value(IL_STRING_TAG_ID, sample.as_bytes());
    let c = ILRawTag::with_value(1234, sample.as_bytes());
    let d = ILStringTag::with_value("abcd");
    let e = ILStringTag::with_value("bcdef");

    assert!(iltag_are_equal(&a, &a));
    assert!(iltag_are_equal(&a, &b));

    assert!(!iltag_are_equal(&a, &c));
    assert!(!iltag_are_equal(&a, &d));
    assert!(!iltag_are_equal(&a, &e));
}

#[test]
fn test_iltag_clone_with_factory() {
    let mut factory = ILStandardTagFactory::new(true);

    factory.engine().register(
        1234 as u64,
        Box::new(ILDefaultWithIdTagCreator::<ILStringTag>::new()),
    );
    let sample = "abcde";

    // Cloning a string
    let a = ILStringTag::with_value(sample);
    let clone = match iltag_clone_with_factory(&factory, &a) {
        Ok(c) => c,
        _ => panic!("Clone failed!"),
    };
    assert!(iltag_are_equal(&a, &clone));

    // Cloning a string with an id that was registered for strings
    let a = ILStringTag::with_id_value(1234, sample);
    let clone = match iltag_clone_with_factory(&factory, &a) {
        Ok(c) => c,
        _ => panic!("Clone failed!"),
    };
    assert!(matches!(clone, ILAnyTag::Str(_)));
    assert!(iltag_are_equal(&a, &clone));

    // Cloning a string but with an unknown id
    let a = ILStringTag::with_id_value(1235, sample);
    match iltag_clone_with_factory(&factory, &a) {
        Err(_) => (),
        _ => panic!("Clone should have failed."),
    };
}

#[test]
fn test_iltag_clone() {
    let sample = "abcde";

    // Cloning a string
    let a = ILStringTag::with_value(sample);
    let clone = match iltag_clone(&a) {
        Ok(c) => c,
        _ => panic!("Clone failed!"),
    };
    assert!(iltag_are_equal(&a, &clone));

    // Cloning a string but with an unknown id
    let a = ILStringTag::with_id_value(1234, sample);
    let clone = match iltag_clone(&a) {
        Ok(c) => c,
        _ => panic!("Clone failed!"),
    };
    // This will result in a ILRawTag instead of ILStringTag.
    assert!(matches!(clone, ILAnyTag::Raw(_)));
    assert!(iltag_are_equal(&a, &clone));
}

#[test]
fn test_limited_reader_ensure_empty() {
    let sample: [u8; 1] = [0];
    let mut reader = ByteArrayReader::new(&sample);
    let lreader = LimitedReader::new(&mut reader, 1);

    match limited_reader_ensure_empty(&lreader, ErrorKind::TagTooLarge) {
        Err(ErrorKind::TagTooLarge) => (),
        _ => panic!("Error expected."),
    }
    match limited_reader_ensure_empty(&lreader, ErrorKind::CorruptedData) {
        Err(ErrorKind::CorruptedData) => (),
        _ => panic!("Error expected."),
    }

    let lreader = LimitedReader::new(&mut reader, 0);
    match limited_reader_ensure_empty(&lreader, ErrorKind::CorruptedData) {
        Ok(()) => (),
        _ => panic!("Error not expected."),
    }
}
