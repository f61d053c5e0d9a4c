use il2_iltags::io::array::{BorrowedVecWriter, ByteArrayReader, ByteArrayWriter, VecWriter};
use il2_iltags::io::data::write_ilint;
use il2_iltags::io::{seek_skip_plan, ErrorKind as IOErrorKind, LimitedReader, Reader, Writer};
use il2_iltags::ilint::encode;
use il2_iltags::tags::raw::RawTagScanner;
use il2_iltags::tags::standard::explicit::{
    deserialize_string_tag_from_value_into, serialize_string_tag_from_value, ILAnyTag,
};
use il2_iltags::tags::standard::{
    ILBoolTag, ILDictTag, ILILIntArrayTag, ILOIDTag, ILRangeTag, ILStandardTagFactory,
    ILStrDictTag, ILUInt8Tag, ILVersionTag,
};
use il2_iltags::tags::util::{iltag_are_equal, iltag_clone};
use il2_iltags::tags::{ErrorKind, ILRawTag, ILTag, ILTagFactory, MAX_TAG_SIZE};

//=============================================================================
// Readers
//-----------------------------------------------------------------------------
#[test]
fn test_bytearrayreader_read_exhausted_kind() {
    let data: [u8; 2] = [1, 2];
    let mut r = ByteArrayReader::new(&data);
    r.skip(2).unwrap();
    assert!(matches!(r.read(), Err(IOErrorKind::UnableToReadData)));
    let mut buff = [7u8; 1];
    assert!(matches!(r.read_all(&mut buff), Err(IOErrorKind::UnableToReadData)));
    assert_eq!(buff, [7u8; 1]);
    assert_eq!(r.offset(), 2);
    // skip tells an exhausted source apart
    assert!(matches!(r.skip(1), Err(IOErrorKind::EndOfData)));
}

#[test]
fn test_bytearrayreader_read_all_short_keeps_state() {
    let data: [u8; 3] = [1, 2, 3];
    let mut r = ByteArrayReader::new(&data);
    r.read().unwrap();
    let mut buff = [9u8; 3];
    assert!(matches!(r.read_all(&mut buff), Err(IOErrorKind::UnableToReadData)));
    assert_eq!(buff, [9u8; 3]);
    assert_eq!(r.offset(), 1);
    let mut buff = [0u8; 2];
    r.read_all(&mut buff).unwrap();
    assert_eq!(buff, [2, 3]);
    assert_eq!(r.offset(), 3);
}

#[test]
fn test_limitedreader_read_all_too_large_consumes_nothing() {
    let data: [u8; 4] = [1, 2, 3, 4];
    let mut src = ByteArrayReader::new(&data);
    {
        let mut lr = LimitedReader::new(&mut src, 2);
        let mut buff = [5u8; 3];
        assert!(matches!(lr.read_all(&mut buff), Err(IOErrorKind::UnableToReadData)));
        assert_eq!(buff, [5u8; 3]);
        assert_eq!(lr.available(), 2);
    }
    assert_eq!(src.offset(), 0);
}

#[test]
fn test_decode_offset_after_encoding() {
    let mut w = VecWriter::new();
    encode(0x021B, &mut w).unwrap();
    w.write_all(&[0xAA, 0xBB]).unwrap();
    let bytes = w.as_slice().to_vec();
    let mut r = ByteArrayReader::new(&bytes);
    assert_eq!(il2_iltags::ilint::decode(&mut r).unwrap(), 0x021B);
    assert_eq!(r.offset(), 3);
}

//=============================================================================
// Seeking
//-----------------------------------------------------------------------------
#[test]
fn test_seek_skip_plan() {
    assert!(matches!(seek_skip_plan(3, 10, 0), (None, Ok(()))));
    assert!(matches!(seek_skip_plan(10, 10, 0), (None, Ok(()))));
    assert!(matches!(seek_skip_plan(10, 10, 1), (Some(10), Err(IOErrorKind::EndOfData))));
    assert!(matches!(seek_skip_plan(3, 10, 7), (Some(10), Ok(()))));
    assert!(matches!(seek_skip_plan(3, 10, 2), (Some(5), Ok(()))));
    assert!(matches!(seek_skip_plan(3, 10, 8), (Some(3), Err(IOErrorKind::UnableToReadData))));
    assert!(matches!(
        seek_skip_plan(3, 10, u64::MAX),
        (Some(3), Err(IOErrorKind::UnableToReadData))
    ));
    assert!(matches!(seek_skip_plan(12, 10, 1), (Some(12), Err(IOErrorKind::UnableToReadData))));
}

//=============================================================================
// Writers
//-----------------------------------------------------------------------------
#[test]
fn test_encode_into_bytearraywriter_with_room() {
    let mut buff = [0xA5u8; 10];
    {
        let mut w = ByteArrayWriter::new(&mut buff);
        encode(0x021B, &mut w).unwrap();
        assert_eq!(w.get_offset(), 3);
    }
    assert_eq!(buff, [0xF9, 0x01, 0x23, 0xA5, 0xA5, 0xA5, 0xA5, 0xA5, 0xA5, 0xA5]);
}

#[test]
fn test_encode_without_room_fails() {
    for k in 0..9 {
        let mut buff = vec![0u8; k];
        let mut w = ByteArrayWriter::new(buff.as_mut_slice());
        assert!(matches!(
            encode(u64::MAX, &mut w),
            Err(il2_iltags::ilint::ErrorKind::IOError(_))
        ));
    }
    let mut buff = vec![0u8; 9];
    let mut w = ByteArrayWriter::new(buff.as_mut_slice());
    encode(u64::MAX, &mut w).unwrap();
    assert_eq!(w.get_offset(), 9);
}

#[test]
fn test_write_ilint_read_only_vecwriter() {
    let mut w = VecWriter::new();
    write_ilint(0xF7, &mut w).unwrap();
    write_ilint(0xF8, &mut w).unwrap();
    assert_eq!(w.as_slice(), &[0xF7, 0xF8, 0x00]);
    assert_eq!(w.written_slice(), &[0xF7, 0xF8, 0x00]);
    w.set_read_only(true);
    assert!(matches!(
        write_ilint(1, &mut w),
        Err(IOErrorKind::UnableToWriteData)
    ));
    assert!(matches!(w.write_all(&[]), Err(IOErrorKind::UnableToWriteData)));
    assert_eq!(w.as_slice(), &[0xF7, 0xF8, 0x00]);
}

#[test]
fn test_borrowedvecwriter_buffer_follows_writer() {
    let mut v: Vec<u8> = vec![0, 1];
    {
        let w = BorrowedVecWriter::with_offset(&mut v, 1);
        assert_eq!(w.get_offset(), 1);
    }
    assert_eq!(v, vec![0, 1]);
    {
        let mut w = BorrowedVecWriter::with_offset(&mut v, 1000);
        assert_eq!(w.get_offset(), 2);
        w.write(9).unwrap();
        w.write_all(&[8, 7]).unwrap();
        assert_eq!(w.bytes_written(), 3);
    }
    assert_eq!(v, vec![0, 1, 9, 8, 7]);
}

#[test]
fn test_serialize_string_tag_without_room() {
    let mut buff = [0u8; 3];
    let mut w = ByteArrayWriter::new(&mut buff);
    assert!(matches!(
        serialize_string_tag_from_value("abc", &mut w),
        Err(ErrorKind::IOError(_))
    ));
    let mut buff = [0u8; 5];
    let mut w = ByteArrayWriter::new(&mut buff);
    serialize_string_tag_from_value("abc", &mut w).unwrap();
    assert_eq!(buff, [17, 3, b'a', b'b', b'c']);
}

//=============================================================================
// Factory
//-----------------------------------------------------------------------------
#[test]
fn test_factory_deserialize_unknown_explicit_non_strict() {
    let f = ILStandardTagFactory::new(false);
    let data: [u8; 5] = [0xF8, 0x00, 2, 0xAA, 0xBB];
    let mut r = ByteArrayReader::new(&data);
    match f.deserialize(&mut r) {
        Ok(ILAnyTag::Raw(t)) => {
            assert_eq!(t.id(), 0xF8);
            assert_eq!(t.value().as_slice(), &[0xAA, 0xBB]);
        }
        _ => panic!("a raw tag was expected"),
    }
    assert_eq!(r.offset(), 5);
}

#[test]
fn test_factory_deserialize_unknown_explicit_strict() {
    let f = ILStandardTagFactory::new(true);
    let data: [u8; 5] = [0xF8, 0x00, 2, 0xAA, 0xBB];
    let mut r = ByteArrayReader::new(&data);
    assert!(matches!(f.deserialize(&mut r), Err(ErrorKind::UnknownTag)));
}

#[test]
fn test_factory_deserialize_unknown_implicit() {
    let f = ILStandardTagFactory::new(false);
    let data: [u8; 1] = [15];
    let mut r = ByteArrayReader::new(&data);
    assert!(matches!(f.deserialize(&mut r), Err(ErrorKind::UnknownTag)));
}

#[test]
fn test_factory_deserialize_too_large() {
    let f = ILStandardTagFactory::new(false);
    let mut w = VecWriter::new();
    write_ilint(0xF8, &mut w).unwrap();
    write_ilint(MAX_TAG_SIZE + 1, &mut w).unwrap();
    let data = w.as_slice().to_vec();
    let mut r = ByteArrayReader::new(&data);
    assert!(matches!(f.deserialize(&mut r), Err(ErrorKind::TagTooLarge)));
}

#[test]
fn test_factory_deserialize_cut_frames() {
    let f = ILStandardTagFactory::new(false);
    // header cut
    let data: [u8; 1] = [0xF9];
    let mut r = ByteArrayReader::new(&data);
    assert!(matches!(f.deserialize(&mut r), Err(ErrorKind::IOError(_))));
    // value cut, unknown explicit id
    let data: [u8; 4] = [0xF8, 0x00, 3, 0xAA];
    let mut r = ByteArrayReader::new(&data);
    assert!(matches!(f.deserialize(&mut r), Err(ErrorKind::IOError(_))));
    // value cut, standard explicit id
    let data: [u8; 3] = [17, 3, b'a'];
    let mut r = ByteArrayReader::new(&data);
    assert!(matches!(f.deserialize(&mut r), Err(ErrorKind::IOError(_))));
    // value cut, implicit id
    let data: [u8; 2] = [4, 1];
    let mut r = ByteArrayReader::new(&data);
    assert!(matches!(f.deserialize(&mut r), Err(ErrorKind::IOError(_))));
}

//=============================================================================
// Tag values
//-----------------------------------------------------------------------------
#[test]
fn test_range_deserialize_value_cases() {
    let f = ILStandardTagFactory::new(false);
    let data: [u8; 3] = [5, 0x01, 0x02];
    let mut r = ByteArrayReader::new(&data);
    let mut t = ILRangeTag::new();
    t.deserialize_value(&f, 3, &mut r).unwrap();
    assert_eq!(t.start(), 5);
    assert_eq!(t.count(), 0x0102);

    let data: [u8; 4] = [5, 0x01, 0x02, 0x03];
    let mut r = ByteArrayReader::new(&data);
    let mut t = ILRangeTag::new();
    assert!(matches!(
        t.deserialize_value(&f, 4, &mut r),
        Err(ErrorKind::CorruptedData)
    ));

    let data: [u8; 2] = [5, 0x01];
    let mut r = ByteArrayReader::new(&data);
    let mut t = ILRangeTag::new();
    assert!(matches!(
        t.deserialize_value(&f, 2, &mut r),
        Err(ErrorKind::IOError(_))
    ));
}

#[test]
fn test_ilintarray_deserialize_value_cases() {
    let f = ILStandardTagFactory::new(false);
    let data: [u8; 4] = [2, 7, 0xF8, 0x01];
    let mut r = ByteArrayReader::new(&data);
    let mut t = ILILIntArrayTag::new();
    t.deserialize_value(&f, 4, &mut r).unwrap();
    assert_eq!(t.value().as_slice(), &[7, 0xF9]);

    // a byte left over
    let data: [u8; 3] = [1, 7, 8];
    let mut r = ByteArrayReader::new(&data);
    let mut t = ILILIntArrayTag::new();
    assert!(matches!(
        t.deserialize_value(&f, 3, &mut r),
        Err(ErrorKind::CorruptedData)
    ));

    // more entries than bytes
    let data: [u8; 2] = [5, 7];
    let mut r = ByteArrayReader::new(&data);
    let mut t = ILILIntArrayTag::new();
    assert!(matches!(
        t.deserialize_value(&f, 2, &mut r),
        Err(ErrorKind::CorruptedData)
    ));

    // an entry cut short
    let data: [u8; 2] = [1, 0xF9];
    let mut r = ByteArrayReader::new(&data);
    let mut t = ILOIDTag::new();
    assert!(matches!(
        t.deserialize_value(&f, 2, &mut r),
        Err(ErrorKind::IOError(_))
    ));
}

#[test]
fn test_strdict_deserialize_value_cases() {
    let f = ILStandardTagFactory::new(false);
    let data: [u8; 7] = [1, 17, 1, b'k', 17, 1, b'v'];
    let mut r = ByteArrayReader::new(&data);
    let mut t = ILStrDictTag::new();
    t.deserialize_value(&f, 7, &mut r).unwrap();
    assert_eq!(t.value().len(), 1);
    assert_eq!(t.value()[0].0, "k");
    assert_eq!(t.value()[0].1, "v");

    let data: [u8; 8] = [1, 17, 1, b'k', 17, 1, b'v', 0];
    let mut r = ByteArrayReader::new(&data);
    let mut t = ILStrDictTag::new();
    assert!(matches!(
        t.deserialize_value(&f, 8, &mut r),
        Err(ErrorKind::CorruptedData)
    ));
}

#[test]
fn test_bool_deserialize_value_error_keeps_value() {
    let f = ILStandardTagFactory::new(false);
    let data: [u8; 1] = [2];
    let mut r = ByteArrayReader::new(&data);
    let mut t = ILBoolTag::with_value(true);
    assert!(matches!(
        t.deserialize_value(&f, 1, &mut r),
        Err(ErrorKind::CorruptedData)
    ));
    assert!(t.value());
}

#[test]
fn test_version_deserialize_value_short_reader() {
    let f = ILStandardTagFactory::new(false);
    let data: [u8; 10] = [0; 10];
    let mut r = ByteArrayReader::new(&data);
    let mut t = ILVersionTag::new();
    assert!(matches!(
        t.deserialize_value(&f, 16, &mut r),
        Err(ErrorKind::IOError(_))
    ));
}

#[test]
fn test_string_tag_into_error_kinds_keep_output() {
    let mut out = String::from("kept");
    let data: [u8; 3] = [16, 1, b'a'];
    let mut r = ByteArrayReader::new(&data);
    assert!(matches!(
        deserialize_string_tag_from_value_into(&mut r, &mut out),
        Err(ErrorKind::CorruptedData)
    ));
    assert_eq!(out, "kept");

    let data: [u8; 3] = [17, 1, 0xFF];
    let mut r = ByteArrayReader::new(&data);
    assert!(matches!(
        deserialize_string_tag_from_value_into(&mut r, &mut out),
        Err(ErrorKind::CorruptedData)
    ));
    assert_eq!(out, "kept");

    let data: [u8; 3] = [17, 5, b'a'];
    let mut r = ByteArrayReader::new(&data);
    assert!(matches!(
        deserialize_string_tag_from_value_into(&mut r, &mut out),
        Err(ErrorKind::IOError(_))
    ));
    assert_eq!(out, "kept");

    let data: [u8; 3] = [17, 1, b'z'];
    let mut r = ByteArrayReader::new(&data);
    deserialize_string_tag_from_value_into(&mut r, &mut out).unwrap();
    assert_eq!(out, "z");
}

#[test]
fn test_raw_scanner_id_15_is_corrupted() {
    let data: [u8; 3] = [15, 0, 0];
    let mut r = ByteArrayReader::new(&data);
    let mut scanner = RawTagScanner::new(&mut r);
    assert!(matches!(scanner.next_tag(), Err(ErrorKind::CorruptedData)));
}

#[test]
fn test_strdict_value_roundtrip_entries() {
    let f = ILStandardTagFactory::new(false);
    let mut t = ILStrDictTag::new();
    t.insert("zeta", "1");
    t.insert("alpha", "2");
    t.insert("mid", "3");
    let mut w = VecWriter::new();
    t.serialize_value(&mut w).unwrap();
    let bytes = w.as_slice().to_vec();
    let mut r = ByteArrayReader::new(&bytes);
    let mut u = ILStrDictTag::new();
    u.deserialize_value(&f, bytes.len(), &mut r).unwrap();
    assert_eq!(u.value(), t.value());
    assert_eq!(u.value()[0].0, "alpha");
    assert_eq!(u.value()[2].0, "zeta");
}

#[test]
fn test_strdict_deserialize_repeated_key_keeps_last() {
    let f = ILStandardTagFactory::new(false);
    let data: [u8; 13] = [2, 17, 1, b'k', 17, 1, b'a', 17, 1, b'k', 17, 1, b'b'];
    let mut r = ByteArrayReader::new(&data);
    let mut t = ILStrDictTag::new();
    t.deserialize_value(&f, 13, &mut r).unwrap();
    assert_eq!(t.value().len(), 1);
    assert_eq!(t.value()[0].1, "b");
}

#[test]
fn test_dict_value_roundtrip_entries() {
    let f = ILStandardTagFactory::new(false);
    let mut t = ILDictTag::new();
    t.insert("b", ILAnyTag::Bool(ILBoolTag::with_value(true)));
    t.insert("a", ILAnyTag::UInt8(ILUInt8Tag::with_value(7)));
    let mut w = VecWriter::new();
    t.serialize_value(&mut w).unwrap();
    let bytes = w.as_slice().to_vec();
    assert_eq!(bytes, vec![2, 17, 1, b'a', 3, 7, 17, 1, b'b', 1, 1]);
    let mut r = ByteArrayReader::new(&bytes);
    let mut u = ILDictTag::new();
    u.deserialize_value(&f, bytes.len(), &mut r).unwrap();
    assert_eq!(u.value().len(), 2);
    assert_eq!(u.value()[0].0, "a");
    assert_eq!(u.value()[1].0, "b");
    match &u.value()[0].1 {
        ILAnyTag::UInt8(x) => assert_eq!(x.value(), 7),
        _ => panic!("an uint8 tag was expected"),
    }
    match &u.value()[1].1 {
        ILAnyTag::Bool(x) => assert!(x.value()),
        _ => panic!("a bool tag was expected"),
    }
}

#[test]
fn test_iltag_clone_unknown_explicit_is_raw() {
    let t = ILRawTag::with_value(0x1234, &[1, 2, 3]);
    match iltag_clone(&t) {
        Ok(ILAnyTag::Raw(c)) => {
            assert_eq!(c.id(), 0x1234);
            assert_eq!(c.value().as_slice(), &[1, 2, 3]);
        }
        _ => panic!("a raw tag was expected"),
    }
}

#[test]
fn test_iltag_are_equal_false_case() {
    let a = ILRawTag::with_value(0x1234, &[1, 2, 3]);
    let b = ILRawTag::with_value(0x1234, &[1, 2, 4]);
    let c = ILRawTag::with_value(0x1234, &[1, 2, 3]);
    assert!(!iltag_are_equal(&a, &b));
    assert!(iltag_are_equal(&a, &c));
}
