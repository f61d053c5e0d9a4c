use il2_iltags::io::array::{ByteArrayReader, VecReader, VecWriter};
use il2_iltags::io::Reader;
use il2_iltags::tags::standard::{
    ILAnyTag, ILBin32Tag, ILBin64Tag, ILBoolTag, ILILInt64Tag, ILInt16Tag, ILInt32Tag,
    ILInt64Tag, ILInt8Tag, ILNullTag, ILUInt16Tag, ILUInt32Tag, ILUInt64Tag, ILUInt8Tag,
    IL_BIN32_TAG_ID, IL_BIN64_TAG_ID, IL_BOOL_TAG_ID, IL_ILINT_TAG_ID, IL_INT16_TAG_ID,
    IL_INT32_TAG_ID, IL_INT64_TAG_ID, IL_INT8_TAG_ID, IL_NULL_TAG_ID, IL_UINT16_TAG_ID,
    IL_UINT32_TAG_ID, IL_UINT64_TAG_ID, IL_UINT8_TAG_ID,
};
use il2_iltags::tags::{ErrorKind, ILTag, ILTagFactory, Result};

//=============================================================================
// UntouchbleTagFactory
//-----------------------------------------------------------------------------
struct UntouchbleTagFactory {}

impl ILTagFactory for UntouchbleTagFactory {
    fn create_tag(&self, _tag_id: u64) -> Option<ILAnyTag> {
        panic!();
    }

    fn deserialize<R: Reader>(&self, _reader: &mut R) -> Result<ILAnyTag> {
        panic!();
    }
}

//=============================================================================
// Common tests
//-----------------------------------------------------------------------------

//=============================================================================
// ILNullTag
//-----------------------------------------------------------------------------

#[test]
fn test_ilnulltag_new() {
    {
        let t = <ILNullTag>::new();
        assert_eq!(
            t.id(),
            IL_NULL_TAG_ID,
            "new() failed because it does not match the default id."
        );

        let t = <ILNullTag>::default();
        assert_eq!(
            t.id(),
            IL_NULL_TAG_ID,
            "default() should be equivalent to new() failed because it does not match the default id."
        );

        let t = <ILNullTag>::with_id(123);
        assert_eq!(t.id(), 123, "with_id() is not setting the custom ID correctly.");
    }
}

#[test]
fn test_ilnulltag_iltag_size() {
    {
        let t = <ILNullTag>::default();
        assert_eq!(t.value_size(), 0 as u64, "Bad value size.");
    }
}

#[test]
fn test_ilnulltag_iltag_serialize() {
    // Serialize
    let t = ILNullTag::new();
    let mut writer = VecWriter::new();
    match t.serialize_value(&mut writer) {
        Ok(()) => (),
        _ => panic!(),
    }
    assert_eq!(writer.as_slice().len() as u64, 0);
}

#[test]
fn test_ilnulltag_iltag_deserialize() {
    let factory = UntouchbleTagFactory {};
    const SAMPLE: [u8; 0] = [0; 0];

    // Unserialize
    let mut t = ILNullTag::new();
    let mut reader = ByteArrayReader::new(&SAMPLE);
    match t.deserialize_value(&factory, 0, &mut reader) {
        Ok(()) => (),
        _ => panic!(),
    }
    match t.deserialize_value(&factory, 1, &mut reader) {
        Err(ErrorKind::CorruptedData) => (),
        _ => panic!(),
    }
}

//=============================================================================
// ILBoolTag
//-----------------------------------------------------------------------------

#[test]
fn test_ilbooltag_new() {
    {
        let sample_value: bool = true as bool;
        let def_value: bool = <bool>::default();

        let t = <ILBoolTag>::new();
        assert_eq!(
            t.id(),
            IL_BOOL_TAG_ID,
            "new() failed because it does not match the default id."
        );
        assert_eq!(t.value(), def_value, "new() should initialize value with default.");

        let t = <ILBoolTag>::default();
        assert_eq!(
            t.id(),
            IL_BOOL_TAG_ID,
            "default() should be equivalent to new() failed because it does not match the default id."
        );
        assert_eq!(t.value(), def_value, "default() should initialize value with default.");

        let t = <ILBoolTag>::with_id(123);
        assert_eq!(t.id(), 123, "with_id() is not setting the custom ID correctly.");
        assert_eq!(t.value(), def_value, "with_id() should initialize value with default.");

        let t = <ILBoolTag>::with_value(sample_value);
        assert_eq!(t.id(), IL_BOOL_TAG_ID, "with_value() should use the default id");
        assert_eq!(t.value(), sample_value, "with_value() should initialize the value with {}.", sample_value);

        let t = <ILBoolTag>::with_id_value(123, sample_value);
        assert_eq!(t.id(), 123, "with_id_value() is not setting the custom ID correctly.");
        assert_eq!(t.value(), sample_value, "with_id_value() should initialize the value with {}.", sample_value);

        let mut t = <ILBoolTag>::new();
        assert_eq!(t.value(), def_value, "Failed to start with default.");
        t.set_value(sample_value);
        assert_eq!(t.id(), IL_BOOL_TAG_ID, "Set value should not change the id.");
        assert_eq!(t.value(), sample_value, "set_value() failed.");
    }
}

#[test]
fn test_ilbooltag_iltag_size() {
    {
        let t = <ILBoolTag>::default();
        assert_eq!(t.value_size(), 1 as u64, "Bad value size.");
    }
}

#[test]
fn test_ilbooltag_iltag_serialize() {
    // Size
    let exp_size: u64 = 1;

    // Serialize
    let t = ILBoolTag::with_value(false);
    let mut writer = VecWriter::new();
    match t.serialize_value(&mut writer) {
        Ok(()) => (),
        _ => panic!(),
    }
    assert_eq!(writer.as_slice().len() as u64, exp_size);
    assert_eq!(writer.as_slice()[0], 0 as u8);

    let t = ILBoolTag::with_value(true);
    let mut writer = VecWriter::new();
    match t.serialize_value(&mut writer) {
        Ok(()) => (),
        _ => panic!(),
    }
    assert_eq!(writer.as_slice().len() as u64, exp_size);
    assert_eq!(writer.as_slice()[0], 1 as u8);

    writer.set_read_only(true);
    match t.serialize_value(&mut writer) {
        Err(ErrorKind::IOError(_)) => (),
        _ => panic!(),
    }
}

#[test]
fn test_ilbooltag_iltag_deserialize() {
    let factory = UntouchbleTagFactory {};
    const SAMPLE: [u8; 3] = [1, 0, 2];

    // Unserialize
    let mut t = ILBoolTag::new();
    let mut reader = ByteArrayReader::new(&SAMPLE);
    match t.deserialize_value(&factory, 1, &mut reader) {
        Ok(()) => (),
        _ => panic!(),
    }
    assert_eq!(t.value(), true);

    let mut t = ILBoolTag::new();
    match t.deserialize_value(&factory, 1, &mut reader) {
        Ok(()) => (),
        _ => panic!(),
    }
    assert_eq!(t.value(), false);

    let mut t = ILBoolTag::new();
    match t.deserialize_value(&factory, 1, &mut reader) {
        Err(ErrorKind::CorruptedData) => (),
        _ => panic!(),
    }

    match t.deserialize_value(&factory, 2, &mut reader) {
        Err(ErrorKind::CorruptedData) => (),
        _ => panic!(),
    }
}

//=============================================================================
// ILInt8Tag
//-----------------------------------------------------------------------------

#[test]
fn test_ilint8tag_new() {
    {
        let sample_value: i8 = 126 as i8;
        let def_value: i8 = <i8>::default();

        let t = <ILInt8Tag>::new();
        assert_eq!(
            t.id(),
            IL_INT8_TAG_ID,
            "new() failed because it does not match the default id."
        );
        assert_eq!(t.value(), def_value, "new() should initialize value with default.");

        let t = <ILInt8Tag>::default();
        assert_eq!(
            t.id(),
            IL_INT8_TAG_ID,
            "default() should be equivalent to new() failed because it does not match the default id."
        );
        assert_eq!(t.value(), def_value, "default() should initialize value with default.");

        let t = <ILInt8Tag>::with_id(123);
        assert_eq!(t.id(), 123, "with_id() is not setting the custom ID correctly.");
        assert_eq!(t.value(), def_value, "with_id() should initialize value with default.");

        let t = <ILInt8Tag>::with_value(sample_value);
        assert_eq!(t.id(), IL_INT8_TAG_ID, "with_value() should use the default id");
        assert_eq!(t.value(), sample_value, "with_value() should initialize the value with {}.", sample_value);

        let t = <ILInt8Tag>::with_id_value(123, sample_value);
        assert_eq!(t.id(), 123, "with_id_value() is not setting the custom ID correctly.");
        assert_eq!(t.value(), sample_value, "with_id_value() should initialize the value with {}.", sample_value);

        let mut t = <ILInt8Tag>::new();
        assert_eq!(t.value(), def_value, "Failed to start with default.");
        t.set_value(sample_value);
        assert_eq!(t.id(), IL_INT8_TAG_ID, "Set value should not change the id.");
        assert_eq!(t.value(), sample_value, "set_value() failed.");
    }
}

#[test]
fn test_ilint8tag_iltag_size() {
    {
        let t = <ILInt8Tag>::default();
        assert_eq!(t.value_size(), 1 as u64, "Bad value size.");
    }
}

#[test]
fn test_ilint8tag_iltag_serialize() {
    {
        let exp_size: u64 = 1;
        let sample: [i8; 2] = [-123, 123];

        // Serialize
        for s in &sample {
            let t = <ILInt8Tag>::with_value(*s);
            let mut writer = VecWriter::new();
            match t.serialize_value(&mut writer) {
                Ok(()) => (),
                _ => panic!("serialize_value failed."),
            }
            assert_eq!(writer.as_slice().len() as u64, exp_size);
            assert_eq!(writer.as_slice(), (*s).to_be_bytes());
        }

        let t = <ILInt8Tag>::default();
        let mut writer = VecWriter::new();
        writer.set_read_only(true);
        match t.serialize_value(&mut writer) {
            Err(ErrorKind::IOError(_)) => (),
            _ => panic!(),
        }
    }
}

#[test]
fn test_ilint8tag_iltag_deserialize() {
    {
        let exp_size: usize = 1;
        let factory = UntouchbleTagFactory {};
        const SAMPLE: [i8; 2] = [-123, 123];

        // Unserialize
        for s in &SAMPLE {
            let mut t = <ILInt8Tag>::new();
            let mut reader = VecReader::new(&((*s).to_be_bytes()));
            match t.deserialize_value(&factory, exp_size, &mut reader) {
                Ok(()) => (),
                _ => panic!("deserialize_value() failed."),
            }
            assert_eq!(t.value(), *s);
            match t.deserialize_value(&factory, exp_size, &mut reader) {
                Err(ErrorKind::IOError(_)) => (),
                _ => panic!("deserialize_value() should fail due to IO error."),
            }
        }

        let tmp: [u8; 16] = [0; 16];
        let mut t = <ILInt8Tag>::new();
        let mut reader = ByteArrayReader::new(&tmp);
        match t.deserialize_value(&factory, exp_size + 1, &mut reader) {
            Err(ErrorKind::CorruptedData) => (),
            _ => panic!("deserialize_value() should fail because size tag_size is wrong."),
        }
    }
}

//=============================================================================
// ILUInt8Tag
//-----------------------------------------------------------------------------
#[test]
fn test_iluint8tag_new() {
    {
        let sample_value: u8 = 126 as u8;
        let def_value: u8 = <u8>::default();

        let t = <ILUInt8Tag>::new();
        assert_eq!(
            t.id(),
            IL_UINT8_TAG_ID,
            "new() failed because it does not match the default id."
        );
        assert_eq!(t.value(), def_value, "new() should initialize value with default.");

        let t = <ILUInt8Tag>::default();
        assert_eq!(
            t.id(),
            IL_UINT8_TAG_ID,
            "default() should be equivalent to new() failed because it does not match the default id."
        );
        assert_eq!(t.value(), def_value, "default() should initialize value with default.");

        let t = <ILUInt8Tag>::with_id(123);
        assert_eq!(t.id(), 123, "with_id() is not setting the custom ID correctly.");
        assert_eq!(t.value(), def_value, "with_id() should initialize value with default.");

        let t = <ILUInt8Tag>::with_value(sample_value);
        assert_eq!(t.id(), IL_UINT8_TAG_ID, "with_value() should use the default id");
        assert_eq!(t.value(), sample_value, "with_value() should initialize the value with {}.", sample_value);

        let t = <ILUInt8Tag>::with_id_value(123, sample_value);
        assert_eq!(t.id(), 123, "with_id_value() is not setting the custom ID correctly.");
        assert_eq!(t.value(), sample_value, "with_id_value() should initialize the value with {}.", sample_value);

        let mut t = <ILUInt8Tag>::new();
        assert_eq!(t.value(), def_value, "Failed to start with default.");
        t.set_value(sample_value);
        assert_eq!(t.id(), IL_UINT8_TAG_ID, "Set value should not change the id.");
        assert_eq!(t.value(), sample_value, "set_value() failed.");
    }
}

#[test]
fn test_iluint8tag_iltag_size() {
    {
        let t = <ILUInt8Tag>::default();
        assert_eq!(t.value_size(), 1 as u64, "Bad value size.");
    }
}

#[test]
fn test_iluint8tag_iltag_serialize() {
    {
        let exp_size: u64 = 1;
        let sample: [u8; 2] = [0x12, 0xFE];

        // Serialize
        for s in &sample {
            let t = <ILUInt8Tag>::with_value(*s);
            let mut writer = VecWriter::new();
            match t.serialize_value(&mut writer) {
                Ok(()) => (),
                _ => panic!("serialize_value failed."),
            }
            assert_eq!(writer.as_slice().len() as u64, exp_size);
            assert_eq!(writer.as_slice(), (*s).to_be_bytes());
        }

        let t = <ILUInt8Tag>::default();
        let mut writer = VecWriter::new();
        writer.set_read_only(true);
        match t.serialize_value(&mut writer) {
            Err(ErrorKind::IOError(_)) => (),
            _ => panic!(),
        }
    }
}

#[test]
fn test_iulint8tag_iltag_deserialize() {
    {
        let exp_size: usize = 1;
        let factory = UntouchbleTagFactory {};
        const SAMPLE: [u8; 2] = [0x12, 0xFE];

        // Unserialize
        for s in &SAMPLE {
            let mut t = <ILUInt8Tag>::new();
            let mut reader = VecReader::new(&((*s).to_be_bytes()));
            match t.deserialize_value(&factory, exp_size, &mut reader) {
                Ok(()) => (),
                _ => panic!("deserialize_value() failed."),
            }
            assert_eq!(t.value(), *s);
            match t.deserialize_value(&factory, exp_size, &mut reader) {
                Err(ErrorKind::IOError(_)) => (),
                _ => panic!("deserialize_value() should fail due to IO error."),
            }
        }

        let tmp: [u8; 16] = [0; 16];
        let mut t = <ILUInt8Tag>::new();
        let mut reader = ByteArrayReader::new(&tmp);
        match t.deserialize_value(&factory, exp_size + 1, &mut reader) {
            Err(ErrorKind::CorruptedData) => (),
            _ => panic!("deserialize_value() should fail because size tag_size is wrong."),
        }
    }
}

//=============================================================================
// ILInt16Tag
//-----------------------------------------------------------------------------
#[test]
fn test_ilint16tag_new() {
    {
        let sample_value: i16 = 126 as i16;
        let def_value: i16 = <i16>::default();

        let t = <ILInt16Tag>::new();
        assert_eq!(
            t.id(),
            IL_INT16_TAG_ID,
            "new() failed because it does not match the default id."
        );
        assert_eq!(t.value(), def_value, "new() should initialize value with default.");

        let t = <ILInt16Tag>::default();
        assert_eq!(
            t.id(),
            IL_INT16_TAG_ID,
            "default() should be equivalent to new() failed because it does not match the default id."
        );
        assert_eq!(t.value(), def_value, "default() should initialize value with default.");

        let t = <ILInt16Tag>::with_id(123);
        assert_eq!(t.id(), 123, "with_id() is not setting the custom ID correctly.");
        assert_eq!(t.value(), def_value, "with_id() should initialize value with default.");

        let t = <ILInt16Tag>::with_value(sample_value);
        assert_eq!(t.id(), IL_INT16_TAG_ID, "with_value() should use the default id");
        assert_eq!(t.value(), sample_value, "with_value() should initialize the value with {}.", sample_value);

        let t = <ILInt16Tag>::with_id_value(123, sample_value);
        assert_eq!(t.id(), 123, "with_id_value() is not setting the custom ID correctly.");
        assert_eq!(t.value(), sample_value, "with_id_value() should initialize the value with {}.", sample_value);

        let mut t = <ILInt16Tag>::new();
        assert_eq!(t.value(), def_value, "Failed to start with default.");
        t.set_value(sample_value);
        assert_eq!(t.id(), IL_INT16_TAG_ID, "Set value should not change the id.");
        assert_eq!(t.value(), sample_value, "set_value() failed.");
    }
}

#[test]
fn test_ilint16tag_iltag_size() {
    {
        let t = <ILInt16Tag>::default();
        assert_eq!(t.value_size(), 2 as u64, "Bad value size.");
    }
}

#[test]
fn test_ilint16tag_iltag_serialize() {
    {
        let exp_size: u64 = 2;
        let sample: [i16; 2] = [-0x1234, 0x1234];

        // Serialize
        for s in &sample {
            let t = <ILInt16Tag>::with_value(*s);
            let mut writer = VecWriter::new();
            match t.serialize_value(&mut writer) {
                Ok(()) => (),
                _ => panic!("serialize_value failed."),
            }
            assert_eq!(writer.as_slice().len() as u64, exp_size);
            assert_eq!(writer.as_slice(), (*s).to_be_bytes());
        }

        let t = <ILInt16Tag>::default();
        let mut writer = VecWriter::new();
        writer.set_read_only(true);
        match t.serialize_value(&mut writer) {
            Err(ErrorKind::IOError(_)) => (),
            _ => panic!(),
        }
    }
}

#[test]
fn test_ilint16tag_iltag_deserialize() {
    {
        let exp_size: usize = 2;
        let factory = UntouchbleTagFactory {};
        const SAMPLE: [i16; 2] = [-0x1234, 0x1234];

        // Unserialize
        for s in &SAMPLE {
            let mut t = <ILInt16Tag>::new();
            let mut reader = VecReader::new(&((*s).to_be_bytes()));
            match t.deserialize_value(&factory, exp_size, &mut reader) {
                Ok(()) => (),
                _ => panic!("deserialize_value() failed."),
            }
            assert_eq!(t.value(), *s);
            match t.deserialize_value(&factory, exp_size, &mut reader) {
                Err(ErrorKind::IOError(_)) => (),
                _ => panic!("deserialize_value() should fail due to IO error."),
            }
        }

        let tmp: [u8; 16] = [0; 16];
        let mut t = <ILInt16Tag>::new();
        let mut reader = ByteArrayReader::new(&tmp);
        match t.deserialize_value(&factory, exp_size + 1, &mut reader) {
            Err(ErrorKind::CorruptedData) => (),
            _ => panic!("deserialize_value() should fail because size tag_size is wrong."),
        }
    }
}

//=============================================================================
// ILUInt16Tag
//-----------------------------------------------------------------------------
#[test]
fn test_iluint16tag_new() {
    {
        let sample_value: u16 = 126 as u16;
        let def_value: u16 = <u16>::default();

        let t = <ILUInt16Tag>::new();
        assert_eq!(
            t.id(),
            IL_UINT16_TAG_ID,
            "new() failed because it does not match the default id."
        );
        assert_eq!(t.value(), def_value, "new() should initialize value with default.");

        let t = <ILUInt16Tag>::default();
        assert_eq!(
            t.id(),
            IL_UINT16_TAG_ID,
            "default() should be equivalent to new() failed because it does not match the default id."
        );
        assert_eq!(t.value(), def_value, "default() should initialize value with default.");

        let t = <ILUInt16Tag>::with_id(123);
        assert_eq!(t.id(), 123, "with_id() is not setting the custom ID correctly.");
        assert_eq!(t.value(), def_value, "with_id() should initialize value with default.");

        let t = <ILUInt16Tag>::with_value(sample_value);
        assert_eq!(t.id(), IL_UINT16_TAG_ID, "with_value() should use the default id");
        assert_eq!(t.value(), sample_value, "with_value() should initialize the value with {}.", sample_value);

        let t = <ILUInt16Tag>::with_id_value(123, sample_value);
        assert_eq!(t.id(), 123, "with_id_value() is not setting the custom ID correctly.");
        assert_eq!(t.value(), sample_value, "with_id_value() should initialize the value with {}.", sample_value);

        let mut t = <ILUInt16Tag>::new();
        assert_eq!(t.value(), def_value, "Failed to start with default.");
        t.set_value(sample_value);
        assert_eq!(t.id(), IL_UINT16_TAG_ID, "Set value should not change the id.");
        assert_eq!(t.value(), sample_value, "set_value() failed.");
    }
}

#[test]
fn test_iluint16tag_iltag_size() {
    {
        let t = <ILUInt16Tag>::default();
        assert_eq!(t.value_size(), 2 as u64, "Bad value size.");
    }
}

#[test]
fn test_iluint16tag_iltag_serialize() {
    {
        let exp_size: u64 = 2;
        let sample: [u16; 2] = [0x1234, 0xFEDC];

        // Serialize
        for s in &sample {
            let t = <ILUInt16Tag>::with_value(*s);
            let mut writer = VecWriter::new();
            match t.serialize_value(&mut writer) {
                Ok(()) => (),
                _ => panic!("serialize_value failed."),
            }
            assert_eq!(writer.as_slice().len() as u64, exp_size);
            assert_eq!(writer.as_slice(), (*s).to_be_bytes());
        }

        let t = <ILUInt16Tag>::default();
        let mut writer = VecWriter::new();
        writer.set_read_only(true);
        match t.serialize_value(&mut writer) {
            Err(ErrorKind::IOError(_)) => (),
            _ => panic!(),
        }
    }
}

#[test]
fn test_iulint16tag_iltag_deserialize() {
    {
        let exp_size: usize = 2;
        let factory = UntouchbleTagFactory {};
        const SAMPLE: [u16; 2] = [0x1234, 0xFEDC];

        // Unserialize
        for s in &SAMPLE {
            let mut t = <ILUInt16Tag>::new();
            let mut reader = VecReader::new(&((*s).to_be_bytes()));
            match t.deserialize_value(&factory, exp_size, &mut reader) {
                Ok(()) => (),
                _ => panic!("deserialize_value() failed."),
            }
            assert_eq!(t.value(), *s);
            match t.deserialize_value(&factory, exp_size, &mut reader) {
                Err(ErrorKind::IOError(_)) => (),
                _ => panic!("deserialize_value() should fail due to IO error."),
            }
        }

        let tmp: [u8; 16] = [0; 16];
        let mut t = <ILUInt16Tag>::new();
        let mut reader = ByteArrayReader::new(&tmp);
        match t.deserialize_value(&factory, exp_size + 1, &mut reader) {
            Err(ErrorKind::CorruptedData) => (),
            _ => panic!("deserialize_value() should fail because size tag_size is wrong."),
        }
    }
}
//=============================================================================
// ILInt32Tag
//-----------------------------------------------------------------------------

#[test]
fn test_ilint32tag_new() {
    {
        let sample_value: i32 = 126 as i32;
        let def_value: i32 = <i32>::default();

        let t = <ILInt32Tag>::new();
        assert_eq!(
            t.id(),
            IL_INT32_TAG_ID,
            "new() failed because it does not match the default id."
        );
        assert_eq!(t.value(), def_value, "new() should initialize value with default.");

        let t = <ILInt32Tag>::default();
        assert_eq!(
            t.id(),
            IL_INT32_TAG_ID,
            "default() should be equivalent to new() failed because it does not match the default id."
        );
        assert_eq!(t.value(), def_value, "default() should initialize value with default.");

        let t = <ILInt32Tag>::with_id(123);
        assert_eq!(t.id(), 123, "with_id() is not setting the custom ID correctly.");
        assert_eq!(t.value(), def_value, "with_id() should initialize value with default.");

        let t = <ILInt32Tag>::with_value(sample_value);
        assert_eq!(t.id(), IL_INT32_TAG_ID, "with_value() should use the default id");
        assert_eq!(t.value(), sample_value, "with_value() should initialize the value with {}.", sample_value);

        let t = <ILInt32Tag>::with_id_value(123, sample_value);
        assert_eq!(t.id(), 123, "with_id_value() is not setting the custom ID correctly.");
        assert_eq!(t.value(), sample_value, "with_id_value() should initialize the value with {}.", sample_value);

        let mut t = <ILInt32Tag>::new();
        assert_eq!(t.value(), def_value, "Failed to start with default.");
        t.set_value(sample_value);
        assert_eq!(t.id(), IL_INT32_TAG_ID, "Set value should not change the id.");
        assert_eq!(t.value(), sample_value, "set_value() failed.");
    }
}

#[test]
fn test_ilint32tag_iltag_size() {
    {
        let t = <ILInt32Tag>::default();
        assert_eq!(t.value_size(), 4 as u64, "Bad value size.");
    }
}

#[test]
fn test_ilint32tag_iltag_serialize() {
    {
        let exp_size: u64 = 4;
        let sample: [i32; 2] = [-0x1234_5678, 0x1234_5678];

        // Serialize
        for s in &sample {
            let t = <ILInt32Tag>::with_value(*s);
            let mut writer = VecWriter::new();
            match t.serialize_value(&mut writer) {
                Ok(()) => (),
                _ => panic!("serialize_value failed."),
            }
            assert_eq!(writer.as_slice().len() as u64, exp_size);
            assert_eq!(writer.as_slice(), (*s).to_be_bytes());
        }

        let t = <ILInt32Tag>::default();
        let mut writer = VecWriter::new();
        writer.set_read_only(true);
        match t.serialize_value(&mut writer) {
            Err(ErrorKind::IOError(_)) => (),
            _ => panic!(),
        }
    }
}

#[test]
fn test_ilint32tag_iltag_deserialize() {
    {
        let exp_size: usize = 4;
        let factory = UntouchbleTagFactory {};
        const SAMPLE: [i32; 2] = [-0x1234_5678, 0x1234_5678];

        // Unserialize
        for s in &SAMPLE {
            let mut t = <ILInt32Tag>::new();
            let mut reader = VecReader::new(&((*s).to_be_bytes()));
            match t.deserialize_value(&factory, exp_size, &mut reader) {
                Ok(()) => (),
                _ => panic!("deserialize_value() failed."),
            }
            assert_eq!(t.value(), *s);
            match t.deserialize_value(&factory, exp_size, &mut reader) {
                Err(ErrorKind::IOError(_)) => (),
                _ => panic!("deserialize_value() should fail due to IO error."),
            }
        }

        let tmp: [u8; 16] = [0; 16];
        let mut t = <ILInt32Tag>::new();
        let mut reader = ByteArrayReader::new(&tmp);
        match t.deserialize_value(&factory, exp_size + 1, &mut reader) {
            Err(ErrorKind::CorruptedData) => (),
            _ => panic!("deserialize_value() should fail because size tag_size is wrong."),
        }
    }
}

//=============================================================================
// ILUInt32Tag
//-----------------------------------------------------------------------------
#[test]
fn test_iluint32tag_new() {
    {
        let sample_value: u32 = 126 as u32;
        let def_value: u32 = <u32>::default();

        let t = <ILUInt32Tag>::new();
        assert_eq!(
            t.id(),
            IL_UINT32_TAG_ID,
            "new() failed because it does not match the default id."
        );
        assert_eq!(t.value(), def_value, "new() should initialize value with default.");

        let t = <ILUInt32Tag>::default();
        assert_eq!(
            t.id(),
            IL_UINT32_TAG_ID,
            "default() should be equivalent to new() failed because it does not match the default id."
        );
        assert_eq!(t.value(), def_value, "default() should initialize value with default.");

        let t = <ILUInt32Tag>::with_id(123);
        assert_eq!(t.id(), 123, "with_id() is not setting the custom ID correctly.");
        assert_eq!(t.value(), def_value, "with_id() should initialize value with default.");

        let t = <ILUInt32Tag>::with_value(sample_value);
        assert_eq!(t.id(), IL_UINT32_TAG_ID, "with_value() should use the default id");
        assert_eq!(t.value(), sample_value, "with_value() should initialize the value with {}.", sample_value);

        let t = <ILUInt32Tag>::with_id_value(123, sample_value);
        assert_eq!(t.id(), 123, "with_id_value() is not setting the custom ID correctly.");
        assert_eq!(t.value(), sample_value, "with_id_value() should initialize the value with {}.", sample_value);

        let mut t = <ILUInt32Tag>::new();
        assert_eq!(t.value(), def_value, "Failed to start with default.");
        t.set_value(sample_value);
        assert_eq!(t.id(), IL_UINT32_TAG_ID, "Set value should not change the id.");
        assert_eq!(t.value(), sample_value, "set_value() failed.");
    }
}

#[test]
fn test_iluint32tag_iltag_size() {
    {
        let t = <ILUInt32Tag>::default();
        assert_eq!(t.value_size(), 4 as u64, "Bad value size.");
    }
}

#[test]
fn test_iluint32tag_iltag_serialize() {
    {
        let exp_size: u64 = 4;
        let sample: [u32; 2] = [0x1234_5678, 0xFEDC_BA98];

        // Serialize
        for s in &sample {
            let t = <ILUInt32Tag>::with_value(*s);
            let mut writer = VecWriter::new();
            match t.serialize_value(&mut writer) {
                Ok(()) => (),
                _ => panic!("serialize_value failed."),
            }
            assert_eq!(writer.as_slice().len() as u64, exp_size);
            assert_eq!(writer.as_slice(), (*s).to_be_bytes());
        }

        let t = <ILUInt32Tag>::default();
        let mut writer = VecWriter::new();
        writer.set_read_only(true);
        match t.serialize_value(&mut writer) {
            Err(ErrorKind::IOError(_)) => (),
            _ => panic!(),
        }
    }
}

#[test]
fn test_iulint32tag_iltag_deserialize() {
    {
        let exp_size: usize = 4;
        let factory = UntouchbleTagFactory {};
        const SAMPLE: [u32; 2] = [0x1234_5678, 0xFEDC_BA98];

        // Unserialize
        for s in &SAMPLE {
            let mut t = <ILUInt32Tag>::new();
            let mut reader = VecReader::new(&((*s).to_be_bytes()));
            match t.deserialize_value(&factory, exp_size, &mut reader) {
                Ok(()) => (),
                _ => panic!("deserialize_value() failed."),
            }
            assert_eq!(t.value(), *s);
            match t.deserialize_value(&factory, exp_size, &mut reader) {
                Err(ErrorKind::IOError(_)) => (),
                _ => panic!("deserialize_value() should fail due to IO error."),
            }
        }

        let tmp: [u8; 16] = [0; 16];
        let mut t = <ILUInt32Tag>::new();
        let mut reader = ByteArrayReader::new(&tmp);
        match t.deserialize_value(&factory, exp_size + 1, &mut reader) {
            Err(ErrorKind::CorruptedData) => (),
            _ => panic!("deserialize_value() should fail because size tag_size is wrong."),
        }
    }
}

//=============================================================================
// ILInt64Tag
//-----------------------------------------------------------------------------

#[test]
fn test_ilint64tag_new() {
    {
        let sample_value: i64 = 126 as i64;
        let def_value: i64 = <i64>::default();

        let t = <ILInt64Tag>::new();
        assert_eq!(
            t.id(),
            IL_INT64_TAG_ID,
            "new() failed because it does not match the default id."
        );
        assert_eq!(t.value(), def_value, "new() should initialize value with default.");

        let t = <ILInt64Tag>::default();
        assert_eq!(
            t.id(),
            IL_INT64_TAG_ID,
            "default() should be equivalent to new() failed because it does not match the default id."
        );
        assert_eq!(t.value(), def_value, "default() should initialize value with default.");

        let t = <ILInt64Tag>::with_id(123);
        assert_eq!(t.id(), 123, "with_id() is not setting the custom ID correctly.");
        assert_eq!(t.value(), def_value, "with_id() should initialize value with default.");

        let t = <ILInt64Tag>::with_value(sample_value);
        assert_eq!(t.id(), IL_INT64_TAG_ID, "with_value() should use the default id");
        assert_eq!(t.value(), sample_value, "with_value() should initialize the value with {}.", sample_value);

        let t = <ILInt64Tag>::with_id_value(123, sample_value);
        assert_eq!(t.id(), 123, "with_id_value() is not setting the custom ID correctly.");
        assert_eq!(t.value(), sample_value, "with_id_value() should initialize the value with {}.", sample_value);

        let mut t = <ILInt64Tag>::new();
        assert_eq!(t.value(), def_value, "Failed to start with default.");
        t.set_value(sample_value);
        assert_eq!(t.id(), IL_INT64_TAG_ID, "Set value should not change the id.");
        assert_eq!(t.value(), sample_value, "set_value() failed.");
    }
}

#[test]
fn test_ilint64tag_iltag_size() {
    {
        let t = <ILInt64Tag>::default();
        assert_eq!(t.value_size(), 8 as u64, "Bad value size.");
    }
}

#[test]
fn test_ilint64tag_iltag_serialize() {
    {
        let exp_size: u64 = 8;
        let sample: [i64; 2] = [-0x1234_5678_90AB_CDEF, 0x1234_5678_90AB_CDEF];

        // Serialize
        for s in &sample {
            let t = <ILInt64Tag>::with_value(*s);
            let mut writer = VecWriter::new();
            match t.serialize_value(&mut writer) {
                Ok(()) => (),
                _ => panic!("serialize_value failed."),
            }
            assert_eq!(writer.as_slice().len() as u64, exp_size);
            assert_eq!(writer.as_slice(), (*s).to_be_bytes());
        }

        let t = <ILInt64Tag>::default();
        let mut writer = VecWriter::new();
        writer.set_read_only(true);
        match t.serialize_value(&mut writer) {
            Err(ErrorKind::IOError(_)) => (),
            _ => panic!(),
        }
    }
}

#[test]
fn test_ilint64tag_iltag_deserialize() {
    {
        let exp_size: usize = 8;
        let factory = UntouchbleTagFactory {};
        const SAMPLE: [i64; 2] = [-0x1234_5678_90AB_CDEF, 0x1234_5678_90AB_CDEF];

        // Unserialize
        for s in &SAMPLE {
            let mut t = <ILInt64Tag>::new();
            let mut reader = VecReader::new(&((*s).to_be_bytes()));
            match t.deserialize_value(&factory, exp_size, &mut reader) {
                Ok(()) => (),
                _ => panic!("deserialize_value() failed."),
            }
            assert_eq!(t.value(), *s);
            match t.deserialize_value(&factory, exp_size, &mut reader) {
                Err(ErrorKind::IOError(_)) => (),
                _ => panic!("deserialize_value() should fail due to IO error."),
            }
        }

        let tmp: [u8; 16] = [0; 16];
        let mut t = <ILInt64Tag>::new();
        let mut reader = ByteArrayReader::new(&tmp);
        match t.deserialize_value(&factory, exp_size + 1, &mut reader) {
            Err(ErrorKind::CorruptedData) => (),
            _ => panic!("deserialize_value() should fail because size tag_size is wrong."),
        }
    }
}

//=============================================================================
// ILUInt64Tag
//-----------------------------------------------------------------------------
#[test]
fn test_iluint64tag_new() {
    {
        let sample_value: u64 = 126 as u64;
        let def_value: u64 = <u64>::default();

        let t = <ILUInt64Tag>::new();
        assert_eq!(
            t.id(),
            IL_UINT64_TAG_ID,
            "new() failed because it does not match the default id."
        );
        assert_eq!(t.value(), def_value, "new() should initialize value with default.");

        let t = <ILUInt64Tag>::default();
        assert_eq!(
            t.id(),
            IL_UINT64_TAG_ID,
            "default() should be equivalent to new() failed because it does not match the default id."
        );
        assert_eq!(t.value(), def_value, "default() should initialize value with default.");

        let t = <ILUInt64Tag>::with_id(123);
        assert_eq!(t.id(), 123, "with_id() is not setting the custom ID correctly.");
        assert_eq!(t.value(), def_value, "with_id() should initialize value with default.");

        let t = <ILUInt64Tag>::with_value(sample_value);
        assert_eq!(t.id(), IL_UINT64_TAG_ID, "with_value() should use the default id");
        assert_eq!(t.value(), sample_value, "with_value() should initialize the value with {}.", sample_value);

        let t = <ILUInt64Tag>::with_id_value(123, sample_value);
        assert_eq!(t.id(), 123, "with_id_value() is not setting the custom ID correctly.");
        assert_eq!(t.value(), sample_value, "with_id_value() should initialize the value with {}.", sample_value);

        let mut t = <ILUInt64Tag>::new();
        assert_eq!(t.value(), def_value, "Failed to start with default.");
        t.set_value(sample_value);
        assert_eq!(t.id(), IL_UINT64_TAG_ID, "Set value should not change the id.");
        assert_eq!(t.value(), sample_value, "set_value() failed.");
    }
}

#[test]
fn test_iluint64tag_iltag_size() {
    {
        let t = <ILUInt64Tag>::default();
        assert_eq!(t.value_size(), 8 as u64, "Bad value size.");
    }
}

#[test]
fn test_iluint64tag_iltag_serialize() {
    {
        let exp_size: u64 = 8;
        let sample: [u64; 2] = [0x1234_5678_90AB_CDEF, 0xFEDC_BA98_7654_3210];

        // Serialize
        for s in &sample {
            let t = <ILUInt64Tag>::with_value(*s);
            let mut writer = VecWriter::new();
            match t.serialize_value(&mut writer) {
                Ok(()) => (),
                _ => panic!("serialize_value failed."),
            }
            assert_eq!(writer.as_slice().len() as u64, exp_size);
            assert_eq!(writer.as_slice(), (*s).to_be_bytes());
        }

        let t = <ILUInt64Tag>::default();
        let mut writer = VecWriter::new();
        writer.set_read_only(true);
        match t.serialize_value(&mut writer) {
            Err(ErrorKind::IOError(_)) => (),
            _ => panic!(),
        }
    }
}

#[test]
fn test_iulint64tag_iltag_deserialize() {
    {
        let exp_size: usize = 8;
        let factory = UntouchbleTagFactory {};
        const SAMPLE: [u64; 2] = [0x1234_5678_90AB_CDEF, 0xFEDC_BA98_7654_3210];

        // Unserialize
        for s in &SAMPLE {
            let mut t = <ILUInt64Tag>::new();
            let mut reader = VecReader::new(&((*s).to_be_bytes()));
            match t.deserialize_value(&factory, exp_size, &mut reader) {
                Ok(()) => (),
                _ => panic!("deserialize_value() failed."),
            }
            assert_eq!(t.value(), *s);
            match t.deserialize_value(&factory, exp_size, &mut reader) {
                Err(ErrorKind::IOError(_)) => (),
                _ => panic!("deserialize_value() should fail due to IO error."),
            }
        }

        let tmp: [u8; 16] = [0; 16];
        let mut t = <ILUInt64Tag>::new();
        let mut reader = ByteArrayReader::new(&tmp);
        match t.deserialize_value(&factory, exp_size + 1, &mut reader) {
            Err(ErrorKind::CorruptedData) => (),
            _ => panic!("deserialize_value() should fail because size tag_size is wrong."),
        }
    }
}

//=============================================================================
// ILILInt64Tag
//-----------------------------------------------------------------------------
#[test]
fn test_ililint64tag_new() {
    {
        let sample_value: u64 = 1234 as u64;
        let def_value: u64 = <u64>::default();

        let t = <ILILInt64Tag>::new();
        assert_eq!(
            t.id(),
            IL_ILINT_TAG_ID,
            "new() failed because it does not match the default id."
        );
        assert_eq!(t.value(), def_value, "new() should initialize value with default.");

        let t = <ILILInt64Tag>::default();
        assert_eq!(
            t.id(),
            IL_ILINT_TAG_ID,
            "default() should be equivalent to new() failed because it does not match the default id."
        );
        assert_eq!(t.value(), def_value, "default() should initialize value with default.");

        let t = <ILILInt64Tag>::with_id(123);
        assert_eq!(t.id(), 123, "with_id() is not setting the custom ID correctly.");
        assert_eq!(t.value(), def_value, "with_id() should initialize value with default.");

        let t = <ILILInt64Tag>::with_value(sample_value);
        assert_eq!(t.id(), IL_ILINT_TAG_ID, "with_value() should use the default id");
        assert_eq!(t.value(), sample_value, "with_value() should initialize the value with {}.", sample_value);

        let t = <ILILInt64Tag>::with_id_value(123, sample_value);
        assert_eq!(t.id(), 123, "with_id_value() is not setting the custom ID correctly.");
        assert_eq!(t.value(), sample_value, "with_id_value() should initialize the value with {}.", sample_value);

        let mut t = <ILILInt64Tag>::new();
        assert_eq!(t.value(), def_value, "Failed to start with default.");
        t.set_value(sample_value);
        assert_eq!(t.id(), IL_ILINT_TAG_ID, "Set value should not change the id.");
        assert_eq!(t.value(), sample_value, "set_value() failed.");
    }
}

#[test]
fn test_ililint64tag_iltag_size() {
    let t = ILILInt64Tag::default();
    assert_eq!(t.value_size(), 1);
    let t = ILILInt64Tag::with_value(1234);
    assert_eq!(t.value_size(), 3);
    let t = ILILInt64Tag::with_value(u64::MAX);
    assert_eq!(t.value_size(), 9);
}

#[test]
fn test_ililint64tag_iltag_serialize() {
    let t = ILILInt64Tag::with_value(1234);
    let mut writer = VecWriter::new();
    match t.serialize_value(&mut writer) {
        Ok(()) => (),
        _ => panic!(),
    }
    assert_eq!(writer.as_slice(), &[0xF9, 0x03, 0xDA]);

    writer.set_read_only(true);
    match t.serialize_value(&mut writer) {
        Err(ErrorKind::IOError(_)) => (),
        _ => panic!(),
    }
}

#[test]
fn test_ililint64tag_iltag_deserialize() {
    let factory = UntouchbleTagFactory {};
    const SAMPLE: [u8; 3] = [0xF9, 0x03, 0xDA];

    let mut t = ILILInt64Tag::new();
    let mut reader = ByteArrayReader::new(&SAMPLE);
    match t.deserialize_value(&factory, 3, &mut reader) {
        Ok(()) => (),
        _ => panic!(),
    }
    assert_eq!(t.value(), 1234);

    // The size is not checked: the ILInt carries its own length.
    let mut reader = ByteArrayReader::new(&SAMPLE);
    match t.deserialize_value(&factory, 1, &mut reader) {
        Ok(()) => (),
        _ => panic!(),
    }
    assert_eq!(t.value(), 1234);

    let mut reader = ByteArrayReader::new(&SAMPLE[..2]);
    match t.deserialize_value(&factory, 3, &mut reader) {
        Err(ErrorKind::IOError(_)) => (),
        _ => panic!(),
    }
}

//=============================================================================
// ILBin32Tag
//-----------------------------------------------------------------------------
#[test]
fn test_ilbin32tag_new() {
    let sample_value: f32 = 1.2345;
    let def_value: f32 = f32::default();

    let t = ILBin32Tag::new();
    assert_eq!(t.id(), IL_BIN32_TAG_ID);
    assert_eq!(f32::from_bits(t.bits()), def_value);

    let t = ILBin32Tag::default();
    assert_eq!(t.id(), IL_BIN32_TAG_ID);
    assert_eq!(f32::from_bits(t.bits()), def_value);

    let t = ILBin32Tag::with_id(123);
    assert_eq!(t.id(), 123);
    assert_eq!(f32::from_bits(t.bits()), def_value);

    let t = ILBin32Tag::with_bits(sample_value.to_bits());
    assert_eq!(t.id(), IL_BIN32_TAG_ID);
    assert_eq!(f32::from_bits(t.bits()), sample_value);

    let t = ILBin32Tag::with_id_bits(123, sample_value.to_bits());
    assert_eq!(t.id(), 123);
    assert_eq!(f32::from_bits(t.bits()), sample_value);

    let mut t = ILBin32Tag::new();
    assert_eq!(f32::from_bits(t.bits()), def_value);
    t.set_bits(sample_value.to_bits());
    assert_eq!(t.id(), IL_BIN32_TAG_ID);
    assert_eq!(f32::from_bits(t.bits()), sample_value);
}

#[test]
fn test_ilbin32tag_iltag_size() {
    let t = ILBin32Tag::default();
    assert_eq!(t.value_size(), 4);
}

#[test]
fn test_ilbin32tag_iltag_serialize() {
    let sample: [f32; 2] = [-1.2345678, 9.87654];
    for s in &sample {
        let t = ILBin32Tag::with_bits(s.to_bits());
        let mut writer = VecWriter::new();
        match t.serialize_value(&mut writer) {
            Ok(()) => (),
            _ => panic!("serialize_value failed."),
        }
        assert_eq!(writer.as_slice().len() as u64, 4);
        assert_eq!(writer.as_slice(), s.to_be_bytes());
    }

    let t = ILBin32Tag::default();
    let mut writer = VecWriter::new();
    writer.set_read_only(true);
    match t.serialize_value(&mut writer) {
        Err(ErrorKind::IOError(_)) => (),
        _ => panic!(),
    }
}

#[test]
fn test_ilbin32tag_iltag_deserialize() {
    let factory = UntouchbleTagFactory {};
    let sample: [f32; 2] = [-1.2345678, 9.87654];
    for s in &sample {
        let mut t = ILBin32Tag::new();
        let mut reader = VecReader::new(&s.to_be_bytes());
        match t.deserialize_value(&factory, 4, &mut reader) {
            Ok(()) => (),
            _ => panic!("deserialize_value() failed."),
        }
        assert_eq!(f32::from_bits(t.bits()), *s);
        match t.deserialize_value(&factory, 4, &mut reader) {
            Err(ErrorKind::IOError(_)) => (),
            _ => panic!("deserialize_value() should fail due to IO error."),
        }
    }

    let tmp: [u8; 16] = [0; 16];
    let mut t = ILBin32Tag::new();
    let mut reader = ByteArrayReader::new(&tmp);
    match t.deserialize_value(&factory, 5, &mut reader) {
        Err(ErrorKind::CorruptedData) => (),
        _ => panic!("deserialize_value() should fail because size tag_size is wrong."),
    }
}

//=============================================================================
// ILBin64Tag
//-----------------------------------------------------------------------------
#[test]
fn test_ilbin64tag_new() {
    let sample_value: f64 = 1.2345;
    let def_value: f64 = f64::default();

    let t = ILBin64Tag::new();
    assert_eq!(t.id(), IL_BIN64_TAG_ID);
    assert_eq!(f64::from_bits(t.bits()), def_value);

    let t = ILBin64Tag::default();
    assert_eq!(t.id(), IL_BIN64_TAG_ID);
    assert_eq!(f64::from_bits(t.bits()), def_value);

    let t = ILBin64Tag::with_id(123);
    assert_eq!(t.id(), 123);
    assert_eq!(f64::from_bits(t.bits()), def_value);

    let t = ILBin64Tag::with_bits(sample_value.to_bits());
    assert_eq!(t.id(), IL_BIN64_TAG_ID);
    assert_eq!(f64::from_bits(t.bits()), sample_value);

    let t = ILBin64Tag::with_id_bits(123, sample_value.to_bits());
    assert_eq!(t.id(), 123);
    assert_eq!(f64::from_bits(t.bits()), sample_value);

    let mut t = ILBin64Tag::new();
    assert_eq!(f64::from_bits(t.bits()), def_value);
    t.set_bits(sample_value.to_bits());
    assert_eq!(t.id(), IL_BIN64_TAG_ID);
    assert_eq!(f64::from_bits(t.bits()), sample_value);
}

#[test]
fn test_ilbin64tag_iltag_size() {
    let t = ILBin64Tag::default();
    assert_eq!(t.value_size(), 8);
}

#[test]
fn test_ilbin64tag_iltag_serialize() {
    let sample: [f64; 2] = [-1.2345678, 9.87654];
    for s in &sample {
        let t = ILBin64Tag::with_bits(s.to_bits());
        let mut writer = VecWriter::new();
        match t.serialize_value(&mut writer) {
            Ok(()) => (),
            _ => panic!("serialize_value failed."),
        }
        assert_eq!(writer.as_slice().len() as u64, 8);
        assert_eq!(writer.as_slice(), s.to_be_bytes());
    }

    let t = ILBin64Tag::default();
    let mut writer = VecWriter::new();
    writer.set_read_only(true);
    match t.serialize_value(&mut writer) {
        Err(ErrorKind::IOError(_)) => (),
        _ => panic!(),
    }
}

#[test]
fn test_ilbin64tag_iltag_deserialize() {
    let factory = UntouchbleTagFactory {};
    let sample: [f64; 2] = [-1.2345678, 9.87654];
    for s in &sample {
        let mut t = ILBin64Tag::new();
        let mut reader = VecReader::new(&s.to_be_bytes());
        match t.deserialize_value(&factory, 8, &mut reader) {
            Ok(()) => (),
            _ => panic!("deserialize_value() failed."),
        }
        assert_eq!(f64::from_bits(t.bits()), *s);
        match t.deserialize_value(&factory, 8, &mut reader) {
            Err(ErrorKind::IOError(_)) => (),
            _ => panic!("deserialize_value() should fail due to IO error."),
        }
    }

    let tmp: [u8; 16] = [0; 16];
    let mut t = ILBin64Tag::new();
    let mut reader = ByteArrayReader::new(&tmp);
    match t.deserialize_value(&factory, 9, &mut reader) {
        Err(ErrorKind::CorruptedData) => (),
        _ => panic!("deserialize_value() should fail because size tag_size is wrong."),
    }
}
