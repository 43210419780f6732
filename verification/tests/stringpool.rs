use msi::codepage::CodePage;
use msi::error::ErrorKind;
use msi::stringpool::{StringPool, StringPoolBuilder, StringRef};

fn read_ref(input: &[u8], long_string_refs: bool) -> Option<StringRef> {
    StringRef::read(input, 0, long_string_refs).unwrap().0
}

fn write_ref(string_ref: Option<StringRef>, long_string_refs: bool) -> Vec<u8> {
    let mut output = Vec::<u8>::new();
    StringRef::write(&mut output, string_ref, long_string_refs).unwrap();
    output
}

#[test]
fn read_string_ref() {
    assert_eq!(read_ref(b"\x00\x00", false), None);
    assert_eq!(read_ref(b"\x34\x12", false), Some(StringRef::new(0x1234)));
    assert_eq!(read_ref(b"\x00\x00\x00", true), None);
    assert_eq!(read_ref(b"\x00\x00\x02", true), Some(StringRef::new(0x20000)));
    assert_eq!(read_ref(b"\x56\x34\x12", true), Some(StringRef::new(0x123456)));
}

#[test]
fn write_string_ref() {
    assert_eq!(&write_ref(None, false) as &[u8], b"\x00\x00");
    assert_eq!(&write_ref(Some(StringRef::new(0x1234)), false) as &[u8], b"\x34\x12");
    assert_eq!(&write_ref(None, true) as &[u8], b"\x00\x00\x00");
    assert_eq!(&write_ref(Some(StringRef::new(0x123456)), true) as &[u8], b"\x56\x34\x12");
}

#[test]
fn string_ref_round_trip() {
    for number in [1, 0x1234, 0xffff] {
        let bytes = write_ref(Some(StringRef::new(number)), false);
        assert_eq!(read_ref(&bytes, false), Some(StringRef::new(number)));
    }
    let bytes = write_ref(Some(StringRef::new(0xff_ffff)), true);
    assert_eq!(read_ref(&bytes, true), Some(StringRef::new(0xff_ffff)));
    assert_eq!(StringRef::new(0x1234).number(), 0x1234);
}

#[test]
fn read_string_ref_too_short() {
    assert_eq!(StringRef::read(b"\x00", 0, false).err().unwrap().kind(), ErrorKind::UnexpectedEof);
    assert_eq!(StringRef::read(b"\x00\x00", 0, true).err().unwrap().kind(), ErrorKind::UnexpectedEof);
}

#[test]
fn new_string_pool() {
    let mut string_pool = StringPool::new(CodePage::default());
    assert!(!string_pool.long_string_refs());
    assert_eq!(string_pool.num_strings(), 0);
    assert_eq!(string_pool.incref("Foo".to_string()), StringRef::new(1));
    assert_eq!(string_pool.num_strings(), 1);
    assert_eq!(string_pool.incref("Quux".to_string()), StringRef::new(2));
    assert_eq!(string_pool.num_strings(), 2);
    assert_eq!(string_pool.incref("Foo".to_string()), StringRef::new(1));
    assert_eq!(string_pool.num_strings(), 2);
    assert_eq!(string_pool.get(StringRef::new(1)), "Foo");
    assert_eq!(string_pool.refcount(StringRef::new(1)), 2);
    assert_eq!(string_pool.get(StringRef::new(2)), "Quux");
    assert_eq!(string_pool.refcount(StringRef::new(2)), 1);
}

#[test]
fn build_string_pool() {
    let pool: &[u8] = b"\xe9\xfd\x00\x00\x03\x00\x02\x00\x04\x00\x07\x00";
    let data: &[u8] = b"FooQuux";
    let builder = StringPoolBuilder::read_from_pool(pool).expect("pool");
    let string_pool = builder.build_from_data(data).expect("data");
    assert_eq!(string_pool.codepage(), CodePage::Utf8);
    assert!(!string_pool.long_string_refs());
    assert_eq!(string_pool.num_strings(), 2);
    assert_eq!(string_pool.get(StringRef::new(1)), "Foo");
    assert_eq!(string_pool.refcount(StringRef::new(1)), 2);
    assert_eq!(string_pool.get(StringRef::new(2)), "Quux");
    assert_eq!(string_pool.refcount(StringRef::new(2)), 7);
}

#[test]
fn write_string_pool() {
    let mut string_pool = StringPool::new(CodePage::Windows1252);
    assert_eq!(string_pool.incref("Foo".to_string()), StringRef::new(1));
    assert_eq!(string_pool.incref("Quux".to_string()), StringRef::new(2));
    assert_eq!(string_pool.incref("Foo".to_string()), StringRef::new(1));
    let pool_output = string_pool.write_pool();
    assert_eq!(&pool_output as &[u8], b"\xe4\x04\x00\x00\x03\x00\x02\x00\x04\x00\x01\x00");
    let data_output = string_pool.write_data();
    assert_eq!(&data_output as &[u8], b"FooQuux");
}

#[test]
fn long_string_refs() {
    let pool: &[u8] = b"\xe4\x04\x00\x80\x03\x00\x02\x00\x04\x00\x07\x00";
    let data: &[u8] = b"FooQuux";
    let builder = StringPoolBuilder::read_from_pool(pool).expect("pool");
    let string_pool = builder.build_from_data(data).expect("data");
    assert_eq!(string_pool.codepage(), CodePage::Windows1252);
    assert!(string_pool.long_string_refs());
    assert_eq!(string_pool.num_strings(), 2);
}

#[test]
fn repeated_string() {
    let pool: &[u8] = b"\xe9\xfd\x00\x00\x03\x00\x02\x00\x03\x00\x07\x00";
    let data: &[u8] = b"FooFoo";
    let builder = StringPoolBuilder::read_from_pool(pool).expect("pool");
    let string_pool = builder.build_from_data(data).expect("data");
    assert_eq!(string_pool.num_strings(), 2);
    assert_eq!(string_pool.get(StringRef::new(1)), "Foo");
    assert_eq!(string_pool.refcount(StringRef::new(1)), 2);
    assert_eq!(string_pool.get(StringRef::new(2)), "Foo");
    assert_eq!(string_pool.refcount(StringRef::new(2)), 7);
}

#[test]
fn string_over_64k() {
    let pool: &[u8] = b"\xe9\xfd\x00\x00\x00\x00\x01\x00\x70\x11\x01\x00";
    let mut rustmsi_x10000: Vec<u8> = vec![0; 70000];
    for i in 0..10000 {
        rustmsi_x10000[7 * i] = b'r';
        rustmsi_x10000[7 * i + 1] = b'u';
        rustmsi_x10000[7 * i + 2] = b's';
        rustmsi_x10000[7 * i + 3] = b't';
        rustmsi_x10000[7 * i + 4] = b'm';
        rustmsi_x10000[7 * i + 5] = b's';
        rustmsi_x10000[7 * i + 6] = b'i';
    }
    let data: &[u8] = &rustmsi_x10000;
    assert_eq!(data.len(), 70000);
    let builder = StringPoolBuilder::read_from_pool(pool).expect("pool");
    let string_pool = builder.build_from_data(data).expect("data");
    assert_eq!(string_pool.codepage(), CodePage::Utf8);
    assert!(!string_pool.long_string_refs());
    assert_eq!(string_pool.num_strings(), 1);
    assert_eq!(string_pool.get(StringRef::new(1)), "rustmsi".repeat(10000));
    assert_eq!(string_pool.refcount(StringRef::new(1)), 1);
    assert_eq!(&string_pool.write_pool() as &[u8], pool);
}

#[test]
fn max_refcount() {
    let pool: &[u8] = b"\xe9\xfd\x00\x00\x06\x00\xfe\xff";
    let data: &[u8] = b"Foobar";
    let builder = StringPoolBuilder::read_from_pool(pool).expect("pool");
    let mut string_pool = builder.build_from_data(data).expect("data");
    assert_eq!(string_pool.num_strings(), 1);
    assert_eq!(string_pool.get(StringRef::new(1)), "Foobar");
    assert_eq!(string_pool.refcount(StringRef::new(1)), 0xfffe);
    assert_eq!(string_pool.incref("Foobar".to_string()), StringRef::new(1));
    assert_eq!(string_pool.num_strings(), 1);
    assert_eq!(string_pool.incref("Foobar".to_string()), StringRef::new(2));
    assert_eq!(string_pool.num_strings(), 2);
    assert_eq!(string_pool.refcount(StringRef::new(1)), 0xffff);
    assert_eq!(string_pool.refcount(StringRef::new(2)), 1);
}

#[test]
fn reuse_entries() {
    let mut string_pool = StringPool::new(CodePage::default());
    assert_eq!(string_pool.incref("Foo".to_string()), StringRef::new(1));
    assert_eq!(string_pool.incref("Bar".to_string()), StringRef::new(2));
    assert_eq!(string_pool.num_strings(), 2);
    string_pool.decref(StringRef::new(1));
    assert_eq!(string_pool.refcount(StringRef::new(1)), 0);
    assert_eq!(string_pool.get(StringRef::new(1)), "");
    assert_eq!(string_pool.num_strings(), 2);
    assert_eq!(string_pool.incref("Quux".to_string()), StringRef::new(1));
    assert_eq!(string_pool.num_strings(), 2);
    assert_eq!(string_pool.refcount(StringRef::new(1)), 1);
    assert_eq!(string_pool.get(StringRef::new(1)), "Quux");
}

#[test]
fn unknown_codepage_in_pool() {
    let pool: &[u8] = b"\x40\xe2\x01\x00\x06\x00\x01\x00";
    let error = StringPoolBuilder::read_from_pool(pool).err().unwrap();
    assert_eq!(error.kind(), ErrorKind::InvalidData);
    assert_eq!(error.to_string(), "Unknown codepage for string pool (123456)");
}

#[test]
fn string_data_too_short() {
    let pool: &[u8] = b"\xe9\xfd\x00\x00\x06\x00\x01\x00";
    let builder = StringPoolBuilder::read_from_pool(pool).expect("pool");
    assert_eq!(builder.build_from_data(b"Foo").err().unwrap().kind(), ErrorKind::UnexpectedEof);
}

#[test]
fn incref_then_decref_restores_pool() {
    let mut string_pool = StringPool::new(CodePage::Utf8);
    let foo = string_pool.incref("Foo".to_string());
    let again = string_pool.incref("Foo".to_string());
    assert_eq!(foo, again);
    string_pool.decref(again);
    assert_eq!(string_pool.refcount(foo), 1);
    assert_eq!(string_pool.get(foo), "Foo");
}

#[test]
fn incref_prefers_the_entry_holding_the_string() {
    let mut pool = StringPool::new(CodePage::default());
    assert_eq!(pool.incref("Foo".to_string()), StringRef::new(1));
    assert_eq!(pool.incref("Bar".to_string()), StringRef::new(2));
    pool.decref(StringRef::new(1));
    assert_eq!(pool.incref("Bar".to_string()), StringRef::new(2));
    assert_eq!(pool.refcount(StringRef::new(2)), 2);
    assert_eq!(pool.refcount(StringRef::new(1)), 0);
    assert_eq!(pool.get(StringRef::new(1)), "");
    assert_eq!(pool.incref("Baz".to_string()), StringRef::new(1));
    assert_eq!(pool.get(StringRef::new(1)), "Baz");
}
