use vmasm::binary::{overwrite_u64, write_u16, write_u64, write_u8};
use vmasm::format_vmw::{ExternalProcedure, VMW};

#[test]
fn write_u8_appends_the_byte() {
    let mut bytes = vec![1u8];
    write_u8(&mut bytes, 0xab);
    assert_eq!(bytes, vec![1u8, 0xab]);
}

#[test]
fn write_u16_appends_big_endian() {
    let mut bytes = vec![9u8];
    write_u16(&mut bytes, 0x0102);
    write_u16(&mut bytes, 0xff00);
    assert_eq!(bytes, vec![9u8, 1, 2, 0xff, 0]);
}

#[test]
fn write_u64_appends_big_endian() {
    let mut bytes = vec![9u8];
    write_u64(&mut bytes, 0x0102030405060708);
    assert_eq!(bytes, vec![9u8, 1, 2, 3, 4, 5, 6, 7, 8]);
    let mut bytes = Vec::new();
    write_u64(&mut bytes, u64::MAX - 1);
    assert_eq!(bytes, vec![0xffu8, 0xff, 0xff, 0xff, 0xff, 0xff, 0xff, 0xfe]);
}

#[test]
fn overwrite_u64_replaces_eight_bytes_in_place() {
    let mut bytes: Vec<u8> = (0..12).collect();
    overwrite_u64(&mut bytes, 2, 0xa1a2a3a4a5a6a7a8);
    assert_eq!(bytes, vec![0u8, 1, 0xa1, 0xa2, 0xa3, 0xa4, 0xa5, 0xa6, 0xa7, 0xa8, 10, 11]);
    overwrite_u64(&mut bytes, 4, 1);
    assert_eq!(bytes, vec![0u8, 1, 0xa1, 0xa2, 0, 0, 0, 0, 0, 0, 0, 1]);
    overwrite_u64(&mut bytes, 0, 0);
    assert_eq!(bytes, vec![0u8, 0, 0, 0, 0, 0, 0, 0, 0, 0, 0, 1]);
}

#[test]
fn a_module_holds_its_parts() {
    let module = VMW::new(
        vec![1, 2, 3],
        vec![("a".to_string(), 0)],
        vec![7, 8],
        vec![(ExternalProcedure { module: "m".to_string(), procedure: "p".to_string() }, 1)],
    );
    assert_eq!(module.bin(), &vec![1u8, 2, 3]);
    assert_eq!(module.procedures(), &vec![("a".to_string(), 0u64)]);
    assert_eq!(module.local_addresses(), &vec![7u64, 8]);
    assert_eq!(
        module.external_procedures(),
        &vec![(ExternalProcedure { module: "m".to_string(), procedure: "p".to_string() }, 1u64)]
    );
}

#[test]
fn file_of_the_empty_module() {
    let module = VMW::new(vec![], vec![], vec![], vec![]);
    assert_eq!(module.to_file(), vec![0u8; 24]);
}

#[test]
fn file_of_a_module() {
    let module = VMW::new(
        vec![0, 6, 5, 0, 12],
        vec![("a".to_string(), 0), ("bé".to_string(), 0x0102)],
        vec![99],
        vec![(ExternalProcedure { module: "ext".to_string(), procedure: "foo".to_string() }, 2)],
    );
    let expected: Vec<u8> = [
        &[0u8, 0, 0, 0, 0, 0, 0, 2][..],
        &[0, 0, 0, 0, 0, 0, 0, 1],
        b"a",
        &[0, 0, 0, 0, 0, 0, 0, 0],
        &[0, 0, 0, 0, 0, 0, 0, 3],
        "bé".as_bytes(),
        &[0, 0, 0, 0, 0, 0, 1, 2],
        &[0, 0, 0, 0, 0, 0, 0, 1],
        &[0, 0, 0, 0, 0, 0, 0, 3],
        b"ext",
        &[0, 0, 0, 0, 0, 0, 0, 3],
        b"foo",
        &[0, 0, 0, 0, 0, 0, 0, 2],
        &[0, 0, 0, 0, 0, 0, 0, 5],
        &[0, 6, 5, 0, 12],
    ]
    .concat();
    assert_eq!(module.to_file(), expected);
}
