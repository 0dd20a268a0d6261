use krata::oci_data::OciStruct;
use krata::oci_schema::OciSchema;

#[test]
fn oci_struct_keeps_bytes_and_item() {
    let s = OciStruct::new(vec![1, 2, 3], 7u32);
    assert_eq!(s.raw(), &[1, 2, 3]);
    assert_eq!(*s.item(), 7);
    let (item, raw) = s.clone().split();
    assert_eq!(item, 7);
    assert_eq!(raw, vec![1, 2, 3]);
    assert_eq!(s.clone().into_raw(), vec![1, 2, 3]);
    assert_eq!(s.clone().into_item(), 7);
    let erased: OciStruct<Option<String>> = s.clone().erase();
    assert_eq!(erased.raw(), &[1, 2, 3]);
    assert!(erased.item().is_none());
    let optional: OciStruct<Option<u32>> = s.into();
    assert_eq!(*optional.item(), Some(7));
    assert_eq!(optional.raw(), &[1, 2, 3]);
}

#[test]
fn oci_schema_keeps_bytes_and_item() {
    let s = OciSchema::new(b"{}".to_vec(), String::from("manifest"));
    assert_eq!(s.raw(), b"{}");
    assert_eq!(s.item(), "manifest");
    let erased: OciSchema<Option<u8>> = s.clone().erase();
    assert_eq!(erased.into_raw(), b"{}".to_vec());
    let optional: OciSchema<Option<String>> = s.clone().into();
    assert_eq!(optional.into_item(), Some(String::from("manifest")));
    let (item, raw) = s.split();
    assert_eq!((item.as_str(), raw.as_slice()), ("manifest", &b"{}"[..]));
}
