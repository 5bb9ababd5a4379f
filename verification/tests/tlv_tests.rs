use ber_header::{decode_tag, TlvObject};

#[test]
fn tree_clone_is_deep() {
    let leaf = TlvObject {
        tag: decode_tag(&[0x02]).unwrap(),
        length: 1,
        value: vec![0x2a],
        offset: 2,
        children: Vec::new(),
    };
    let root = TlvObject {
        tag: decode_tag(&[0x30]).unwrap(),
        length: 3,
        value: vec![0x02, 0x01, 0x2a],
        offset: 0,
        children: vec![leaf],
    };
    let copy = root.clone();
    assert_eq!(copy.tag.name, "30");
    assert_eq!(copy.tag.number, 16);
    assert_eq!(copy.length, 3);
    assert_eq!(copy.offset, 0);
    assert_eq!(copy.value, vec![0x02, 0x01, 0x2a]);
    assert_eq!(copy.children.len(), 1);
    assert_eq!(copy.children[0].tag.number, 2);
    assert_eq!(copy.children[0].value, vec![0x2a]);
    assert_eq!(copy.children[0].offset, 2);
    assert!(copy.children[0].children.is_empty());
}
