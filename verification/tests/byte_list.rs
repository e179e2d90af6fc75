use ethereum_consensus::byte_list::ByteList;
use ethereum_consensus::ssz::serialize;

#[test]
fn test_byte_list_serde() {
    let list = ByteList::<32>::try_from([255u8, 255u8].as_ref()).unwrap();
    let encoding = serialize(&list).unwrap();
    assert_eq!(encoding, [255, 255]);

    let recovered_list = ByteList::<32>::deserialize(&encoding).unwrap();
    assert_eq!(list, recovered_list);
}
