use ethereum_consensus::byte_list::ByteList;
use ethereum_consensus::collections::List;
use ethereum_consensus::ssz::DeserializeError;
use ethereum_consensus::variable_list::{deserialize_byte_lists, serialize_byte_lists};

fn items() -> Vec<ByteList<8>> {
    vec![
        ByteList::try_from(&[1, 2, 3]).unwrap(),
        ByteList::try_from(&[]).unwrap(),
        ByteList::try_from(&[4]).unwrap(),
    ]
}

#[test]
fn byte_lists_encode_to_a_table_and_the_elements() {
    let encoding = serialize_byte_lists(&items()).unwrap();
    assert_eq!(encoding, vec![12u8, 0, 0, 0, 15, 0, 0, 0, 15, 0, 0, 0, 1, 2, 3, 4]);
    assert_eq!(serialize_byte_lists::<8>(&vec![]), Ok(vec![]));
}

#[test]
fn byte_lists_round_trip() {
    let encoding = serialize_byte_lists(&items()).unwrap();
    let decoded = deserialize_byte_lists::<8, 4>(&encoding).unwrap();
    assert_eq!(decoded, List::try_from(items()).unwrap());
    assert_eq!(deserialize_byte_lists::<8, 4>(&[]), Ok(List::new()));
}

#[test]
fn byte_lists_encoding_agrees_with_ssz_rs() {
    let outside = ssz_rs::List::<ssz_rs::List<u8, 8>, 4>::try_from(vec![
        ssz_rs::List::<u8, 8>::try_from(vec![1u8, 2, 3]).unwrap(),
        ssz_rs::List::<u8, 8>::try_from(vec![]).unwrap(),
        ssz_rs::List::<u8, 8>::try_from(vec![4u8]).unwrap(),
    ])
    .unwrap();
    assert_eq!(ssz_rs::serialize(&outside).unwrap(), serialize_byte_lists(&items()).unwrap());
}

#[test]
fn table_that_is_no_whole_number_of_offsets_is_refused() {
    assert_eq!(
        deserialize_byte_lists::<8, 4>(&[1, 2]),
        Err(DeserializeError::ExpectedFurtherInput { provided: 2, expected: 4 })
    );
    assert_eq!(
        deserialize_byte_lists::<8, 4>(&[5, 0, 0, 0, 0, 0]),
        Err(DeserializeError::InvalidOffsetsLength(5))
    );
    assert_eq!(
        deserialize_byte_lists::<8, 4>(&[0, 0, 0, 0]),
        Err(DeserializeError::InvalidOffsetsLength(0))
    );
    assert_eq!(
        deserialize_byte_lists::<8, 4>(&[8, 0, 0, 0]),
        Err(DeserializeError::ExpectedFurtherInput { provided: 4, expected: 8 })
    );
}

#[test]
fn more_elements_than_the_bound_are_refused() {
    let encoding = serialize_byte_lists(&items()).unwrap();
    assert_eq!(
        deserialize_byte_lists::<8, 2>(&encoding),
        Err(DeserializeError::Bounded { bound: 2, provided: 3 })
    );
}

#[test]
fn elements_out_of_order_are_refused() {
    let encoding = vec![8u8, 0, 0, 0, 7, 0, 0, 0, 1, 2];
    assert_eq!(
        deserialize_byte_lists::<8, 4>(&encoding),
        Err(DeserializeError::OffsetNotIncreasing { start: 8, end: 7 })
    );
    let encoding = vec![8u8, 0, 0, 0, 11, 0, 0, 0, 1, 2];
    assert_eq!(
        deserialize_byte_lists::<8, 4>(&encoding),
        Err(DeserializeError::ExpectedFurtherInput { provided: 10, expected: 11 })
    );
}

#[test]
fn element_over_its_bound_is_refused() {
    let encoding = serialize_byte_lists(&items()).unwrap();
    assert_eq!(
        deserialize_byte_lists::<2, 4>(&encoding),
        Err(DeserializeError::Bounded { bound: 2, provided: 3 })
    );
}
