use stream_db::db_ctx::{Create, KIND_CREATE_STREAM, TOKEN_BYTES};

#[test]
fn token_fits_in_eight_bytes() {
    assert_eq!(std::mem::size_of::<Create>(), 8);
    assert_eq!(TOKEN_BYTES, 8);
    assert_eq!(Create::stream(5).to_bytes().len(), 8);
}

#[test]
fn token_wire_format_is_kind_index_padding() {
    let token = Create::Stream { name_idx: 7, _padding: 0 };
    assert_eq!(token.to_bytes(), [KIND_CREATE_STREAM, 7, 0, 0, 0, 0, 0, 0]);
    let token = Create::Stream { name_idx: 63, _padding: 0x0403_0201 };
    assert_eq!(token.to_bytes(), [0, 63, 0, 0, 1, 2, 3, 4]);
}

#[test]
fn token_round_trips_through_the_wire() {
    for name_idx in 0..=255u8 {
        for _padding in [0u32, 1, 0xff, 0x100, 0xdead_beef, u32::MAX] {
            let token = Create::Stream { name_idx, _padding };
            assert_eq!(Create::from_bytes(&token.to_bytes()), Some(token));
        }
    }
}

#[test]
fn token_with_unknown_kind_is_refused() {
    assert_eq!(Create::from_bytes(&[1, 0, 0, 0, 0, 0, 0, 0]), None);
    assert_eq!(Create::from_bytes(&[255, 3, 0, 0, 0, 0, 0, 0]), None);
}

#[test]
fn token_ignores_the_two_unused_bytes() {
    assert_eq!(
        Create::from_bytes(&[0, 9, 0xaa, 0xbb, 0, 0, 0, 0]),
        Some(Create::Stream { name_idx: 9, _padding: 0 })
    );
}

#[test]
fn token_for_a_slot_carries_the_slot() {
    assert_eq!(Create::stream(12), Create::Stream { name_idx: 12, _padding: 0 });
    assert_eq!(Create::stream(12).name_idx(), 12);
}
