use lkjmcrs::actions::{
    acquire_sequence, encode_chat_command, encode_chat_message, encode_held_item_slot,
    encode_keepalive_response, encode_start_destroy, encode_stop_destroy, encode_use_item_on,
    validate_keepalive,
};
use lkjmcrs::chunk::ProbeError;
use lkjmcrs::codec::{read_position, read_string, CodecError};
use lkjmcrs::persistence::BlockPos;

#[test]
fn use_item_on_clicks_the_top_of_the_block() {
    let body = encode_use_item_on(20, BlockPos::new(48, 79, 0));
    assert_eq!(body[0], 0);
    assert_eq!(read_position(&body, 1).unwrap(), ((48, 79, 0), 9));
    assert_eq!(body[9], 1);
    assert_eq!(&body[10..14], &0.5f32.to_be_bytes());
    assert_eq!(&body[14..18], &1.0f32.to_be_bytes());
    assert_eq!(&body[18..22], &0.5f32.to_be_bytes());
    assert_eq!(&body[22..], &[0, 0, 20]);
    let long = encode_use_item_on(300, BlockPos::new(-1, -64, -1));
    assert_eq!(&long[22..], &[0, 0, 0xac, 0x02]);
}

#[test]
fn player_actions_start_and_stop_breaking() {
    let start = encode_start_destroy(61, BlockPos::new(0, 80, 0));
    assert_eq!(start[0], 0);
    assert_eq!(read_position(&start, 1).unwrap(), ((0, 80, 0), 9));
    assert_eq!(&start[9..], &[1, 61]);
    let stop = encode_stop_destroy(61, BlockPos::new(-3, 64, 7));
    assert_eq!(stop[0], 2);
    assert_eq!(read_position(&stop, 1).unwrap(), ((-3, 64, 7), 9));
    assert_eq!(&stop[9..], &[1, 61]);
}

#[test]
fn dirt_is_mined_under_a_sequence_from_the_distance() {
    assert_eq!(acquire_sequence(BlockPos::new(2, 79, 0)), 1002);
    assert_eq!(acquire_sequence(BlockPos::new(-3, 79, -4)), 1007);
}

#[test]
fn chat_bodies_carry_the_text() {
    assert_eq!(encode_chat_command("sethome Base"), {
        let mut v = vec![12];
        v.extend_from_slice(b"sethome Base");
        v
    });
    let body = encode_chat_message("hello");
    assert_eq!(&body[..6], &[5, b'h', b'e', b'l', b'l', b'o']);
    assert_eq!(&body[6..], &[0u8; 22][..]);
    assert_eq!(read_string(&encode_chat_command("häuser"), 0).unwrap(), ("häuser".to_string(), 8));
}

#[test]
fn held_item_slots_are_big_endian_shorts() {
    assert_eq!(encode_held_item_slot(9), vec![0, 9]);
    assert_eq!(encode_held_item_slot(300), vec![1, 44]);
    assert_eq!(encode_held_item_slot(-1), vec![0xff, 0xff]);
}

#[test]
fn keepalives_are_checked_and_echoed() {
    let body = encode_keepalive_response(1);
    assert_eq!(body, 1i64.to_be_bytes().to_vec());
    assert_eq!(validate_keepalive(body, 1).unwrap(), 1);
    assert_eq!(encode_keepalive_response(-2), (-2i64).to_be_bytes().to_vec());
    assert!(matches!(
        validate_keepalive(2i64.to_be_bytes().to_vec(), 1),
        Err(ProbeError::Phase("keepalive id"))
    ));
    assert!(matches!(validate_keepalive(vec![0; 7], 1), Err(ProbeError::Codec(CodecError::Eof))));
}
