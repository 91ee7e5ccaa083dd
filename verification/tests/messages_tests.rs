use lkjmcrs::messages::{format_packet_error, missing_chunks_error};

#[test]
fn packet_errors_name_the_phase_and_the_hex_id() {
    assert_eq!(format_packet_error("stream placement ack", 0x04), "stream placement ack: got packet 0x4");
    assert_eq!(format_packet_error("survival", 0x2c), "survival: got packet 0x2c");
    assert_eq!(format_packet_error("x", 0x7fffffff), "x: got packet 0x7fffffff");
    assert_eq!(format_packet_error("x", -1), "x: got packet 0xffffffff");
    assert_eq!(format_packet_error("", 0), ": got packet 0x0");
}

#[test]
fn missing_chunk_errors_count_what_came() {
    assert_eq!(missing_chunks_error(0), "moving pending timed out after 0 chunks");
    assert_eq!(missing_chunks_error(288), "moving pending timed out after 288 chunks");
    assert_eq!(missing_chunks_error(1000), "moving pending timed out after 1000 chunks");
}
