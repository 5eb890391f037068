use isolate_rt::control::{
    decode_control, encode_control, encode_response, ControlRequest, ERR_MALFORMED, STATUS_OK,
};
use isolate_rt::errors::DispatchError;

fn mk_control(op_id: u32, request_id: u32, is_async: bool, args: Vec<u32>) -> Vec<u8> {
    encode_control(&ControlRequest { op_id, request_id, is_async, args })
}

#[test]
fn control_roundtrip() {
    let buf = mk_control(7, 42, true, vec![3, 0xdead_beef, 5]);
    let q = decode_control(&buf).unwrap();
    assert_eq!(q.op_id, 7);
    assert_eq!(q.request_id, 42);
    assert!(q.is_async);
    assert_eq!(q.args, vec![3, 0xdead_beef, 5]);
}

#[test]
fn control_roundtrip_no_args() {
    let buf = mk_control(0, 0, false, vec![]);
    assert_eq!(buf.len(), 14);
    let q = decode_control(&buf).unwrap();
    assert_eq!(q.op_id, 0);
    assert_eq!(q.request_id, 0);
    assert!(!q.is_async);
    assert!(q.args.is_empty());
}

#[test]
fn control_layout_is_little_endian() {
    let buf = mk_control(0x0102_0304, 0x1122_3344, false, vec![0x0a0b_0c0d]);
    assert_eq!(
        buf,
        vec![
            1, // version
            0x04, 0x03, 0x02, 0x01, // op id
            0x44, 0x33, 0x22, 0x11, // request id
            0, // sync flag
            1, 0, 0, 0, // one argument
            0x0d, 0x0c, 0x0b, 0x0a, // the argument
        ]
    );
}

#[test]
fn decode_rejects_short_buffer() {
    let buf: Vec<u8> = vec![1, 0, 0];
    assert_eq!(decode_control(&buf), Err(DispatchError::MalformedRequest));
}

#[test]
fn decode_rejects_wrong_version() {
    let mut buf = mk_control(1, 1, false, vec![]);
    buf[0] = 9;
    assert_eq!(decode_control(&buf), Err(DispatchError::MalformedRequest));
}

#[test]
fn decode_rejects_bad_flag() {
    let mut buf = mk_control(1, 1, false, vec![]);
    buf[9] = 2;
    assert_eq!(decode_control(&buf), Err(DispatchError::MalformedRequest));
}

#[test]
fn decode_rejects_length_mismatch() {
    let mut buf = mk_control(1, 1, false, vec![8]);
    buf.pop();
    assert_eq!(decode_control(&buf), Err(DispatchError::MalformedRequest));
}

#[test]
fn response_layout() {
    let payload: Vec<u8> = vec![9, 8, 7];
    let resp = encode_response(0x0102_0304, STATUS_OK, &payload);
    assert_eq!(resp, vec![1, 0x04, 0x03, 0x02, 0x01, 0, 9, 8, 7]);
}

#[test]
fn error_response_is_never_a_success_response() {
    let payload: Vec<u8> = vec![];
    let ok = encode_response(5, STATUS_OK, &payload);
    let err = encode_response(5, ERR_MALFORMED, &payload);
    assert_ne!(ok, err);
}
