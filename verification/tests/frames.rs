use websocket::dataframe::{DataFrame, Opcode};
use websocket::result::WebSocketError;
use websocket::ws::dataframe::DataFrame as DataFrameable;
use websocket::ws::message::dataframe::{
    ReadWebSocketDataFrame, WebSocketDataFrame, WebSocketDataFrameLength, WebSocketOpcode,
    WriteWebSocketDataFrame,
};
use websocket::ws::util::dataframe::{read_dataframe, write_dataframe};
use websocket::ws::util::header::{read_header, write_header, DataFrameFlags, DataFrameHeader, FIN, RSV1};
use websocket::ws::util::mask::mask_data;

#[test]
fn test_mask_data() {
    let key = [1u8, 2u8, 3u8, 4u8];
    let buf = vec![10u8, 11u8, 12u8, 13u8, 14u8, 15u8, 16u8, 17u8];

    assert_eq!(buf, mask_data(key, mask_data(key, buf.as_slice()).as_slice()));

    assert_eq!(
        mask_data(key, buf.as_slice()),
        vec![11u8, 9u8, 15u8, 9u8, 15u8, 13u8, 19u8, 21u8]
    );
}

#[test]
fn dataframe_test_read_dataframe() {
    let data = b"The quick brown fox jumps over the lazy dog";
    let mut dataframe = vec![0x81, 0x2B];
    for i in data.iter() {
        dataframe.push(*i);
    }
    let (obtained, _) = read_dataframe(&dataframe[..], false).unwrap();
    let expected = DataFrame {
        finished: true,
        reserved: [false; 3],
        opcode: Opcode::Text,
        data: data.to_vec(),
    };
    assert_eq!(obtained, expected);
    let (obtained, n) = DataFrame::read_dataframe(&dataframe[..], false).unwrap();
    assert_eq!(obtained, expected);
    assert_eq!(n, dataframe.len());
}

#[test]
fn dataframe_test_write_dataframe() {
    let data = b"The quick brown fox jumps over the lazy dog";
    let mut expected = vec![0x81, 0x2B];
    for i in data.iter() {
        expected.push(*i);
    }
    let dataframe = DataFrame {
        finished: true,
        reserved: [false; 3],
        opcode: Opcode::Text,
        data: data.to_vec(),
    };
    let mut obtained = Vec::new();
    dataframe.write_to(&mut obtained, false).unwrap();
    assert_eq!(&obtained[..], &expected[..]);

    let mut obtained = Vec::new();
    write_dataframe(&mut obtained, false, dataframe).unwrap();
    assert_eq!(&obtained[..], &expected[..]);
}

#[test]
fn read_incomplete_payloads() {
    let mut data = vec![0x8au8, 0x08, 0x19, 0xac, 0xab, 0x8a, 0x52, 0x4e, 0x05, 0x00];
    let payload = vec![25, 172, 171, 138, 82, 78, 5, 0];
    let short_header = DataFrame::read_dataframe(&data[..1], false);
    let short_payload = DataFrame::read_dataframe(&data[..6], false);
    let full_payload = DataFrame::read_dataframe(&data[..], false);
    data.push(0xff);
    let more_payload = DataFrame::read_dataframe(&data[..], false);

    match (short_header.unwrap_err(), short_payload.unwrap_err()) {
        (WebSocketError::NoDataAvailable, WebSocketError::NoDataAvailable) => (),
        _ => assert!(false),
    };
    assert_eq!(full_payload.unwrap().0.data, payload);
    assert_eq!(more_payload.unwrap().0.data, payload);
}

#[test]
fn test_read_header_simple() {
    let header = [0x81, 0x2B];
    let (obtained, n) = read_header(&header[..]).unwrap();
    let expected = DataFrameHeader {
        flags: DataFrameFlags::from_bit(FIN),
        opcode: 1,
        mask: None,
        len: 43,
    };
    assert_eq!(obtained, expected);
    assert_eq!(n, 2);
}

#[test]
fn test_write_header_simple() {
    let header = DataFrameHeader {
        flags: DataFrameFlags::from_bit(FIN),
        opcode: 1,
        mask: None,
        len: 43,
    };
    let expected = [0x81, 0x2B];
    let mut obtained = Vec::with_capacity(2);
    write_header(&mut obtained, header).unwrap();

    assert_eq!(&obtained[..], &expected[..]);
}

#[test]
fn test_read_header_complex() {
    let header = [0x42, 0xFE, 0x02, 0x00, 0x02, 0x04, 0x08, 0x10];
    let (obtained, n) = read_header(&header[..]).unwrap();
    let expected = DataFrameHeader {
        flags: DataFrameFlags::from_bit(RSV1),
        opcode: 2,
        mask: Some([2, 4, 8, 16]),
        len: 512,
    };
    assert_eq!(obtained, expected);
    assert_eq!(n, 8);
}

#[test]
fn test_write_header_complex() {
    let header = DataFrameHeader {
        flags: DataFrameFlags::from_bit(RSV1),
        opcode: 2,
        mask: Some([2, 4, 8, 16]),
        len: 512,
    };
    let expected = [0x42, 0xFE, 0x02, 0x00, 0x02, 0x04, 0x08, 0x10];
    let mut obtained = Vec::with_capacity(8);
    write_header(&mut obtained, header).unwrap();

    assert_eq!(&obtained[..], &expected[..]);
}

#[test]
fn header_errors_are_reported() {
    // a control frame may not be long
    let header = DataFrameHeader { flags: DataFrameFlags::from_bit(FIN), opcode: 9, mask: None, len: 200 };
    let mut out = Vec::new();
    assert_eq!(
        write_header(&mut out, header),
        Err(WebSocketError::DataFrameError(websocket::result::DataFrameErrorKind::ControlFrameTooLong))
    );
    assert!(out.is_empty());
    // an opcode has four bits
    let header = DataFrameHeader { flags: DataFrameFlags::empty(), opcode: 16, mask: None, len: 0 };
    assert_eq!(
        write_header(&mut out, header),
        Err(WebSocketError::DataFrameError(websocket::result::DataFrameErrorKind::InvalidOpcode))
    );
    // a length written in a longer form than needed is refused
    assert_eq!(
        read_header(&[0x82, 126, 0, 5]),
        Err(WebSocketError::DataFrameError(websocket::result::DataFrameErrorKind::InvalidLength))
    );
    // a control frame without FIN is refused
    assert_eq!(
        read_header(&[0x09, 0]),
        Err(WebSocketError::ProtocolError(
            websocket::result::ProtocolErrorKind::IllegalFragmentedControlFrame
        ))
    );
    // a mask key that is cut short
    assert_eq!(read_header(&[0x81, 0x80, 1, 2]), Err(WebSocketError::NoDataAvailable));
}

#[test]
fn header_roundtrip_of_long_frame() {
    let header = DataFrameHeader {
        flags: DataFrameFlags::from_bit(FIN),
        opcode: 2,
        mask: Some([9, 8, 7, 6]),
        len: 70000,
    };
    let mut out = Vec::new();
    write_header(&mut out, header).unwrap();
    assert_eq!(out.len(), 2 + 8 + 4);
    out.extend_from_slice(&[1, 2, 3]);
    let (back, n) = read_header(&out).unwrap();
    assert_eq!(back, header);
    assert_eq!(n, 14);
}

#[test]
fn masked_frames_must_be_expected() {
    let frame = DataFrame::new(true, Opcode::Binary, vec![1, 2, 3]);
    let mut masked = Vec::new();
    frame.write_to(&mut masked, true).unwrap();
    assert_eq!(masked.len(), 2 + 4 + 3);
    let (back, n) = DataFrame::read_dataframe(&masked, true).unwrap();
    assert_eq!(back, frame);
    assert_eq!(n, masked.len());
    assert_eq!(
        DataFrame::read_dataframe(&masked, false).unwrap_err(),
        WebSocketError::DataFrameError(websocket::result::DataFrameErrorKind::ExpectedUnmasked)
    );
    let mut plain = Vec::new();
    frame.write_to(&mut plain, false).unwrap();
    assert_eq!(
        DataFrame::read_dataframe(&plain, true).unwrap_err(),
        WebSocketError::DataFrameError(websocket::result::DataFrameErrorKind::ExpectedMasked)
    );
    assert_eq!(
        DataFrame::read_dataframe_with_limit(&plain, false, 2).unwrap_err(),
        WebSocketError::IoError(websocket::result::IoErrorKind::InvalidData)
    );
}

#[test]
fn wire_frames_roundtrip() {
    let frame = WebSocketDataFrame {
        finished: false,
        reserved: [true, false, true],
        opcode: WebSocketOpcode::Binary,
        mask: Some([1, 2, 3, 4]),
        length: WebSocketDataFrameLength::new(300),
        data: vec![7; 300],
    };
    let mut bytes: Vec<u8> = Vec::new();
    bytes.write_websocket_dataframe(frame.clone()).unwrap();
    assert_eq!(bytes.len(), 2 + 2 + 4 + 300);
    assert_eq!(bytes[0], 0x50 | 2);
    assert_eq!(bytes[1], 0x80 | 126);
    bytes.push(42);
    let back = bytes.read_websocket_dataframe().unwrap();
    assert_eq!(back, frame);
    assert_eq!(bytes, vec![42]);
    // a frame cut short is not read, and nothing is consumed
    let mut short: Vec<u8> = vec![0x81, 5, 1, 2];
    assert_eq!(
        short.read_websocket_dataframe().unwrap_err(),
        WebSocketError::IoError(websocket::result::IoErrorKind::UnexpectedEof)
    );
    assert_eq!(short.len(), 4);
}

#[test]
fn wire_length_forms() {
    assert_eq!(WebSocketDataFrameLength::new(125), WebSocketDataFrameLength::Tiny(125));
    assert_eq!(WebSocketDataFrameLength::new(126), WebSocketDataFrameLength::Short(126));
    assert_eq!(WebSocketDataFrameLength::new(65536), WebSocketDataFrameLength::Long(65536));
    assert_eq!(WebSocketDataFrameLength::Short(300).unwrap(), 300);
}
