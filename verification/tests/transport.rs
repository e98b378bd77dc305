use protoflow::input_port::{Incoming, InputPort};
use protoflow::message::{
    decode_length_delimited, decode_varint, encode_length_delimited, encode_varint, Message,
};
use protoflow::output_port::OutputPort;
use protoflow::port::{
    unknown_port, InputPortID, OutputPortID, Port, PortError, PortID, PortState, RecvError,
};
use protoflow::process::close_ports;
use protoflow::stdio::{
    decode_with, encode_with, holds_no_newline, parse_encoding, parse_kv_param, split_range,
    str_equal, Encoding, ExecuteError,
};
use protoflow::system::{System, SystemBuilding, SystemExecution};
use protoflow::transport::{Received, Transport};

fn channel() -> (Transport, OutputPortID, InputPortID) {
    let mut t = Transport::new();
    let o = t.open_output();
    let i = t.open_input();
    assert!(t.connect(o, i));
    (t, o, i)
}

#[test]
fn port_state_predicates() {
    assert!(PortState::Open.is_open());
    assert!(!PortState::Open.is_connected());
    assert!(PortState::Connected.is_connected());
    assert!(!PortState::Connected.is_closed());
    assert!(PortState::Closed.is_closed());
    assert!(!PortState::Closed.is_open());
    assert_eq!(unknown_port(), PortError::Other("unknown port".to_string()));
}

#[test]
fn fresh_ports_are_open_and_numbered_in_order() {
    let mut t = Transport::new();
    assert_eq!(t.open_input(), InputPortID(0));
    assert_eq!(t.open_input(), InputPortID(1));
    assert_eq!(t.open_output(), OutputPortID(0));
    assert_eq!(t.state(PortID::Input(InputPortID(1))), Ok(PortState::Open));
    assert_eq!(t.state(PortID::Output(OutputPortID(0))), Ok(PortState::Open));
    assert_eq!(t.state(PortID::Output(OutputPortID(1))), Err(unknown_port()));
}

#[test]
fn frames_arrive_in_the_order_sent() {
    let (mut t, o, i) = channel();
    assert_eq!(t.recv(i), Ok(Received::Pending));
    for k in 0..50u8 {
        assert_eq!(t.send(o, vec![k, k]), Ok(()));
    }
    for k in 0..50u8 {
        assert_eq!(t.recv(i), Ok(Received::Frame(vec![k, k])));
    }
    assert_eq!(t.recv(i), Ok(Received::Pending));
}

#[test]
fn end_of_stream_follows_the_frames_sent_before_the_close() {
    let (mut t, o, i) = channel();
    t.send(o, vec![1]).unwrap();
    t.send(o, vec![2]).unwrap();
    assert_eq!(t.close(PortID::Output(o)), Ok(true));
    assert_eq!(t.state(PortID::Input(i)), Ok(PortState::Closed));
    assert_eq!(t.recv(i), Ok(Received::Frame(vec![1])));
    assert_eq!(t.recv(i), Ok(Received::Frame(vec![2])));
    assert_eq!(t.recv(i), Ok(Received::EndOfStream));
    assert_eq!(t.recv(i), Ok(Received::EndOfStream));
    assert_eq!(t.send(o, vec![3]), Err(PortError::Closed));
}

#[test]
fn connect_succeeds_at_most_once() {
    let (mut t, o, i) = channel();
    assert_eq!(t.state(PortID::Output(o)), Ok(PortState::Connected));
    assert_eq!(t.state(PortID::Input(i)), Ok(PortState::Connected));
    assert!(!t.connect(o, i));
    let o2 = t.open_output();
    let i2 = t.open_input();
    assert!(!t.connect(o2, i));
    assert!(!t.connect(o, i2));
    assert!(!t.connect(OutputPortID(9), i2));
    assert!(!t.connect(o2, InputPortID(9)));
    assert!(t.connect(o2, i2));
    t.close(PortID::Output(o2)).unwrap();
    assert!(!t.connect(o2, i2));
    let o3 = t.open_output();
    assert!(!t.connect(o3, i2));
}

#[test]
fn close_is_idempotent_and_reaches_the_peer() {
    let (mut t, o, i) = channel();
    t.send(o, vec![1]).unwrap();
    assert_eq!(t.close(PortID::Input(i)), Ok(true));
    assert_eq!(t.close(PortID::Input(i)), Ok(false));
    assert_eq!(t.state(PortID::Output(o)), Ok(PortState::Closed));
    assert_eq!(t.close(PortID::Output(o)), Ok(false));
    assert_eq!(t.recv(i), Ok(Received::EndOfStream));
    assert_eq!(t.send(o, vec![2]), Err(PortError::Closed));
    assert_eq!(t.close(PortID::Input(InputPortID(5))), Err(unknown_port()));
    assert_eq!(t.close(PortID::Output(OutputPortID(5))), Err(unknown_port()));
}

#[test]
fn send_and_recv_errors() {
    let mut t = Transport::new();
    let o = t.open_output();
    assert_eq!(t.send(o, vec![1]), Err(PortError::Disconnected));
    assert_eq!(t.send(OutputPortID(3), vec![1]), Err(PortError::Other("unknown port".to_string())));
    assert_eq!(t.recv(InputPortID(0)), Err(unknown_port()));
    let i = t.open_input();
    assert_eq!(t.recv(i), Ok(Received::Pending));
    assert_eq!(t.close(PortID::Input(i)), Ok(true));
    assert_eq!(t.recv(i), Ok(Received::EndOfStream));
    assert_eq!(t.close(PortID::Output(o)), Ok(true));
    assert_eq!(t.send(o, vec![1]), Err(PortError::Closed));
}

#[test]
fn varint_bytes() {
    let mut out = vec![9u8];
    encode_varint(0, &mut out);
    encode_varint(127, &mut out);
    encode_varint(128, &mut out);
    encode_varint(300, &mut out);
    assert_eq!(out, vec![9, 0, 127, 0x80, 0x01, 0xAC, 0x02]);
    assert_eq!(decode_varint(&out, 5, 10), Some((300, 2)));
    assert_eq!(decode_varint(&out, 5, 1), None);
    assert_eq!(decode_varint(&out, 7, 10), None);
    assert_eq!(decode_varint(&vec![0x80u8, 0x80], 0, 10), None);
    let mut big = Vec::new();
    encode_varint(usize::MAX, &mut big);
    assert_eq!(decode_varint(&big, 0, 10), Some((usize::MAX, big.len())));
    assert_eq!(decode_varint(&vec![0xFFu8; 10], 0, 10), None);
    assert_eq!(decode_varint(&vec![0xFF, 0xFF, 0xFF, 0xFF, 0xFF, 0xFF, 0xFF, 0xFF, 0xFF, 0x7F], 0, 10), None);
}

#[test]
fn frames_round_trip() {
    assert_eq!(encode_length_delimited(&vec![]), vec![0u8]);
    assert_eq!(encode_length_delimited(&b"hello".to_vec()), b"\x05hello".to_vec());
    let long = vec![7u8; 300];
    let frame = encode_length_delimited(&long);
    assert_eq!(&frame[..2], &[0xAC, 0x02]);
    assert_eq!(frame.len(), 302);
    assert_eq!(decode_length_delimited(&frame), Some(long));
    assert_eq!(decode_length_delimited(&b"\x05hello".to_vec()), Some(b"hello".to_vec()));
    assert_eq!(decode_length_delimited(&b"\x05hell".to_vec()), None);
    assert_eq!(decode_length_delimited(&b"\x05hello!".to_vec()), None);
    assert_eq!(decode_length_delimited(&vec![]), None);
    assert_eq!(decode_length_delimited(&vec![0u8]), Some(vec![]));
    let v = b"payload".to_vec();
    assert_eq!(Vec::<u8>::decode(&v.encode()), Some(v));
}

#[test]
fn one_hop_pass_through() {
    let mut s = System::new();
    let mut source: OutputPort<Vec<u8>> = s.output();
    let mut sink: InputPort<Vec<u8>> = s.input();
    assert!(s.connect(&source, &sink));
    assert!(!s.connect(&source, &sink));
    let mut p = s.execute();
    let t = &mut p.transport;
    assert!(source.is_connected(t));
    assert!(sink.is_connected(t));
    assert_eq!(source.send(t, &b"hello".to_vec()), Ok(()));
    assert_eq!(source.clone().close(t), Ok(true));
    match sink.recv(t) {
        Ok(Incoming::Message(m)) => assert_eq!(m, b"hello".to_vec()),
        other => panic!("unexpected: {:?}", other),
    }
    assert!(matches!(sink.recv(t), Ok(Incoming::EndOfStream)));
    assert_eq!(sink.close(t), Ok(false));
    assert_eq!(source.close(t), Ok(false));
    assert!(source.is_closed(t));
    assert!(sink.is_closed(t));
    assert!(!sink.is_open(t));
    assert_eq!(Port::state(&source, t), PortState::Closed);
    assert_eq!(source.id(), Some(PortID::Output(OutputPortID(0))));
    assert_eq!(sink.id(), Some(PortID::Input(InputPortID(0))));
    assert_eq!(source.name(), None);
    assert_eq!(sink.label(), None);
}

#[test]
fn typed_port_errors() {
    let mut s = System::new();
    let source: OutputPort<Vec<u8>> = s.output();
    let sink: InputPort<Vec<u8>> = s.input();
    let t = &mut s.transport;
    assert_eq!(source.send(t, &vec![1]), Err(PortError::Disconnected));
    assert!(matches!(sink.recv(t), Ok(Incoming::Pending)));
    assert!(source.is_open(t));
    let mut empty = Transport::new();
    assert!(matches!(sink.recv(&mut empty), Err(RecvError::Port(PortError::Other(_)))));
    assert!(source.is_closed(&empty));
    assert_eq!(Port::state(&sink, &empty), PortState::Closed);
    let mut source = source;
    assert_eq!(Port::close(&mut source, &mut empty), Err(unknown_port()));
    let mut sink = sink;
    assert_eq!(Port::close(&mut sink, t), Ok(true));
    assert_eq!(Port::close(&mut sink, t), Ok(false));
}

#[test]
fn undecodable_frame_is_reported() {
    let (mut t, o, i) = channel();
    t.send(o, vec![2, 1]).unwrap();
    t.send(o, vec![1, 9]).unwrap();
    let sink: InputPort<Vec<u8>> = InputPort { id: i, _phantom: std::marker::PhantomData };
    assert!(matches!(sink.recv(&mut t), Err(RecvError::Decode)));
    match sink.recv(&mut t) {
        Ok(Incoming::Message(m)) => assert_eq!(m, vec![9]),
        other => panic!("unexpected: {:?}", other),
    }
}

#[test]
fn finished_blocks_leave_every_port_closed() {
    let mut s = System::new();
    let a_out: OutputPort<Vec<u8>> = SystemBuilding::output(&mut s);
    let b_in: InputPort<Vec<u8>> = SystemBuilding::input(&mut s);
    let b_out: OutputPort<Vec<u8>> = s.output();
    let c_in: InputPort<Vec<u8>> = s.input();
    assert!(SystemBuilding::connect(&mut s, &a_out, &b_in));
    assert!(s.connect(&b_out, &c_in));
    let a = protoflow::stdio::Stage {
        kind: protoflow::stdio::StageKind::ReadStdin,
        input: None,
        output: Some(a_out.id),
    };
    let c = protoflow::stdio::Stage {
        kind: protoflow::stdio::StageKind::WriteStdout,
        input: Some(c_in.id),
        output: None,
    };
    SystemBuilding::block(&mut s, a);
    s.block(protoflow::delay::Delay::new(b_in, b_out));
    s.block(c);
    let mut p = SystemExecution::execute(s);
    assert!(!p.is_complete());
    assert!(!p.is_done(0));
    assert!(!p.is_done(7));
    p.transport.send(a_out.id, vec![1, 5]).unwrap();
    p.finish_block(0);
    assert!(p.is_done(0));
    assert_eq!(p.transport.state(PortID::Output(OutputPortID(0))), Ok(PortState::Closed));
    assert_eq!(p.transport.state(PortID::Input(InputPortID(0))), Ok(PortState::Closed));
    assert_eq!(p.transport.state(PortID::Output(OutputPortID(1))), Ok(PortState::Connected));
    assert_eq!(p.transport.recv(InputPortID(0)), Ok(Received::Frame(vec![1, 5])));
    assert_eq!(p.transport.recv(InputPortID(0)), Ok(Received::EndOfStream));
    p.finish_block(1);
    assert!(!p.is_complete());
    p.finish_block(2);
    p.finish_block(2);
    assert!(p.is_complete());
    for k in 0..2 {
        assert_eq!(p.transport.state(PortID::Output(OutputPortID(k))), Ok(PortState::Closed));
        assert_eq!(p.transport.state(PortID::Input(InputPortID(k))), Ok(PortState::Closed));
    }
}

#[test]
fn close_ports_closes_each_listed_port() {
    let (mut t, o, i) = channel();
    let o2 = t.open_output();
    let ports = vec![
        protoflow::block::PortDescriptor { name: "a".to_string(), id: PortID::Output(o2) },
        protoflow::block::PortDescriptor { name: "b".to_string(), id: PortID::Input(InputPortID(8)) },
        protoflow::block::PortDescriptor { name: "c".to_string(), id: PortID::Input(i) },
    ];
    close_ports(&mut t, &ports);
    assert_eq!(t.state(PortID::Output(o2)), Ok(PortState::Closed));
    assert_eq!(t.state(PortID::Input(i)), Ok(PortState::Closed));
    assert_eq!(t.state(PortID::Output(o)), Ok(PortState::Closed));
}

#[test]
fn encodings_by_name() {
    assert_eq!(parse_encoding("text"), Ok(Encoding::Text));
    assert_eq!(parse_encoding("protobuf"), Ok(Encoding::Protobuf));
    assert_eq!(parse_encoding("json"), Ok(Encoding::Json));
    assert_eq!(parse_encoding("xml"), Err(ExecuteError::InvalidEncoding("xml".to_string())));
    assert_eq!(parse_encoding(""), Err(ExecuteError::InvalidEncoding(String::new())));
    assert_eq!(parse_encoding("Text"), Err(ExecuteError::InvalidEncoding("Text".to_string())));
    assert!(str_equal("é=", "é="));
    assert!(!str_equal("ab", "abc"));
    assert!(!str_equal("abd", "abc"));
}

#[test]
fn key_value_parameters() {
    assert_eq!(parse_kv_param("fixed=0.0"), Ok(("fixed".to_string(), "0.0".to_string())));
    assert_eq!(parse_kv_param("random=1..10"), Ok(("random".to_string(), "1..10".to_string())));
    assert_eq!(parse_kv_param("a=b=c"), Ok(("a".to_string(), "b=c".to_string())));
    assert_eq!(parse_kv_param("="), Ok((String::new(), String::new())));
    assert_eq!(parse_kv_param("clé=été"), Ok(("clé".to_string(), "été".to_string())));
    assert_eq!(parse_kv_param("fixed"), Err("invalid key=value parameter".to_string()));
    assert_eq!(parse_kv_param(""), Err("invalid key=value parameter".to_string()));
}

#[test]
fn ranges_split_at_the_first_two_dots() {
    assert_eq!(split_range("1..10"), Some(("1".to_string(), "10".to_string())));
    assert_eq!(split_range("0.05..0.15"), Some(("0.05".to_string(), "0.15".to_string())));
    assert_eq!(split_range(".."), Some((String::new(), String::new())));
    assert_eq!(split_range("1...5"), Some(("1".to_string(), ".5".to_string())));
    assert_eq!(split_range("1.5"), None);
    assert_eq!(split_range("."), None);
    assert_eq!(split_range(""), None);
}

#[test]
fn text_messages_are_their_utf8_bytes() {
    let s = "h\u{e9}".to_string();
    assert_eq!(s.encode(), vec![0x68, 0xC3, 0xA9]);
    assert_eq!(String::decode(&vec![0x68, 0xC3, 0xA9]), Some(s));
    assert_eq!(String::decode(&vec![0xC3]), None);
    assert_eq!(String::decode(&vec![]), Some(String::new()));
}

#[test]
fn shutdown_closes_every_input() {
    let mut s = System::new();
    let a_out: OutputPort<Vec<u8>> = s.output();
    let b_in: InputPort<Vec<u8>> = s.input();
    let lone_in: InputPort<Vec<u8>> = s.input();
    let lone_out: OutputPort<Vec<u8>> = s.output();
    assert!(s.connect(&a_out, &b_in));
    assert_eq!(s.transport.input_count(), 2);
    assert_eq!(s.transport.output_count(), 2);
    let mut p = s.execute();
    a_out.send(&mut p.transport, &vec![1]).unwrap();
    p.shutdown();
    assert!(b_in.is_closed(&p.transport));
    assert!(lone_in.is_closed(&p.transport));
    assert!(a_out.is_closed(&p.transport));
    assert!(lone_out.is_open(&p.transport));
    assert_eq!(a_out.send(&mut p.transport, &vec![2]), Err(PortError::Closed));
    assert!(matches!(b_in.recv(&mut p.transport), Ok(Incoming::EndOfStream)));
    assert!(p.is_complete());
    p.shutdown();
    assert_eq!(p.transport.input_count(), 2);
}

#[test]
fn every_encoding_round_trips() {
    let payload = b"{\"a\":1}".to_vec();
    assert_eq!(encode_with(Encoding::Text, &payload), Some(b"{\"a\":1}\n".to_vec()));
    assert_eq!(encode_with(Encoding::Json, &payload), Some(b"{\"a\":1}\n".to_vec()));
    assert_eq!(encode_with(Encoding::Protobuf, &payload), Some(b"\x07{\"a\":1}".to_vec()));
    for e in [Encoding::Text, Encoding::Protobuf, Encoding::Json] {
        let bytes = encode_with(e, &payload).unwrap();
        assert_eq!(decode_with(e, &bytes), Some(payload.clone()));
        assert_eq!(decode_with(e, &encode_with(e, &Vec::new()).unwrap()), Some(Vec::new()));
    }
    let two = b"a\nb".to_vec();
    assert_eq!(encode_with(Encoding::Text, &two), None);
    assert_eq!(encode_with(Encoding::Json, &two), None);
    assert_eq!(decode_with(Encoding::Protobuf, &encode_with(Encoding::Protobuf, &two).unwrap()), Some(two));
    assert_eq!(decode_with(Encoding::Text, &b"a\nb\n".to_vec()), None);
    assert_eq!(decode_with(Encoding::Text, &b"ab".to_vec()), None);
    assert_eq!(decode_with(Encoding::Text, &Vec::new()), None);
    assert_eq!(decode_with(Encoding::Protobuf, &b"\x02a".to_vec()), None);
    assert!(holds_no_newline(&b"a\nb".to_vec(), 2, 3));
    assert!(!holds_no_newline(&b"a\nb".to_vec(), 0, 3));
    assert!(holds_no_newline(&b"a\nb".to_vec(), 1, 1));
}
