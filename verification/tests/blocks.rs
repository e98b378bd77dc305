use protoflow::block::{Block, BlockError};
use protoflow::delay::{Delay, DelayStep, DelayType};
use protoflow::input_port::{Incoming, InputPort};
use protoflow::lines::{encode_line, join_lines, split_lines};
use protoflow::output_port::OutputPort;
use protoflow::port::{InputPortID, OutputPortID, Port, PortError, PortID, PortState};
use protoflow::read_file::ReadFile;
use protoflow::stdio::{Encoding, Stage, StageKind, StdioError};
use protoflow::system::System;
use protoflow::time::Duration;

#[test]
fn delay_instantiate_block() {
    // Check that the block is constructible:
    let _ = System::build(|mut s| {
        let input = s.input();
        let output = s.output();
        let _ = s.block(Delay::<i32>::with_params(
            input,
            output,
            DelayType::Fixed(Duration::from_secs(1)),
        ));
        s
    });
}

#[test]
fn read_file_instantiate_block() {
    // Check that the block is constructible:
    let _ = System::build(|mut s| {
        let path = s.input();
        let output = s.output();
        let _ = s.block(ReadFile::new(path, output));
        s
    });
}

#[test]
fn build_registers_blocks_in_order() {
    let s = System::build(|mut s| {
        let a_in = s.input::<Vec<u8>>();
        let a_out = s.output::<Vec<u8>>();
        let b_in = s.input::<String>();
        let b_out = s.output::<Vec<u8>>();
        let _ = s.block(Delay::new(a_in, a_out));
        let _ = s.block(ReadFile::new(b_in, b_out));
        s
    });
    assert_eq!(s.blocks.len(), 2);
    assert_eq!(s.blocks[0].inputs[0].name, "input");
    assert_eq!(s.blocks[0].inputs[0].id, PortID::Input(InputPortID(0)));
    assert_eq!(s.blocks[0].outputs[0].id, PortID::Output(OutputPortID(0)));
    assert_eq!(s.blocks[1].inputs[0].name, "path");
    assert_eq!(s.blocks[1].inputs[0].id, PortID::Input(InputPortID(1)));
    assert_eq!(s.blocks[1].outputs[0].name, "output");
    assert_eq!(s.blocks[1].outputs[0].id, PortID::Output(OutputPortID(1)));
}

#[test]
fn delay_new_waits_one_second() {
    let mut s = System::new();
    let d = Delay::<Vec<u8>>::new(s.input(), s.output());
    assert_eq!(d.delay, DelayType::Fixed(Duration { nanos: 1_000_000_000 }));
    assert_eq!(d.descriptor().inputs.len(), 1);
    assert_eq!(d.descriptor().outputs.len(), 1);
}

#[test]
fn delay_forwards_when_connected() {
    let mut s = System::new();
    let source: OutputPort<Vec<u8>> = s.output();
    let delay_in: InputPort<Vec<u8>> = s.input();
    let delay_out: OutputPort<Vec<u8>> = s.output();
    let sink: InputPort<Vec<u8>> = s.input();
    assert!(s.connect(&source, &delay_in));
    assert!(s.connect(&delay_out, &sink));
    let delay = Delay::with_params(delay_in, delay_out, DelayType::Fixed(Duration::from_millis(100)));
    let t = &mut s.transport;
    assert!(matches!(delay.step(t), Ok(DelayStep::Idle)));
    source.send(t, &vec![42u8]).unwrap();
    let held = match delay.step(t) {
        Ok(DelayStep::Hold(m)) => m,
        other => panic!("unexpected step: {:?}", other),
    };
    assert_eq!(held, vec![42u8]);
    assert_eq!(delay.delay.resolve(Duration::from_millis(7)), Duration { nanos: 100_000_000 });
    delay.forward(t, &held).unwrap();
    match sink.recv(t) {
        Ok(Incoming::Message(m)) => assert_eq!(m, vec![42u8]),
        other => panic!("unexpected: {:?}", other),
    }
    let mut source = source;
    assert_eq!(source.close(t), Ok(true));
    assert!(matches!(delay.step(t), Ok(DelayStep::Done)));
}

#[test]
fn delay_drops_without_waiting_when_output_is_not_connected() {
    let mut s = System::new();
    let source: OutputPort<Vec<u8>> = s.output();
    let delay_in: InputPort<Vec<u8>> = s.input();
    let delay_out: OutputPort<Vec<u8>> = s.output();
    assert!(s.connect(&source, &delay_in));
    let delay = Delay::with_params(delay_in, delay_out, DelayType::Fixed(Duration::from_secs(3600)));
    let t = &mut s.transport;
    for k in 0..1000u32 {
        source.send(t, &k.to_string().into_bytes()).unwrap();
    }
    for _ in 0..1000 {
        assert!(matches!(delay.step(t), Ok(DelayStep::Dropped)));
    }
    assert!(matches!(delay.step(t), Ok(DelayStep::Idle)));
}

#[test]
fn delay_step_on_unknown_input_fails() {
    let mut s = System::new();
    let delay_in: InputPort<Vec<u8>> = s.input();
    let delay_out: OutputPort<Vec<u8>> = s.output();
    let delay = Delay::new(delay_in, delay_out);
    let mut other = System::new();
    match delay.step(&mut other.transport) {
        Err(BlockError::Port(PortError::Other(m))) => assert_eq!(m, "unknown port"),
        other => panic!("unexpected: {:?}", other),
    }
}

#[test]
fn delay_step_reports_undecodable_frame() {
    let mut s = System::new();
    let source: OutputPort<Vec<u8>> = s.output();
    let delay_in: InputPort<Vec<u8>> = s.input();
    let delay_out: OutputPort<Vec<u8>> = s.output();
    assert!(s.connect(&source, &delay_in));
    let delay = Delay::new(delay_in, delay_out);
    // A frame whose length byte promises more than follows.
    s.transport.send(source.id, vec![5u8, 1, 2]).unwrap();
    assert!(matches!(delay.step(&mut s.transport), Err(BlockError::Decode)));
}

#[test]
fn resolve_keeps_a_drawn_wait_inside_the_range() {
    let range = Duration::from_millis(50)..Duration::from_millis(150);
    let delay = DelayType::Random(range.clone());
    assert_eq!(delay.resolve(Duration::from_millis(50)), Duration::from_millis(50));
    assert_eq!(delay.resolve(Duration::from_millis(149)), Duration::from_millis(149));
    assert_eq!(delay.resolve(Duration::from_millis(150)), Duration::from_millis(50));
    assert_eq!(delay.resolve(Duration::from_millis(10)), Duration::from_millis(50));
    assert_eq!(delay.clone(), DelayType::Random(range));
    assert_eq!(
        DelayType::Fixed(Duration::from_millis(100)).resolve(Duration::from_secs(9)),
        Duration { nanos: 100_000_000 }
    );
}

#[test]
fn duration_parts() {
    let d = Duration { nanos: 2_500_000_123 };
    assert_eq!(d.as_secs(), 2);
    assert_eq!(d.subsec_nanos(), 500_000_123);
    assert_eq!(Duration::from_secs(u64::MAX).nanos, (u64::MAX as u128) * 1_000_000_000);
    assert!(d.is_within(&(Duration::from_secs(2)..Duration::from_secs(3))));
    assert!(!d.is_within(&(Duration::from_secs(3)..Duration::from_secs(2))));
}

#[test]
fn build_system_wires_the_filter() {
    let p = Delay::<Vec<u8>>::build_system(Encoding::Text, Some(Ok(Duration::from_secs(0))), None).unwrap();
    assert_eq!(p.system.blocks.len(), 5);
    assert_eq!(p.stdin, Stage { kind: StageKind::ReadStdin, input: None, output: Some(OutputPortID(0)) });
    assert_eq!(
        p.decoder,
        Stage {
            kind: StageKind::Decode(Encoding::Text),
            input: Some(InputPortID(0)),
            output: Some(OutputPortID(1))
        }
    );
    assert_eq!(p.delayer.input.id, InputPortID(1));
    assert_eq!(p.delayer.output.id, OutputPortID(2));
    assert_eq!(p.delayer.delay, DelayType::Fixed(Duration { nanos: 0 }));
    assert_eq!(
        p.encoder,
        Stage {
            kind: StageKind::Encode(Encoding::Text),
            input: Some(InputPortID(2)),
            output: Some(OutputPortID(3))
        }
    );
    assert_eq!(p.stdout, Stage { kind: StageKind::WriteStdout, input: Some(InputPortID(3)), output: None });
    for k in 0..4 {
        assert_eq!(p.system.transport.state(PortID::Output(OutputPortID(k))), Ok(PortState::Connected));
        assert_eq!(p.system.transport.state(PortID::Input(InputPortID(k))), Ok(PortState::Connected));
    }
    assert!(p.system.transport.state(PortID::Input(InputPortID(4))).is_err());
    assert!(p.delayer.output.is_connected(&p.system.transport));
    assert_eq!(p.system.blocks[2].inputs[0].id, PortID::Input(InputPortID(1)));
    assert_eq!(p.system.blocks[4].outputs.len(), 0);
    assert_eq!(p.system.blocks[0].inputs.len(), 0);
}

#[test]
fn build_system_passes_a_line_through() {
    let mut p = Delay::<Vec<u8>>::build_system(Encoding::Text, Some(Ok(Duration::from_secs(0))), None).unwrap();
    let t = &mut p.system.transport;
    let decoded_out: OutputPort<Vec<u8>> =
        OutputPort { id: p.decoder.output.unwrap(), _phantom: std::marker::PhantomData };
    let encoder_in: InputPort<Vec<u8>> =
        InputPort { id: p.encoder.input.unwrap(), _phantom: std::marker::PhantomData };
    for line in ["a", "bb", "ccc"] {
        decoded_out.send(t, &line.as_bytes().to_vec()).unwrap();
    }
    let mut seen: Vec<Vec<u8>> = Vec::new();
    loop {
        match p.delayer.step(t) {
            Ok(DelayStep::Hold(m)) => p.delayer.forward(t, &m).unwrap(),
            Ok(DelayStep::Idle) => break,
            other => panic!("unexpected: {:?}", other),
        }
    }
    while let Ok(Incoming::Message(m)) = encoder_in.recv(t) {
        seen.push(m);
    }
    assert_eq!(seen, vec![b"a".to_vec(), b"bb".to_vec(), b"ccc".to_vec()]);
}

#[test]
fn build_system_refuses_a_bad_or_missing_parameter() {
    match Delay::<Vec<u8>>::build_system(Encoding::Json, Some(Err(())), None) {
        Err(e) => assert_eq!(e, StdioError::InvalidParameter("fixed".to_string())),
        Ok(_) => panic!("a bad parameter was accepted"),
    }
    match Delay::<Vec<u8>>::build_system(Encoding::Json, None, None) {
        Err(e) => assert_eq!(e, StdioError::MissingParameter("fixed".to_string())),
        Ok(_) => panic!("a missing parameter was accepted"),
    }
}

#[test]
fn build_system_takes_a_random_wait() {
    let range = Duration::from_secs(1)..Duration::from_secs(10);
    let p = Delay::<String>::build_system(Encoding::Protobuf, None, Some(Ok(range.clone()))).unwrap();
    assert_eq!(p.delayer.delay, DelayType::Random(range.clone()));
    let p = Delay::<String>::build_system(
        Encoding::Protobuf,
        Some(Ok(Duration::from_millis(5))),
        Some(Ok(range)),
    )
    .unwrap();
    assert_eq!(p.delayer.delay, DelayType::Fixed(Duration { nanos: 5_000_000 }));
    match Delay::<String>::build_system(Encoding::Text, None, Some(Err(()))) {
        Err(e) => assert_eq!(e, StdioError::InvalidParameter("random".to_string())),
        Ok(_) => panic!("a bad parameter was accepted"),
    }
    match Delay::<String>::build_system(Encoding::Text, Some(Err(())), Some(Err(()))) {
        Err(e) => assert_eq!(e, StdioError::InvalidParameter("fixed".to_string())),
        Ok(_) => panic!("a bad parameter was accepted"),
    }
}

#[test]
fn strings_pass_through_and_reach_a_closed_sink() {
    let mut s = System::new();
    let mut source: OutputPort<String> = s.output();
    let mut sink: InputPort<String> = s.input();
    assert!(s.connect(&source, &sink));
    let t = &mut s.transport;
    assert_eq!(source.send(t, &"hello".to_string()), Ok(()));
    assert_eq!(source.send(t, &"h\u{e9}llo \u{1F600}".to_string()), Ok(()));
    assert_eq!(source.close(t), Ok(true));
    match sink.recv(t) {
        Ok(Incoming::Message(m)) => assert_eq!(m, "hello"),
        other => panic!("unexpected: {:?}", other),
    }
    match sink.recv(t) {
        Ok(Incoming::Message(m)) => assert_eq!(m, "h\u{e9}llo \u{1F600}"),
        other => panic!("unexpected: {:?}", other),
    }
    assert!(matches!(sink.recv(t), Ok(Incoming::EndOfStream)));
    assert!(matches!(sink.recv(t), Ok(Incoming::EndOfStream)));
    assert_eq!(sink.close(t), Ok(false));
    assert!(source.is_closed(t));
    assert!(sink.is_closed(t));
}

#[test]
fn bytes_that_are_no_text_do_not_decode_as_a_string() {
    let mut s = System::new();
    let source: OutputPort<Vec<u8>> = s.output();
    let sink: InputPort<String> = InputPort { id: s.transport.open_input(), _phantom: std::marker::PhantomData };
    assert!(s.transport.connect(source.id, sink.id));
    source.send(&mut s.transport, &vec![0xFFu8, 0xFE]).unwrap();
    source.send(&mut s.transport, &vec![0x68u8, 0x69]).unwrap();
    assert!(matches!(sink.recv(&mut s.transport), Err(protoflow::port::RecvError::Decode)));
    match sink.recv(&mut s.transport) {
        Ok(Incoming::Message(m)) => assert_eq!(m, "hi"),
        other => panic!("unexpected: {:?}", other),
    }
}

#[test]
fn a_thousand_strings_are_dropped_at_once() {
    let mut s = System::new();
    let source: OutputPort<String> = s.output();
    let delay_in: InputPort<String> = s.input();
    let delay_out: OutputPort<String> = s.output();
    assert!(s.connect(&source, &delay_in));
    let delay = Delay::with_params(delay_in, delay_out, DelayType::Fixed(Duration::from_secs(1)));
    let t = &mut s.transport;
    for k in 0..1000u32 {
        source.send(t, &k.to_string()).unwrap();
    }
    let mut dropped = 0;
    while let Ok(DelayStep::Dropped) = delay.step(t) {
        dropped += 1;
    }
    assert_eq!(dropped, 1000);
    assert!(matches!(delay.step(t), Ok(DelayStep::Idle)));
}

#[test]
fn lines_split_and_join() {
    assert_eq!(split_lines(&b"a\nbb\nccc\n".to_vec()), vec![b"a".to_vec(), b"bb".to_vec(), b"ccc".to_vec()]);
    assert_eq!(split_lines(&b"a\n\nb".to_vec()), vec![b"a".to_vec(), b"".to_vec(), b"b".to_vec()]);
    assert_eq!(split_lines(&b"\n".to_vec()), vec![b"".to_vec()]);
    assert_eq!(split_lines(&b"x".to_vec()), vec![b"x".to_vec()]);
    assert_eq!(split_lines(&Vec::new()), Vec::<Vec<u8>>::new());
    assert_eq!(encode_line(&b"x".to_vec()), b"x\n".to_vec());
    assert_eq!(encode_line(&Vec::new()), b"\n".to_vec());
    assert_eq!(join_lines(&vec![b"a".to_vec(), b"".to_vec(), b"b".to_vec()]), b"a\n\nb\n".to_vec());
    assert_eq!(join_lines(&Vec::new()), Vec::<u8>::new());
    let lines = vec![b"one".to_vec(), b"".to_vec(), b"three".to_vec()];
    assert_eq!(split_lines(&join_lines(&lines)), lines);
}

#[test]
fn line_pipeline_gives_back_its_input() {
    let input = b"a\nbb\nccc\n".to_vec();
    let mut p = Delay::<Vec<u8>>::build_system(Encoding::Text, Some(Ok(Duration::from_secs(0))), None).unwrap();
    let t = &mut p.system.transport;
    let decoded_out: OutputPort<Vec<u8>> =
        OutputPort { id: p.decoder.output.unwrap(), _phantom: std::marker::PhantomData };
    let encoder_in: InputPort<Vec<u8>> =
        InputPort { id: p.encoder.input.unwrap(), _phantom: std::marker::PhantomData };
    for line in split_lines(&input) {
        decoded_out.send(t, &line).unwrap();
    }
    decoded_out.clone().close(t).unwrap();
    loop {
        match p.delayer.step(t) {
            Ok(DelayStep::Hold(m)) => {
                assert_eq!(p.delayer.delay.resolve(Duration::from_secs(5)), Duration { nanos: 0 });
                p.delayer.forward(t, &m).unwrap()
            }
            Ok(DelayStep::Done) => break,
            other => panic!("unexpected: {:?}", other),
        }
    }
    let mut seen: Vec<Vec<u8>> = Vec::new();
    while let Ok(Incoming::Message(m)) = encoder_in.recv(t) {
        seen.push(m);
    }
    assert_eq!(join_lines(&seen), input);
}
