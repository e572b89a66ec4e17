use virgil::context::Context;
use virgil::context::decode_context;
use virgil::context::encode_context;
use virgil::messages::Message;
use virgil::messages::MessageStatus;
use virgil::messages::Response;
use virgil::messages::RustMessage;
use virgil::messages::decode_message;
use virgil::messages::decode_response;
use virgil::messages::decode_rust_message;
use virgil::messages::encode_message;
use virgil::messages::encode_response;
use virgil::messages::encode_rust_message;
use virgil::wake::WakeWordDetection;

#[test]
fn message_load_model_round_trips() {
    let m = Message::LoadModel { path: "ggml-tiny.en.bin".to_string() };
    let bytes = encode_message(&m);
    match decode_message(&bytes).unwrap() {
        Message::LoadModel { path } => assert_eq!(path, "ggml-tiny.en.bin"),
        other => panic!("wrong variant: {:?}", other),
    }
}

#[test]
fn message_update_audio_data_round_trips() {
    let samples = vec![0, 1, -1, i32::MAX, i32::MIN, 12345, -54321];
    let m = Message::UpdateAudioData { samples: samples.clone() };
    let bytes = encode_message(&m);
    match decode_message(&bytes).unwrap() {
        Message::UpdateAudioData { samples: s } => assert_eq!(s, samples),
        other => panic!("wrong variant: {:?}", other),
    }
}

#[test]
fn message_detect_wake_words_round_trips() {
    let bytes = encode_message(&Message::DetectWakeWords);
    assert!(matches!(decode_message(&bytes).unwrap(), Message::DetectWakeWords));
}

#[test]
fn message_transcribe_round_trips() {
    let bytes = encode_message(&Message::Transcribe);
    assert!(matches!(decode_message(&bytes).unwrap(), Message::Transcribe));
}

#[test]
fn message_debug_round_trips() {
    let m = Message::Debug { text: "ünïcode ✓ text".to_string() };
    let bytes = encode_message(&m);
    match decode_message(&bytes).unwrap() {
        Message::Debug { text } => assert_eq!(text, "ünïcode ✓ text"),
        other => panic!("wrong variant: {:?}", other),
    }
}

#[test]
fn truncated_message_is_rejected() {
    let bytes = encode_message(&Message::LoadModel { path: "model.bin".to_string() });
    for cut in 0..bytes.len() {
        let truncated: Vec<u8> = bytes[..cut].to_vec();
        assert!(decode_message(&truncated).is_err(), "cut at {} accepted", cut);
    }
}

#[test]
fn zero_length_message_is_rejected() {
    assert!(decode_message(&Vec::new()).is_err());
}

#[test]
fn unknown_message_discriminant_is_rejected() {
    // A frame of length 1 whose tag byte is 9.
    let bytes = vec![1, 0, 0, 0, 9];
    assert!(decode_message(&bytes).is_err());
}

#[test]
fn surrogate_code_point_is_rejected() {
    // LoadModel whose one-character path encodes the surrogate 0xD800.
    let bytes = vec![9, 0, 0, 0, 0, 1, 0, 0, 0, 0x00, 0xD8, 0x00, 0x00];
    assert!(decode_message(&bytes).is_err());
}

#[test]
fn wrong_length_prefix_is_rejected() {
    let mut bytes = encode_message(&Message::Transcribe);
    bytes[0] = bytes[0].wrapping_add(1);
    assert!(decode_message(&bytes).is_err());
}

#[test]
fn trailing_bytes_after_message_are_rejected() {
    let mut bytes = encode_message(&Message::Transcribe);
    bytes.push(0);
    assert!(decode_message(&bytes).is_err());
}

#[test]
fn response_text_round_trips() {
    let bytes = encode_response(&Response::Text { text: "hey there".to_string() });
    match decode_response(&bytes).unwrap() {
        Response::Text { text } => assert_eq!(text, "hey there"),
        other => panic!("wrong variant: {:?}", other),
    }
}

#[test]
fn response_detection_round_trips() {
    let detection = WakeWordDetection { detected: true, start_idx: Some(6), end_idx: Some(10) };
    let bytes = encode_response(&Response::WakeWordDetection { detection: detection.clone() });
    match decode_response(&bytes).unwrap() {
        Response::WakeWordDetection { detection: d } => assert_eq!(d, detection),
        other => panic!("wrong variant: {:?}", other),
    }
}

#[test]
fn response_empty_detection_round_trips() {
    let detection = WakeWordDetection { detected: false, start_idx: None, end_idx: None };
    let bytes = encode_response(&Response::WakeWordDetection { detection: detection.clone() });
    match decode_response(&bytes).unwrap() {
        Response::WakeWordDetection { detection: d } => assert_eq!(d, detection),
        other => panic!("wrong variant: {:?}", other),
    }
}

#[test]
fn response_error_round_trips() {
    let bytes = encode_response(&Response::Error { message: "model failed".to_string() });
    match decode_response(&bytes).unwrap() {
        Response::Error { message } => assert_eq!(message, "model failed"),
        other => panic!("wrong variant: {:?}", other),
    }
}

#[test]
fn truncated_response_is_rejected() {
    let detection = WakeWordDetection { detected: true, start_idx: Some(1), end_idx: Some(2) };
    let bytes = encode_response(&Response::WakeWordDetection { detection });
    for cut in 0..bytes.len() {
        let truncated: Vec<u8> = bytes[..cut].to_vec();
        assert!(decode_response(&truncated).is_err(), "cut at {} accepted", cut);
    }
}

#[test]
fn rust_message_round_trips() {
    let m = RustMessage {
        status: MessageStatus::Success,
        byte_len: 3,
        message: vec![0xDE, 0xAD, 0xBF],
    };
    let bytes = encode_rust_message(&m);
    let back = decode_rust_message(&bytes).unwrap();
    assert_eq!(back.status, MessageStatus::Success);
    assert_eq!(back.byte_len, 3);
    assert_eq!(back.message, vec![0xDE, 0xAD, 0xBF]);
}

#[test]
fn rust_message_bad_status_is_rejected() {
    let m = RustMessage { status: MessageStatus::Error, byte_len: 0, message: Vec::new() };
    let mut bytes = encode_rust_message(&m);
    bytes[0] = 7;
    assert!(decode_rust_message(&bytes).is_err());
}

#[test]
fn message_status_try_from_covers_all_bytes() {
    assert_eq!(MessageStatus::try_from(0).unwrap(), MessageStatus::Success);
    assert_eq!(MessageStatus::try_from(1).unwrap(), MessageStatus::Error);
    assert!(MessageStatus::try_from(2).is_err());
    assert!(MessageStatus::try_from(255).is_err());
}

#[test]
fn context_round_trips() {
    let ctx = Context {
        model_path: "model.bin".to_string(),
        wake_words: vec!["Hey".to_string(), "Wake".to_string()],
        transcript: "so far".to_string(),
    };
    let bytes = encode_context(&ctx);
    let back = decode_context(&bytes).unwrap();
    assert_eq!(back.model_path, "model.bin");
    assert_eq!(back.wake_words, vec!["Hey".to_string(), "Wake".to_string()]);
    assert_eq!(back.transcript, "so far");
}

#[test]
fn truncated_context_is_rejected() {
    let ctx = Context {
        model_path: "m".to_string(),
        wake_words: vec!["w".to_string()],
        transcript: String::new(),
    };
    let bytes = encode_context(&ctx);
    for cut in 0..bytes.len() {
        let truncated: Vec<u8> = bytes[..cut].to_vec();
        assert!(decode_context(&truncated).is_err(), "cut at {} accepted", cut);
    }
}
