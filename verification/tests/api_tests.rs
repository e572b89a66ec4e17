use virgil::api::assemble_transcript;
use virgil::api::init_context;
use virgil::api::transcribe_speech;
use virgil::buffers::BufferTable;
use virgil::codec::write_string;
use virgil::codec::write_strings;
use virgil::context::Context;
use virgil::context::decode_context;
use virgil::context::encode_context;
use virgil::port::HostChannel;

#[test]
fn init_context_builds_an_encoded_context() {
    let mut model_path_bytes: Vec<u8> = Vec::new();
    write_string(&mut model_path_bytes, "model.bin");
    let mut wake_words_bytes: Vec<u8> = Vec::new();
    write_strings(&mut wake_words_bytes, &vec!["Hey".to_string()]);

    let ctx_bytes = init_context(&model_path_bytes, &wake_words_bytes).unwrap();
    let ctx = decode_context(&ctx_bytes).unwrap();
    assert_eq!(ctx.model_path, "model.bin");
    assert_eq!(ctx.wake_words, vec!["Hey".to_string()]);
    assert_eq!(ctx.transcript, "");
}

#[test]
fn init_context_rejects_malformed_input() {
    let mut good: Vec<u8> = Vec::new();
    write_strings(&mut good, &vec!["Hey".to_string()]);
    assert!(init_context(&Vec::new(), &good).is_err());

    let mut path: Vec<u8> = Vec::new();
    write_string(&mut path, "model.bin");
    assert!(init_context(&path, &Vec::new()).is_err());

    let mut trailing = path.clone();
    trailing.push(0);
    assert!(init_context(&trailing, &good).is_err());
}

#[test]
fn transcribe_speech_replaces_the_transcript() {
    let ctx = Context {
        model_path: "model.bin".to_string(),
        wake_words: vec!["Hey".to_string()],
        transcript: "stale".to_string(),
    };
    let ctx_bytes = encode_context(&ctx);
    let delivered = vec!["hey there".to_string(), " and more".to_string()];
    let out = transcribe_speech(&ctx_bytes, &delivered).unwrap();
    let updated = decode_context(&out).unwrap();
    assert_eq!(updated.model_path, "model.bin");
    assert_eq!(updated.wake_words, vec!["Hey".to_string()]);
    assert_eq!(updated.transcript, "hey there and more");
}

#[test]
fn transcribe_speech_rejects_malformed_context() {
    assert!(transcribe_speech(&vec![1, 2, 3], &Vec::new()).is_err());
}

#[test]
fn transcript_segments_concatenate_in_order() {
    let segments = vec!["a".to_string(), "".to_string(), "bc".to_string()];
    assert_eq!(assemble_transcript(&segments), "abc");
    assert_eq!(assemble_transcript(&Vec::new()), "");
}

#[test]
fn set_wake_words_replaces_the_list() {
    let mut ctx = Context {
        model_path: "model.bin".to_string(),
        wake_words: vec!["Old".to_string()],
        transcript: String::new(),
    };
    let words = vec!["Hey".to_string(), "Wake".to_string()];
    assert!(ctx.set_wake_words(&words).is_ok());
    assert_eq!(ctx.wake_words, words);
    assert_eq!(ctx.model_path, "model.bin");
}

#[test]
fn host_channel_registers_a_port() {
    let mut channel = HostChannel::new();
    assert_eq!(channel.port(), 0);
    channel.set_dart_port(42);
    assert_eq!(channel.port(), 42);
}

#[test]
fn buffers_are_released_exactly_once() {
    let mut table = BufferTable::new();
    let h1 = table.register(vec![1, 2, 3]);
    let h2 = table.register(Vec::new());
    assert_eq!(table.get(h1).unwrap(), &vec![1, 2, 3]);

    assert!(table.free(h1, 3).is_ok());
    assert!(table.free(h1, 3).is_err(), "double release must fail");
    assert!(table.get(h1).is_none());

    assert!(table.free(h2, 1).is_err(), "wrong length must fail");
    assert!(table.get(h2).is_some(), "failed release must not consume");
    assert!(table.free(h2, 0).is_ok());

    assert!(table.free(99, 0).is_err(), "unknown handle must fail");
}
