//! The link to the game servers.

use chatroom_bridge::adapters::chatbridge::{
    decode_packet, dispatch, encode_frame, encode_frame_in, frame_packet, native_order,
    recv_error_message, AesCryptor, ByteOrder, ChatBridgeClient, Dispatch, FrameReader,
    ReceiveLoop, RecvError, Step, MAX_ERRORS, PACKET_TYPE_CHAT, PACKET_TYPE_KEEP_ALIVE,
    SERVER_NAME,
};
use chatroom_bridge::json::{json_text, parse_json, Json};

fn j(text: &str) -> Json {
    parse_json(text.as_bytes()).unwrap()
}

fn at<'a>(value: &'a Json, key: &str) -> &'a Json {
    value.get(key).unwrap()
}

fn string(value: &Json, key: &str) -> String {
    at(value, key).as_str().unwrap().clone()
}

fn chat_packet(receiver: &str, message: &str) -> Json {
    j(&format!(
        "{{\"sender\":\"{SERVER_NAME}\",\"receivers\":[\"{receiver}\"],\"broadcast\":false,\
         \"type\":\"{PACKET_TYPE_CHAT}\",\"payload\":{{\"author\":\"alice\",\"message\":\"{message}\"}}}}"
    ))
}

/// Reads one packet from the start of `bytes`, as a receiver does.
fn receive(bytes: &[u8], cryptor: &AesCryptor) -> Result<Json, RecvError> {
    let mut reader = FrameReader::new(native_order());
    let mut rest = bytes;
    while reader.wanted() > 0 {
        let n = reader.wanted().min(rest.len());
        if n == 0 {
            return Err(RecvError::Connection("连接断开".to_string()));
        }
        reader.feed(&rest[..n]);
        rest = &rest[n..];
    }
    decode_packet(cryptor, &reader.body())
}

#[test]
fn aes_roundtrip_keyed_produces_lowercase_hex() {
    let cryptor = AesCryptor::new("ThisIstheSecret");
    let plaintext = "你好，ChatBridge！mixed 中英文 0123456789";
    let wire = cryptor.encrypt(plaintext.as_bytes());
    assert!(wire.iter().all(|b| matches!(b, b'0'..=b'9' | b'a'..=b'f')));
    assert_eq!(wire.len() % 32, 0, "密文长度必须是 16 字节块的 2 倍 hex");
    assert_eq!(cryptor.decrypt(&wire).as_deref(), Some(plaintext.as_bytes()));
}

#[test]
fn aes_empty_key_passthrough_exact_bytes() {
    let cryptor = AesCryptor::new("");
    let plaintext: &[u8] = b"\x01\x02 raw {\"json\":true} \xff\xfe";
    assert_eq!(cryptor.encrypt(plaintext), plaintext.to_vec());
    let with_nul: &[u8] = b"abc\0\0";
    assert_eq!(cryptor.decrypt(with_nul), Some(with_nul.to_vec()));
    assert_eq!(cryptor.decrypt(b"\xff\xfe"), None);
}

#[test]
fn aes_known_answers_from_python_reference() {
    let cryptor = AesCryptor::new("ThisIstheSecret");
    assert_eq!(
        cryptor.encrypt(b"hello world"),
        b"a687744a874514b4c6cf5a819395726e".to_vec()
    );
    assert_eq!(
        cryptor.encrypt(&[b'A'; 16]),
        b"28d58b11ae093009fc42ee7348b6f81b".to_vec()
    );
    assert_eq!(
        cryptor.encrypt("The quick brown fox jumps over the lazy dog".as_bytes()),
        b"3721962b807a8fba617dbcc24342a77c47df2622781d6a7191b3e65166cb53b0e69640c01b5068ddbdc68d4907acd658".to_vec()
    );
    assert_eq!(cryptor.encrypt(b""), Vec::<u8>::new());
    assert_eq!(
        cryptor.decrypt(b"a687744a874514b4c6cf5a819395726e").as_deref(),
        Some(&b"hello world"[..])
    );
    assert_eq!(cryptor.decrypt(b""), Some(Vec::<u8>::new()));
}

#[test]
fn aes_tampered_or_malformed_input_returns_none() {
    let cryptor = AesCryptor::new("ThisIstheSecret");
    assert_eq!(
        cryptor.decrypt(&cryptor.encrypt(b"payload")).as_deref(),
        Some(&b"payload"[..])
    );
    let mut bad = cryptor.encrypt(b"payload");
    bad[0] = b'z';
    assert_eq!(cryptor.decrypt(&bad), None);
    assert_eq!(cryptor.decrypt(b"abc"), None);
    assert_eq!(cryptor.decrypt(b"00"), None);
    assert_eq!(cryptor.decrypt(&[b'f'; 32]), None);
}

#[test]
fn frame_encode_exact_bytes_native_endian() {
    let payload = json_text(&j("{\"name\": \"A\"}")).into_bytes();
    assert_eq!(payload, b"{\"name\":\"A\"}".to_vec());
    let frame = encode_frame(&payload);
    let mut expected = vec![0x0c, 0x00, 0x00, 0x00];
    expected.extend_from_slice(b"{\"name\":\"A\"}");
    assert_eq!(frame, expected);
    assert_eq!(&frame[..4], &12u32.to_ne_bytes());
}

#[test]
fn frame_prefix_follows_the_byte_order() {
    assert_eq!(encode_frame_in(ByteOrder::Little, b"abc"), b"\x03\0\0\0abc".to_vec());
    assert_eq!(encode_frame_in(ByteOrder::Big, b"abc"), b"\0\0\0\x03abc".to_vec());
    assert_eq!(encode_frame(b"abc"), encode_frame_in(native_order(), b"abc"));
}

#[test]
fn frame_decode_roundtrip_and_error_classification() {
    let cryptor = AesCryptor::new("");
    let payload = json_text(&j("{\"name\": \"A\"}")).into_bytes();
    let frame = encode_frame(&payload);

    let value = receive(&frame, &cryptor).unwrap();
    assert_eq!(json_text(&value), "{\"name\":\"A\"}");

    assert!(matches!(receive(&frame[..2], &cryptor), Err(RecvError::Connection(_))));

    let garbage: &[u8] = &[0x04, 0x00, 0x00, 0x00, 0xff, 0xff, 0xff, 0xff];
    assert!(matches!(receive(garbage, &cryptor), Err(RecvError::Decode(_))));

    assert!(matches!(receive(&[], &cryptor), Err(RecvError::Connection(_))));
}

#[test]
fn recv_errors_say_what_happened() {
    assert_eq!(recv_error_message(RecvError::Connection("gone".to_string())), "gone");
    assert_eq!(recv_error_message(RecvError::Decode("bad".to_string())), "bad");
}

/// A login, a chat message, a broadcast and a ping, without a socket between them.
#[test]
fn loopback_login_chat_pong_and_broadcast() {
    let cryptor = AesCryptor::new("testkey");
    let mut client = ChatBridgeClient::new("127.0.0.1", 4000, "tester", "pw", "testkey");

    let login = receive(&client.login_frame(), &cryptor).unwrap();
    assert_eq!(string(&login, "name"), "tester");
    assert_eq!(string(&login, "password"), "pw");
    assert!(ChatBridgeClient::check_login(&j("{\"message\": \"ok\"}")).is_ok());
    client.set_running(true);
    client.set_connected(true);
    assert!(client.is_connected());
    assert!(client.in_session());

    let frame = frame_packet(native_order(), &cryptor, &chat_packet("tester", "hello from server"));
    let packet = receive(&frame, &client.cryptor).unwrap();
    match dispatch(&packet).unwrap() {
        Dispatch::Chat { sender, author, message } => {
            assert_eq!(sender, SERVER_NAME);
            assert_eq!(author, "alice");
            assert_eq!(message, "hello from server");
        }
        other => panic!("{other:?}"),
    }

    let sent = client.broadcast_chat("hi from client", "bob").unwrap();
    let got = receive(&sent, &cryptor).unwrap();
    assert_eq!(string(&got, "sender"), "tester");
    assert_eq!(at(&got, "broadcast").as_bool(), Some(true));
    assert_eq!(string(&got, "type"), PACKET_TYPE_CHAT);
    assert_eq!(string(at(&got, "payload"), "author"), "bob");
    assert_eq!(string(at(&got, "payload"), "message"), "hi from client");

    let ping = j(&format!(
        "{{\"sender\":\"{SERVER_NAME}\",\"receivers\":[\"tester\"],\"broadcast\":false,\
         \"type\":\"{PACKET_TYPE_KEEP_ALIVE}\",\"payload\":{{\"ping_type\":\"ping\"}}}}"
    ));
    let to = match dispatch(&ping).unwrap() {
        Dispatch::Pong(to) => to,
        other => panic!("{other:?}"),
    };
    let pong = receive(&client.send_keep_alive(&to, "pong").unwrap(), &cryptor).unwrap();
    assert_eq!(string(&pong, "sender"), "tester");
    assert_eq!(at(&pong, "receivers").as_array().unwrap()[0].as_str().unwrap(), SERVER_NAME);
    assert_eq!(string(&pong, "type"), PACKET_TYPE_KEEP_ALIVE);
    assert_eq!(string(at(&pong, "payload"), "ping_type"), "pong");

    client.stop();
    assert!(!client.in_session());
    client.set_connected(false);
    assert!(!client.is_connected());
}

#[test]
fn a_refused_login_says_what_was_answered() {
    let err = ChatBridgeClient::check_login(&j("{\"message\": \"no\"}")).unwrap_err();
    assert_eq!(err, "ChatBridge 登录失败: {\"message\":\"no\"}");
}

#[test]
fn closed_connection_breaks_receive_loop_immediately() {
    let mut session = ReceiveLoop::new();
    let step = session.received(Err(RecvError::Connection("连接断开".to_string())));
    assert!(matches!(step, Step::Stop));
}

#[test]
fn receive_loop_breaks_after_five_consecutive_errors() {
    let mut session = ReceiveLoop::new();
    let bad = || j("[\"not-an-object\"]");
    let events = vec![
        bad(),
        chat_packet("web", "msg1"),
        bad(),
        chat_packet("web", "msg2"),
        bad(),
        bad(),
        bad(),
        bad(),
        bad(),
        chat_packet("web", "msg3-after-break"),
    ];
    let mut messages = Vec::new();
    let mut stopped_after = None;
    for (i, event) in events.into_iter().enumerate() {
        match session.received(Ok(event)) {
            Step::Stop => {
                stopped_after = Some(i);
                break;
            }
            Step::Go(Dispatch::Chat { message, .. }) => messages.push(message),
            Step::Go(_) => {}
        }
    }
    assert_eq!(MAX_ERRORS, 5);
    assert_eq!(stopped_after, Some(8));
    assert_eq!(messages, vec!["msg1".to_string(), "msg2".to_string()]);
}

#[test]
fn send_while_disconnected_is_silent_noop() {
    let client = ChatBridgeClient::new("127.0.0.1", 1, "n", "p", "");
    assert!(!client.is_connected());
    assert!(client.send_chat("mc", "hello", "tester").is_none());
    assert!(client.broadcast_chat("hello", "tester").is_none());
    assert!(!client.is_connected());
}

#[test]
fn a_message_without_text_is_not_passed_on() {
    let silent = chat_packet("web", "");
    assert!(matches!(dispatch(&silent).unwrap(), Dispatch::Nothing));
    let numbers = j(&format!(
        "{{\"sender\":\"mc\",\"type\":\"{PACKET_TYPE_CHAT}\",\"payload\":{{\"author\":null,\"message\":true}}}}"
    ));
    match dispatch(&numbers).unwrap() {
        Dispatch::Chat { author, message, .. } => {
            assert_eq!(author, "None");
            assert_eq!(message, "True");
        }
        other => panic!("{other:?}"),
    }
}

#[test]
fn what_comes_back_has_no_zeros_at_its_end() {
    let cryptor = AesCryptor::new("ThisIstheSecret");
    assert_eq!(cryptor.decrypt(&cryptor.encrypt(b"ab\0c\0\0")), Some(b"ab\0c".to_vec()));
    assert_eq!(cryptor.decrypt(&cryptor.encrypt(b"\0\0")), Some(Vec::new()));
    assert_eq!(cryptor.decrypt(&cryptor.encrypt(b"a\xff")), None);
    assert_eq!(cryptor.decrypt(&cryptor.encrypt(b"\xe4\xb8")), None);
    let clear = AesCryptor::new("");
    assert_eq!(clear.decrypt(&clear.encrypt(b"ab\0")), Some(b"ab\0".to_vec()));
    assert_eq!(clear.decrypt(&clear.encrypt(b"a\xff")), None);
}
