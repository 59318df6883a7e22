//! Framing, the link handshake and the main-channel bootstrap, both sides
//! talking to each other without a transport in between.

use rsa::pkcs8::{EncodePrivateKey, EncodePublicKey};
use rsa::{BigUint, Oaep, RsaPrivateKey, RsaPublicKey};
use sha1::Sha1;

use capsaicin::client::{
    first_event, ClientError, ClientEvent, InputEvent, MouseMode, SpiceClientBuilder,
};
use capsaicin::client::inputs::encode_event;
use capsaicin::net::auth::{encrypt_ticket, ticket_from, ticket_plaintext, SealError};
use capsaicin::net::channel::DEFAULT_MAX_MESSAGE_SIZE;
use capsaicin::net::client::has_channel;
use capsaicin::net::link::{link_payload_len, negotiate_mini_header, read_reply, read_result};
use capsaicin::net::server::{read_mess, reply_key, ticket_verdict, verdict_bytes};
use capsaicin::net::{
    AcceptedLink, Bootstrap, Channel, LinkOptions, MainConnection, Message, NetError, ServerKey,
    ServerLinkOptions,
};
use capsaicin::proto::caps::{self, CapSet};
use capsaicin::proto::enums::{
    main_msg, main_msgc, msg, msgc, ChannelType, LinkError, SPICE_MAX_PASSWORD_LENGTH,
    SPICE_TICKET_PUBKEY_BYTES,
};
use capsaicin::proto::common::{Ping, Pong};
use capsaicin::proto::error::ProtoError;
use capsaicin::proto::header::MiniDataHeader;
use capsaicin::proto::inputs::{
    button_mask, client_msg as inputs_client, MouseMotion, MousePosition,
};
use capsaicin::proto::link::{LinkHeader, LinkReply, LINK_HEADER_SIZE};
use capsaicin::proto::main_chan::{mouse_mode, ClientInfo, Init, MouseModeRequest};
use capsaicin::proto::types::{ChannelId, Writer};
use capsaicin::server::sessions::is_password_failure;
use capsaicin::server::{
    bootstrap_opening, bootstrap_step, channels_message, decide_link, default_channels,
    LinkDecision, Server,
};

/// Read one message off the front of `wire`.
fn read_message(ch: &Channel<()>, wire: &mut Vec<u8>) -> Result<Message, NetError> {
    let n = ch.header_len();
    let header = ch.read_header(&wire[..n])?;
    let size = header.size as usize;
    let body = wire[n..n + size].to_vec();
    wire.drain(..n + size);
    Ok(header.message(body))
}

/// Run the whole handshake: what the client gets, and what the server gets.
fn handshake(
    client: &LinkOptions<'_>,
    server: &ServerLinkOptions<'_>,
) -> (Result<Channel<()>, NetError>, Result<AcceptedLink<()>, NetError>) {
    let hello = client.hello();
    let (head, payload) = hello.split_at(LINK_HEADER_SIZE);
    assert_eq!(link_payload_len(head).unwrap(), payload.len());
    let mess = read_mess(payload).unwrap();

    let reply = server.reply().unwrap();
    let (head, payload) = reply.split_at(LINK_HEADER_SIZE);
    assert_eq!(link_payload_len(head).unwrap(), payload.len());
    let (server_caps, ticket) = client.answer(payload).unwrap();
    assert_eq!(ticket.len(), 128);

    let verdict = server.verdict(&ticket);
    let result = verdict_bytes(verdict);
    (client.finish((), &server_caps, &result), server.finish((), mess, verdict))
}

fn connect(server: &Server, opts: &LinkOptions<'_>) -> (Channel<()>, AcceptedLink<()>) {
    let (client, accepted) = handshake(opts, &server.link_options());
    (client.unwrap(), accepted.unwrap())
}

fn main_options(password: &str) -> LinkOptions<'_> {
    let mut opts = LinkOptions::new(ChannelType::Main);
    opts.password = password;
    opts
}

/// Run the main-channel bootstrap over both channels.
fn bootstrap(
    client: Channel<()>,
    server: &mut Channel<()>,
    session_id: u32,
    channels: &[ChannelId],
) -> MainConnection<()> {
    let mut client = client;
    let mut boot = Bootstrap::new();
    let mut to_client: Vec<u8> = Vec::new();
    for o in bootstrap_opening(session_id, None) {
        to_client.extend(server.write_message(o.msg_type, &o.body).unwrap());
    }
    let mut attached = false;
    while !boot.done() {
        let m = read_message(&client, &mut to_client).unwrap();
        for o in boot.step(m.msg_type, &m.body).unwrap() {
            let mut to_server = client.write_message(o.msg_type, &o.body).unwrap();
            let m = read_message(server, &mut to_server).unwrap();
            if !attached && bootstrap_step(m.msg_type, &m.body).unwrap() {
                attached = true;
                let list = channels_message(channels);
                to_client.extend(server.write_message(list.msg_type, &list.body).unwrap());
            }
        }
    }
    boot.finish(client).unwrap()
}

#[test]
fn roundtrip_mini_header() {
    let mut ca = Channel::new((), true);
    let cb = Channel::new((), true);

    let mut wire = ca.write_message(42, b"hello").unwrap();
    let m = read_message(&cb, &mut wire).unwrap();
    assert_eq!(m.msg_type, 42);
    assert_eq!(m.serial, None);
    assert_eq!(&m.body[..], b"hello");
    assert!(wire.is_empty());
}

#[test]
fn roundtrip_full_header_increments_serial() {
    let mut ca = Channel::new((), false);
    let cb = Channel::new((), false);

    let mut wire = ca.write_message(7, b"x").unwrap();
    wire.extend(ca.write_message(8, b"yz").unwrap());

    let m1 = read_message(&cb, &mut wire).unwrap();
    let m2 = read_message(&cb, &mut wire).unwrap();
    assert_eq!(m1.serial, Some(1));
    assert_eq!(m2.serial, Some(2));
    assert_eq!(m1.msg_type, 7);
    assert_eq!(m2.msg_type, 8);
}

#[test]
fn rejects_oversized_declared_size() {
    let mut cb = Channel::new((), true);
    cb.set_max_message_size(8);

    // Fake a mini header that claims a gigantic body.
    let hdr = MiniDataHeader { msg_type: 1, size: 9_999_999 };
    let mut bytes = Vec::new();
    hdr.encode(&mut bytes);

    let err = read_message(&cb, &mut bytes).unwrap_err();
    assert!(matches!(err, NetError::MessageTooLarge { .. }));
    assert_eq!(err, NetError::MessageTooLarge { size: 9_999_999, max: 8 });
}

#[test]
fn a_channel_accepts_messages_up_to_its_limit() {
    let mut ch = Channel::new((), true);
    let hdr = MiniDataHeader { msg_type: 1, size: DEFAULT_MAX_MESSAGE_SIZE };
    let mut bytes = Vec::new();
    hdr.encode(&mut bytes);
    assert_eq!(ch.read_header(&bytes).unwrap().size, 33_554_432);
    ch.set_max_message_size(DEFAULT_MAX_MESSAGE_SIZE - 1);
    assert!(ch.read_header(&bytes).is_err());
    assert!(matches!(
        ch.read_header(&bytes[..5]),
        Err(NetError::Proto(ProtoError::Short { .. }))
    ));
}

#[test]
fn frames_have_the_documented_layout() {
    let mut mini = Channel::new((), true);
    assert_eq!(mini.write_message(0x0102, &[9, 8]).unwrap(), vec![2, 1, 2, 0, 0, 0, 9, 8]);
    let mut full = Channel::new((), false);
    assert_eq!(
        full.write_message(0x0102, &[9]).unwrap(),
        vec![1, 0, 0, 0, 0, 0, 0, 0, 2, 1, 1, 0, 0, 0, 0, 0, 0, 0, 9]
    );
    *mini.get_mut() = ();
    assert_eq!(*mini.get_ref(), ());
    mini.into_inner();
}

fn spki(key: &RsaPrivateKey) -> [u8; SPICE_TICKET_PUBKEY_BYTES] {
    let der = RsaPublicKey::from(key).to_public_key_der().unwrap();
    let mut fixed = [0u8; SPICE_TICKET_PUBKEY_BYTES];
    fixed.copy_from_slice(der.as_bytes());
    fixed
}

#[test]
fn roundtrip_matches_spice_gtk_framing() {
    let mut rng = rand::rngs::OsRng;
    let priv_key = RsaPrivateKey::new(&mut rng, 1024).unwrap();
    let pub_key = RsaPublicKey::from(&priv_key);

    let der = pub_key.to_public_key_der().unwrap();
    assert_eq!(der.as_bytes().len(), SPICE_TICKET_PUBKEY_BYTES);

    let mut fixed = [0u8; SPICE_TICKET_PUBKEY_BYTES];
    fixed.copy_from_slice(der.as_bytes());

    let ct = encrypt_ticket(&fixed, "hunter2").unwrap();
    assert_eq!(ct.len(), 128, "RSA-1024 output must be 128 bytes");

    let pt = priv_key.decrypt(Oaep::new::<Sha1>(), &ct).unwrap();
    assert_eq!(&pt[..pt.len() - 1], b"hunter2");
    assert_eq!(pt.last().copied(), Some(0));
}

#[test]
fn rejects_password_over_max() {
    let pk = [0u8; SPICE_TICKET_PUBKEY_BYTES];
    let long = "a".repeat(SPICE_MAX_PASSWORD_LENGTH + 1);
    assert!(matches!(
        encrypt_ticket(&pk, &long),
        Err(NetError::PasswordTooLong { .. })
    ));
}

#[test]
fn a_password_of_the_longest_length_is_sealed() {
    let mut rng = rand::rngs::OsRng;
    let key = RsaPrivateKey::new(&mut rng, 1024).unwrap();
    let longest = "b".repeat(SPICE_MAX_PASSWORD_LENGTH);
    let ct = encrypt_ticket(&spki(&key), &longest).unwrap();
    let pt = key.decrypt(Oaep::new::<Sha1>(), &ct).unwrap();
    assert_eq!(pt, ticket_plaintext(&longest));
}

#[test]
fn sealing_is_randomized() {
    let mut rng = rand::rngs::OsRng;
    let key = RsaPrivateKey::new(&mut rng, 1024).unwrap();
    let a = encrypt_ticket(&spki(&key), "pw").unwrap();
    let b = encrypt_ticket(&spki(&key), "pw").unwrap();
    assert_ne!(a, b);
}

#[test]
fn a_key_that_is_no_key_is_refused() {
    let pk = [0u8; SPICE_TICKET_PUBKEY_BYTES];
    assert_eq!(encrypt_ticket(&pk, "pw"), Err(NetError::BadServerKey));
    // The length of the password is looked at first.
    assert_eq!(
        encrypt_ticket(&pk, &"a".repeat(61)),
        Err(NetError::PasswordTooLong { len: 61 })
    );
}

#[test]
fn ticket_outcomes() {
    assert_eq!(ticket_plaintext("hi"), vec![b'h', b'i', 0]);
    assert_eq!(ticket_plaintext(""), vec![0]);
    assert_eq!(ticket_from(Ok(vec![7; 128])), Ok(vec![7; 128]));
    assert_eq!(ticket_from(Ok(vec![7; 127])), Err(NetError::BadServerKey));
    assert_eq!(ticket_from(Err(SealError::BadKey)), Err(NetError::BadServerKey));
    assert_eq!(
        ticket_from(Err(SealError::Refused("no".to_string()))),
        Err(NetError::RsaEncrypt("no".to_string()))
    );
}

#[test]
fn ticket_verdicts() {
    assert_eq!(ticket_verdict(Some(vec![b'p', b'w', 0]), "pw"), LinkError::Success);
    // Without the terminator the password still counts.
    assert_eq!(ticket_verdict(Some(vec![b'p', b'w']), "pw"), LinkError::Success);
    assert_eq!(ticket_verdict(Some(vec![b'p', 0]), "pw"), LinkError::PermissionDenied);
    assert_eq!(ticket_verdict(Some(vec![b'p', b'w', b'x', 0]), "pw"), LinkError::PermissionDenied);
    assert_eq!(ticket_verdict(None, "pw"), LinkError::PermissionDenied);
    assert_eq!(ticket_verdict(Some(vec![0]), ""), LinkError::Success);
}

/// Minimal server stub: reply with a generated RSA key, decrypt the ticket,
/// check the password, and acknowledge.
fn link_to_fake_server(
    opts: &LinkOptions<'_>,
    priv_key: &RsaPrivateKey,
    expected_password: &str,
    server_common_caps: CapSet,
) -> Channel<()> {
    let reply = LinkReply {
        error: LinkError::Success,
        pub_key: spki(priv_key),
        common_caps: server_common_caps.words().to_vec(),
        channel_caps: vec![],
    };
    let mut out = Vec::new();
    LinkHeader::new(reply.encoded_len() as u32).encode(&mut out);
    reply.encode(&mut out);
    let (head, payload) = out.split_at(LINK_HEADER_SIZE);
    assert_eq!(link_payload_len(head).unwrap(), payload.len());

    let (caps, ticket) = opts.answer(payload).unwrap();
    let pt = priv_key.decrypt(Oaep::new::<Sha1>(), &ticket).unwrap();
    assert_eq!(&pt[..pt.len() - 1], expected_password.as_bytes());
    opts.finish((), &caps, &verdict_bytes(LinkError::Success)).unwrap()
}

#[test]
fn client_handshake_negotiates_mini_header() {
    let mut rng = rand::rngs::OsRng;
    let priv_key = RsaPrivateKey::new(&mut rng, 1024).unwrap();
    let server_caps = CapSet::with_caps([caps::common::MINI_HEADER]);

    let opts = LinkOptions {
        connection_id: 0,
        channel_type: ChannelType::Main,
        channel_id: 0,
        password: "s3cret",
        common_caps: CapSet::with_caps([caps::common::AUTH_SPICE, caps::common::MINI_HEADER]),
        channel_caps: CapSet::new(),
    };
    let channel = link_to_fake_server(&opts, &priv_key, "s3cret", server_caps);
    assert!(channel.mini_header());
}

#[test]
fn falls_back_to_full_header_when_server_lacks_cap() {
    let mut rng = rand::rngs::OsRng;
    let priv_key = RsaPrivateKey::new(&mut rng, 1024).unwrap();
    let server_caps = CapSet::new(); // no MINI_HEADER

    let mut opts = LinkOptions::new(ChannelType::Main);
    opts.password = "pw";
    let channel = link_to_fake_server(&opts, &priv_key, "pw", server_caps);
    assert!(!channel.mini_header());
}

#[test]
fn compact_headers_take_both_sides() {
    let with = CapSet::with_caps([caps::common::MINI_HEADER]);
    let without = CapSet::with_caps([caps::common::AUTH_SPICE]);
    assert!(negotiate_mini_header(&with, &with));
    assert!(!negotiate_mini_header(&with, &without));
    assert!(!negotiate_mini_header(&without, &with));
    assert!(!negotiate_mini_header(&without, &without));
}

#[test]
fn client_and_server_complete_handshake() {
    let key = ServerKey::generate().unwrap();
    let (client, accepted) =
        handshake(&main_options("sesame"), &ServerLinkOptions::new(&key, "sesame"));
    let accepted = accepted.unwrap();
    let client = client.unwrap();

    assert_eq!(accepted.channel_type, ChannelType::Main);
    assert!(accepted.channel.mini_header());
    assert!(client.mini_header());
    assert_eq!(accepted.connection_id, 0);
    assert_eq!(accepted.channel_id, 0);
    assert!(accepted.client_common_caps.has(caps::common::AUTH_SPICE));
}

#[test]
fn server_rejects_wrong_password() {
    let key = ServerKey::generate().unwrap();
    let (client_res, server_res) =
        handshake(&main_options("wrong"), &ServerLinkOptions::new(&key, "correct"));
    assert!(matches!(
        server_res,
        Err(NetError::Link(LinkError::PermissionDenied))
    ));
    assert!(matches!(
        client_res,
        Err(NetError::Link(LinkError::PermissionDenied))
    ));
}

/// A client that announces a gigantic payload is refused before anything is
/// allocated for it.
#[test]
fn server_rejects_oversized_link_payload_pre_auth() {
    // SPICE_MAGIC + version 2.2 + size = u32::MAX
    let mut bogus_header = Vec::new();
    bogus_header.extend_from_slice(&0x5144_4552u32.to_le_bytes()); // "REDQ"
    bogus_header.extend_from_slice(&2u32.to_le_bytes()); // major
    bogus_header.extend_from_slice(&2u32.to_le_bytes()); // minor
    bogus_header.extend_from_slice(&u32::MAX.to_le_bytes()); // size
    let err = link_payload_len(&bogus_header).unwrap_err();
    assert!(
        matches!(err, NetError::Proto(ProtoError::SizeTooLarge { .. })),
        "expected SizeTooLarge, got {err:?}"
    );
}

#[test]
fn a_ticket_that_cannot_be_opened_is_denied() {
    let key = ServerKey::generate().unwrap();
    let opts = ServerLinkOptions::new(&key, "pw");
    assert_eq!(opts.verdict(&[0u8; 128]), LinkError::PermissionDenied);
    // So is one that was sealed for another server.
    let mut rng = rand::rngs::OsRng;
    let other = RsaPrivateKey::new(&mut rng, 1024).unwrap();
    let ticket = encrypt_ticket(&spki(&other), "pw").unwrap();
    assert_eq!(opts.verdict(&ticket), LinkError::PermissionDenied);
}

fn server_key(key: &RsaPrivateKey) -> ServerKey {
    ServerKey::from_pkcs8(key.to_pkcs8_der().unwrap().as_bytes().to_vec())
}

/// Factors of very different length, which the key's own checks let through.
#[test]
fn the_length_of_a_keys_factors_does_not_matter() {
    let two_to_1021 = BigUint::from(1u8) << 1021;
    let long = &two_to_1021 + 1u8;
    let short = BigUint::from(5u8);
    let n = &long * &short;
    let d = (&two_to_1021 + 1u8) / 3u8;
    let e = BigUint::from(3u8);
    let key = |factors| {
        RsaPrivateKey::from_components(n.clone(), e.clone(), d.clone(), factors).unwrap()
    };
    let mut ticket = [0u8; 128];
    ticket[127] = 2;
    for factors in [vec![short.clone(), long.clone()], vec![long, short]] {
        let key = server_key(&key(factors));
        assert_eq!(
            ServerLinkOptions::new(&key, "pw").verdict(&ticket),
            LinkError::PermissionDenied
        );
    }
}

#[test]
fn a_server_key_of_another_size_is_refused() {
    let mut rng = rand::rngs::OsRng;
    let big = RsaPrivateKey::new(&mut rng, 1536).unwrap();
    let key = server_key(&big);
    assert_eq!(ServerLinkOptions::new(&key, "pw").reply(), Err(NetError::BadServerKey));
    let none = ServerKey::from_pkcs8(vec![1, 2, 3]);
    assert_eq!(ServerLinkOptions::new(&none, "pw").reply(), Err(NetError::BadServerKey));
    assert_eq!(ServerLinkOptions::new(&none, "pw").verdict(&[0; 128]), LinkError::PermissionDenied);

    assert!(reply_key(Some(vec![5; SPICE_TICKET_PUBKEY_BYTES])).is_ok());
    assert_eq!(reply_key(Some(vec![5; 161])), Err(NetError::BadServerKey));
    assert_eq!(reply_key(None), Err(NetError::BadServerKey));
}

#[test]
fn the_reply_carries_the_public_key() {
    let mut rng = rand::rngs::OsRng;
    let private = RsaPrivateKey::new(&mut rng, 1024).unwrap();
    let key = server_key(&private);
    let out = ServerLinkOptions::new(&key, "pw").reply().unwrap();
    let reply = read_reply(&out[LINK_HEADER_SIZE..]).unwrap();
    assert_eq!(reply.pub_key, spki(&private));
    assert_eq!(reply.error, LinkError::Success);
}

#[test]
fn a_link_error_in_the_reply_ends_the_handshake() {
    let reply = LinkReply {
        error: LinkError::NeedSecured,
        pub_key: [0; SPICE_TICKET_PUBKEY_BYTES],
        common_caps: vec![],
        channel_caps: vec![],
    };
    let mut out = Vec::new();
    reply.encode(&mut out);
    assert_eq!(read_reply(&out), Err(NetError::Link(LinkError::NeedSecured)));
    assert_eq!(
        main_options("pw").answer(&out).unwrap_err(),
        NetError::Link(LinkError::NeedSecured)
    );
    assert!(matches!(read_reply(&out[..100]), Err(NetError::Proto(ProtoError::Short { .. }))));
}

#[test]
fn results_are_read() {
    assert_eq!(read_result(&[0, 0, 0, 0]), Ok(()));
    assert_eq!(read_result(&[7, 0, 0, 0]), Err(NetError::Link(LinkError::PermissionDenied)));
    assert_eq!(
        read_result(&[99, 0, 0, 0]),
        Err(NetError::Proto(ProtoError::BadLinkError(99)))
    );
    assert!(matches!(read_result(&[0, 0]), Err(NetError::Proto(ProtoError::Short { .. }))));
}

#[test]
fn client_completes_main_bootstrap_and_discovers_channels() {
    let mut server = Server::new("letmein").unwrap();
    let (client, accepted) = connect(&server, &main_options("letmein"));
    let session_id = server.new_session_id();
    let mut ch = accepted.channel;
    let main = bootstrap(client, &mut ch, session_id, &default_channels());

    assert!(main.session_id > 0, "server must allocate a session id");
    assert!(main.channel.mini_header());

    let advertised: Vec<u8> = main.available_channels.iter().map(|c| c.channel_type).collect();
    assert!(advertised.contains(&ChannelType::Main.to_u8()));
    assert!(advertised.contains(&ChannelType::Display.to_u8()));
    assert!(advertised.contains(&ChannelType::Inputs.to_u8()));
    assert_eq!(main.session_id, session_id);
    assert_eq!(main.init.session_id, session_id);
    assert_eq!(first_event(&main.init), ClientEvent::MouseMode(MouseMode::Server));
}

#[test]
fn client_can_open_inputs_and_display_sub_channels() {
    let mut server = Server::new("pw").unwrap();
    let (client, accepted) = connect(&server, &main_options("pw"));
    let session_id = server.new_session_id();
    let mut ch = accepted.channel;
    let main = bootstrap(client, &mut ch, session_id, &default_channels());

    for ty in [ChannelType::Inputs, ChannelType::Display] {
        let mut opts = LinkOptions::new(ty);
        opts.password = "pw";
        opts.connection_id = main.session_id;
        let (sub, accepted) = connect(&server, &opts);
        assert!(sub.mini_header());
        assert_eq!(accepted.connection_id, session_id);
        assert_eq!(accepted.channel_type, ty);
        assert_eq!(
            decide_link(&server, accepted.channel_type, accepted.connection_id),
            LinkDecision::Attach
        );
    }
}

#[test]
fn input_events_round_trip_over_inputs_channel() {
    let server = Server::new("pw").unwrap();
    let mut opts = LinkOptions::new(ChannelType::Inputs);
    opts.password = "pw";
    let (mut inputs, accepted) = connect(&server, &opts);

    // Send a mouse motion and a mouse position.
    let mut w = Writer::new();
    MouseMotion { dx: 10, dy: -5, buttons_state: 0 }.encode(&mut w);
    let mut wire = inputs.write_message(inputs_client::INPUTS_MOUSE_MOTION, w.as_slice()).unwrap();

    let mut w = Writer::new();
    MousePosition { x: 640, y: 480, buttons_state: button_mask::LEFT, display_id: 0 }
        .encode(&mut w);
    wire.extend(inputs.write_message(inputs_client::INPUTS_MOUSE_POSITION, w.as_slice()).unwrap());

    let mut received = Vec::new();
    while !wire.is_empty() {
        received.push(read_message(&accepted.channel, &mut wire).unwrap());
    }
    assert_eq!(received.len(), 2);
    assert_eq!(received[0].msg_type, inputs_client::INPUTS_MOUSE_MOTION);
    let motion = MouseMotion::decode(&received[0].body).unwrap();
    assert_eq!(motion.dx, 10);
    assert_eq!(motion.dy, -5);

    assert_eq!(received[1].msg_type, inputs_client::INPUTS_MOUSE_POSITION);
    let pos = MousePosition::decode(&received[1].body).unwrap();
    assert_eq!(pos.x, 640);
    assert_eq!(pos.y, 480);
    assert_eq!(pos.buttons_state, button_mask::LEFT);
}

#[test]
fn send_input_reaches_the_server() {
    let server = Server::new("pw").unwrap();
    let mut opts = LinkOptions::new(ChannelType::Inputs);
    opts.password = "pw";
    let (mut inputs, accepted) = connect(&server, &opts);

    let o = encode_event(InputEvent::MousePosition { x: 320, y: 240, buttons: 0, display: 0 });
    let mut wire = inputs.write_message(o.msg_type, &o.body).unwrap();

    let m = read_message(&accepted.channel, &mut wire).unwrap();
    assert_eq!(m.msg_type, inputs_client::INPUTS_MOUSE_POSITION);
    let pos = MousePosition::decode(&m.body).unwrap();
    assert_eq!(pos.x, 320);
    assert_eq!(pos.y, 240);
}

#[test]
fn server_rejects_wrong_password_over_tcp() {
    let server = Server::new("correct").unwrap();
    let (client, accepted) = handshake(&main_options("wrong"), &server.link_options());
    match client {
        Err(NetError::Link(LinkError::PermissionDenied)) => {}
        Err(other) => panic!("expected PermissionDenied, got {other:?}"),
        Ok(_) => panic!("wrong password should fail"),
    }
    match accepted {
        Err(e) => assert!(is_password_failure(&e)),
        Ok(_) => panic!("wrong password should fail"),
    }
    assert!(!is_password_failure(&NetError::Link(LinkError::InvalidData)));
    assert!(!is_password_failure(&NetError::BadServerKey));
}

/// Sanity-check: ensure the common caps the client advertises by default
/// are the ones that are documented, catching any drift.
#[test]
fn client_defaults_advertise_auth_spice_and_mini_header() {
    let opts = LinkOptions::new(ChannelType::Main);
    assert!(opts.common_caps.has(caps::common::AUTH_SPICE));
    assert!(opts.common_caps.has(caps::common::MINI_HEADER));
}

#[test]
fn channels_list_includes_default_three() {
    let channels = default_channels();
    let types: Vec<u8> = channels.iter().map(|c: &ChannelId| c.channel_type).collect();
    assert_eq!(
        types,
        vec![
            ChannelType::Main.to_u8(),
            ChannelType::Display.to_u8(),
            ChannelType::Inputs.to_u8(),
        ]
    );
}

#[test]
fn missing_channel_returns_clear_error() {
    // A bare server that only advertises main (no display/inputs).
    let mut server = Server::new("pw").unwrap();
    let (client, accepted) = connect(&server, &main_options("pw"));
    let session_id = server.new_session_id();
    let mut ch = accepted.channel;
    let only_main = [ChannelId { channel_type: ChannelType::Main.to_u8(), id: 0 }];
    let main = bootstrap(client, &mut ch, session_id, &only_main);

    match SpiceClientBuilder::new().plan(&main.available_channels) {
        Err(ClientError::MissingChannel(name)) => {
            assert!(name == "display" || name == "inputs");
        }
        Err(other) => panic!("expected MissingChannel, got {other:?}"),
        Ok(_) => panic!("expected MissingChannel, got a plan"),
    }
    assert_eq!(
        SpiceClientBuilder::new().display(false).plan(&main.available_channels),
        Err(ClientError::MissingChannel("inputs"))
    );
    let plan = SpiceClientBuilder::new()
        .display(false)
        .inputs(false)
        .plan(&main.available_channels)
        .unwrap();
    assert!(!plan.display && !plan.inputs && !plan.cursor && plan.cursor_missing);
}

#[test]
fn a_plan_attaches_what_is_wanted_and_listed() {
    let plan = SpiceClientBuilder::new().plan(&default_channels()).unwrap();
    assert!(plan.display && plan.inputs && !plan.cursor && plan.cursor_missing);
    let plan = SpiceClientBuilder::new().cursor(false).plan(&default_channels()).unwrap();
    assert!(!plan.cursor && !plan.cursor_missing);
    let mut all = default_channels();
    all.push(ChannelId { channel_type: ChannelType::Cursor.to_u8(), id: 0 });
    let plan = SpiceClientBuilder::default().plan(&all).unwrap();
    assert!(plan.display && plan.inputs && plan.cursor && !plan.cursor_missing);
    assert_eq!(
        plan.channels(),
        vec![ChannelType::Display, ChannelType::Inputs, ChannelType::Cursor]
    );
    let plan = SpiceClientBuilder::new().display(false).cursor(false).plan(&all).unwrap();
    assert_eq!(plan.channels(), vec![ChannelType::Inputs]);
    assert!(has_channel(&all, ChannelType::Cursor));
    assert!(!has_channel(&all, ChannelType::Playback));

    let b = SpiceClientBuilder::new();
    assert_eq!((b.event_capacity, b.input_capacity), (256, 256));
    let b = b.event_capacity(0).input_capacity(9);
    assert_eq!((b.event_capacity, b.input_capacity), (1, 9));
}

fn init(supported: u32, current: u32) -> Vec<u8> {
    let mut w = Writer::new();
    Init {
        session_id: 5,
        display_channels_hint: 1,
        supported_mouse_modes: supported,
        current_mouse_mode: current,
        agent_connected: 0,
        agent_tokens: 0,
        multi_media_time: 0,
        ram_hint: 0,
    }
    .encode(&mut w);
    w.into_vec()
}

#[test]
fn the_bootstrap_asks_for_client_mouse_mode() {
    let mut boot = Bootstrap::new();
    let out = boot.step(main_msg::INIT, &init(3, mouse_mode::SERVER)).unwrap();
    assert_eq!(out.len(), 2);
    assert_eq!(out[0].msg_type, main_msgc::MOUSE_MODE_REQUEST);
    assert_eq!(
        MouseModeRequest::decode(&out[0].body).unwrap(),
        MouseModeRequest { mode: mouse_mode::CLIENT }
    );
    assert_eq!(out[1].msg_type, main_msgc::ATTACH_CHANNELS);
    assert!(out[1].body.is_empty());

    // Not where the server is in it already, or does not know it.
    for (supported, current) in [(3, mouse_mode::CLIENT), (1, mouse_mode::SERVER)] {
        let out = Bootstrap::new().step(main_msg::INIT, &init(supported, current)).unwrap();
        assert_eq!(out.len(), 1);
        assert_eq!(out[0].msg_type, main_msgc::ATTACH_CHANNELS);
    }
}

#[test]
fn link_payloads_are_capped_at_four_kibibytes() {
    let header = |size: u32| {
        let mut out = Vec::new();
        LinkHeader::new(size).encode(&mut out);
        link_payload_len(&out)
    };
    assert_eq!(header(4096), Ok(4096));
    assert_eq!(
        header(4097),
        Err(NetError::Proto(ProtoError::SizeTooLarge { declared: 4097, max: 4096 }))
    );
    let mut other = Vec::new();
    LinkHeader::new(1).encode(&mut other);
    other[4] = 3;
    assert!(matches!(
        link_payload_len(&other),
        Err(NetError::Proto(ProtoError::BadVersion { major: 3, .. }))
    ));
}

#[test]
fn the_bootstrap_answers_control_messages() {
    let mut boot = Bootstrap::new();
    let mut w = Writer::new();
    Ping { id: 3, timestamp: 77, data: vec![1, 2] }.encode(&mut w);
    let out = boot.step(msg::PING, w.as_slice()).unwrap();
    assert_eq!(out.len(), 1);
    assert_eq!(out[0].msg_type, msgc::PONG);
    let pong = Pong::decode(&out[0].body).unwrap();
    assert_eq!((pong.id, pong.timestamp), (3, 77));

    let out = boot.step(msg::SET_ACK, &[4, 0, 0, 0, 9, 0, 0, 0]).unwrap();
    assert_eq!(out.len(), 1);
    assert_eq!((out[0].msg_type, out[0].body.clone()), (msgc::ACK_SYNC, vec![4, 0, 0, 0]));

    assert!(boot.step(9999, &[1]).unwrap().is_empty());
    assert!(matches!(
        boot.step(msg::PING, &[1]),
        Err(NetError::Proto(ProtoError::Short { .. }))
    ));
    assert!(!boot.done());
}

#[test]
fn a_channel_list_before_init_is_an_error() {
    let mut boot = Bootstrap::new();
    let list = channels_message(&default_channels());
    boot.step(list.msg_type, &list.body).unwrap();
    assert!(boot.done());
    assert!(boot.finish(Channel::new((), true)).is_err());
}

#[test]
fn the_server_side_waits_for_attach() {
    let mut w = Writer::new();
    ClientInfo { cache_size: 1 << 20 }.encode(&mut w);
    assert_eq!(bootstrap_step(main_msgc::CLIENT_INFO, w.as_slice()), Ok(false));
    assert!(bootstrap_step(main_msgc::CLIENT_INFO, &[1]).is_err());
    assert_eq!(bootstrap_step(msgc::ACK_SYNC, &[]), Ok(false));
    assert_eq!(bootstrap_step(msgc::PONG, &[]), Ok(false));
    assert_eq!(bootstrap_step(main_msgc::ATTACH_CHANNELS, &[]), Ok(true));
    assert_eq!(bootstrap_step(msgc::DISCONNECTING, &[]), Ok(true));

    let out = bootstrap_opening(9, None);
    assert_eq!(out[0].msg_type, msg::SET_ACK);
    assert_eq!(out[0].body, vec![1, 0, 0, 0, 0, 0, 0, 0]);
    let sent = Init::decode(&out[1].body).unwrap();
    assert_eq!((sent.session_id, sent.supported_mouse_modes), (9, 3));
    let other = Init { session_id: 4, ..sent };
    let out = bootstrap_opening(9, Some(other.clone()));
    assert_eq!(Init::decode(&out[1].body).unwrap(), other);
}

#[test]
fn sessions_are_random_nonzero_and_live_until_ended() {
    let mut server = Server::with_key(ServerKey::generate().unwrap(), "pw");
    let a = server.new_session_id();
    let b = server.new_session_id();
    assert!(a != 0 && b != 0 && a != b);
    assert!(server.is_live_session(a) && server.is_live_session(b));
    server.end_session(a);
    assert!(!server.is_live_session(a) && server.is_live_session(b));
    assert_eq!(decide_link(&server, ChannelType::Display, a), LinkDecision::Refuse);
    assert_eq!(decide_link(&server, ChannelType::Display, b), LinkDecision::Attach);
    assert_eq!(decide_link(&server, ChannelType::Main, b), LinkDecision::OpenSession);

    // An id that is taken, or zero, is not given out again.
    let c = server.open_session(b);
    assert!(c != b && c != 0 && server.is_live_session(c));
    let d = server.open_session(0);
    assert!(d != 0 && server.is_live_session(d));
    assert_eq!(server.open_session(0x7777_0000), 0x7777_0000);
}
