//! What client and server say to each other, byte by byte: how messages are
//! framed, how a link is opened, and how a session starts.

use vstd::prelude::*;

use crate::net::auth;
use crate::net::channel;
use crate::net::channel::FrameHeader;
use crate::net::client;
use crate::net::error::NetError;
use crate::net::link;
use crate::net::server;
use crate::net::tls;
use crate::proto::caps;
use crate::proto::enums::{LinkError, SPICE_MAX_PASSWORD_LENGTH, SPICE_TICKET_PUBKEY_BYTES};
use crate::proto::header::{DataHeader, MiniDataHeader};
use crate::proto::layout::{handshake, records, value};
use crate::proto::link::{LinkHeader, LinkMess, LinkReply, LinkResult, ENCRYPTED_TICKET_SIZE};
use crate::proto::main_chan::{ClientInfo, Init, MouseModeRequest};
use crate::server::bootstrap;

verus! {

/// A framed message: with the small header the type in two bytes, the size in
/// four, and the body; with the full one the serial in eight bytes before
/// these, and four bytes of nought behind them.
pub proof fn frames_are_laid_out_so(serial: u64, msg_type: u16, body: Seq<u8>)
    requires
        body.len() <= u32::MAX,
    ensures
        ({
            let s = channel::framed(true, serial, msg_type, body);
            &&& s.len() == 6 + body.len()
            &&& value(s.take(6), 0, 2) == msg_type
            &&& value(s.take(6), 2, 4) == body.len()
            &&& s.skip(6) == body
        }),
        ({
            let s = channel::framed(false, serial, msg_type, body);
            &&& s.len() == 18 + body.len()
            &&& value(s.take(18), 0, 8) == serial
            &&& value(s.take(18), 8, 2) == msg_type
            &&& value(s.take(18), 10, 4) == body.len()
            &&& value(s.take(18), 14, 4) == 0
            &&& s.skip(18) == body
        }),
        channel::header_size(true) == 6,
        channel::header_size(false) == 18,
{
    let size = body.len() as u32;
    let mini = MiniDataHeader { msg_type, size };
    records::mini_header_layout(mini, mini.wire());
    assert((mini.wire() + body).take(6) =~= mini.wire());
    assert((mini.wire() + body).skip(6) =~= body);
    let full = DataHeader { serial, msg_type, size, sub_list: 0 };
    records::data_header_layout(full, full.wire());
    assert((full.wire() + body).take(18) =~= full.wire());
    assert((full.wire() + body).skip(18) =~= body);
}

/// Each message with a full header has the serial after the one before, and
/// after the last there is nought.
pub proof fn serials_count_up(serial: u64)
    ensures
        channel::next_serial(serial) == (serial + 1) % 0x1_0000_0000_0000_0000,
{
}

/// The small header is used where both sides have the capability 3.
pub proof fn small_headers_take_two(ours: Seq<u32>, theirs: Seq<u32>)
    ensures
        link::agreed_mini(ours, theirs) <==> caps::has_cap(ours, 3) && caps::has_cap(theirs, 3),
{
}

/// How much is taken at most: messages of 32 MiB, passwords of 60 bytes, tickets
/// of 128 bytes for a key of 162.
pub proof fn limits_of_a_link()
    ensures
        channel::DEFAULT_MAX_MESSAGE_SIZE == 32 * 1024 * 1024,
        SPICE_MAX_PASSWORD_LENGTH == 60,
        ENCRYPTED_TICKET_SIZE == 128,
        SPICE_TICKET_PUBKEY_BYTES == 162,
        server::SERVER_KEY_BITS == 8 * 128,
{
}

/// A header tells the type and the size of what follows, and the full one its
/// serial. A size over the limit is refused.
pub proof fn headers_are_read_so(max: u32, s: Seq<u8>)
    ensures
        s.len() >= 6 && value(s, 2, 4) <= max ==> channel::frame_header(true, max, s) == Ok::<
            FrameHeader,
            NetError,
        >(
            FrameHeader {
                msg_type: value(s, 0, 2) as u16,
                serial: None,
                size: value(s, 2, 4) as u32,
            },
        ),
        s.len() >= 6 && value(s, 2, 4) > max ==> channel::frame_header(true, max, s) == Err::<
            FrameHeader,
            NetError,
        >(NetError::MessageTooLarge { size: value(s, 2, 4) as u32, max }),
        s.len() >= 18 && value(s, 10, 4) <= max ==> channel::frame_header(false, max, s) == Ok::<
            FrameHeader,
            NetError,
        >(
            FrameHeader {
                msg_type: value(s, 8, 2) as u16,
                serial: Some(value(s, 0, 8) as u64),
                size: value(s, 10, 4) as u32,
            },
        ),
        s.len() >= 18 && value(s, 10, 4) > max ==> channel::frame_header(false, max, s) == Err::<
            FrameHeader,
            NetError,
        >(NetError::MessageTooLarge { size: value(s, 10, 4) as u32, max }),
        s.len() < 6 ==> channel::frame_header(true, max, s) is Err,
        s.len() < 18 ==> channel::frame_header(false, max, s) is Err,
{
    records::mini_header_layout(MiniDataHeader::parse(s)->Ok_0, s);
    records::data_header_layout(DataHeader::parse(s)->Ok_0, s);
}

/// A link is opened by 16 bytes that begin with `REDQ` and end with the size of
/// what follows, and by the link message; and answered by as many bytes, and
/// the reply.
pub proof fn links_open_with_a_header(mess: LinkMess, reply: LinkReply)
    requires
        mess.wire().len() <= u32::MAX,
        reply.wire().len() <= u32::MAX,
    ensures
        ({
            let s = link::hello_wire(mess);
            &&& handshake::redq(s.take(16))
            &&& value(s.take(16), 12, 4) == mess.wire().len()
            &&& s.skip(16) == mess.wire()
        }),
        ({
            let s = server::reply_wire(reply);
            &&& handshake::redq(s.take(16))
            &&& value(s.take(16), 12, 4) == reply.wire().len()
            &&& s.skip(16) == reply.wire()
        }),
{
    let h = LinkHeader::of_size(mess.wire().len() as u32);
    handshake::sent_link_header_layout(h.size);
    handshake::link_header_layout(h, h.wire());
    assert((h.wire() + mess.wire()).take(16) =~= h.wire());
    assert((h.wire() + mess.wire()).skip(16) =~= mess.wire());
    let g = LinkHeader::of_size(reply.wire().len() as u32);
    handshake::sent_link_header_layout(g.size);
    handshake::link_header_layout(g, g.wire());
    assert((g.wire() + reply.wire()).take(16) =~= g.wire());
    assert((g.wire() + reply.wire()).skip(16) =~= reply.wire());
}

/// What follows a link header may have up to 4096 bytes.
pub proof fn link_payloads_are_bounded(header: Seq<u8>)
    requires
        header.len() >= 16,
        handshake::redq(header),
        value(header, 4, 4) == 2,
    ensures
        value(header, 12, 4) <= 4096 ==> link::payload_len(header) == Ok::<usize, NetError>(
            value(header, 12, 4) as usize,
        ),
        value(header, 12, 4) > 4096 ==> link::payload_len(header) is Err,
{
    handshake::link_header_layout(LinkHeader::of_size(0), header);
}

/// A link that got a result of nought stands; any other number up to 9 is why
/// it was refused.
pub proof fn link_results_are_read_so(bytes: Seq<u8>)
    requires
        bytes.len() >= 4,
    ensures
        link::result_outcome(bytes) is Ok <==> value(bytes, 0, 4) == 0,
        0 < value(bytes, 0, 4) <= 9 ==> (link::result_outcome(bytes) matches Err(
            NetError::Link(e),
        ) && e.code() == value(bytes, 0, 4)),
        value(bytes, 0, 4) > 9 ==> link::result_outcome(bytes) matches Err(NetError::Proto(_)),
{
    handshake::link_result_layout(LinkResult(LinkError::Success), bytes);
}

/// After the server's opening, of type 103, a client asks to attach by an empty
/// message of type 104. Where the server can leave the pointer to the client,
/// as the bit of worth two at 8 says, and does not yet do so, it first asks for
/// that by a message of type 105 with the number 2.
#[verifier::rlimit(60)]
#[verifier::spinoff_prover]
pub proof fn init_is_answered_so(body: Seq<u8>)
    requires
        body.len() >= 32,
    ensures
        ({
            let offered = value(body, 8, 4) / 2 % 2 == 1;
            let current = value(body, 12, 4);
            let attach = (104u16, Seq::<u8>::empty());
            client::boot_answers(103, body) == Ok::<Seq<(u16, Seq<u8>)>, NetError>(
                if offered && current != 2 {
                    seq![(105u16, seq![2u8, 0u8, 0u8, 0u8]), attach]
                } else {
                    seq![attach]
                },
            )
        }),
{
    records::init_layout(Init::parse(body)->Ok_0, body);
    lemma_init_answers(Init::parse(body)->Ok_0);
}

proof fn lemma_init_answers(init: Init)
    ensures
        client::init_answers(init) == (if init.supported_mouse_modes / 2 % 2 == 1
            && init.current_mouse_mode != 2 {
            seq![(105u16, seq![2u8, 0u8, 0u8, 0u8]), (104u16, Seq::<u8>::empty())]
        } else {
            seq![(104u16, Seq::<u8>::empty())]
        }),
{
    let request = MouseModeRequest { mode: 2 };
    assert(request.wire() =~= seq![2u8, 0u8, 0u8, 0u8]);
    let attach = (104u16, Seq::<u8>::empty());
    assert(seq![(105u16, request.wire())] + seq![attach] =~= seq![
        (105u16, seq![2u8, 0u8, 0u8, 0u8]),
        attach,
    ]);
}

/// A server opens with a request for acknowledgements of type 3, generation 1
/// and no window, and with its opening of type 103: the session, one display,
/// both mouse modes, of which the server's is on, and nought for the rest.
pub proof fn servers_open_so(session_id: u32)
    ensures
        ({
            let said = bootstrap::opening(session_id, None);
            &&& said.len() == 2
            &&& said[0].0 == 3
            &&& said[0].1 == seq![1u8, 0u8, 0u8, 0u8, 0u8, 0u8, 0u8, 0u8]
            &&& said[1].0 == 103
            &&& said[1].1.len() == 32
            &&& value(said[1].1, 0, 4) == session_id
            &&& value(said[1].1, 4, 4) == 1
            &&& value(said[1].1, 8, 4) == 3
            &&& value(said[1].1, 12, 4) == 1
            &&& value(said[1].1, 16, 4) == 0
            &&& value(said[1].1, 20, 4) == 0
            &&& value(said[1].1, 24, 4) == 0
            &&& value(said[1].1, 28, 4) == 0
        }),
{
    let init = bootstrap::standard_init(session_id);
    records::init_layout(init, init.wire());
    let said = bootstrap::opening(session_id, None);
    assert(said[0].1 =~= seq![1u8, 0u8, 0u8, 0u8, 0u8, 0u8, 0u8, 0u8]);
}

/// A server waits until the client asks to attach, by type 104, or leaves, by
/// type 6. What the client says of itself, by type 101, must have eight bytes.
pub proof fn servers_wait_for_attach(msg_type: u16, body: Seq<u8>)
    ensures
        msg_type == 104 || msg_type == 6 ==> bootstrap::step_outcome(msg_type, body) == Ok::<
            bool,
            NetError,
        >(true),
        msg_type == 101 && body.len() >= 8 ==> bootstrap::step_outcome(msg_type, body) == Ok::<
            bool,
            NetError,
        >(false),
        msg_type == 101 && body.len() < 8 ==> bootstrap::step_outcome(msg_type, body) is Err,
        msg_type != 104 && msg_type != 6 && msg_type != 101 ==> bootstrap::step_outcome(
            msg_type,
            body,
        ) == Ok::<bool, NetError>(false),
{
    records::client_info_layout(ClientInfo::parse(body)->Ok_0, body);
}

/// A password goes out with a byte of nought behind it, and one such byte is
/// taken off what comes in.
pub proof fn passwords_end_in_nought(password: Seq<u8>, i: int)
    ensures
        auth::plaintext_of(password).len() == password.len() + 1,
        auth::plaintext_of(password)[password.len() as int] == 0,
        0 <= i < password.len() ==> auth::plaintext_of(password)[i] == password[i],
        server::password_in(password.push(0)) == password,
        password.len() > 0 && password.last() != 0 ==> server::password_in(password) == password,
{
    assert(password.push(0).drop_last() =~= password);
}

/// The sixteen hexadecimal digits, as they are printed.
pub open spec fn digits() -> Seq<char> {
    seq!['0', '1', '2', '3', '4', '5', '6', '7', '8', '9', 'a', 'b', 'c', 'd', 'e', 'f']
}

/// A byte is printed as two digits, the higher first.
pub proof fn bytes_are_printed_in_hex(bytes: Seq<u8>, i: int)
    requires
        0 <= i < bytes.len(),
    ensures
        tls::hex_of(bytes).len() == 2 * bytes.len(),
        tls::hex_of(bytes)[2 * i] == digits()[bytes[i] as int / 16],
        tls::hex_of(bytes)[2 * i + 1] == digits()[bytes[i] as int % 16],
    decreases bytes.len(),
{
    let less = bytes.drop_last();
    let last = bytes.last();
    assert(tls::hex_digit(last / 16) == digits()[last as int / 16]);
    assert(tls::hex_digit(last % 16) == digits()[last as int % 16]);
    if i < less.len() {
        bytes_are_printed_in_hex(less, i);
    } else if less.len() > 0 {
        bytes_are_printed_in_hex(less, 0);
    } else {
        assert(tls::hex_of(less).len() == 0);
    }
}

/// The digit that a letter or cipher stands for, in either case.
pub open spec fn digit_of(b: u8) -> int {
    if b < 0x40 {
        b - 0x30
    } else if b < 0x60 {
        b - 0x41 + 10
    } else {
        b - 0x61 + 10
    }
}

/// A byte is one of the ciphers, or of the letters from A to F.
pub open spec fn is_digit(b: u8) -> bool {
    0x30 <= b <= 0x39 || 0x41 <= b <= 0x46 || 0x61 <= b <= 0x66
}

proof fn lemma_cleaned(s: Seq<u8>)
    requires
        forall|i: int| 0 <= i < s.len() ==> is_digit(#[trigger] s[i]),
    ensures
        tls::cleaned(s) == s,
    decreases s.len(),
{
    if s.len() > 0 {
        assert(is_digit(s[s.len() - 1]));
        lemma_cleaned(s.drop_last());
        assert(s.drop_last().push(s.last()) =~= s);
    }
}

/// A fingerprint of 64 hexadecimal digits is read two digits to a byte, the
/// higher first.
pub proof fn fingerprints_are_read_in_pairs(s: Seq<u8>, k: int)
    requires
        s.len() == 64,
        forall|i: int| 0 <= i < 64 ==> is_digit(#[trigger] s[i]),
        0 <= k < 32,
    ensures
        tls::fingerprint_of(s) matches Ok(out) && out.len() == 32 && out[k] == 16 * digit_of(
            s[2 * k],
        ) + digit_of(s[2 * k + 1]),
{
    lemma_cleaned(s);
    assert forall|i: int| 0 <= i < 32 implies #[trigger] tls::hex_pair(
        s[2 * i],
        s[2 * i + 1],
    ) is Some by {
        assert(is_digit(s[2 * i]) && is_digit(s[2 * i + 1]));
    }
    assert(tls::hex_pair(s[2 * k], s[2 * k + 1]) is Some);
    assert(is_digit(s[2 * k]) && is_digit(s[2 * k + 1]));
}

/// Colons, blanks and dashes in a fingerprint make no difference.
pub proof fn separators_make_no_difference(s: Seq<u8>, at: int, b: u8)
    requires
        0 <= at <= s.len(),
        b == 0x3a || b == 0x20 || b == 0x2d,
    ensures
        tls::fingerprint_of(s.insert(at, b)) == tls::fingerprint_of(s),
{
    lemma_separator(s, at, b);
}

proof fn lemma_separator(s: Seq<u8>, at: int, b: u8)
    requires
        0 <= at <= s.len(),
        tls::is_separator(b),
    ensures
        tls::cleaned(s.insert(at, b)) == tls::cleaned(s),
    decreases s.len(),
{
    let t = s.insert(at, b);
    if at == s.len() {
        assert(t.drop_last() =~= s);
    } else {
        lemma_separator(s.drop_last(), at, b);
        assert(t.drop_last() =~= s.drop_last().insert(at, b));
        assert(t.last() == s.last());
    }
}

/// A text has no such character.
pub open spec fn free_of(s: Seq<char>, c: char) -> bool {
    forall|i: int| 0 <= i < s.len() ==> #[trigger] s[i] != c
}

proof fn lemma_after_last(host: Seq<char>, port: Seq<char>)
    requires
        free_of(port, ':'),
    ensures
        tls::after_last(host.push(':') + port, ':') == host.len() + 1,
    decreases port.len(),
{
    let s = host.push(':') + port;
    if port.len() == 0 {
        assert(s =~= host.push(':'));
    } else {
        assert(s.last() == port[port.len() - 1]);
        assert(s.drop_last() =~= host.push(':') + port.drop_last());
        assert forall|i: int| 0 <= i < port.drop_last().len() implies #[trigger] port.drop_last()[i]
            != ':' by {
            assert(port[i] != ':');
        }
        lemma_after_last(host, port.drop_last());
    }
}

proof fn lemma_no_colon(s: Seq<char>)
    requires
        free_of(s, ':'),
    ensures
        tls::after_last(s, ':') == 0,
    decreases s.len(),
{
    if s.len() > 0 {
        assert(s[s.len() - 1] != ':');
        assert forall|i: int| 0 <= i < s.drop_last().len() implies #[trigger] s.drop_last()[i]
            != ':' by {
            assert(s[i] != ':');
        }
        lemma_no_colon(s.drop_last());
    }
}

/// The host of an address is what stands before its last colon; brackets round
/// it do not belong to it. An address without a colon is a host.
pub proof fn hosts_stand_before_the_port(host: Seq<char>, port: Seq<char>)
    requires
        free_of(port, ':'),
        host.len() > 0,
        free_of(host, '['),
        free_of(host, ']'),
    ensures
        tls::host_of(host.push(':') + port) == host,
        tls::host_of((seq!['['] + host).push(']').push(':') + port) == host,
        free_of(host, ':') ==> tls::host_of(host) == host,
{
    let plain = host.push(':') + port;
    lemma_after_last(host, port);
    assert(plain.take(host.len() as int) =~= host);
    assert(host[0] != '[' && host[0] != ']');
    assert(host[host.len() - 1] != '[' && host[host.len() - 1] != ']');
    let round = (seq!['['] + host).push(']');
    lemma_after_last(round, port);
    assert((round.push(':') + port).take(round.len() as int) =~= round);
    let inner = host.push(']');
    assert(round.drop_first() =~= inner);
    assert(inner[0] == host[0]);
    assert(tls::trim_start(round) == inner) by {
        reveal_with_fuel(tls::trim_start, 3);
    }
    assert(inner.drop_last() =~= host);
    assert(tls::trim_end(inner) == host) by {
        reveal_with_fuel(tls::trim_end, 3);
    }
    if free_of(host, ':') {
        lemma_no_colon(host);
    }
}

} // verus!
