//! The websocket side of the server: the opening handshake's accept key, the
//! framing of text messages, and the unmasking of client frames.

use vstd::prelude::*;
use base64::Engine;
use base64::prelude::BASE64_STANDARD;
use sha1::{Digest, Sha1};

verus! {

/// The SHA-1 digest of `data`.
pub uninterp spec fn sha1_spec(data: Seq<u8>) -> Seq<u8>;

/// The SHA-1 digest of `data` (`sha1::Sha1`: `new`, `update`, `finalize`).
/// Claimed: the result is the digest named `sha1_spec(data)`, 20 bytes long.
/// The input is bounded so that the message length in bits, which the hasher
/// keeps in a `u64`, cannot overflow.
#[verifier::external_body]
fn sha1_digest(data: &[u8]) -> (digest: Vec<u8>)
    requires
        data@.len() < 0x1000_0000_0000_0000,
    ensures
        digest@ == sha1_spec(data@),
        digest@.len() == 20,
{
    let mut hasher = Sha1::new();
    hasher.update(data);
    hasher.finalize().to_vec()
}

/// The character of the base64 alphabet (standard, RFC 4648) for the six-bit value `v`.
pub open spec fn base64_char(v: int) -> char {
    if v < 26 {
        (('A' as int) + v) as char
    } else if v < 52 {
        (('a' as int) + (v - 26)) as char
    } else if v < 62 {
        (('0' as int) + (v - 52)) as char
    } else if v == 62 {
        '+'
    } else {
        '/'
    }
}

/// Standard base64 with `=` padding: each group of three bytes becomes four
/// characters; a final group of one or two bytes is padded.
pub open spec fn base64_spec(b: Seq<u8>) -> Seq<char>
    decreases b.len(),
{
    if b.len() == 0 {
        Seq::empty()
    } else if b.len() == 1 {
        seq![base64_char(b[0] as int / 4), base64_char((b[0] as int % 4) * 16), '=', '=']
    } else if b.len() == 2 {
        seq![
            base64_char(b[0] as int / 4),
            base64_char((b[0] % 4) * 16 + b[1] / 16),
            base64_char((b[1] % 16) * 4),
            '=',
        ]
    } else {
        seq![
            base64_char(b[0] as int / 4),
            base64_char((b[0] % 4) * 16 + b[1] / 16),
            base64_char((b[1] % 16) * 4 + b[2] / 64),
            base64_char(b[2] as int % 64),
        ] + base64_spec(b.subrange(3, b.len() as int))
    }
}

/// Encodes `bytes` in standard base64 with padding (`base64::prelude::BASE64_STANDARD`,
/// `Engine::encode`). Claimed: the result is `base64_spec(bytes)`. The input is
/// bounded so that the encoded length fits in `usize` (else `encode` panics).
#[verifier::external_body]
fn base64_encode(bytes: &[u8]) -> (encoded: String)
    requires
        bytes@.len() <= 0x1000_0000,
    ensures
        encoded@ == base64_spec(bytes@),
{
    BASE64_STANDARD.encode(bytes)
}

/// The GUID that RFC 6455 appends to the client's key.
pub open spec fn websocket_guid() -> Seq<char> {
    "258EAFA5-E914-47DA-95CA-C5AB0DC85B11"@
}

/// The accept key answered to the client key `key`: base64 of the SHA-1 digest
/// of the UTF-8 bytes of the key followed by the GUID.
pub open spec fn accept_key_spec(key: Seq<char>) -> Seq<char> {
    base64_spec(sha1_spec(vstd::utf8::encode_utf8(key + websocket_guid())))
}

/// The UTF-8 encoding takes at most four bytes per character.
pub proof fn lemma_encode_utf8_length(chars: Seq<char>)
    ensures
        vstd::utf8::encode_utf8(chars).len() <= 4 * chars.len(),
    decreases chars.len(),
{
    if chars.len() > 0 {
        lemma_encode_utf8_length(chars.drop_first());
    }
}

/// Keys up to this many characters can be hashed.
pub open spec fn max_key_chars() -> nat {
    0x0100_0000_0000_0000
}

/// The value of `Sec-WebSocket-Accept` for the client's `Sec-WebSocket-Key`.
pub fn ws_accept_key(key: &str) -> (accept: String)
    requires
        key@.len() < max_key_chars(),
    ensures
        accept@ == accept_key_spec(key@),
{
    let mut magic_string = key.to_owned();
    magic_string.append("258EAFA5-E914-47DA-95CA-C5AB0DC85B11");
    let bytes = magic_string.as_str().as_bytes();
    proof {
        reveal_strlit("258EAFA5-E914-47DA-95CA-C5AB0DC85B11");
        lemma_encode_utf8_length(key@ + websocket_guid());
    }
    let hash = sha1_digest(bytes);
    base64_encode(hash.as_slice())
}

/// The status line and headers that accept a websocket upgrade, up to the accept key.
pub open spec fn upgrade_head() -> Seq<char> {
    "HTTP/1.1 101 Switching Protocols\nUpgrade: websocket\nConnection: Upgrade\nSec-WebSocket-Accept: "@
}

/// The server's answer to a websocket opening handshake with the key `key`.
pub fn response(key: &str) -> (r: String)
    requires
        key@.len() < max_key_chars(),
    ensures
        r@ == upgrade_head() + accept_key_spec(key@) + "\n\n"@,
{
    let acckey = ws_accept_key(key);
    let mut r = "HTTP/1.1 101 Switching Protocols\nUpgrade: websocket\nConnection: Upgrade\nSec-WebSocket-Accept: ".to_owned();
    r.append(acckey.as_str());
    r.append("\n\n");
    r
}

/// Unmasks (or masks) a payload: each byte is XORed with the mask byte at its
/// index modulo the mask's length. The mask must not be empty unless the payload is.
pub fn decode(encoded: &Vec<u8>, mask: &Vec<u8>) -> (decoded: Vec<u8>)
    requires
        mask.len() > 0 || encoded.len() == 0,
    ensures
        decoded.len() == encoded.len(),
        forall|i: int|
            0 <= i < encoded.len() ==> #[trigger] decoded@[i] == encoded@[i] ^ mask@[i % mask.len() as int],
{
    let mut decoded: Vec<u8> = Vec::new();
    let mut i: usize = 0;
    while i < encoded.len()
        invariant
            i <= encoded.len(),
            mask.len() > 0 || encoded.len() == 0,
            decoded.len() == i,
            forall|j: int|
                0 <= j < i ==> #[trigger] decoded@[j] == encoded@[j] ^ mask@[j % mask.len() as int],
        decreases encoded.len() - i,
    {
        decoded.push(encoded[i] ^ mask[i % mask.len()]);
        i = i + 1;
    }
    decoded
}

/// Masking twice with the same mask gives the payload back.
pub proof fn lemma_decode_involution(encoded: Seq<u8>, mask: Seq<u8>, once: Seq<u8>, twice: Seq<u8>)
    requires
        mask.len() > 0,
        once.len() == encoded.len(),
        twice.len() == encoded.len(),
        forall|i: int| 0 <= i < encoded.len() ==> #[trigger] once[i] == encoded[i] ^ mask[i % mask.len() as int],
        forall|i: int| 0 <= i < encoded.len() ==> #[trigger] twice[i] == once[i] ^ mask[i % mask.len() as int],
    ensures
        twice == encoded,
{
    assert forall|i: int| 0 <= i < encoded.len() implies twice[i] == encoded[i] by {
        let e = encoded[i];
        let m = mask[i % mask.len() as int];
        assert(once[i] == e ^ m);
        assert((e ^ m) ^ m == e) by (bit_vector);
    }
    assert(twice =~= encoded);
}

/// The header of an unmasked final text frame carrying `length` payload bytes: the
/// length itself up to 125; `126` and two length bytes up to 65535; else `127`,
/// four zero bytes and the low four bytes of the length.
pub open spec fn frame_header_spec(length: usize) -> Seq<u8> {
    if length <= 125 {
        seq![0x81u8, length as u8]
    } else if length <= 65535 {
        seq![0x81u8, 126u8, (length >> 8usize) as u8, (length & 0xFF) as u8]
    } else {
        seq![
            0x81u8,
            127u8,
            0u8,
            0u8,
            0u8,
            0u8,
            (length >> 24usize) as u8,
            (length >> 16usize) as u8,
            (length >> 8usize) as u8,
            (length & 0xFF) as u8,
        ]
    }
}

/// The bytes the server writes before a text message of `length` bytes.
pub fn text_frame_header(length: usize) -> (header: Vec<u8>)
    ensures
        header@ == frame_header_spec(length),
{
    if length <= 125 {
        vec![0x81u8, length as u8]
    } else if length <= 65535 {
        vec![0x81u8, 126u8, (length >> 8usize) as u8, (length & 0xFF) as u8]
    } else {
        vec![
            0x81u8,
            127u8,
            0u8,
            0u8,
            0u8,
            0u8,
            (length >> 24usize) as u8,
            (length >> 16usize) as u8,
            (length >> 8usize) as u8,
            (length & 0xFF) as u8,
        ]
    }
}

/// The frame's opcode (the low four bits of the first byte) announces a close.
pub fn is_close_frame(first_byte: u8) -> (close: bool)
    ensures
        close == (first_byte & 0x0F == 0x8),
{
    first_byte & 0x0F == 0x8
}

/// How many extended length bytes follow the second header byte: two where its
/// seven length bits are `126`, eight where they are `127`, else none.
pub open spec fn extended_length_size_spec(second_byte: u8) -> nat {
    if second_byte & 0x7F == 126 {
        2
    } else if second_byte & 0x7F == 127 {
        8
    } else {
        0
    }
}

/// How many extended length bytes the client's frame carries.
pub fn extended_length_size(second_byte: u8) -> (n: usize)
    ensures
        n == extended_length_size_spec(second_byte),
{
    let payloadlength = second_byte & 0x7F;
    if payloadlength == 126 {
        2
    } else if payloadlength == 127 {
        8
    } else {
        0
    }
}

/// The big-endian number the bytes `b` write.
pub open spec fn big_endian(b: Seq<u8>) -> nat
    decreases b.len(),
{
    if b.len() == 0 {
        0
    } else {
        big_endian(b.drop_last()) * 256 + b.last() as nat
    }
}

/// The payload length of a client frame: the extended length where that is not
/// zero (cast to `usize`), else the seven length bits of the second byte.
pub open spec fn payload_length_spec(second_byte: u8, extended: Seq<u8>) -> usize {
    let ext: usize = if extended_length_size_spec(second_byte) > 0 {
        big_endian(extended) as usize
    } else {
        0
    };
    if ext > 0 {
        ext
    } else {
        (second_byte & 0x7F) as usize
    }
}

/// The payload length of a client frame, from its second header byte and the
/// extended length bytes read after it.
pub fn payload_length(second_byte: u8, extended: &Vec<u8>) -> (n: usize)
    requires
        extended.len() == extended_length_size_spec(second_byte),
    ensures
        n == payload_length_spec(second_byte, extended@),
{
    let mut value: u64 = 0;
    let mut i: usize = 0;
    while i < extended.len()
        invariant
            extended.len() <= 8,
            i <= extended.len(),
            value == big_endian(extended@.subrange(0, i as int)),
            value < pow256(i as nat),
        decreases extended.len() - i,
    {
        assert(extended@.subrange(0, i + 1).drop_last() =~= extended@.subrange(0, i as int));
        proof {
            lemma_pow256_step(i as nat);
        }
        value = value * 256 + extended[i] as u64;
        i = i + 1;
    }
    assert(extended@.subrange(0, extended.len() as int) =~= extended@);
    let ext: usize = if extended.len() > 0 {
        value as usize
    } else {
        0
    };
    if ext > 0 {
        ext
    } else {
        (second_byte & 0x7F) as usize
    }
}

/// `256^n`.
pub open spec fn pow256(n: nat) -> nat
    decreases n,
{
    if n == 0 {
        1
    } else {
        pow256((n - 1) as nat) * 256
    }
}

proof fn lemma_pow256_step(n: nat)
    requires
        n < 8,
    ensures
        pow256(n + 1) == pow256(n) * 256,
        pow256(n + 1) <= 0x1_0000_0000_0000_0000,
{
    reveal_with_fuel(pow256, 9);
}

/// Reading back the header that `text_frame_header` writes gives a text frame
/// (no close), the right number of extended length bytes, and the length written,
/// for every length below `2^32` (above it, the header keeps only the low four
/// bytes of the length).
pub proof fn lemma_frame_header_roundtrip(length: usize)
    requires
        length < 0x1_0000_0000,
    ensures
        ({
            let h = frame_header_spec(length);
            &&& !(h[0] & 0x0F == 0x8)
            &&& h.len() == 2 + extended_length_size_spec(h[1])
            &&& payload_length_spec(h[1], h.subrange(2, h.len() as int)) == length
        }),
{
    let h = frame_header_spec(length);
    assert(0x81u8 & 0x0F == 0x1) by (bit_vector);
    reveal_with_fuel(big_endian, 9);
    if length <= 125 {
        let b = length as u8;
        assert(b & 0x7F == b) by (bit_vector)
            requires
                b <= 125,
        ;
        assert(h.subrange(2, 2) =~= Seq::<u8>::empty());
    } else if length <= 65535 {
        assert(126u8 & 0x7F == 126) by (bit_vector);
        let hi = (length >> 8usize) as u8;
        let lo = (length & 0xFF) as u8;
        assert(hi as int * 256 + lo as int == length) by (bit_vector)
            requires
                hi == (length >> 8usize) as u8,
                lo == (length & 0xFF) as u8,
                length <= 65535,
        ;
        let ext = h.subrange(2, 4);
        assert(ext.drop_last() =~= seq![hi]);
        assert(seq![hi].drop_last() =~= Seq::<u8>::empty());
    } else {
        assert(127u8 & 0x7F == 127) by (bit_vector);
        let b0 = (length >> 24usize) as u8;
        let b1 = (length >> 16usize) as u8;
        let b2 = (length >> 8usize) as u8;
        let b3 = (length & 0xFF) as u8;
        assert(b0 as int * 16777216 + b1 as int * 65536 + b2 as int * 256 + b3 as int == length)
            by (bit_vector)
            requires
                b0 == (length >> 24usize) as u8,
                b1 == (length >> 16usize) as u8,
                b2 == (length >> 8usize) as u8,
                b3 == (length & 0xFF) as u8,
                length < 0x1_0000_0000,
        ;
        let ext = h.subrange(2, 10);
        assert(ext =~= seq![0u8, 0u8, 0u8, 0u8, b0, b1, b2, b3]);
        assert(big_endian(seq![0u8, 0u8, 0u8, 0u8]) == 0) by {
            assert(seq![0u8, 0u8, 0u8, 0u8].drop_last() =~= seq![0u8, 0u8, 0u8]);
            assert(seq![0u8, 0u8, 0u8].drop_last() =~= seq![0u8, 0u8]);
            assert(seq![0u8, 0u8].drop_last() =~= seq![0u8]);
            assert(seq![0u8].drop_last() =~= Seq::<u8>::empty());
        }
        assert(ext.drop_last() =~= seq![0u8, 0u8, 0u8, 0u8, b0, b1, b2]);
        assert(seq![0u8, 0u8, 0u8, 0u8, b0, b1, b2].drop_last() =~= seq![0u8, 0u8, 0u8, 0u8, b0, b1]);
        assert(seq![0u8, 0u8, 0u8, 0u8, b0, b1].drop_last() =~= seq![0u8, 0u8, 0u8, 0u8, b0]);
        assert(seq![0u8, 0u8, 0u8, 0u8, b0].drop_last() =~= seq![0u8, 0u8, 0u8, 0u8]);
    }
}

/// What the reading side of a websocket connection does next.
#[derive(Debug, PartialEq)]
pub enum SessionAction {
    /// Announce a new player with this name to the game.
    Login(String),
    /// Hand this player's input to the game.
    Input(String),
    /// Remove this player from the game.
    Logout(String),
    /// Pass over the message.
    Ignore,
    /// Stop the connection, removing the player who logged in on it, if any.
    Close { logout: Option<String> },
}

/// The name held in `u`, as text.
pub open spec fn name_of(u: Option<String>) -> Option<Seq<char>> {
    match u {
        Some(n) => Some(n@),
        None => None,
    }
}

/// The name logged in on a connection after a message with the mode `mode`
/// from the player `user`, where `name` was logged in before.
pub open spec fn name_after(name: Option<Seq<char>>, mode: Seq<char>, user: Seq<char>) -> Option<Seq<char>> {
    if mode == "login"@ {
        Some(user)
    } else {
        name
    }
}

/// The name logged in on a connection after the messages `msgs`, each a mode
/// and a player, in order, where `name` was logged in before.
pub open spec fn name_after_all(name: Option<Seq<char>>, msgs: Seq<(Seq<char>, Seq<char>)>) -> Option<Seq<char>>
    decreases msgs.len(),
{
    if msgs.len() == 0 {
        name
    } else {
        name_after(name_after_all(name, msgs.drop_last()), msgs.last().0, msgs.last().1)
    }
}

/// The player of the last `login` message among `msgs`, if any.
pub open spec fn last_login(msgs: Seq<(Seq<char>, Seq<char>)>) -> Option<Seq<char>>
    decreases msgs.len(),
{
    if msgs.len() == 0 {
        None
    } else if msgs.last().0 == "login"@ {
        Some(msgs.last().1)
    } else {
        last_login(msgs.drop_last())
    }
}

/// Over any run of messages on a connection, the name it holds is the player
/// of the last `login` (or the earlier one where there was none), so when the
/// connection closes, `on_read_error` logs out exactly the player who logged in
/// last on it, and nobody where nobody logged in.
pub proof fn lemma_session_last_login(name: Option<Seq<char>>, msgs: Seq<(Seq<char>, Seq<char>)>)
    ensures
        name_after_all(name, msgs) == match last_login(msgs) {
            Some(u) => Some(u),
            None => name,
        },
    decreases msgs.len(),
{
    if msgs.len() > 0 {
        lemma_session_last_login(name, msgs.drop_last());
    }
}

/// The state of the reading side of one websocket connection: the name of the
/// player who logged in on it, if any.
pub struct WsSession {
    pub username: Option<String>,
}

impl WsSession {
    /// A connection on which nobody has logged in yet.
    pub fn new() -> (s: WsSession)
        ensures
            s.username is None,
    {
        WsSession { username: None }
    }

    /// Decides what a client message with the mode `mode` from the player
    /// `username` leads to: `login` logs the player in on this connection,
    /// `game` carries input, `logout` logs out; other modes are passed over.
    pub fn on_message(&mut self, mode: &String, username: &String) -> (a: SessionAction)
        ensures
            mode@ == "login"@ ==> (a matches SessionAction::Login(n) && n@ == username@)
                && (final(self).username matches Some(u) && u@ == username@),
            mode@ == "game"@ ==> (a matches SessionAction::Input(n) && n@ == username@)
                && final(self).username == old(self).username,
            mode@ == "logout"@ ==> (a matches SessionAction::Logout(n) && n@ == username@)
                && final(self).username == old(self).username,
            mode@ != "login"@ && mode@ != "game"@ && mode@ != "logout"@ ==> a
                == SessionAction::Ignore && final(self).username == old(self).username,
            name_of(final(self).username) == name_after(name_of(old(self).username), mode@, username@),
    {
        proof {
            reveal_strlit("login");
            reveal_strlit("game");
            reveal_strlit("logout");
            assert("game"@ != "login"@) by {
                assert("game"@.len() != "login"@.len());
            }
            assert("logout"@ != "login"@) by {
                assert("logout"@.len() != "login"@.len());
            }
            assert("logout"@ != "game"@) by {
                assert("logout"@.len() != "game"@.len());
            }
        }
        if *mode == "login".to_owned() {
            self.username = Some(username.clone());
            SessionAction::Login(username.clone())
        } else if *mode == "game".to_owned() {
            SessionAction::Input(username.clone())
        } else if *mode == "logout".to_owned() {
            SessionAction::Logout(username.clone())
        } else {
            SessionAction::Ignore
        }
    }

    /// A read failed (or the client closed): the connection stops, and the
    /// player who logged in on it, if any, is logged out.
    pub fn on_read_error(&self) -> (a: SessionAction)
        ensures
            a matches SessionAction::Close { logout } && match (logout, self.username) {
                (Some(l), Some(u)) => l@ == u@,
                (None, None) => true,
                _ => false,
            },
    {
        match &self.username {
            Some(name) => SessionAction::Close { logout: Some(name.clone()) },
            None => SessionAction::Close { logout: None },
        }
    }
}

} // verus!
