use std::collections::VecDeque;
use vstd::prelude::*;
use vstd::string::*;
use vstd::utf8::*;

verus! {

/// Failures of the transport side: the network stream, the channels, and the frame codec.
#[derive(Debug, Clone, Copy, PartialEq, Eq, Structural)]
pub enum WebsocketError {
    ReadError,
    ChannelSendError,
    ChannelReceiveError,
    FrameEncodeError,
    FrameDecodeError,
    WriteError,
    AddressParseError,
    ConnectError,
    TlsCreationError,
    TlsConnectError,
    StringConversionError,
}

/// The text that describes each transport failure.
pub open spec fn websocket_error_text(e: WebsocketError) -> Seq<char> {
    match e {
        WebsocketError::ReadError => "Read error"@,
        WebsocketError::ChannelSendError => "Channel send error"@,
        WebsocketError::ChannelReceiveError => "Channel receive error"@,
        WebsocketError::FrameEncodeError => "Frame encode error"@,
        WebsocketError::FrameDecodeError => "Frame decode error"@,
        WebsocketError::WriteError => "Write error"@,
        WebsocketError::AddressParseError => "Address parse error"@,
        WebsocketError::ConnectError => "Connect error"@,
        WebsocketError::TlsCreationError => "TLS creation error"@,
        WebsocketError::TlsConnectError => "TLS connect error"@,
        WebsocketError::StringConversionError => "String conversion error"@,
    }
}

impl WebsocketError {
    /// The text that describes this failure.
    pub fn message(&self) -> (r: String)
        ensures
            r@ == websocket_error_text(*self),
    {
        match self {
            WebsocketError::ReadError => String::from_str("Read error"),
            WebsocketError::ChannelSendError => String::from_str("Channel send error"),
            WebsocketError::ChannelReceiveError => String::from_str("Channel receive error"),
            WebsocketError::FrameEncodeError => String::from_str("Frame encode error"),
            WebsocketError::FrameDecodeError => String::from_str("Frame decode error"),
            WebsocketError::WriteError => String::from_str("Write error"),
            WebsocketError::AddressParseError => String::from_str("Address parse error"),
            WebsocketError::ConnectError => String::from_str("Connect error"),
            WebsocketError::TlsCreationError => String::from_str("TLS creation error"),
            WebsocketError::TlsConnectError => String::from_str("TLS connect error"),
            WebsocketError::StringConversionError => String::from_str("String conversion error"),
        }
    }
}

/// What one call of the decoder found at the front of the receive buffer.
#[derive(Debug, PartialEq, Eq)]
pub enum DecodeOutcome {
    /// A whole text frame; its payload as text.
    Complete(String),
    /// The buffer does not yet hold a whole frame.
    Incomplete,
    /// A close frame, with the status code it carried.
    CloseSignal(u16),
}

/// The unsigned number that the bytes of `s` spell in big-endian order.
pub open spec fn be_value(s: Seq<u8>) -> nat
    decreases s.len(),
{
    if s.len() == 0 {
        0
    } else {
        (be_value(s.drop_last()) * 256 + s.last()) as nat
    }
}

/// `256` to the power `n`.
pub open spec fn pow256(n: nat) -> nat
    decreases n,
{
    if n == 0 {
        1
    } else {
        256 * pow256((n - 1) as nat)
    }
}

/// The opcode: the low four bits of a frame's first byte.
pub open spec fn opcode_of(b0: u8) -> int {
    (b0 % 16) as int
}

/// The seven-bit length code of a frame's second byte (the mask bit left out).
pub open spec fn length_code(b1: u8) -> int {
    (b1 % 128) as int
}

/// How many bytes the header of a frame takes, given its length code.
pub open spec fn header_len(code: int) -> nat {
    if code <= 125 {
        2
    } else if code == 126 {
        4
    } else {
        10
    }
}

/// The payload length that a text frame's header declares; `b` holds at least the header.
pub open spec fn declared_len(b: Seq<u8>) -> nat {
    let code = length_code(b[1]);
    if code <= 125 {
        code as nat
    } else if code == 126 {
        be_value(b.subrange(2, 4))
    } else {
        be_value(b.subrange(2, 10))
    }
}

/// The reading of the front of a receive buffer.
pub enum FrameParse {
    /// Not enough bytes yet.
    Partial,
    /// A text frame of `consumed` bytes in all, whose payload is `payload`.
    Text { payload: Seq<u8>, consumed: nat },
    /// A close frame; it takes four bytes.
    Close { code: u16 },
    /// A frame of an opcode that is not handled.
    Unsupported,
    /// A text frame whose declared length is beyond what this machine can address.
    TooLong,
}

/// How the front of the byte sequence `b` reads as a frame.
pub open spec fn parse_frame(b: Seq<u8>) -> FrameParse {
    if b.len() < 2 {
        FrameParse::Partial
    } else if opcode_of(b[0]) == 1 {
        let h = header_len(length_code(b[1]));
        if b.len() < h {
            FrameParse::Partial
        } else {
            let n = declared_len(b);
            if n > usize::MAX {
                FrameParse::TooLong
            } else if b.len() < h + n {
                FrameParse::Partial
            } else {
                FrameParse::Text { payload: b.subrange(h as int, (h + n) as int), consumed: h + n }
            }
        }
    } else if opcode_of(b[0]) == 8 {
        if b.len() < 4 {
            FrameParse::Partial
        } else {
            FrameParse::Close { code: (b[2] * 256 + b[3]) as u16 }
        }
    } else {
        FrameParse::Unsupported
    }
}

/// The `k` bytes that spell `n` in big-endian order (its `k` lowest bytes).
pub open spec fn be_bytes(n: nat, k: nat) -> Seq<u8>
    decreases k,
{
    if k == 0 {
        Seq::empty()
    } else {
        be_bytes(n / 256, (k - 1) as nat).push((n % 256) as u8)
    }
}

/// The length field of an outgoing frame for a payload of `n` bytes: the mask
/// bit together with the shortest of the three length forms that holds `n`.
pub open spec fn length_field(n: nat) -> Seq<u8> {
    if n <= 125 {
        seq![(128 + n) as u8]
    } else if n <= 65535 {
        seq![254u8] + be_bytes(n, 2)
    } else {
        seq![255u8] + be_bytes(n, 8)
    }
}

/// `p` with each byte XORed with the byte of the four-byte `mask` at its position modulo four.
pub open spec fn apply_mask(p: Seq<u8>, mask: Seq<u8>) -> Seq<u8> {
    Seq::new(p.len(), |i: int| p[i] ^ mask[i % 4])
}

/// The outgoing text frame for payload `p` under `mask`: final fragment, text
/// opcode, length field, mask, masked payload.
pub open spec fn text_frame(p: Seq<u8>, mask: Seq<u8>) -> Seq<u8> {
    seq![0x81u8] + length_field(p.len()) + mask + apply_mask(p, mask)
}

/// Whether `frame` is the outgoing text frame of `text` under some four-byte mask.
pub open spec fn masked_frame_of(frame: Seq<u8>, text: Seq<char>) -> bool {
    exists|mask: Seq<u8>| mask.len() == 4 && frame == text_frame(encode_utf8(text), mask)
}

/// Relies on `rand::random::<u8>`; nothing is known of the byte it draws.
#[verifier::external_body]
fn random_byte() -> (r: u8) {
    rand::random::<u8>()
}

/// Appends the `k` big-endian bytes of `n` to `out`.
fn push_be_bytes(out: &mut Vec<u8>, n: u64, k: usize)
    ensures
        final(out)@ == old(out)@ + be_bytes(n as nat, k as nat),
    decreases k,
{
    if k > 0 {
        push_be_bytes(out, n / 256, k - 1);
        out.push((n % 256) as u8);
        proof {
            assert((n / 256) as nat == (n as nat) / 256);
        }
    } else {
        assert(old(out)@ + be_bytes(n as nat, 0) =~= old(out)@);
    }
}

/// Whether `needle` occurs in `hay` from position `i`.
pub open spec fn occurs_at(hay: Seq<char>, needle: Seq<char>, i: int) -> bool {
    0 <= i && i + needle.len() <= hay.len() && hay.subrange(i, i + needle.len()) == needle
}

/// Whether `needle` occurs somewhere in `hay`.
pub open spec fn contains_at_some(hay: Seq<char>, needle: Seq<char>) -> bool {
    exists|i: int| occurs_at(hay, needle, i)
}

/// Relies on `String::from_utf8`: it accepts exactly the well-formed UTF-8
/// byte sequences, and the string it returns holds the text those bytes encode.
#[verifier::external_body]
fn text_from_utf8(bytes: Vec<u8>) -> (r: Option<String>)
    ensures
        r is Some <==> valid_utf8(bytes@),
        r matches Some(s) ==> s@ == decode_utf8(bytes@),
{
    String::from_utf8(bytes).ok()
}

proof fn lemma_be_value_bound(s: Seq<u8>)
    ensures
        be_value(s) < pow256(s.len()),
    decreases s.len(),
{
    if s.len() > 0 {
        let t = s.drop_last();
        lemma_be_value_bound(t);
        let a = be_value(t);
        let p = pow256(t.len());
        let x = s.last() as int;
        assert(a * 256 + x < p * 256) by (nonlinear_arith)
            requires
                a < p,
                0 <= x < 256,
        ;
    }
}

/// Reads `n` bytes of `buffer` from `start` as a big-endian number.
fn read_be(buffer: &VecDeque<u8>, start: usize, n: usize) -> (r: u64)
    requires
        n <= 8,
        start + n <= buffer@.len(),
    ensures
        r == be_value(buffer@.subrange(start as int, start + n)),
{
    let total = buffer.len();
    let mut acc: u64 = 0;
    let mut i: usize = 0;
    proof {
        assert(pow256(0) == 1);
        lemma_pow256_mono(0, 8);
    }
    while i < n
        invariant
            total == buffer@.len(),
            n <= 8,
            start + n <= buffer@.len(),
            i <= n,
            acc == be_value(buffer@.subrange(start as int, start + i)),
            acc < pow256(i as nat),
            pow256(i as nat) <= pow256(8),
        decreases n - i,
    {
        let b = buffer[start + i];
        proof {
            let s = buffer@.subrange(start as int, start + i + 1);
            assert(s.drop_last() =~= buffer@.subrange(start as int, start + i));
            lemma_pow256_eight();
            assert(pow256((i + 1) as nat) == 256 * pow256(i as nat));
            lemma_pow256_mono((i + 1) as nat, 8);
            let p = pow256(i as nat);
            assert(acc * 256 + b < p * 256) by (nonlinear_arith)
                requires
                    acc < p,
                    0 <= b < 256,
            ;
        }
        acc = acc * 256 + b as u64;
        i = i + 1;
    }
    acc
}

proof fn lemma_pow256_eight()
    ensures
        pow256(8) == 0x1_0000_0000_0000_0000,
{
    reveal_with_fuel(pow256, 9);
}

proof fn lemma_pow256_mono(a: nat, b: nat)
    requires
        a <= b,
    ensures
        pow256(a) <= pow256(b),
    decreases b,
{
    if a < b {
        lemma_pow256_mono(a, (b - 1) as nat);
    }
}

/// Removes the first `n` bytes of `buffer`.
fn drop_front(buffer: &mut VecDeque<u8>, n: usize)
    requires
        n <= old(buffer)@.len(),
    ensures
        final(buffer)@ == old(buffer)@.subrange(n as int, old(buffer)@.len() as int),
{
    let mut i: usize = 0;
    while i < n
        invariant
            i <= n,
            n <= old(buffer)@.len(),
            buffer@ == old(buffer)@.subrange(i as int, old(buffer)@.len() as int),
        decreases n - i,
    {
        buffer.pop_front();
        i = i + 1;
    }
}

/// Copies `n` bytes of `buffer` from `start`.
fn copy_bytes(buffer: &VecDeque<u8>, start: usize, n: usize) -> (r: Vec<u8>)
    requires
        start + n <= buffer@.len(),
    ensures
        r@ == buffer@.subrange(start as int, start + n),
{
    let total = buffer.len();
    let mut out: Vec<u8> = Vec::new();
    let mut i: usize = 0;
    while i < n
        invariant
            total == buffer@.len(),
            i <= n,
            start + n <= buffer@.len(),
            out@ == buffer@.subrange(start as int, start + i),
        decreases n - i,
    {
        out.push(buffer[start + i]);
        i = i + 1;
    }
    out
}

/// The receive side of the transport: the bytes read from the stream that no
/// frame has taken yet, oldest first.
pub struct WebSocket {
    rx_buffer: VecDeque<u8>,
}

impl WebSocket {
    /// The bytes waiting to be decoded.
    pub closed spec fn pending(&self) -> Seq<u8> {
        self.rx_buffer@
    }

    /// A transport side with nothing received yet.
    pub fn new() -> (r: WebSocket)
        ensures
            r.pending() == Seq::<u8>::empty(),
    {
        WebSocket { rx_buffer: VecDeque::new() }
    }

    /// Appends bytes read from the stream to the receive buffer.
    pub fn feed(&mut self, bytes: &[u8])
        ensures
            final(self).pending() == old(self).pending() + bytes@,
    {
        let mut i: usize = 0;
        while i < bytes.len()
            invariant
                i <= bytes@.len(),
                self.rx_buffer@ == old(self).rx_buffer@ + bytes@.subrange(0, i as int),
            decreases bytes@.len() - i,
        {
            self.rx_buffer.push_back(bytes[i]);
            i = i + 1;
            assert(self.rx_buffer@ =~= old(self).rx_buffer@ + bytes@.subrange(0, i as int));
        }
        assert(bytes@.subrange(0, i as int) =~= bytes@);
    }

    /// Decodes the frame at the front of the receive buffer.
    pub fn next_frame(&mut self) -> (r: Result<DecodeOutcome, WebsocketError>)
        ensures
            match parse_frame(old(self).pending()) {
                FrameParse::Partial => {
                    &&& r matches Ok(DecodeOutcome::Incomplete)
                    &&& final(self).pending() == old(self).pending()
                },
                FrameParse::Text { payload, consumed } => {
                    if valid_utf8(payload) {
                        &&& r matches Ok(DecodeOutcome::Complete(s))
                        &&& s@ == decode_utf8(payload)
                        &&& final(self).pending() == old(self).pending().subrange(
                            consumed as int,
                            old(self).pending().len() as int,
                        )
                    } else {
                        &&& r matches Err(WebsocketError::FrameDecodeError)
                        &&& final(self).pending() == old(self).pending()
                    }
                },
                FrameParse::Close { code } => {
                    &&& r matches Ok(DecodeOutcome::CloseSignal(c))
                    &&& c == code
                    &&& final(self).pending() == old(self).pending().subrange(
                        4,
                        old(self).pending().len() as int,
                    )
                },
                FrameParse::Unsupported | FrameParse::TooLong => {
                    &&& r matches Err(WebsocketError::FrameDecodeError)
                    &&& final(self).pending() == old(self).pending()
                },
            },
    {
        Self::decode_websocket_frame(&mut self.rx_buffer)
    }

    /// Tests whether the server's answer to the upgrade request accepts it,
    /// that is, holds `101 Switching Protocols`.
    pub fn upgrade_accepted(response: &str) -> (r: bool)
        ensures
            r == contains_at_some(response@, "101 Switching Protocols"@),
    {
        let hay = crate::envelope::chars_of(response);
        let needle = crate::envelope::chars_of("101 Switching Protocols");
        let n = hay.len();
        let k = needle.len();
        if k > n {
            return false;
        }
        let mut i: usize = 0;
        while i <= n - k
            invariant
                k <= n,
                n == hay@.len(),
                k == needle@.len(),
                hay@ == response@,
                needle@ == "101 Switching Protocols"@,
                forall|j: int| 0 <= j < i ==> !occurs_at(hay@, needle@, j),
            decreases n - k + 1 - i,
        {
            let mut m: usize = 0;
            while m < k && hay[i + m] == needle[m]
                invariant
                    k <= n,
                    i <= n - k,
                    n == hay@.len(),
                    k == needle@.len(),
                    m <= k,
                    hay@.subrange(i as int, i + m) == needle@.subrange(0, m as int),
                decreases k - m,
            {
                m = m + 1;
                assert(hay@.subrange(i as int, i + m) =~= hay@.subrange(i as int, i + m - 1).push(hay@[i + m - 1]));
                assert(needle@.subrange(0, m as int) =~= needle@.subrange(0, m - 1).push(needle@[m - 1]));
            }
            if m == k {
                assert(needle@.subrange(0, k as int) =~= needle@);
                assert(occurs_at(hay@, needle@, i as int));
                return true;
            }
            assert(!occurs_at(hay@, needle@, i as int)) by {
                if occurs_at(hay@, needle@, i as int) {
                    assert(hay@.subrange(i as int, i + k)[m as int] == hay@[i + m]);
                    assert(needle@[m as int] == hay@[i + m]);
                }
            }
            i = i + 1;
        }
        false
    }

    /// Decodes the frame at the front of `buffer`.
    ///
    /// An incomplete frame leaves the buffer as it is; a text or close frame is
    /// taken off the front; a frame of another opcode, a text frame whose
    /// declared length is beyond `usize::MAX`, or a text frame whose payload is
    /// not UTF-8, is an error and leaves the buffer as it is.
    pub fn decode_websocket_frame(buffer: &mut VecDeque<u8>) -> (r: Result<
        DecodeOutcome,
        WebsocketError,
    >)
        ensures
            match parse_frame(old(buffer)@) {
                FrameParse::Partial => {
                    &&& r matches Ok(DecodeOutcome::Incomplete)
                    &&& final(buffer)@ == old(buffer)@
                },
                FrameParse::Text { payload, consumed } => {
                    if valid_utf8(payload) {
                        &&& r matches Ok(DecodeOutcome::Complete(s))
                        &&& s@ == decode_utf8(payload)
                        &&& final(buffer)@ == old(buffer)@.subrange(
                            consumed as int,
                            old(buffer)@.len() as int,
                        )
                    } else {
                        &&& r matches Err(WebsocketError::FrameDecodeError)
                        &&& final(buffer)@ == old(buffer)@
                    }
                },
                FrameParse::Close { code } => {
                    &&& r matches Ok(DecodeOutcome::CloseSignal(c))
                    &&& c == code
                    &&& final(buffer)@ == old(buffer)@.subrange(4, old(buffer)@.len() as int)
                },
                FrameParse::Unsupported | FrameParse::TooLong => {
                    &&& r matches Err(WebsocketError::FrameDecodeError)
                    &&& final(buffer)@ == old(buffer)@
                },
            },
    {
        let len = buffer.len();
        if len < 2 {
            return Ok(DecodeOutcome::Incomplete);
        }
        let b0 = buffer[0];
        let opcode = b0 & 0x0f;
        assert(opcode == opcode_of(b0)) by (bit_vector)
            requires
                opcode == b0 & 0x0f,
        ;
        if opcode == 0x01 {
            let b1 = buffer[1];
            let code = b1 & 0x7f;
            assert(code == length_code(b1)) by (bit_vector)
                requires
                    code == b1 & 0x7f,
            ;
            let header: usize = if code <= 125 {
                2
            } else if code == 126 {
                4
            } else {
                10
            };
            if len < header {
                return Ok(DecodeOutcome::Incomplete);
            }
            let payload_len: u64 = if code <= 125 {
                code as u64
            } else if code == 126 {
                read_be(buffer, 2, 2)
            } else {
                read_be(buffer, 2, 8)
            };
            if payload_len > usize::MAX as u64 {
                return Err(WebsocketError::FrameDecodeError);
            }
            if payload_len > (len - header) as u64 {
                return Ok(DecodeOutcome::Incomplete);
            }
            let n = payload_len as usize;
            let payload = copy_bytes(buffer, header, n);
            match text_from_utf8(payload) {
                Some(text) => {
                    drop_front(buffer, header + n);
                    Ok(DecodeOutcome::Complete(text))
                },
                None => Err(WebsocketError::FrameDecodeError),
            }
        } else if opcode == 0x08 {
            if len < 4 {
                return Ok(DecodeOutcome::Incomplete);
            }
            let status = (buffer[2] as u16) * 256 + buffer[3] as u16;
            drop_front(buffer, 4);
            Ok(DecodeOutcome::CloseSignal(status))
        } else {
            Err(WebsocketError::FrameDecodeError)
        }
    }
    /// Builds the outgoing text frame for `data` under the given four-byte mask.
    pub fn encode_masked_text_frame(data: &str, mask: [u8; 4]) -> (r: Vec<u8>)
        ensures
            r@ == text_frame(encode_utf8(data@), mask@),
    {
        let bytes = data.as_bytes();
        let len = bytes.len();
        let mut frame: Vec<u8> = Vec::new();
        frame.push(0x81);
        if len <= 125 {
            frame.push(0x80 | len as u8);
            assert((0x80 | len as u8) == (128 + len) as u8) by (bit_vector)
                requires
                    len <= 125,
            ;
        } else if len <= 65535 {
            // mask bit with the two-byte length marker
            frame.push(0xfe);
            push_be_bytes(&mut frame, len as u64, 2);
        } else {
            // mask bit with the eight-byte length marker
            frame.push(0xff);
            push_be_bytes(&mut frame, len as u64, 8);
        }
        let ghost header = frame@;
        assert(header =~= seq![0x81u8] + length_field(len as nat));
        let mut k: usize = 0;
        while k < 4
            invariant
                k <= 4,
                frame@ == header + mask@.subrange(0, k as int),
            decreases 4 - k,
        {
            frame.push(mask[k]);
            k = k + 1;
        }
        let ghost keyed = frame@;
        let mut i: usize = 0;
        while i < len
            invariant
                len == bytes@.len(),
                bytes@ == encode_utf8(data@),
                keyed == header + mask@,
                i <= len,
                frame@ == keyed + apply_mask(bytes@, mask@).subrange(0, i as int),
            decreases len - i,
        {
            frame.push(bytes[i] ^ mask[i % 4]);
            i = i + 1;
        }
        assert(apply_mask(bytes@, mask@).subrange(0, len as int) =~= apply_mask(bytes@, mask@));
        frame
    }

    /// Builds the outgoing text frame for `data` under a freshly drawn random mask.
    pub fn encode_websocket_text_frame(data: &str) -> (r: Vec<u8>)
        ensures
            masked_frame_of(r@, data@),
    {
        let mask = [random_byte(), random_byte(), random_byte(), random_byte()];
        let r = Self::encode_masked_text_frame(data, mask);
        assert(mask@.len() == 4);
        r
    }
    /// Builds one outgoing text frame for each message, in the order of the
    /// messages, each under its own random mask.
    pub fn encode_batch(messages: &Vec<String>) -> (r: Vec<Vec<u8>>)
        ensures
            r@.len() == messages@.len(),
            forall|i: int| 0 <= i < r@.len() ==> masked_frame_of(#[trigger] r@[i]@, messages@[i]@),
    {
        let mut frames: Vec<Vec<u8>> = Vec::new();
        let mut i: usize = 0;
        while i < messages.len()
            invariant
                i <= messages@.len(),
                frames@.len() == i,
                forall|j: int| 0 <= j < i ==> masked_frame_of(#[trigger] frames@[j]@, messages@[j]@),
            decreases messages@.len() - i,
        {
            let frame = Self::encode_websocket_text_frame(messages[i].as_str());
            frames.push(frame);
            i = i + 1;
        }
        frames
    }
}

/// The length field of a frame without mask: the shortest of the three length forms that holds `n`.
pub open spec fn plain_length_field(n: nat) -> Seq<u8> {
    if n <= 125 {
        seq![n as u8]
    } else if n <= 65535 {
        seq![126u8] + be_bytes(n, 2)
    } else {
        seq![127u8] + be_bytes(n, 8)
    }
}

/// The unmasked text frame for payload `p`, as a server sends it.
pub open spec fn plain_text_frame(p: Seq<u8>) -> Seq<u8> {
    seq![0x81u8] + plain_length_field(p.len()) + p
}

/// A masked frame with its mask taken off: the mask bit cleared, the four mask
/// bytes removed, and the payload XORed back with them.
pub open spec fn unmask_frame(f: Seq<u8>) -> Seq<u8> {
    let h = header_len(length_code(f[1]));
    let key = f.subrange(h as int, h + 4int);
    seq![f[0], (f[1] % 128) as u8] + f.subrange(2, h as int) + apply_mask(
        f.subrange(h + 4int, f.len() as int),
        key,
    )
}

proof fn lemma_be_bytes_value(n: nat, k: nat)
    requires
        n < pow256(k),
    ensures
        be_bytes(n, k).len() == k,
        be_value(be_bytes(n, k)) == n,
    decreases k,
{
    if k > 0 {
        let q = n / 256;
        assert(q < pow256((k - 1) as nat)) by (nonlinear_arith)
            requires
                n < 256 * pow256((k - 1) as nat),
                q == n / 256,
        ;
        lemma_be_bytes_value(q, (k - 1) as nat);
        let b = be_bytes(n, k);
        assert(b.drop_last() =~= be_bytes(q, (k - 1) as nat));
        assert(q * 256 + n % 256 == n) by (nonlinear_arith)
            requires
                q == n / 256,
        ;
    }
}

proof fn lemma_plain_frame_header(p: Seq<u8>)
    requires
        p.len() < pow256(8),
    ensures
        ({
            let f = plain_text_frame(p);
            let h = header_len(length_code(f[1]));
            &&& f.len() >= 2
            &&& opcode_of(f[0]) == 1
            &&& h == plain_length_field(p.len()).len() + 1
            &&& f.subrange(h as int, f.len() as int) == p
            &&& forall|g: Seq<u8>|
                g.len() >= h && g.subrange(0, h as int) == f.subrange(0, h as int)
                    ==> #[trigger] declared_len(g) == p.len()
        }),
{
    let n = p.len();
    let f = plain_text_frame(p);
    assert(f[0] == 0x81u8);
    assert(opcode_of(0x81u8) == 1);
    if n <= 125 {
        assert(f[1] == n as u8);
    } else if n <= 65535 {
        lemma_pow256_eight();
        reveal_with_fuel(pow256, 3);
        lemma_be_bytes_value(n, 2);
        assert(f[1] == 126u8);
    } else {
        lemma_pow256_eight();
        lemma_be_bytes_value(n, 8);
        assert(f[1] == 127u8);
    }
    let h = header_len(length_code(f[1]));
    assert(f.subrange(h as int, f.len() as int) =~= p);
    assert forall|g: Seq<u8>|
        g.len() >= h && g.subrange(0, h as int) == f.subrange(0, h as int)
            implies #[trigger] declared_len(g) == n by {
        assert(g[1] == g.subrange(0, h as int)[1]);
        if n > 125 && n <= 65535 {
            assert(g.subrange(2, 4) =~= g.subrange(0, h as int).subrange(2, 4));
            assert(f.subrange(0, h as int).subrange(2, 4) =~= be_bytes(n, 2));
        } else if n > 65535 {
            assert(g.subrange(2, 10) =~= g.subrange(0, h as int).subrange(2, 10));
            assert(f.subrange(0, h as int).subrange(2, 10) =~= be_bytes(n, 8));
        }
    }
}

/// Taking the mask off a frame that the encoder built gives the plain frame of
/// the same payload, and decoding that frame, whatever follows it in the
/// buffer, yields exactly the encoded text and takes exactly the frame's bytes.
pub proof fn lemma_frame_round_trip(text: Seq<char>, mask: Seq<u8>, rest: Seq<u8>)
    requires
        mask.len() == 4,
        encode_utf8(text).len() <= usize::MAX,
    ensures
        unmask_frame(text_frame(encode_utf8(text), mask)) == plain_text_frame(encode_utf8(text)),
        parse_frame(plain_text_frame(encode_utf8(text)) + rest) == (FrameParse::Text {
            payload: encode_utf8(text),
            consumed: plain_text_frame(encode_utf8(text)).len(),
        }),
        valid_utf8(encode_utf8(text)),
        decode_utf8(encode_utf8(text)) == text,
{
    let p = encode_utf8(text);
    let n = p.len();
    let f = text_frame(p, mask);
    let g = plain_text_frame(p);
    lemma_pow256_eight();
    if n > 125 && n <= 65535 {
        reveal_with_fuel(pow256, 3);
        lemma_be_bytes_value(n, 2);
    } else if n > 65535 {
        lemma_be_bytes_value(n, 8);
    }
    let h = header_len(length_code(f[1]));
    assert(h == header_len(length_code(g[1])));
    let key = f.subrange(h as int, h + 4int);
    assert(key =~= mask);
    let body = f.subrange(h + 4int, f.len() as int);
    assert(body =~= apply_mask(p, mask));
    assert forall|i: int| 0 <= i < n implies #[trigger] apply_mask(body, key)[i] == p[i] by {
        let x = p[i];
        let m = mask[i % 4];
        assert((x ^ m) ^ m == x) by (bit_vector);
    }
    assert(apply_mask(body, key) =~= p);
    assert((f[1] % 128) as u8 == g[1]);
    assert(unmask_frame(f) =~= g);
    lemma_plain_frame_header(p);
    let b = g + rest;
    assert(b.subrange(0, h as int) =~= g.subrange(0, h as int));
    assert(declared_len(b) == n);
    assert(b.subrange(h as int, h + n as int) =~= p);
    vstd::utf8::encode_utf8_valid_utf8(text);
    vstd::utf8::encode_utf8_decode_utf8(text);
}

/// Every proper prefix of a plain frame reads as incomplete: the decoder waits
/// until the last byte of the frame has arrived.
pub proof fn lemma_frame_prefix_incomplete(text: Seq<char>, k: int)
    requires
        encode_utf8(text).len() <= usize::MAX,
        0 <= k < plain_text_frame(encode_utf8(text)).len(),
    ensures
        parse_frame(plain_text_frame(encode_utf8(text)).subrange(0, k)) == FrameParse::Partial,
{
    let p = encode_utf8(text);
    let g = plain_text_frame(p);
    let b = g.subrange(0, k);
    lemma_pow256_eight();
    lemma_plain_frame_header(p);
    if k >= 2 {
        assert(b[0] == g[0]);
        assert(b[1] == g[1]);
        let h = header_len(length_code(g[1]));
        if k >= h {
            assert(b.subrange(0, h as int) =~= g.subrange(0, h as int));
            assert(declared_len(b) == p.len());
            assert(g.len() == h + p.len()) by {
                assert(g.subrange(h as int, g.len() as int).len() == p.len());
            }
        }
    }
}

/// Feeding a plain frame to the decoder in chunks, with one decode after each
/// chunk, yields its text exactly once. Every decode before the last chunk
/// sees a proper prefix of the frame and reads it as incomplete, which leaves
/// the buffer as it is, so the next chunk is simply appended; the decode after
/// the last chunk reads the whole text and takes every byte, so the buffer is
/// then empty and a further decode reads it as incomplete.
pub proof fn lemma_frame_fed_in_chunks(text: Seq<char>, chunks: Seq<Seq<u8>>)
    requires
        encode_utf8(text).len() <= usize::MAX,
        chunks.len() >= 1,
        chunks.last().len() > 0,
        chunks.flatten() == plain_text_frame(encode_utf8(text)),
    ensures
        forall|i: int|
            0 <= i < chunks.len() - 1 ==> #[trigger] parse_frame(chunks.take(i + 1).flatten())
                == FrameParse::Partial,
        parse_frame(chunks.flatten()) == (FrameParse::Text {
            payload: encode_utf8(text),
            consumed: chunks.flatten().len(),
        }),
        valid_utf8(encode_utf8(text)),
        decode_utf8(encode_utf8(text)) == text,
        parse_frame(Seq::<u8>::empty()) == FrameParse::Partial,
{
    let p = encode_utf8(text);
    let f = plain_text_frame(p);
    assert forall|i: int| 0 <= i < chunks.len() - 1 implies #[trigger] parse_frame(
        chunks.take(i + 1).flatten(),
    ) == FrameParse::Partial by {
        let head = chunks.take(i + 1);
        let tail = chunks.skip(i + 1);
        assert(head + tail =~= chunks);
        vstd::seq_lib::lemma_flatten_concat(head, tail);
        assert(tail.drop_last().push(tail.last()) =~= tail);
        tail.drop_last().lemma_flatten_push(tail.last());
        let a = head.flatten();
        assert(a.len() < f.len());
        assert(f.subrange(0, a.len() as int) =~= a);
        lemma_frame_prefix_incomplete(text, a.len() as int);
    }
    lemma_frame_round_trip(text, seq![0u8, 0u8, 0u8, 0u8], Seq::empty());
    assert(f + Seq::<u8>::empty() =~= f);
}

} // verus!
