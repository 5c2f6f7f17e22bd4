//! WebSocket frame codec: two-byte header decoding, the supported-subset
//! check, payload unmasking, the close control frame, and a decoder for a
//! buffered sequence of frames.

use vstd::prelude::*;

verus! {

/// Bit 7 of the first header byte: final fragment.
pub const FIN_BIT: u8 = 0x80;
/// Low four bits of the first header byte: the opcode.
pub const OPCODE_MASK: u8 = 0x0f;
/// Opcode of a text frame.
pub const OP_TEXT: u8 = 0x1;
/// Opcode of the close control frame.
pub const OP_CLOSE: u8 = 0x8;
/// Bit 7 of the second header byte: the payload is masked.
pub const MASK_BIT: u8 = 0x80;
/// Low seven bits of the second header byte: the payload length.
pub const LEN_MASK: u8 = 0x7f;

/// Payload lengths must stay strictly below this sentinel value.
pub const LEN_LIMIT: u8 = 125;

/// A decoded two-byte frame header.
#[derive(PartialEq, Eq, Structural, Clone, Copy, Debug)]
pub struct FrameHeader {
    /// Final fragment of a message.
    pub fin: bool,
    /// Four-bit opcode.
    pub opcode: u8,
    /// Whether a four-byte masking key follows the header.
    pub mask: bool,
    /// Payload length (seven bits).
    pub len: u8,
}

/// Why a frame cannot be handled.
#[derive(PartialEq, Eq, Structural, Clone, Copy, Debug)]
pub enum FrameError {
    /// The FIN bit was clear: fragmented messages are not supported.
    Fragmented,
    /// The length field was 125 or more: extended payload lengths are not
    /// supported.
    LengthUnsupported,
    /// An opcode other than text or close.
    OpcodeUnsupported,
    /// The buffer ended before a complete frame.
    Truncated,
}

/// The header encoded by the first two bytes of a frame.
pub open spec fn spec_decode_header(b0: u8, b1: u8) -> FrameHeader {
    FrameHeader {
        fin: b0 & FIN_BIT != 0,
        opcode: b0 & OPCODE_MASK,
        mask: b1 & MASK_BIT != 0,
        len: b1 & LEN_MASK,
    }
}

/// Decode the two header bytes of a frame: FIN is bit 7 of the first
/// byte, the opcode its low four bits; the mask flag is bit 7 of the
/// second byte, the payload length its low seven bits.
pub fn decode_header(b0: u8, b1: u8) -> (h: FrameHeader)
    ensures
        h == spec_decode_header(b0, b1),
{
    FrameHeader {
        fin: b0 & FIN_BIT != 0,
        opcode: b0 & OPCODE_MASK,
        mask: b1 & MASK_BIT != 0,
        len: b1 & LEN_MASK,
    }
}

/// Whether a header falls in the supported subset, and if not, why not:
/// the frame must be final, its length below the extended-length
/// sentinel, and its opcode text or close.
pub open spec fn spec_check_header(h: FrameHeader) -> Result<(), FrameError> {
    if !h.fin {
        Err(FrameError::Fragmented)
    } else if h.len >= LEN_LIMIT {
        Err(FrameError::LengthUnsupported)
    } else if h.opcode == OP_TEXT || h.opcode == OP_CLOSE {
        Ok(())
    } else {
        Err(FrameError::OpcodeUnsupported)
    }
}

/// Check a decoded header against the supported subset.
pub fn check_header(h: &FrameHeader) -> (r: Result<(), FrameError>)
    ensures
        r == spec_check_header(*h),
{
    if !h.fin {
        Err(FrameError::Fragmented)
    } else if h.len >= LEN_LIMIT {
        Err(FrameError::LengthUnsupported)
    } else if h.opcode == OP_TEXT || h.opcode == OP_CLOSE {
        Ok(())
    } else {
        Err(FrameError::OpcodeUnsupported)
    }
}

/// What a frame-reader loop must do after the two header bytes of a
/// frame.
#[derive(PartialEq, Eq, Structural, Clone, Copy, Debug)]
pub enum FrameAction {
    /// Reply with the close frame and stop: the frame was a close.
    SendClose,
    /// Read the payload of a text frame: a four-byte masking key first
    /// when `masked` is set, then `len` payload bytes.
    ReadText { masked: bool, len: u8 },
}

/// The action owed for the two header bytes of a frame.
pub open spec fn spec_frame_step(b0: u8, b1: u8) -> Result<FrameAction, FrameError> {
    let h = spec_decode_header(b0, b1);
    match spec_check_header(h) {
        Err(e) => Err(e),
        Ok(()) => if h.opcode == OP_CLOSE {
            Ok(FrameAction::SendClose)
        } else {
            Ok(FrameAction::ReadText { masked: h.mask, len: h.len })
        },
    }
}

/// Decide from the two header bytes of a frame what the reader loop
/// does next: refuse the frame, answer a close, or read a text
/// payload.
pub fn frame_step(b0: u8, b1: u8) -> (r: Result<FrameAction, FrameError>)
    ensures
        r == spec_frame_step(b0, b1),
{
    let h = decode_header(b0, b1);
    match check_header(&h) {
        Err(e) => Err(e),
        Ok(()) => if h.opcode == OP_CLOSE {
            Ok(FrameAction::SendClose)
        } else {
            Ok(FrameAction::ReadText { masked: h.mask, len: h.len })
        },
    }
}

/// The byte sequence `data` with each byte XOR-ed against the key byte
/// at its index modulo four.
pub open spec fn spec_masked(data: Seq<u8>, key: Seq<u8>) -> Seq<u8>
    recommends
        key.len() == 4,
{
    Seq::new(data.len(), |i: int| data[i] ^ key[i % 4])
}

/// Unmask a payload in place: XOR each byte with the key byte at its
/// index modulo four.
pub fn unmask(data: &mut Vec<u8>, key: &[u8; 4])
    ensures
        final(data)@ == spec_masked(old(data)@, key@),
{
    let n = data.len();
    let mut i: usize = 0;
    while i < n
        invariant
            n == data@.len(),
            n == old(data)@.len(),
            i <= n,
            forall|j: int| 0 <= j < i ==> data@[j] == old(data)@[j] ^ key@[j % 4],
            forall|j: int| i <= j < n ==> data@[j] == old(data)@[j],
        decreases n - i,
    {
        let b = data[i];
        data[i] = b ^ key[i % 4];
        i = i + 1;
    }
    proof {
        assert(data@ =~= spec_masked(old(data)@, key@));
    }
}

/// Unmasking is an involution: applying the same four-byte key twice
/// returns the original payload.
pub proof fn lemma_unmask_involutive(data: Seq<u8>, key: Seq<u8>)
    requires
        key.len() == 4,
    ensures
        spec_masked(spec_masked(data, key), key) == data,
{
    let m = spec_masked(spec_masked(data, key), key);
    assert forall|i: int| 0 <= i < data.len() implies m[i] == data[i] by {
        let a = data[i];
        let k = key[i % 4];
        assert((a ^ k) ^ k == a) by (bit_vector);
    }
    assert(m =~= data);
}

/// The close control frame this side sends: FIN set, close opcode,
/// empty payload.
pub fn close_frame() -> (r: Vec<u8>)
    ensures
        r@ == seq![FIN_BIT | OP_CLOSE, 0u8],
{
    let mut r: Vec<u8> = Vec::new();
    r.push(FIN_BIT | OP_CLOSE);
    r.push(0u8);
    proof {
        assert(r@ =~= seq![FIN_BIT | OP_CLOSE, 0u8]);
    }
    r
}

/// The text payloads of a buffered sequence of frames, decoded in order
/// up to and excluding the first close frame; an error if any frame
/// falls outside the supported subset or the buffer ends before a close
/// frame is complete.
pub open spec fn spec_decode_frames(input: Seq<u8>) -> Result<Seq<Seq<u8>>, FrameError>
    decreases input.len(),
{
    if input.len() < 2 {
        Err(FrameError::Truncated)
    } else {
        let h = spec_decode_header(input[0], input[1]);
        match spec_check_header(h) {
            Err(e) => Err(e),
            Ok(()) => {
                if h.opcode == OP_CLOSE {
                    Ok(Seq::empty())
                } else {
                    let key_len: int = if h.mask { 4 } else { 0 };
                    let end = 2 + key_len + h.len;
                    if input.len() < end {
                        Err(FrameError::Truncated)
                    } else {
                        let key = if h.mask {
                            input.subrange(2, 6)
                        } else {
                            seq![0u8, 0u8, 0u8, 0u8]
                        };
                        let payload = spec_masked(
                            input.subrange(2 + key_len, end),
                            key,
                        );
                        match spec_decode_frames(input.subrange(end, input.len() as int)) {
                            Ok(tail) => Ok(seq![payload] + tail),
                            Err(e) => Err(e),
                        }
                    }
                }
            },
        }
    }
}

/// Decode a buffered sequence of frames: the payloads of the text
/// frames, in order, up to the first close frame.
pub fn decode_frames(input: &[u8]) -> (r: Result<Vec<Vec<u8>>, FrameError>)
    ensures
        (match (r, spec_decode_frames(input@)) {
            (Ok(v), Ok(s)) => {
                &&& v@.len() == s.len()
                &&& forall|i: int| 0 <= i < s.len() ==> (#[trigger] v@[i])@ == s[i]
            },
            (Err(e1), Err(e2)) => e1 == e2,
            _ => false,
        }),
    decreases input@.len(),
{
    if input.len() < 2 {
        return Err(FrameError::Truncated);
    }
    let h = decode_header(*vstd::slice::slice_index_get(input, 0), *vstd::slice::slice_index_get(input, 1));
    match check_header(&h) {
        Err(e) => {
            return Err(e);
        },
        Ok(()) => {},
    }
    if h.opcode == OP_CLOSE {
        return Ok(Vec::new());
    }
    let key_len: usize = if h.mask { 4 } else { 0 };
    let end: usize = 2 + key_len + (h.len as usize);
    if input.len() < end {
        return Err(FrameError::Truncated);
    }
    let key: [u8; 4] = if h.mask {
        [
            *vstd::slice::slice_index_get(input, 2),
            *vstd::slice::slice_index_get(input, 3),
            *vstd::slice::slice_index_get(input, 4),
            *vstd::slice::slice_index_get(input, 5),
        ]
    } else {
        [0u8, 0u8, 0u8, 0u8]
    };
    let ghost spec_key: Seq<u8> = if h.mask {
        input@.subrange(2, 6)
    } else {
        seq![0u8, 0u8, 0u8, 0u8]
    };
    proof {
        assert(key@ =~= spec_key);
    }
    let mut payload: Vec<u8> = Vec::new();
    let start: usize = 2 + key_len;
    let mut i: usize = 0;
    while i < h.len as usize
        invariant
            start == 2 + key_len,
            end == start + h.len,
            end <= input@.len(),
            i <= h.len,
            key@ == spec_key,
            payload@.len() == i,
            forall|j: int| 0 <= j < i ==>
                payload@[j] == input@[start + j] ^ key@[j % 4],
        decreases h.len - i,
    {
        let b = *vstd::slice::slice_index_get(input, start + i);
        payload.push(b ^ key[i % 4]);
        i = i + 1;
    }
    proof {
        assert(payload@ =~= spec_masked(
            input@.subrange(start as int, end as int),
            spec_key,
        ));
    }
    let rest = decode_frames(vstd::slice::slice_subrange(input, end, input.len()));
    match rest {
        Err(e) => Err(e),
        Ok(mut v) => {
            let ghost tail_vecs = v@;
            v.insert(0, payload);
            proof {
                let s = spec_decode_frames(input@)->Ok_0;
                assert(v@.len() == s.len());
                assert forall|i: int| 0 <= i < s.len() implies (#[trigger] v@[i])@ == s[i] by {
                    if i > 0 {
                        assert(v@[i] == tail_vecs[i - 1]);
                    }
                }
            }
            Ok(v)
        },
    }
}

} // verus!
