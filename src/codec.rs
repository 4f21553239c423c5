//! Line framing: a line is everything up to and including the first
//! line-feed byte; an outgoing line is terminated with carriage return and
//! line feed unless it already ends with them.

use crate::buffer::{buffer_bytes, buffer_extend, buffer_slice, buffer_split_to, utf8_to_string};
use bytes::BytesMut;
use vstd::prelude::*;
use vstd::string::StrSliceExecFns;
use vstd::utf8::{decode_utf8, encode_utf8, valid_utf8};

verus! {

/// The byte that ends a frame.
pub const LF: u8 = 10;

/// The byte that precedes the line feed in an outgoing line.
pub const CR: u8 = 13;

/// The longest run of bytes without a line feed that the decoder holds.
pub const MAX_FRAME_LEN: usize = 256;

/// Why a line could not be decoded.
#[derive(PartialEq, Eq, Structural, Debug, Clone, Copy)]
pub enum CodecError {
    /// The bytes up to the line feed are not UTF-8; they have been consumed.
    InvalidEncoding,
    /// More than the allowed bytes arrived without a line feed; nothing was consumed.
    FrameTooLong,
    /// The output buffer cannot grow by the encoded line; nothing was appended.
    OutputTooLarge,
}

/// The stateless line codec.
pub struct LineCodec;

/// `n` is the position of the first line feed of `b`.
pub open spec fn is_first_lf(b: Seq<u8>, n: int) -> bool {
    &&& 0 <= n < b.len()
    &&& b[n] == LF
    &&& forall|i: int| 0 <= i < n ==> b[i] != LF
}

/// The length of the first frame of `b`, terminator included, when `b` holds a line feed.
pub open spec fn frame_len(b: Seq<u8>) -> int {
    (choose|n: int| is_first_lf(b, n)) + 1
}

/// What one decode step yields on a buffer holding `b`, and what the buffer then holds.
pub open spec fn decode_spec(b: Seq<u8>) -> (Result<Option<Seq<char>>, CodecError>, Seq<u8>) {
    if b.contains(LF) {
        let line = b.take(frame_len(b));
        let rest = b.skip(frame_len(b));
        if valid_utf8(line) {
            (Ok(Some(decode_utf8(line))), rest)
        } else {
            (Err(CodecError::InvalidEncoding), rest)
        }
    } else if b.len() > MAX_FRAME_LEN {
        (Err(CodecError::FrameTooLong), b)
    } else {
        (Ok(None), b)
    }
}

/// A decode result, with the line seen as its characters.
pub open spec fn decoded_view(r: Result<Option<String>, CodecError>) -> Result<Option<Seq<char>>, CodecError> {
    match r {
        Ok(Some(s)) => Ok(Some(s@)),
        Ok(None) => Ok(None),
        Err(e) => Err(e),
    }
}

/// `s` already ends with carriage return and line feed.
pub open spec fn ends_with_crlf(s: Seq<char>) -> bool {
    s.len() >= 2 && s[s.len() - 2] == '\r' && s[s.len() - 1] == '\n'
}

/// The characters that encoding `s` puts on the wire.
pub open spec fn framed(s: Seq<char>) -> Seq<char> {
    if ends_with_crlf(s) {
        s
    } else {
        s + seq!['\r', '\n']
    }
}

/// The bytes that encoding `s` appends.
pub open spec fn encoded_frame(s: Seq<char>) -> Seq<u8> {
    encode_utf8(framed(s))
}

/// There is only one first line feed.
pub proof fn lemma_first_lf_unique(b: Seq<u8>, n: int, m: int)
    requires
        is_first_lf(b, n),
        is_first_lf(b, m),
    ensures
        n == m,
{
}

/// A buffer with a line feed at `n` and none before has its first frame end there.
pub proof fn lemma_frame_len(b: Seq<u8>, n: int)
    requires
        is_first_lf(b, n),
    ensures
        b.contains(LF),
        frame_len(b) == n + 1,
{
    assert(b[n] == LF);
    let m = choose|m: int| is_first_lf(b, m);
    lemma_first_lf_unique(b, n, m);
}

impl LineCodec {
    /// Takes the first complete line off the front of `src`.
    pub fn decode(&mut self, src: &mut BytesMut) -> (r: Result<Option<String>, CodecError>)
        ensures
            decoded_view(r) == decode_spec(buffer_bytes(*old(src))).0,
            buffer_bytes(*final(src)) == decode_spec(buffer_bytes(*old(src))).1,
    {
        let ghost b = buffer_bytes(*src);
        let bytes = buffer_slice(src);
        let len = bytes.len();
        let mut i: usize = 0;
        while i < len
            invariant
                bytes@ == b,
                b == buffer_bytes(*old(src)),
                buffer_bytes(*src) == b,
                len == b.len(),
                i <= len,
                forall|k: int| 0 <= k < i ==> b[k] != LF,
            decreases len - i,
        {
            if bytes[i] == LF {
                proof {
                    lemma_frame_len(b, i as int);
                }
                let line = buffer_split_to(src, i + 1);
                return match utf8_to_string(line) {
                    Some(s) => Ok(Some(s)),
                    None => Err(CodecError::InvalidEncoding),
                };
            }
            i = i + 1;
        }
        assert(!b.contains(LF));
        if len > MAX_FRAME_LEN {
            return Err(CodecError::FrameTooLong);
        }
        Ok(None)
    }

    /// Appends `item` to `dst`, followed by carriage return and line feed
    /// unless `item` already ends with them. A buffer that would outgrow
    /// `isize::MAX` bytes is left as it is.
    pub fn encode(&mut self, item: String, dst: &mut BytesMut) -> (r: Result<(), CodecError>)
        ensures
            r is Ok <==> buffer_bytes(*old(dst)).len() + encoded_frame(item@).len() <= isize::MAX,
            r is Ok ==> buffer_bytes(*final(dst)) == buffer_bytes(*old(dst)) + encoded_frame(item@),
            r is Err ==> r == Err::<(), CodecError>(CodecError::OutputTooLarge) && buffer_bytes(
                *final(dst),
            ) == buffer_bytes(*old(dst)),
    {
        let n = item.unicode_len();
        let terminated = n >= 2 && item.get_char(n - 2) == '\r' && item.get_char(n - 1) == '\n';
        proof {
            lemma_encode_utf8_append(item@, seq!['\r', '\n']);
            lemma_encode_crlf();
        }
        let bytes = item.as_str().as_bytes();
        let held = buffer_slice(dst).len();
        let limit = isize::MAX as usize;
        let extra: usize = if terminated { 0 } else { 2 };
        if bytes.len() > limit || held > limit - bytes.len() || extra > limit - bytes.len() - held {
            return Err(CodecError::OutputTooLarge);
        }
        buffer_extend(dst, bytes);
        if !terminated {
            let marker: [u8; 2] = [CR, LF];
            buffer_extend(dst, marker.as_slice());
            proof {
                assert(marker@ =~= seq![CR, LF]);
            }
        }
        Ok(())
    }
}

/// Encoding a concatenation concatenates the encodings.
pub proof fn lemma_encode_utf8_append(a: Seq<char>, b: Seq<char>)
    ensures
        encode_utf8(a + b) == encode_utf8(a) + encode_utf8(b),
    decreases a.len(),
{
    if a.len() == 0 {
        assert(a + b =~= b);
    } else {
        lemma_encode_utf8_append(a.drop_first(), b);
        assert((a + b).drop_first() =~= a.drop_first() + b);
        assert(encode_utf8(a) + encode_utf8(b) =~= encode_scalar_of(a[0]) + (encode_utf8(a.drop_first()) + encode_utf8(b)));
    }
}

/// No character but the line feed encodes to a line-feed byte.
proof fn lemma_scalar_no_lf(c: char)
    requires
        c != '\n',
    ensures
        !encode_scalar_of(c).contains(LF),
{
    let v = c as u32;
    assert(v != 10u32);
    assert((v <= 0x7F && v != 10u32) ==> (v & 0x7F) as u8 != 10u8) by (bit_vector);
    assert(forall|x: u8| (0xC0u8 | x) != 10u8) by (bit_vector);
    assert(forall|x: u8| (0xE0u8 | x) != 10u8) by (bit_vector);
    assert(forall|x: u8| (0xF0u8 | x) != 10u8) by (bit_vector);
    assert(forall|x: u8| (0x80u8 | x) != 10u8) by (bit_vector);
    let e = encode_scalar_of(c);
    assert forall|i: int| 0 <= i < e.len() implies e[i] != LF by {}
}

/// A text without line feeds encodes to bytes without line feeds.
proof fn lemma_encode_no_lf(s: Seq<char>)
    requires
        !s.contains('\n'),
    ensures
        !encode_utf8(s).contains(LF),
    decreases s.len(),
{
    if s.len() > 0 {
        assert(s[0] != '\n');
        lemma_scalar_no_lf(s[0]);
        assert(!s.drop_first().contains('\n')) by {
            assert forall|i: int| 0 <= i < s.drop_first().len() implies s.drop_first()[i] != '\n' by {
                assert(s.drop_first()[i] == s[i + 1]);
            }
        }
        lemma_encode_no_lf(s.drop_first());
        let e = encode_utf8(s);
        let h = encode_scalar_of(s[0]);
        let t = encode_utf8(s.drop_first());
        assert(e == h + t);
        assert forall|i: int| 0 <= i < e.len() implies e[i] != LF by {
            if i < h.len() {
                assert(e[i] == h[i]);
            } else {
                assert(e[i] == t[i - h.len()]);
            }
        }
    }
}

/// Encoding a line that holds no line feed and decoding the bytes again
/// gives back the line with carriage return and line feed appended once,
/// and leaves nothing in the buffer.
pub proof fn law_encode_decode_round_trip(s: Seq<char>)
    requires
        !s.contains('\n'),
    ensures
        decode_spec(encoded_frame(s)) == (
        Ok::<Option<Seq<char>>, CodecError>(Some(s + seq!['\r', '\n'])),
        Seq::<u8>::empty(),
        ),
{
    let crlf = seq!['\r', '\n'];
    assert(!ends_with_crlf(s)) by {
        if s.len() >= 2 {
            assert(s[s.len() - 1] != '\n');
        }
    }
    let full = s + crlf;
    let b = encoded_frame(s);
    assert(framed(s) == full);
    lemma_encode_utf8_append(s, crlf);
    lemma_encode_crlf();
    lemma_encode_no_lf(s);
    let head = encode_utf8(s);
    assert(b == head + seq![CR, LF]);
    assert(is_first_lf(b, b.len() - 1)) by {
        assert forall|i: int| 0 <= i < b.len() - 1 implies b[i] != LF by {
            if i < head.len() {
                assert(b[i] == head[i]);
            } else {
                assert(b[i] == CR);
            }
        }
    }
    lemma_frame_len(b, b.len() - 1);
    assert(b.take(b.len() as int) =~= b);
    assert(b.skip(b.len() as int) =~= Seq::<u8>::empty());
    vstd::utf8::encode_utf8_valid_utf8(full);
    vstd::utf8::encode_utf8_decode_utf8(full);
}

/// A line that already ends with carriage return and line feed is encoded
/// as it stands: the terminator is not doubled, and the bytes are those of
/// the same line written without its terminator.
pub proof fn law_encode_keeps_terminator(t: Seq<char>)
    ensures
        encoded_frame(t + seq!['\r', '\n']) == encode_utf8(t + seq!['\r', '\n']),
        !t.contains('\n') ==> encoded_frame(t + seq!['\r', '\n']) == encoded_frame(t),
{
    let s = t + seq!['\r', '\n'];
    assert(s[s.len() - 2] == '\r' && s[s.len() - 1] == '\n');
    if !t.contains('\n') {
        if t.len() >= 2 {
            assert(t[t.len() - 1] != '\n');
        }
        assert(framed(t) == s);
    }
}

/// Bytes of a line that arrive before its line feed yield no line and stay
/// in the buffer; once the rest of the line, up to its line feed, has
/// arrived, the whole line comes out and nothing is left behind.
pub proof fn law_partial_frame(head: Seq<u8>, tail: Seq<u8>)
    requires
        !head.contains(LF),
        tail.len() > 0,
        tail.last() == LF,
        !tail.drop_last().contains(LF),
        valid_utf8(head + tail),
    ensures
        !(decode_spec(head).0 is Ok && decode_spec(head).0->Ok_0 is Some),
        decode_spec(head).1 == head,
        head.len() <= MAX_FRAME_LEN ==> decode_spec(head).0 == Ok::<Option<Seq<char>>, CodecError>(None),
        decode_spec(head + tail) == (
        Ok::<Option<Seq<char>>, CodecError>(Some(decode_utf8(head + tail))),
        Seq::<u8>::empty(),
        ),
{
    let b = head + tail;
    assert(is_first_lf(b, b.len() - 1)) by {
        assert forall|i: int| 0 <= i < b.len() - 1 implies b[i] != LF by {
            if i < head.len() {
                assert(b[i] == head[i]);
            } else {
                assert(b[i] == tail.drop_last()[i - head.len()]);
            }
        }
    }
    lemma_frame_len(b, b.len() - 1);
    assert(b.take(b.len() as int) =~= b);
    assert(b.skip(b.len() as int) =~= Seq::<u8>::empty());
}

/// Bytes without a line feed beyond the largest frame are refused as too
/// long, and the buffer keeps every one of them.
pub proof fn law_overflow(b: Seq<u8>)
    requires
        !b.contains(LF),
        b.len() > MAX_FRAME_LEN,
    ensures
        decode_spec(b) == (Err::<Option<Seq<char>>, CodecError>(CodecError::FrameTooLong), b),
{
}

spec fn encode_scalar_of(c: char) -> Seq<u8> {
    vstd::utf8::encode_scalar(c as u32)
}

/// Carriage return and line feed are one byte each.
pub proof fn lemma_encode_crlf()
    ensures
        encode_utf8(seq!['\r', '\n']) == seq![CR, LF],
{
    let s = seq!['\r', '\n'];
    assert(s.drop_first() =~= seq!['\n']);
    assert(s.drop_first().drop_first() =~= Seq::<char>::empty());
    assert(('\r' as u32) == 13u32);
    assert(('\n' as u32) == 10u32);
    assert((13u32 & 0x7F) as u8 == 13u8) by (bit_vector);
    assert((10u32 & 0x7F) as u8 == 10u8) by (bit_vector);
    let t = s.drop_first();
    assert(encode_utf8(t.drop_first()) =~= Seq::<u8>::empty());
    assert(encode_utf8(t) =~= seq![LF]);
    assert(encode_utf8(s) =~= seq![CR, LF]);
}

} // verus!
