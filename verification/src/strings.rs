//! String field codecs.
//!
//! Three binary forms: a 4-byte count followed by that many raw bytes
//! ([`PascalString`]), the same with a trailing NUL byte counted in the
//! prefix ([`PascalStringNULL`]), and a fixed-width NUL-terminated,
//! zero-padded field ([`FixedStringNULL`]). Bytes are interpreted as
//! UTF-8 on decode; invalid sequences are replaced, never fatal.

use crate::wire::{lemma_concat_split, read_u32_le, write_u32_le, write_u8};
use crate::WalleError;
use vstd::bytes::{spec_u32_from_le_bytes, spec_u32_to_le_bytes};
use vstd::prelude::*;
use vstd::utf8::{decode_utf8, encode_utf8, encode_utf8_decode_utf8, encode_utf8_valid_utf8, valid_utf8};

verus! {

/// The character sequence `String::from_utf8_lossy` yields for a byte
/// sequence; a function of the bytes alone.
pub uninterp spec fn lossy_utf8(bytes: Seq<u8>) -> Seq<char>;

/// Relies on `String::from_utf8_lossy`: its result depends only on the
/// bytes, and bytes that are valid UTF-8 decode to exactly the character
/// sequence they encode (invalid sequences are replaced, never fatal).
#[verifier::external_body]
fn from_utf8_lossy(bytes: &[u8]) -> (r: String)
    ensures
        r@ == lossy_utf8(bytes@),
        valid_utf8(bytes@) ==> r@ == decode_utf8(bytes@),
{
    String::from_utf8_lossy(bytes).into_owned()
}

/// Appends the UTF-8 bytes of `s` to `out`.
fn write_str_bytes(s: &str, out: &mut Vec<u8>)
    ensures
        final(out)@ == old(out)@ + encode_utf8(s@),
{
    let bytes = s.as_bytes();
    out.extend_from_slice(bytes);
}

/// Length-prefixed string: a 4-byte little-endian byte count, then that
/// many raw bytes of text.
#[derive(Debug, PartialEq)]
pub struct PascalString {
    pub data: String,
}

impl DeepView for PascalString {
    type V = Seq<char>;

    open spec fn deep_view(&self) -> Seq<char> {
        self.data.deep_view()
    }
}

/// The string fits the 4-byte count.
pub open spec fn pascal_string_wf(m: Seq<char>) -> bool {
    encode_utf8(m).len() <= u32::MAX
}

/// Binary form of a length-prefixed string.
pub open spec fn spec_enc_pascal_string(m: Seq<char>) -> Seq<u8> {
    spec_u32_to_le_bytes(encode_utf8(m).len() as u32) + encode_utf8(m)
}

impl PascalString {
    /// Appends the binary form; fails only when the text's byte length
    /// does not fit the 4-byte count.
    pub fn encode(&self, out: &mut Vec<u8>) -> (r: Result<(), WalleError>)
        ensures
            r is Ok <==> pascal_string_wf(self.deep_view()),
            r is Ok ==> final(out)@ == old(out)@ + spec_enc_pascal_string(self.deep_view()),
            r is Err ==> final(out)@ == old(out)@ && r == Err::<(), _>(
                WalleError::MalformedDocument,
            ),
    {
        let bytes_len: usize = self.data.as_str().as_bytes().len();
        if bytes_len > u32::MAX as usize {
            return Err(WalleError::MalformedDocument);
        }
        write_u32_le(bytes_len as u32, out);
        write_str_bytes(self.data.as_str(), out);
        proof {
            assert(final(out)@ =~= old(out)@ + spec_enc_pascal_string(self.deep_view()));
        }
        Ok(())
    }

    /// Decodes one length-prefixed string at `pos`. Exact: it recovers
    /// precisely the string a matching encode produced, and on any other
    /// input yields the replacement-decoded text of the counted bytes.
    pub fn decode(data: &[u8], pos: usize) -> (r: Option<(Self, usize)>)
        requires
            pos <= data@.len(),
        ensures
            (r matches Some((v, n)) ==> n >= 4 && pos + n <= data@.len() && data@.subrange(
                pos as int,
                pos + 4,
            ) == spec_u32_to_le_bytes((n - 4) as u32) && v.deep_view() == lossy_utf8(
                data@.subrange(pos + 4, pos + n),
            )),
            forall|m: Seq<char>|
                #![trigger spec_enc_pascal_string(m)]
                (pascal_string_wf(m) && pos + spec_enc_pascal_string(m).len() <= data@.len()
                    && spec_enc_pascal_string(m) == data@.subrange(
                    pos as int,
                    pos + spec_enc_pascal_string(m).len(),
                )) ==> (r matches Some((v, n)) && v.deep_view() == m && n
                    == spec_enc_pascal_string(m).len()),
    {
        let dlen: usize = data.len();
        proof {
            vstd::bytes::lemma_auto_spec_u32_to_from_le_bytes();
        }
        if dlen - pos < 4 {
            proof {
                assert forall|m: Seq<char>| #[trigger]
                    spec_enc_pascal_string(m).len() >= 4 by {
                    assert(spec_u32_to_le_bytes(encode_utf8(m).len() as u32).len() == 4);
                }
            }
            return None;
        }
        let count = read_u32_le(data, pos);
        let n = count as usize;
        proof {
            assert forall|m: Seq<char>|
                #![trigger spec_enc_pascal_string(m)]
                (pascal_string_wf(m) && pos + spec_enc_pascal_string(m).len() <= data@.len()
                    && spec_enc_pascal_string(m) == data@.subrange(
                    pos as int,
                    pos + spec_enc_pascal_string(m).len(),
                )) implies (encode_utf8(m).len() == n && encode_utf8(m) == data@.subrange(
                pos + 4,
                pos + 4 + n,
            )) by {
                let cb = spec_u32_to_le_bytes(encode_utf8(m).len() as u32);
                assert(cb.len() == 4);
                lemma_concat_split(data@, pos as int, cb, encode_utf8(m));
                assert(spec_u32_from_le_bytes(cb) == encode_utf8(m).len() as u32);
            }
        }
        if dlen - (pos + 4) < n {
            return None;
        }
        let text = from_utf8_lossy(&data[pos + 4..pos + 4 + n]);
        proof {
            assert forall|m: Seq<char>|
                #![trigger spec_enc_pascal_string(m)]
                (pascal_string_wf(m) && pos + spec_enc_pascal_string(m).len() <= data@.len()
                    && spec_enc_pascal_string(m) == data@.subrange(
                    pos as int,
                    pos + spec_enc_pascal_string(m).len(),
                )) implies text@ == m by {
                encode_utf8_valid_utf8(m);
                encode_utf8_decode_utf8(m);
            }
        }
        Some((PascalString { data: text }, 4 + n))
    }
}

/// Length-prefixed NUL-terminated string: the stored count is the byte
/// length plus one, and a single zero byte follows the text.
#[derive(Debug, PartialEq)]
pub struct PascalStringNULL {
    pub data: String,
}

impl DeepView for PascalStringNULL {
    type V = Seq<char>;

    open spec fn deep_view(&self) -> Seq<char> {
        self.data.deep_view()
    }
}

/// The string plus its terminator fits the 4-byte count.
pub open spec fn pascal_string_null_wf(m: Seq<char>) -> bool {
    encode_utf8(m).len() + 1 <= u32::MAX
}

/// Binary form of a length-prefixed NUL-terminated string.
pub open spec fn spec_enc_pascal_string_null(m: Seq<char>) -> Seq<u8> {
    spec_u32_to_le_bytes((encode_utf8(m).len() + 1) as u32) + encode_utf8(m) + seq![0u8]
}

impl PascalStringNULL {
    /// Appends the binary form: count `len + 1`, the text, one zero
    /// byte. Fails only when `len + 1` does not fit the 4-byte count.
    pub fn encode(&self, out: &mut Vec<u8>) -> (r: Result<(), WalleError>)
        ensures
            r is Ok <==> pascal_string_null_wf(self.deep_view()),
            r is Ok ==> final(out)@ == old(out)@ + spec_enc_pascal_string_null(self.deep_view()),
            r is Ok ==> final(out)@.len() == old(out)@.len() + 4 + encode_utf8(
                self.deep_view(),
            ).len() + 1,
            r is Err ==> final(out)@ == old(out)@ && r == Err::<(), _>(
                WalleError::MalformedDocument,
            ),
    {
        let bytes_len: usize = self.data.as_str().as_bytes().len();
        if bytes_len > (u32::MAX - 1) as usize {
            return Err(WalleError::MalformedDocument);
        }
        write_u32_le(bytes_len as u32 + 1, out);
        write_str_bytes(self.data.as_str(), out);
        write_u8(0u8, out);
        proof {
            vstd::bytes::lemma_auto_spec_u32_to_from_le_bytes();
            assert(spec_u32_to_le_bytes((encode_utf8(self.deep_view()).len() + 1) as u32).len()
                == 4);
            assert(final(out)@ =~= old(out)@ + spec_enc_pascal_string_null(self.deep_view()));
        }
        Ok(())
    }

    /// Decodes one NUL-terminated length-prefixed string at `pos`: reads
    /// the count, takes that many bytes and strips the final byte before
    /// interpreting the text. A zero count is malformed.
    pub fn decode(data: &[u8], pos: usize) -> (r: Option<(Self, usize)>)
        requires
            pos <= data@.len(),
        ensures
            (r matches Some((v, n)) ==> n >= 5 && pos + n <= data@.len() && data@.subrange(
                pos as int,
                pos + 4,
            ) == spec_u32_to_le_bytes((n - 4) as u32) && v.deep_view() == lossy_utf8(
                data@.subrange(pos + 4, pos + n - 1),
            )),
            forall|m: Seq<char>|
                #![trigger spec_enc_pascal_string_null(m)]
                (pascal_string_null_wf(m) && pos + spec_enc_pascal_string_null(m).len()
                    <= data@.len() && spec_enc_pascal_string_null(m) == data@.subrange(
                    pos as int,
                    pos + spec_enc_pascal_string_null(m).len(),
                )) ==> (r matches Some((v, n)) && v.deep_view() == m && n
                    == spec_enc_pascal_string_null(m).len()),
    {
        let dlen: usize = data.len();
        proof {
            vstd::bytes::lemma_auto_spec_u32_to_from_le_bytes();
            assert forall|m: Seq<char>|
                #![trigger spec_enc_pascal_string_null(m)]
                (pascal_string_null_wf(m) && pos + spec_enc_pascal_string_null(m).len()
                    <= data@.len() && spec_enc_pascal_string_null(m) == data@.subrange(
                    pos as int,
                    pos + spec_enc_pascal_string_null(m).len(),
                )) implies (spec_enc_pascal_string_null(m).len() == 4 + encode_utf8(m).len() + 1
                && data@.subrange(pos as int, pos + 4) == spec_u32_to_le_bytes(
                (encode_utf8(m).len() + 1) as u32,
            ) && encode_utf8(m) == data@.subrange(pos + 4, pos + 4 + encode_utf8(m).len())) by {
                let cb = spec_u32_to_le_bytes((encode_utf8(m).len() + 1) as u32);
                assert(cb.len() == 4);
                assert(spec_enc_pascal_string_null(m) =~= cb + (encode_utf8(m) + seq![0u8]));
                lemma_concat_split(data@, pos as int, cb, encode_utf8(m) + seq![0u8]);
                lemma_concat_split(data@, pos + 4, encode_utf8(m), seq![0u8]);
            }
        }
        if dlen - pos < 4 {
            return None;
        }
        let count = read_u32_le(data, pos);
        if count == 0 {
            return None;
        }
        let n = count as usize;
        if dlen - (pos + 4) < n {
            return None;
        }
        let text = from_utf8_lossy(&data[pos + 4..pos + 4 + n - 1]);
        proof {
            assert forall|m: Seq<char>|
                #![trigger spec_enc_pascal_string_null(m)]
                (pascal_string_null_wf(m) && pos + spec_enc_pascal_string_null(m).len()
                    <= data@.len() && spec_enc_pascal_string_null(m) == data@.subrange(
                    pos as int,
                    pos + spec_enc_pascal_string_null(m).len(),
                )) implies text@ == m && n == encode_utf8(m).len() + 1 by {
                assert(spec_u32_from_le_bytes(data@.subrange(pos as int, pos + 4))
                    == (encode_utf8(m).len() + 1) as u32);
                assert(n == encode_utf8(m).len() + 1);
                assert(data@.subrange(pos + 4, pos + 4 + n - 1) == encode_utf8(m));
                encode_utf8_valid_utf8(m);
                encode_utf8_decode_utf8(m);
            }
        }
        Some((PascalStringNULL { data: text }, 4 + n))
    }
}

} // verus!

verus! {

/// The text fits a width-`w` field: strictly shorter than the width (so
/// the terminator fits) and free of zero bytes (so decode stops at the
/// padding, not inside the text).
pub open spec fn fixed_string_wf(m: Seq<char>, w: int) -> bool {
    &&& encode_utf8(m).len() < w
    &&& forall|i: int| 0 <= i < encode_utf8(m).len() ==> encode_utf8(m)[i] != 0
}

/// Binary form of a fixed-width NUL-terminated string: the text followed
/// by zero padding up to exactly `w` bytes.
pub open spec fn spec_enc_fixed_string(m: Seq<char>, w: int) -> Seq<u8>
    recommends
        encode_utf8(m).len() <= w,
{
    encode_utf8(m) + Seq::new((w - encode_utf8(m).len()) as nat, |i: int| 0u8)
}

/// Fixed-width NUL-terminated string: exactly `U` bytes on the wire; the
/// logical text is the prefix before the first zero byte.
#[derive(Debug, PartialEq)]
pub struct FixedStringNULL<const U: usize> {
    pub data: String,
}

impl<const U: usize> DeepView for FixedStringNULL<U> {
    type V = Seq<char>;

    open spec fn deep_view(&self) -> Seq<char> {
        self.data.deep_view()
    }
}

impl<const U: usize> FixedStringNULL<U> {
    /// Appends the text and zero padding, exactly `U` bytes in all;
    /// fails only when the text is longer than the field.
    pub fn encode(&self, out: &mut Vec<u8>) -> (r: Result<(), WalleError>)
        ensures
            r is Ok <==> encode_utf8(self.deep_view()).len() <= U,
            r is Ok ==> final(out)@ == old(out)@ + spec_enc_fixed_string(
                self.deep_view(),
                U as int,
            ),
            r is Ok ==> final(out)@.len() == old(out)@.len() + U,
            r is Err ==> final(out)@ == old(out)@ && r == Err::<(), _>(
                WalleError::MalformedDocument,
            ),
    {
        let bytes_len: usize = self.data.as_str().as_bytes().len();
        if bytes_len > U {
            return Err(WalleError::MalformedDocument);
        }
        write_str_bytes(self.data.as_str(), out);
        let ghost mid = out@;
        let pad: usize = U - bytes_len;
        let mut k: usize = 0;
        while k < pad
            invariant
                k <= pad,
                out@ == mid + Seq::new(k as nat, |i: int| 0u8),
            decreases pad - k,
        {
            out.push(0u8);
            proof {
                assert(mid + Seq::new(k as nat, |i: int| 0u8) + seq![0u8] =~= mid + Seq::new(
                    (k + 1) as nat,
                    |i: int| 0u8,
                ));
            }
            k = k + 1;
        }
        proof {
            assert(final(out)@ =~= old(out)@ + spec_enc_fixed_string(self.deep_view(), U as int));
        }
        Ok(())
    }

    /// Decodes a width-`U` field at `pos`: consumes exactly `U` bytes
    /// and yields the text before the first zero byte; fails when no
    /// zero byte occurs within the field.
    pub fn decode(data: &[u8], pos: usize) -> (r: Option<(Self, usize)>)
        requires
            pos <= data@.len(),
        ensures
            (r matches Some((v, n)) ==> n == U && pos + U <= data@.len() && exists|k: int|
                0 <= k < U && #[trigger] data@[pos + k] == 0 && (forall|j: int|
                    0 <= j < k ==> #[trigger] data@[pos + j] != 0) && v.deep_view() == lossy_utf8(
                    data@.subrange(pos as int, pos + k),
                )),
            (pos + U <= data@.len() && (exists|k: int| 0 <= k < U && #[trigger] data@[pos + k] == 0))
                ==> r is Some,
            forall|m: Seq<char>|
                #![trigger spec_enc_fixed_string(m, U as int)]
                (fixed_string_wf(m, U as int) && pos + U <= data@.len() && spec_enc_fixed_string(
                    m,
                    U as int,
                ) == data@.subrange(pos as int, pos + U)) ==> (r matches Some((v, n))
                    && v.deep_view() == m && n == U),
    {
        let dlen: usize = data.len();
        if dlen - pos < U {
            return None;
        }
        let mut k: usize = 0;
        while k < U && data[pos + k] != 0
            invariant
                data@.len() == dlen,
                pos + U <= data@.len(),
                k <= U,
                forall|j: int| 0 <= j < k ==> #[trigger] data@[pos + j] != 0,
            decreases U - k,
        {
            k = k + 1;
        }
        if k == U {
            proof {
                assert forall|m: Seq<char>|
                    #![trigger spec_enc_fixed_string(m, U as int)]
                    !(fixed_string_wf(m, U as int) && pos + U <= data@.len()
                        && spec_enc_fixed_string(m, U as int) == data@.subrange(
                        pos as int,
                        pos + U,
                    )) by {
                    if fixed_string_wf(m, U as int) && spec_enc_fixed_string(m, U as int)
                        == data@.subrange(pos as int, pos + U) {
                        let l = encode_utf8(m).len() as int;
                        assert(spec_enc_fixed_string(m, U as int)[l] == 0);
                        assert(data@[pos + l] == data@.subrange(pos as int, pos + U)[l]);
                    }
                }
            }
            return None;
        }
        let text = from_utf8_lossy(&data[pos..pos + k]);
        proof {
            assert forall|m: Seq<char>|
                #![trigger spec_enc_fixed_string(m, U as int)]
                (fixed_string_wf(m, U as int) && pos + U <= data@.len() && spec_enc_fixed_string(
                    m,
                    U as int,
                ) == data@.subrange(pos as int, pos + U)) implies text@ == m by {
                let w = data@.subrange(pos as int, pos + U);
                let l = encode_utf8(m).len() as int;
                assert(w[l] == 0);
                assert(data@[pos + l] == w[l]);
                assert(k <= l);
                if k < l {
                    assert(w[k as int] == encode_utf8(m)[k as int]);
                    assert(encode_utf8(m)[k as int] != 0);
                    assert(data@[pos + k] == w[k as int]);
                }
                assert(k == l);
                assert forall|j: int| 0 <= j < l implies data@.subrange(pos as int, pos + k)[j]
                    == encode_utf8(m)[j] by {
                    assert(w[j] == encode_utf8(m)[j]);
                    assert(data@.subrange(pos as int, pos + k)[j] == data@[pos + j]);
                    assert(w[j] == data@[pos + j]);
                }
                assert(data@.subrange(pos as int, pos + k) =~= encode_utf8(m));
                encode_utf8_valid_utf8(m);
                encode_utf8_decode_utf8(m);
            }
        }
        Some((FixedStringNULL { data: text }, U))
    }
}

} // verus!
