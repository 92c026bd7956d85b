//! The generic field-codec layer.
//!
//! A [`FieldCodec`] type has a logical form (its deep view) and a binary
//! form ([`FieldCodec::spec_enc`]). `encode` appends exactly the binary
//! form; `decode` consumes a prefix of the input and is exact: it returns
//! a value if and only if the input carries the encoding of some
//! well-formed logical value, and then it returns that value. The second
//! `ensures` clause of `decode` is the round-trip law: decoding the bytes
//! `encode` produced yields the value that was encoded.

use crate::wire::{
    lemma_concat_split, read_u16_le, read_u32_le, read_u8, spec_i32_from_le_bytes,
    spec_i32_to_le_bytes, write_i32_le, write_u16_le, write_u32_le, write_u8,
};
use vstd::bytes::{
    spec_u16_from_le_bytes, spec_u16_to_le_bytes, spec_u32_from_le_bytes, spec_u32_to_le_bytes,
};
use vstd::prelude::*;

verus! {

/// A type with a logical form and an exactly specified binary form.
pub trait FieldCodec: Sized + DeepView {
    /// Which logical values the codec accepts for encoding.
    spec fn spec_wf(m: Self::V) -> bool;

    /// The binary form of a logical value.
    spec fn spec_enc(m: Self::V) -> Seq<u8>;

    /// Appends the binary form of `self` to `out`.
    fn encode(&self, out: &mut Vec<u8>)
        requires
            Self::spec_wf(self.deep_view()),
        ensures
            final(out)@ == old(out)@ + Self::spec_enc(self.deep_view()),
    ;

    /// Decodes one value from `data` starting at `pos`, returning the
    /// value and the number of bytes consumed.
    fn decode(data: &[u8], pos: usize) -> (r: Option<(Self, usize)>)
        requires
            pos <= data@.len(),
        ensures
            (r matches Some((v, n)) ==> Self::spec_wf(v.deep_view()) && pos + n <= data@.len()
                && Self::spec_enc(v.deep_view()) == data@.subrange(pos as int, pos + n)),
            forall|m: Self::V|
                #![trigger Self::spec_enc(m)]
                (Self::spec_wf(m) && pos + Self::spec_enc(m).len() <= data@.len()
                    && Self::spec_enc(m) == data@.subrange(
                    pos as int,
                    pos + Self::spec_enc(m).len(),
                )) ==> (r matches Some((v, n)) && v.deep_view() == m && n == Self::spec_enc(
                    m,
                ).len()),
    ;
}

impl FieldCodec for u8 {
    open spec fn spec_wf(m: u8) -> bool {
        true
    }

    open spec fn spec_enc(m: u8) -> Seq<u8> {
        seq![m]
    }

    fn encode(&self, out: &mut Vec<u8>) {
        write_u8(*self, out);
    }

    fn decode(data: &[u8], pos: usize) -> (r: Option<(Self, usize)>) {
        let n: usize = data.len();
        if pos < n {
            let b = read_u8(data, pos);
            proof {
                assert forall|m: u8|
                    #![trigger Self::spec_enc(m)]
                    (pos + 1 <= data@.len() && Self::spec_enc(m) == data@.subrange(
                        pos as int,
                        pos + 1,
                    )) implies m == b by {
                    assert(Self::spec_enc(m)[0] == data@.subrange(pos as int, pos + 1)[0]);
                }
                assert(Self::spec_enc(b) =~= data@.subrange(pos as int, pos + 1));
            }
            Some((b, 1))
        } else {
            None
        }
    }
}

impl FieldCodec for u16 {
    open spec fn spec_wf(m: u16) -> bool {
        true
    }

    open spec fn spec_enc(m: u16) -> Seq<u8> {
        spec_u16_to_le_bytes(m)
    }

    fn encode(&self, out: &mut Vec<u8>) {
        write_u16_le(*self, out);
    }

    fn decode(data: &[u8], pos: usize) -> (r: Option<(Self, usize)>) {
        let n: usize = data.len();
        if n - pos >= 2 {
            let v = read_u16_le(data, pos);
            proof {
                vstd::bytes::lemma_auto_spec_u16_to_from_le_bytes();
            }
            Some((v, 2))
        } else {
            proof {
                vstd::bytes::lemma_auto_spec_u16_to_from_le_bytes();
            }
            None
        }
    }
}

impl FieldCodec for u32 {
    open spec fn spec_wf(m: u32) -> bool {
        true
    }

    open spec fn spec_enc(m: u32) -> Seq<u8> {
        spec_u32_to_le_bytes(m)
    }

    fn encode(&self, out: &mut Vec<u8>) {
        write_u32_le(*self, out);
    }

    fn decode(data: &[u8], pos: usize) -> (r: Option<(Self, usize)>) {
        let n: usize = data.len();
        if n - pos >= 4 {
            let v = read_u32_le(data, pos);
            proof {
                vstd::bytes::lemma_auto_spec_u32_to_from_le_bytes();
            }
            Some((v, 4))
        } else {
            proof {
                vstd::bytes::lemma_auto_spec_u32_to_from_le_bytes();
            }
            None
        }
    }
}

impl FieldCodec for i32 {
    open spec fn spec_wf(m: i32) -> bool {
        true
    }

    open spec fn spec_enc(m: i32) -> Seq<u8> {
        spec_i32_to_le_bytes(m)
    }

    fn encode(&self, out: &mut Vec<u8>) {
        write_i32_le(*self, out);
    }

    fn decode(data: &[u8], pos: usize) -> (r: Option<(Self, usize)>) {
        let n: usize = data.len();
        if n - pos >= 4 {
            let v = crate::wire::read_i32_le(data, pos);
            proof {
                crate::wire::lemma_i32_le_bytes_round_trip();
            }
            Some((v, 4))
        } else {
            proof {
                crate::wire::lemma_i32_le_bytes_round_trip();
            }
            None
        }
    }
}

/// Every element of a logical sequence is well formed.
pub open spec fn seq_wf<T: FieldCodec>(m: Seq<T::V>) -> bool {
    forall|i: int| 0 <= i < m.len() ==> T::spec_wf(#[trigger] m[i])
}

/// The concatenation of the binary forms of a logical sequence.
pub open spec fn seq_enc<T: FieldCodec>(m: Seq<T::V>) -> Seq<u8>
    decreases m.len(),
{
    if m.len() == 0 {
        Seq::empty()
    } else {
        T::spec_enc(m[0]) + seq_enc::<T>(m.drop_first())
    }
}

pub proof fn lemma_seq_enc_push<T: FieldCodec>(m: Seq<T::V>, x: T::V)
    ensures
        seq_enc::<T>(m.push(x)) == seq_enc::<T>(m) + T::spec_enc(x),
    decreases m.len(),
{
    if m.len() == 0 {
        assert(m.push(x).drop_first() =~= Seq::<T::V>::empty());
        assert(m.push(x)[0] == x);
        assert(seq_enc::<T>(Seq::<T::V>::empty()) =~= Seq::<u8>::empty());
        assert(T::spec_enc(x) + Seq::<u8>::empty() =~= T::spec_enc(x));
        assert(seq_enc::<T>(m) + T::spec_enc(x) =~= T::spec_enc(x));
    } else {
        assert(m.push(x)[0] == m[0]);
        assert(m.push(x).drop_first() =~= m.drop_first().push(x));
        lemma_seq_enc_push::<T>(m.drop_first(), x);
        assert(seq_enc::<T>(m.push(x)) == T::spec_enc(m[0]) + (seq_enc::<T>(m.drop_first())
            + T::spec_enc(x)));
        assert(T::spec_enc(m[0]) + (seq_enc::<T>(m.drop_first()) + T::spec_enc(x)) =~= (T::spec_enc(
            m[0],
        ) + seq_enc::<T>(m.drop_first())) + T::spec_enc(x));
    }
}

pub proof fn lemma_seq_enc_take_succ<T: FieldCodec>(m: Seq<T::V>, i: int)
    requires
        0 <= i < m.len(),
    ensures
        seq_enc::<T>(m.take(i + 1)) == seq_enc::<T>(m.take(i)) + T::spec_enc(m[i]),
{
    assert(m.take(i + 1) =~= m.take(i).push(m[i]));
    lemma_seq_enc_push::<T>(m.take(i), m[i]);
}

/// The binary form of a prefix, extended by the rest, is the binary form
/// of the whole sequence.
pub proof fn lemma_seq_enc_take_prefix<T: FieldCodec>(m: Seq<T::V>, i: int)
    requires
        0 <= i <= m.len(),
    ensures
        seq_enc::<T>(m) == seq_enc::<T>(m.take(i)) + seq_enc::<T>(m.skip(i)),
    decreases m.len() - i,
{
    if i == m.len() {
        assert(m.take(i) =~= m);
        assert(m.skip(i) =~= Seq::<T::V>::empty());
        assert(seq_enc::<T>(m) + seq_enc::<T>(m.skip(i)) =~= seq_enc::<T>(m));
    } else {
        lemma_seq_enc_take_prefix::<T>(m, i + 1);
        lemma_seq_enc_take_succ::<T>(m, i);
        assert(m.skip(i).drop_first() =~= m.skip(i + 1));
        assert(m.skip(i)[0] == m[i]);
        assert(seq_enc::<T>(m.skip(i)) == T::spec_enc(m[i]) + seq_enc::<T>(m.skip(i + 1)));
        assert((seq_enc::<T>(m.take(i)) + T::spec_enc(m[i])) + seq_enc::<T>(m.skip(i + 1))
            =~= seq_enc::<T>(m.take(i)) + (T::spec_enc(m[i]) + seq_enc::<T>(m.skip(i + 1))));
    }
}

/// Appends the binary forms of all elements of `v`, in order.
pub fn encode_elems<T: FieldCodec>(v: &Vec<T>, out: &mut Vec<u8>)
    requires
        seq_wf::<T>(v.deep_view()),
    ensures
        final(out)@ == old(out)@ + seq_enc::<T>(v.deep_view()),
{
    let ghost dv = v.deep_view();
    let mut i: usize = 0;
    while i < v.len()
        invariant
            i <= v@.len(),
            dv == v.deep_view(),
            dv.len() == v@.len(),
            seq_wf::<T>(dv),
            out@ == old(out)@ + seq_enc::<T>(dv.take(i as int)),
        decreases v@.len() - i,
    {
        proof {
            assert(dv[i as int] == v@[i as int].deep_view());
            assert(T::spec_wf(v@[i as int].deep_view()));
        }
        v[i].encode(out);
        proof {
            lemma_seq_enc_take_succ::<T>(dv, i as int);
            assert(old(out)@ + seq_enc::<T>(dv.take(i as int)) + T::spec_enc(dv[i as int])
                =~= old(out)@ + (seq_enc::<T>(dv.take(i as int)) + T::spec_enc(dv[i as int])));
        }
        i = i + 1;
    }
    proof {
        assert(dv.take(v@.len() as int) =~= dv);
        assert(out@ =~= old(out)@ + seq_enc::<T>(dv));
    }
}

/// Whether a logical sequence of `n` elements is what `data` carries at
/// `pos`: every element well formed and the concatenated binary forms
/// exactly the bytes there.
pub open spec fn elems_at<T: FieldCodec>(m: Seq<T::V>, data: Seq<u8>, pos: int, n: int) -> bool {
    &&& seq_wf::<T>(m)
    &&& m.len() == n
    &&& pos + seq_enc::<T>(m).len() <= data.len()
    &&& seq_enc::<T>(m) == data.subrange(pos, pos + seq_enc::<T>(m).len())
}

/// Decodes exactly `n` consecutive elements starting at `pos`, returning
/// them with the total number of bytes consumed. Exact in both
/// directions: a result is returned if and only if such a sequence is
/// there, and then it is that sequence.
pub fn decode_elems<T: FieldCodec>(data: &[u8], pos: usize, n: usize) -> (r: Option<(Vec<T>, usize)>)
    requires
        pos <= data@.len(),
    ensures
        (r matches Some((v, used)) ==> seq_wf::<T>(v.deep_view()) && v.deep_view().len() == n
            && pos + used <= data@.len() && seq_enc::<T>(v.deep_view()) == data@.subrange(
            pos as int,
            pos + used,
        )),
        forall|m: Seq<T::V>|
            #![trigger seq_enc::<T>(m)]
            elems_at::<T>(m, data@, pos as int, n as int) ==> (r matches Some((v, used))
                && v.deep_view() == m && used == seq_enc::<T>(m).len()),
{
    let dlen: usize = data.len();
    let mut acc: Vec<T> = Vec::new();
    let mut cur: usize = pos;
    let mut i: usize = 0;
    proof {
        assert(acc.deep_view() =~= Seq::<T::V>::empty());
    }
    while i < n
        invariant
            data@.len() == dlen,
            pos <= cur <= data@.len(),
            i <= n,
            acc.deep_view().len() == i,
            seq_wf::<T>(acc.deep_view()),
            seq_enc::<T>(acc.deep_view()) == data@.subrange(pos as int, cur as int),
            forall|m: Seq<T::V>|
                #![trigger seq_enc::<T>(m)]
                elems_at::<T>(m, data@, pos as int, n as int) ==> acc.deep_view() == m.take(
                    i as int,
                ),
        decreases n - i,
    {
        let ghost old_acc = acc.deep_view();
        let step = T::decode(data, cur);
        proof {
            assert forall|m: Seq<T::V>|
                #![trigger seq_enc::<T>(m)]
                elems_at::<T>(m, data@, pos as int, n as int) implies {
                &&& T::spec_wf(m[i as int])
                &&& cur + T::spec_enc(m[i as int]).len() <= data@.len()
                &&& T::spec_enc(m[i as int]) == data@.subrange(
                    cur as int,
                    cur + T::spec_enc(m[i as int]).len(),
                )
            } by {
                assert(old_acc == m.take(i as int));
                assert(seq_enc::<T>(m.take(i as int)).len() == cur - pos);
                lemma_seq_enc_take_prefix::<T>(m, i as int);
                assert(m.skip(i as int)[0] == m[i as int]);
                assert(m.skip(i as int).drop_first() =~= m.skip(i as int + 1));
                assert(seq_enc::<T>(m.skip(i as int)) == T::spec_enc(m[i as int]) + seq_enc::<T>(
                    m.skip(i as int + 1),
                ));
                let la = seq_enc::<T>(m.take(i as int));
                let lb = T::spec_enc(m[i as int]);
                let lc = seq_enc::<T>(m.skip(i as int + 1));
                assert(seq_enc::<T>(m) == la + (lb + lc));
                lemma_concat_split(data@, pos as int, la, lb + lc);
                lemma_concat_split(data@, pos + la.len(), lb, lc);
            }
        }
        match step {
            None => {
                proof {
                    assert forall|m: Seq<T::V>|
                        #![trigger seq_enc::<T>(m)]
                        !elems_at::<T>(m, data@, pos as int, n as int) by {
                        if elems_at::<T>(m, data@, pos as int, n as int) {
                            assert(T::spec_enc(m[i as int]) == data@.subrange(
                                cur as int,
                                cur + T::spec_enc(m[i as int]).len(),
                            ));
                        }
                    }
                }
                return None;
            },
            Some((x, used)) => {
                proof {
                    assert(x.deep_view() == x.deep_view());
                }
                acc.push(x);
                proof {
                    assert(acc.deep_view() =~= old_acc.push(x.deep_view()));
                    lemma_seq_enc_push::<T>(old_acc, x.deep_view());
                    assert(data@.subrange(pos as int, cur as int) + data@.subrange(
                        cur as int,
                        cur + used,
                    ) =~= data@.subrange(pos as int, cur + used));
                    assert forall|m: Seq<T::V>|
                        #![trigger seq_enc::<T>(m)]
                        elems_at::<T>(m, data@, pos as int, n as int) implies acc.deep_view()
                        == m.take(i as int + 1) by {
                        assert(old_acc == m.take(i as int));
                        assert(x.deep_view() == m[i as int]);
                        assert(m.take(i as int + 1) =~= m.take(i as int).push(m[i as int]));
                    }
                }
                cur = cur + used;
                i = i + 1;
            },
        }
    }
    proof {
        assert forall|m: Seq<T::V>|
            #![trigger seq_enc::<T>(m)]
            elems_at::<T>(m, data@, pos as int, n as int) implies acc.deep_view() == m && cur - pos
            == seq_enc::<T>(m).len() by {
            assert(m.take(n as int) =~= m);
            assert(seq_enc::<T>(acc.deep_view()).len() == cur - pos);
        }
    }
    Some((acc, cur - pos))
}

} // verus!

verus! {

/// Fixed-count array codec: the binary form is exactly `U` consecutive
/// element encodings, with no count prefix; the logical form is the bare
/// sequence of `U` elements.
#[derive(Debug, PartialEq)]
pub struct FixedVec<T, const U: usize> {
    pub data: Vec<T>,
}

impl<T: DeepView, const U: usize> DeepView for FixedVec<T, U> {
    type V = Seq<T::V>;

    open spec fn deep_view(&self) -> Seq<T::V> {
        self.data.deep_view()
    }
}

impl<T: FieldCodec, const U: usize> FixedVec<T, U> {
    /// Accepts a logical sequence of exactly `U` elements and rejects
    /// every other length.
    pub fn new(data: Vec<T>) -> (r: Result<Self, crate::WalleError>)
        ensures
            r is Ok <==> data.deep_view().len() == U,
            r matches Ok(v) ==> v.deep_view() == data.deep_view(),
            r is Err ==> r == Err::<Self, _>(crate::WalleError::MalformedDocument),
    {
        if data.len() == U {
            Ok(FixedVec { data })
        } else {
            Err(crate::WalleError::MalformedDocument)
        }
    }
}

impl<T: FieldCodec, const U: usize> FieldCodec for FixedVec<T, U> {
    open spec fn spec_wf(m: Seq<T::V>) -> bool {
        m.len() == U && seq_wf::<T>(m)
    }

    open spec fn spec_enc(m: Seq<T::V>) -> Seq<u8> {
        seq_enc::<T>(m)
    }

    fn encode(&self, out: &mut Vec<u8>) {
        encode_elems::<T>(&self.data, out);
    }

    fn decode(data: &[u8], pos: usize) -> (r: Option<(Self, usize)>) {
        match decode_elems::<T>(data, pos, U) {
            None => None,
            Some((v, used)) => Some((FixedVec { data: v }, used)),
        }
    }
}

/// Length-prefixed array codec: a 4-byte little-endian count followed by
/// that many element encodings; the logical form omits the count.
#[derive(Debug, PartialEq)]
pub struct PascalArray<T> {
    pub data: Vec<T>,
}

impl<T: DeepView> DeepView for PascalArray<T> {
    type V = Seq<T::V>;

    open spec fn deep_view(&self) -> Seq<T::V> {
        self.data.deep_view()
    }
}

impl<T> PascalArray<T> {
    pub fn len(self: &Self) -> (r: usize)
        ensures
            r == self@.len(),
    {
        self.data.len()
    }
}

impl<T> View for PascalArray<T> {
    type V = Seq<T>;

    open spec fn view(&self) -> Seq<T> {
        self.data@
    }
}

impl<T: FieldCodec> FieldCodec for PascalArray<T> {
    open spec fn spec_wf(m: Seq<T::V>) -> bool {
        m.len() <= u32::MAX && seq_wf::<T>(m)
    }

    open spec fn spec_enc(m: Seq<T::V>) -> Seq<u8> {
        spec_u32_to_le_bytes(m.len() as u32) + seq_enc::<T>(m)
    }

    fn encode(&self, out: &mut Vec<u8>) {
        write_u32_le(self.data.len() as u32, out);
        encode_elems::<T>(&self.data, out);
        proof {
            assert(final(out)@ =~= old(out)@ + Self::spec_enc(self.deep_view()));
        }
    }

    fn decode(data: &[u8], pos: usize) -> (r: Option<(Self, usize)>) {
        let dlen: usize = data.len();
        proof {
            vstd::bytes::lemma_auto_spec_u32_to_from_le_bytes();
        }
        if dlen - pos < 4 {
            proof {
                assert forall|m: Seq<T::V>|
                    #![trigger Self::spec_enc(m)]
                    Self::spec_enc(m).len() >= 4 by {
                    assert(spec_u32_to_le_bytes(m.len() as u32).len() == 4);
                }
            }
            return None;
        }
        let count = read_u32_le(data, pos);
        let n = count as usize;
        let ghost le = spec_u32_to_le_bytes(count);
        proof {
            assert forall|m: Seq<T::V>|
                #![trigger Self::spec_enc(m)]
                (Self::spec_wf(m) && pos + Self::spec_enc(m).len() <= data@.len()
                    && Self::spec_enc(m) == data@.subrange(
                    pos as int,
                    pos + Self::spec_enc(m).len(),
                )) implies elems_at::<T>(m, data@, pos + 4, n as int) by {
                let cb = spec_u32_to_le_bytes(m.len() as u32);
                assert(cb.len() == 4);
                lemma_concat_split(data@, pos as int, cb, seq_enc::<T>(m));
                assert(cb == data@.subrange(pos as int, pos + 4));
                assert(spec_u32_from_le_bytes(cb) == m.len() as u32);
                assert(count == m.len() as u32);
                assert(m.len() == n);
            }
        }
        match decode_elems::<T>(data, pos + 4, n) {
            None => None,
            Some((v, used)) => {
                proof {
                    assert(n as u32 == count);
                    assert(v.deep_view().len() == n);
                    assert(spec_u32_to_le_bytes(v.deep_view().len() as u32) == data@.subrange(
                        pos as int,
                        pos + 4,
                    ));
                    assert(Self::spec_enc(v.deep_view()) =~= data@.subrange(
                        pos as int,
                        pos + 4 + used,
                    ));
                }
                Some((PascalArray { data: v }, 4 + used))
            },
        }
    }
}

/// Scaled-integer float codec: on the wire it is just the underlying
/// integer; the logical float (raw divided by `U`) exists only in the
/// interchange representation, outside this layer.
#[derive(Debug, PartialEq)]
pub struct NumeratorFloat<T, const U: usize> {
    pub data: T,
}

impl<T: DeepView, const U: usize> DeepView for NumeratorFloat<T, U> {
    type V = T::V;

    open spec fn deep_view(&self) -> T::V {
        self.data.deep_view()
    }
}

impl<T: FieldCodec, const U: usize> FieldCodec for NumeratorFloat<T, U> {
    open spec fn spec_wf(m: T::V) -> bool {
        T::spec_wf(m)
    }

    open spec fn spec_enc(m: T::V) -> Seq<u8> {
        T::spec_enc(m)
    }

    fn encode(&self, out: &mut Vec<u8>) {
        self.data.encode(out);
    }

    fn decode(data: &[u8], pos: usize) -> (r: Option<(Self, usize)>) {
        match T::decode(data, pos) {
            None => None,
            Some((x, used)) => Some((NumeratorFloat { data: x }, used)),
        }
    }
}

/// Byte-quantized normalized float codec: one raw byte on the wire; the
/// logical float in [-1, 1] exists only in the interchange
/// representation, outside this layer.
#[derive(Debug, PartialEq)]
pub struct VertexVectorComponent {
    pub data: u8,
}

impl DeepView for VertexVectorComponent {
    type V = u8;

    open spec fn deep_view(&self) -> u8 {
        self.data
    }
}

impl FieldCodec for VertexVectorComponent {
    open spec fn spec_wf(m: u8) -> bool {
        true
    }

    open spec fn spec_enc(m: u8) -> Seq<u8> {
        seq![m]
    }

    fn encode(&self, out: &mut Vec<u8>) {
        write_u8(self.data, out);
    }

    fn decode(data: &[u8], pos: usize) -> (r: Option<(Self, usize)>) {
        proof {
            assert forall|m: u8| #[trigger]
                Self::spec_enc(m) == <u8 as FieldCodec>::spec_enc(m) by {}
        }
        match <u8 as FieldCodec>::decode(data, pos) {
            None => None,
            Some((x, used)) => Some((VertexVectorComponent { data: x }, used)),
        }
    }
}

} // verus!

verus! {

/// Two-component fixed vector.
pub type Vec2<T> = FixedVec<T, 2>;

/// Three-component fixed vector.
pub type Vec3<T> = FixedVec<T, 3>;

/// Four-component fixed vector.
pub type Vec4<T> = FixedVec<T, 4>;

/// Three 32-bit float components, carried as IEEE-754 bit patterns; the
/// interchange layer outside this crate gives them their float reading.
pub type Vec3f = Vec3<u32>;

/// Four 32-bit float components, carried as IEEE-754 bit patterns.
pub type Vec4f = Vec4<u32>;

/// A quaternion: four float components, carried as bit patterns.
pub type Quat = Vec4f;

/// A 4x4 float matrix: sixteen components, carried as bit patterns.
pub type Mat4f = FixedVec<u32, 16>;

pub proof fn lemma_seq_enc_u32_len(s: Seq<u32>)
    ensures
        seq_enc::<u32>(s).len() == 4 * s.len(),
    decreases s.len(),
{
    vstd::bytes::lemma_auto_spec_u32_to_from_le_bytes();
    if s.len() > 0 {
        assert(spec_u32_to_le_bytes(s[0]).len() == 4);
        lemma_seq_enc_u32_len(s.drop_first());
    }
}

pub proof fn lemma_seq_enc_u8_len(s: Seq<u8>)
    ensures
        seq_enc::<u8>(s).len() == s.len(),
    decreases s.len(),
{
    if s.len() > 0 {
        lemma_seq_enc_u8_len(s.drop_first());
    }
}

} // verus!
