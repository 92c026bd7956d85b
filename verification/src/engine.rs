//! Generic object pack/unpack engine.
//!
//! One transaction pairs a header type and a body type, each an exact
//! binary codec and a link reporter, and moves the pair between its two
//! byte buffers and its typed form. Any pair of [`ObjectCodec`] +
//! [`HasReferences`] types plugs in unchanged; the interchange-document
//! step around these calls is plain serialization performed by the
//! caller.

use crate::objects::{HasReferences, ObjectCodec};
use crate::{ObjectHalf, WalleError};
use core::marker::PhantomData;
use vstd::prelude::*;

verus! {

/// The shared pack/unpack shape over one header type and one body type.
pub struct WALLEObjectFormat<T, U> {
    x: PhantomData<T>,
    y: PhantomData<U>,
}

impl<T: ObjectCodec + HasReferences, U: ObjectCodec + HasReferences> WALLEObjectFormat<T, U> {
    pub fn new() -> Self {
        WALLEObjectFormat { x: PhantomData, y: PhantomData }
    }

    /// Packs one typed object: appends the header's and the body's
    /// binary forms to their separate buffers and unions the link
    /// reports, header's links before body's, hard and soft kept apart,
    /// never sorted or deduplicated. Fails, touching nothing, exactly
    /// when a half is not well formed.
    pub fn pack(&self, header_val: &T, body_val: &U, header: &mut Vec<u8>, body: &mut Vec<u8>) -> (r:
        Result<(Vec<u32>, Vec<u32>), WalleError>)
        ensures
            r is Ok <==> (T::spec_wf(header_val.deep_view()) && U::spec_wf(body_val.deep_view())),
            (r matches Ok(links) ==> {
                &&& final(header)@ == old(header)@ + T::spec_enc(header_val.deep_view())
                &&& final(body)@ == old(body)@ + U::spec_enc(body_val.deep_view())
                &&& links.0@ == header_val.spec_hard_links() + body_val.spec_hard_links()
                &&& links.1@ == header_val.spec_soft_links() + body_val.spec_soft_links()
            }),
            r is Err ==> final(header)@ == old(header)@ && final(body)@ == old(body)@ && r == Err::<
                (Vec<u32>, Vec<u32>),
                _,
            >(WalleError::MalformedDocument),
    {
        if !header_val.wf() {
            return Err(WalleError::MalformedDocument);
        }
        if !body_val.wf() {
            return Err(WalleError::MalformedDocument);
        }
        header_val.encode(header);
        body_val.encode(body);
        let mut hard = header_val.hard_links();
        let mut hard_body = body_val.hard_links();
        hard.append(&mut hard_body);
        let mut soft = header_val.soft_links();
        let mut soft_body = body_val.soft_links();
        soft.append(&mut soft_body);
        Ok((hard, soft))
    }

    /// Unpacks one object: decodes header and body, each of which must
    /// match its byte slice exactly, and unions the link reports as
    /// `pack` does. The second `ensures` clause is the round-trip law:
    /// the buffers `pack` wrote decode back to precisely the packed
    /// values, so the links are identical on both passes. A failure
    /// names the half that did not match its grammar.
    pub fn unpack(&self, header: &[u8], body: &[u8]) -> (r: Result<
        (T, U, Vec<u32>, Vec<u32>),
        WalleError,
    >)
        ensures
            (r matches Ok(o) ==> {
                &&& T::spec_wf(o.0.deep_view()) && T::spec_enc(o.0.deep_view()) == header@
                &&& U::spec_wf(o.1.deep_view()) && U::spec_enc(o.1.deep_view()) == body@
                &&& o.2@ == o.0.spec_hard_links() + o.1.spec_hard_links()
                &&& o.3@ == o.0.spec_soft_links() + o.1.spec_soft_links()
            }),
            forall|mh: T::V, mb: U::V|
                #![trigger T::spec_enc(mh), U::spec_enc(mb)]
                (T::spec_wf(mh) && T::spec_enc(mh) == header@ && U::spec_wf(mb) && U::spec_enc(mb)
                    == body@) ==> (r matches Ok(o) && o.0.deep_view() == mh && o.1.deep_view()
                    == mb),
            (!(exists|mh: T::V| T::spec_wf(mh) && #[trigger] T::spec_enc(mh) == header@)) ==> r
                == Err::<(T, U, Vec<u32>, Vec<u32>), _>(
                WalleError::MalformedBinary(ObjectHalf::Header),
            ),
            ((exists|mh: T::V| T::spec_wf(mh) && #[trigger] T::spec_enc(mh) == header@) && !(exists|
                mb: U::V,
            |
                U::spec_wf(mb) && #[trigger] U::spec_enc(mb) == body@)) ==> r == Err::<
                (T, U, Vec<u32>, Vec<u32>),
                _,
            >(WalleError::MalformedBinary(ObjectHalf::Body)),
    {
        let header_val = match T::decode_exact(header) {
            Some(h) => h,
            None => {
                return Err(WalleError::MalformedBinary(ObjectHalf::Header));
            },
        };
        let body_val = match U::decode_exact(body) {
            Some(b) => b,
            None => {
                return Err(WalleError::MalformedBinary(ObjectHalf::Body));
            },
        };
        let mut hard = header_val.hard_links();
        let mut hard_body = body_val.hard_links();
        hard.append(&mut hard_body);
        let mut soft = header_val.soft_links();
        let mut soft_body = body_val.soft_links();
        soft.append(&mut soft_body);
        Ok((header_val, body_val, hard, soft))
    }
}

} // verus!
