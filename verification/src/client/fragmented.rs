//! Read Tag Fragmented (0x52): the state of a read that a controller
//! answers in pieces, and what each reply does to it.
use vstd::prelude::*;
use crate::cip::builder::spec_extended_status;
use crate::cip::{decode_extended_status, CipError};
use crate::le::{get_u16, le16, lemma_le16_at, push_all, u16_bytes};

verus! {

/// The most fragments one read may take, so that a controller that keeps
/// answering "more data" cannot hold the client forever.
pub const MAX_FRAGMENTS: usize = 4096;

/// A fragmented read in progress.
pub struct FragmentedReadState {
    /// The data received so far, fragment after fragment.
    pub data: Vec<u8>,
    /// The byte offset that the next request asks for.
    pub offset: u32,
    /// The type code, taken from the first fragment.
    pub type_id: u16,
    /// How many fragments were requested.
    pub fragments: usize,
}

/// A general CIP failure with `status` and no extended status.
pub open spec fn is_plain_failure(e: CipError, status: u8) -> bool {
    e matches CipError::General { status: s, extended } && s == status && extended@.len() == 0
}

/// Where the data of a reply starts: after the header and the extended
/// status words.
pub open spec fn fragment_data_start(res: Seq<u8>) -> int {
    4 + 2 * res[3]
}

/// The data that a fragment adds: all of it after the header, but for the
/// type code at the front of the first fragment.
pub open spec fn fragment_payload(res: Seq<u8>, first: bool) -> Seq<u8> {
    let p = res.subrange(fragment_data_start(res), res.len() as int);
    if first {
        p.subrange(2, p.len() as int)
    } else {
        p
    }
}

impl FragmentedReadState {
    /// A read that has not started.
    pub fn new() -> (s: Self)
        ensures
            s.data@.len() == 0,
            s.offset == 0,
            s.type_id == 0,
            s.fragments == 0,
    {
        FragmentedReadState { data: Vec::new(), offset: 0, type_id: 0, fragments: 0 }
    }

    /// Counts the next fragment and gives the offset to request; fails with
    /// general status 0xFF once more than `MAX_FRAGMENTS` fragments would
    /// be needed.
    pub fn next_offset(&mut self) -> (r: Result<u32, CipError>)
        requires
            old(self).fragments <= MAX_FRAGMENTS,
        ensures
            final(self).fragments == old(self).fragments + 1,
            final(self).data@ == old(self).data@,
            final(self).offset == old(self).offset,
            final(self).type_id == old(self).type_id,
            old(self).fragments < MAX_FRAGMENTS ==> r == Ok::<u32, CipError>(old(self).offset),
            old(self).fragments == MAX_FRAGMENTS ==> (r matches Err(e) && is_plain_failure(e, 0xFF)),
    {
        self.fragments = self.fragments + 1;
        if self.fragments > MAX_FRAGMENTS {
            return Err(CipError::General { status: 0xFF, extended: Vec::new() });
        }
        Ok(self.offset)
    }

    /// Takes the reply to the fragment at the current offset. `Ok(true)`:
    /// the read is complete; `Ok(false)`: more data follows (status 0x06)
    /// and the next request asks from the end of the data received.
    pub fn accept_fragment(&mut self, res: &[u8]) -> (r: Result<bool, CipError>)
        ensures
            final(self).fragments == old(self).fragments,
            res@.len() < 4 ==> (r matches Err(e) && is_plain_failure(e, 0xFE)),
            res@.len() >= 4 && res@.len() < fragment_data_start(res@) ==> (r matches Err(e)
                && is_plain_failure(e, 0xFD)),
            res@.len() >= 4 && res@.len() >= fragment_data_start(res@) && old(self).offset == 0 && res@.len()
                < fragment_data_start(res@) + 2 ==> (r matches Err(e) && is_plain_failure(e, 0xFC)),
            res@.len() >= 4 && res@.len() >= fragment_data_start(res@) + (if old(self).offset == 0 {
                2int
            } else {
                0int
            }) ==> {
                let first = old(self).offset == 0;
                let data = old(self).data@ + fragment_payload(res@, first);
                &&& final(self).data@ == data
                &&& final(self).type_id == (if first {
                    le16(res@, fragment_data_start(res@))
                } else {
                    old(self).type_id as int
                })
                &&& res@[2] == 0 ==> r == Ok::<bool, CipError>(true) && final(self).offset == old(
                    self,
                ).offset
                &&& res@[2] == 6 && data.len() % 0x1_0000_0000 == old(self).offset ==> (r matches Err(e)
                    && is_plain_failure(e, 0x06))
                &&& res@[2] == 6 && data.len() % 0x1_0000_0000 != old(self).offset ==> r == Ok::<
                    bool,
                    CipError,
                >(false) && final(self).offset == data.len() % 0x1_0000_0000
                &&& res@[2] != 0 && res@[2] != 6 ==> (r matches Err(CipError::General { status, extended })
                    && status == res@[2] && extended@ == spec_extended_status(
                    res@.subrange(0, fragment_data_start(res@)),
                ))
            },
    {
        if res.len() < 4 {
            return Err(CipError::General { status: 0xFE, extended: Vec::new() });
        }
        let general_status = res[2];
        let ext_words = res[3] as usize;
        let data_start = 4 + (ext_words * 2);
        if res.len() < data_start {
            return Err(CipError::General { status: 0xFD, extended: Vec::new() });
        }
        let mut payload = &res[data_start..res.len()];
        if self.offset == 0 {
            if payload.len() < 2 {
                return Err(CipError::General { status: 0xFC, extended: Vec::new() });
            }
            self.type_id = get_u16(payload, 0);
            payload = &payload[2..payload.len()];
        }
        push_all(&mut self.data, payload);
        if general_status == 0x00 {
            Ok(true)
        } else if general_status == 0x06 {
            let new_offset = (self.data.len() as u64 % 0x1_0000_0000) as u32;
            if new_offset == self.offset {
                return Err(CipError::General { status: 0x06, extended: Vec::new() });
            }
            self.offset = new_offset;
            Ok(false)
        } else {
            let extended = decode_extended_status(&res[0..data_start]);
            Err(CipError::General { status: general_status, extended })
        }
    }
}

/// A fragment reply laid out as a controller sends it (reply service,
/// reserved byte, general status, the number of extended status words and
/// those words, then, in the first fragment, the type code, then the data)
/// adds exactly its data, and the first fragment's type code is read where
/// the data starts.
pub proof fn lemma_fragment_layout(
    svc: u8,
    reserved: u8,
    status: u8,
    ext: Seq<u8>,
    typ: u16,
    data: Seq<u8>,
    first: bool,
)
    requires
        ext.len() % 2 == 0,
        ext.len() < 512,
    ensures
        ({
            let res = seq![svc, reserved, status, (ext.len() / 2) as u8] + ext + (if first {
                u16_bytes(typ as int)
            } else {
                Seq::<u8>::empty()
            }) + data;
            &&& fragment_data_start(res) == 4 + ext.len()
            &&& fragment_payload(res, first) == data
            &&& first ==> le16(res, 4 + ext.len() as int) == typ
        }),
{
    let head = if first {
        u16_bytes(typ as int)
    } else {
        Seq::<u8>::empty()
    };
    let res = seq![svc, reserved, status, (ext.len() / 2) as u8] + ext + head + data;
    let start = 4 + ext.len() as int;
    assert(res[3] == ext.len() / 2);
    let p = res.subrange(start, res.len() as int);
    assert(p =~= head + data);
    if first {
        assert(p.subrange(2, p.len() as int) =~= data);
        assert(res.subrange(start, start + 2) =~= u16_bytes(typ as int));
        lemma_le16_at(res, start, typ as int);
    }
}

} // verus!
