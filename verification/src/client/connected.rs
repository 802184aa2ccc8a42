//! Connected (Class 3) messaging: what a Forward Open or Large Forward Open
//! reply does to the session, when a refused Large Forward Open falls back
//! to Forward Open, and closing the connection.
use vstd::prelude::*;
use crate::cip::builder::{spec_describe_extended_status, spec_extended_status};
use crate::cip::{decode_extended_status, describe_extended_status, ForwardOpenError};
use crate::client::ClientSession;
use crate::le::{get_u32, le32};
use crate::text::{contains_text, hex_digits, push_hex, text_contains, occurs_at};

verus! {

/// The settings of the session are those of `b`.
pub open spec fn same_settings(a: ClientSession, b: ClientSession) -> bool {
    &&& a.session == b.session
    &&& a.slot == b.slot
    &&& a.retries == b.retries
    &&& a.ip == b.ip
    &&& a.connection_params == b.connection_params
}

/// The connection state of the session is that of `b`.
pub open spec fn same_connection(a: ClientSession, b: ClientSession) -> bool {
    &&& a.connection_id == b.connection_id
    &&& a.sequence == b.sequence
    &&& a.connected == b.connected
}

/// A (Large) Forward Open reply holds its header and extended status words
/// and, after them, the O->T connection ID.
pub open spec fn open_reply_complete(res: Seq<u8>) -> bool {
    res.len() >= 4 && res.len() >= 8 + 2 * res[3]
}

/// The O->T connection ID of a complete Forward Open reply.
pub open spec fn opened_connection_id(res: Seq<u8>) -> u32 {
    le32(res, 4 + 2 * res[3]) as u32
}

/// The session after a connection `id` opened: requests go over the
/// connection, numbered from 1.
pub open spec fn opened(a: ClientSession, id: u32) -> bool {
    &&& a.connection_id == Some(id)
    &&& a.sequence == 1
    &&& a.connected
}

impl ClientSession {
    /// Takes the reply of a Forward Open: on success the connection it
    /// grants is opened; a refusal reports the meaning of its extended
    /// status words when there are any, its general status otherwise.
    pub fn accept_forward_open_reply(&mut self, res: &[u8]) -> (r: Result<(), ForwardOpenError>)
        ensures
            same_settings(*final(self), *old(self)),
            r is Ok <==> open_reply_complete(res@) && res@[2] == 0,
            r is Ok ==> opened(*final(self), opened_connection_id(res@)),
            r is Err ==> same_connection(*final(self), *old(self)),
            res@.len() < 4 ==> (r matches Err(ForwardOpenError::Other(m)) && m@
                == "ForwardOpen response too short"@),
            res@.len() >= 4 && !open_reply_complete(res@) ==> (r matches Err(ForwardOpenError::Other(m))
                && m@ == "ForwardOpen response missing connection ID"@),
            open_reply_complete(res@) && res@[2] != 0 && spec_extended_status(res@).len() > 0 ==> (r matches Err(
                ForwardOpenError::Other(m),
            ) && spec_describe_extended_status(spec_extended_status(res@)) == Some(m@)),
            open_reply_complete(res@) && res@[2] != 0 && spec_extended_status(res@).len() == 0 ==> r
                == Err::<(), ForwardOpenError>(ForwardOpenError::GeneralStatus(res@[2])),
    {
        if res.len() < 4 {
            return Err(ForwardOpenError::Other(String::from_str("ForwardOpen response too short")));
        }
        let general = res[2];
        let ext_words = res[3] as usize;
        let ext_bytes = 4 + ext_words * 2;
        if res.len() < ext_bytes + 4 {
            return Err(
                ForwardOpenError::Other(String::from_str("ForwardOpen response missing connection ID")),
            );
        }
        if general != 0 {
            let ext = decode_extended_status(res);
            if ext.len() > 0 {
                if let Some(mapped) = describe_extended_status(ext.as_slice()) {
                    return Err(ForwardOpenError::Other(mapped));
                }
            }
            return Err(ForwardOpenError::GeneralStatus(general));
        }
        let conn_id = get_u32(res, ext_bytes);
        self.connection_id = Some(conn_id);
        self.sequence = 1;
        self.connected = true;
        Ok(())
    }

    /// Takes the reply of a Large Forward Open: on success the connection
    /// it grants is opened; a refusal reports its general status.
    pub fn accept_large_forward_open_reply(&mut self, res: &[u8]) -> (r: Result<(), LargeForwardOpenError>)
        ensures
            same_settings(*final(self), *old(self)),
            r is Ok <==> open_reply_complete(res@) && res@[2] == 0,
            r is Ok ==> opened(*final(self), opened_connection_id(res@)),
            r is Err ==> same_connection(*final(self), *old(self)),
            res@.len() < 4 ==> r == Err::<(), LargeForwardOpenError>(LargeForwardOpenError::TooShort),
            res@.len() >= 4 && !open_reply_complete(res@) ==> r == Err::<(), LargeForwardOpenError>(
                LargeForwardOpenError::MissingConnectionId,
            ),
            open_reply_complete(res@) && res@[2] != 0 ==> r == Err::<(), LargeForwardOpenError>(
                LargeForwardOpenError::Failed(res@[2]),
            ),
    {
        if res.len() < 4 {
            return Err(LargeForwardOpenError::TooShort);
        }
        let general = res[2];
        let ext_words = res[3] as usize;
        let ext_bytes = 4 + ext_words * 2;
        if res.len() < ext_bytes + 4 {
            return Err(LargeForwardOpenError::MissingConnectionId);
        }
        if general != 0 {
            return Err(LargeForwardOpenError::Failed(general));
        }
        let conn_id = get_u32(res, ext_bytes);
        self.connection_id = Some(conn_id);
        self.sequence = 1;
        self.connected = true;
        Ok(())
    }

    /// Forgets the connection: requests go unconnected again.
    pub fn drop_connection(&mut self)
        ensures
            same_settings(*final(self), *old(self)),
            final(self).connection_id is None,
            !final(self).connected,
            final(self).sequence == old(self).sequence,
    {
        self.connection_id = None;
        self.connected = false;
    }
}

/// Why a Large Forward Open failed.
#[derive(Debug, Clone, Copy, PartialEq, Eq)]
pub enum LargeForwardOpenError {
    TooShort,
    MissingConnectionId,
    Failed(u8),
}

pub open spec fn large_forward_open_error_text(e: LargeForwardOpenError) -> Seq<char> {
    match e {
        LargeForwardOpenError::TooShort => "LargeForwardOpen response too short"@,
        LargeForwardOpenError::MissingConnectionId => "LargeForwardOpen response missing connection ID"@,
        LargeForwardOpenError::Failed(g) => "LargeForwardOpen failed: 0x"@ + hex_digits(g as int, 2),
    }
}

impl LargeForwardOpenError {
    pub fn to_string(&self) -> (s: String)
        ensures
            s@ == large_forward_open_error_text(*self),
    {
        match self {
            LargeForwardOpenError::TooShort => String::from_str("LargeForwardOpen response too short"),
            LargeForwardOpenError::MissingConnectionId => String::from_str(
                "LargeForwardOpen response missing connection ID",
            ),
            LargeForwardOpenError::Failed(g) => {
                let mut s = String::from_str("LargeForwardOpen failed: 0x");
                push_hex(&mut s, *g as u64, 2);
                s
            },
        }
    }
}

/// A failed Large Forward Open is retried as a Forward Open when its
/// message names status 0x01, 0x20, 0x26 or 0x05.
pub open spec fn spec_fall_back(msg: Seq<char>) -> bool {
    text_contains(msg, "0x01"@) || text_contains(msg, "0x20"@) || text_contains(msg, "0x26"@)
        || text_contains(msg, "0x05"@)
}

pub fn fall_back_to_forward_open(msg: &str) -> (r: bool)
    ensures
        r == spec_fall_back(msg@),
{
    contains_text(msg, "0x01") || contains_text(msg, "0x20") || contains_text(msg, "0x26")
        || contains_text(msg, "0x05")
}

/// A text without the character '0' holds no pattern that starts with it.
proof fn lemma_absent_first_char(s: Seq<char>, p: Seq<char>)
    requires
        p.len() > 0,
        p[0] == '0',
        forall|i: int| 0 <= i < s.len() ==> s[i] != '0',
    ensures
        !text_contains(s, p),
{
    assert forall|i: int| !occurs_at(s, p, i) by {
        if occurs_at(s, p, i) {
            assert(s.subrange(i, i + p.len())[0] == p[0]);
        }
    }
}

/// The two hexadecimal digits of `g` are `a` then `b`.
proof fn lemma_hex2(g: u8, a: int, b: int)
    requires
        0 <= a < 16,
        0 <= b < 16,
    ensures
        hex_digits(g as int, 2) == seq![
            crate::text::hex_char((g as int / 16) % 16),
            crate::text::hex_char(g as int % 16),
        ],
        hex_digits(g as int, 2) == seq![crate::text::hex_char(a), crate::text::hex_char(b)] <==> g == 16
            * a + b,
{
    let h = hex_digits(g as int, 2);
    assert(h == hex_digits(g as int / 16, 1).push(crate::text::hex_char(g as int % 16)));
    assert(hex_digits(g as int / 16, 1) == hex_digits(g as int / 256, 0).push(
        crate::text::hex_char((g as int / 16) % 16),
    ));
    assert(h =~= seq![crate::text::hex_char((g as int / 16) % 16), crate::text::hex_char(g as int % 16)]);
    assert forall|x: int, y: int| 0 <= x < 16 && 0 <= y < 16 && crate::text::hex_char(x) == crate::text::hex_char(
        y,
    ) implies x == y by {
        if x < 10 && y < 10 {
        } else if x >= 10 && y >= 10 {
        } else if x < 10 {
            assert((48 + x) as char != (55 + y) as char);
        } else {
            assert((55 + x) as char != (48 + y) as char);
        }
    }
}

/// A status pattern "0xAB" occurs in the message of a failed Large Forward
/// Open exactly when it names the status.
proof fn lemma_status_pattern(g: u8, p: Seq<char>, a: int, b: int)
    requires
        0 <= a < 16,
        0 <= b < 16,
        p == seq!['0', 'x', crate::text::hex_char(a), crate::text::hex_char(b)],
    ensures
        text_contains(large_forward_open_error_text(LargeForwardOpenError::Failed(g)), p) <==> g == 16 * a
            + b,
{
    reveal_strlit("LargeForwardOpen failed: 0x");
    let pre = "LargeForwardOpen failed: 0x"@;
    let h = hex_digits(g as int, 2);
    let m = pre + h;
    lemma_hex2(g, a, b);
    assert(m.len() == 29);
    if text_contains(m, p) {
        let i = choose|i: int| occurs_at(m, p, i);
        assert(m.subrange(i, i + 4)[0] == p[0]);
        assert(m.subrange(i, i + 4)[1] == p[1]);
        if i < 25 {
            assert(m[i] == pre[i]);
            assert(m[i + 1] == pre[i + 1]);
        }
        assert(i == 25);
        assert(h =~= m.subrange(i, i + 4).subrange(2, 4));
        assert(h =~= seq![crate::text::hex_char(a), crate::text::hex_char(b)]);
    }
    if g == 16 * a + b {
        assert(m.subrange(25, 29) =~= p);
        assert(occurs_at(m, p, 25));
    }
}

/// A refused Large Forward Open falls back to Forward Open exactly when its
/// general status is 0x01, 0x05, 0x20 or 0x26; a reply too short to carry
/// a connection ID never does.
pub proof fn lemma_fallback_statuses(g: u8)
    ensures
        spec_fall_back(large_forward_open_error_text(LargeForwardOpenError::Failed(g))) <==> (g == 0x01
            || g == 0x05 || g == 0x20 || g == 0x26),
        !spec_fall_back(large_forward_open_error_text(LargeForwardOpenError::TooShort)),
        !spec_fall_back(large_forward_open_error_text(LargeForwardOpenError::MissingConnectionId)),
{
    reveal_strlit("LargeForwardOpen response too short");
    reveal_strlit("LargeForwardOpen response missing connection ID");
    reveal_strlit("0x01");
    reveal_strlit("0x20");
    reveal_strlit("0x26");
    reveal_strlit("0x05");
    assert("0x01"@ =~= seq!['0', 'x', crate::text::hex_char(0), crate::text::hex_char(1)]);
    assert("0x20"@ =~= seq!['0', 'x', crate::text::hex_char(2), crate::text::hex_char(0)]);
    assert("0x26"@ =~= seq!['0', 'x', crate::text::hex_char(2), crate::text::hex_char(6)]);
    assert("0x05"@ =~= seq!['0', 'x', crate::text::hex_char(0), crate::text::hex_char(5)]);
    lemma_status_pattern(g, "0x01"@, 0, 1);
    lemma_status_pattern(g, "0x20"@, 2, 0);
    lemma_status_pattern(g, "0x26"@, 2, 6);
    lemma_status_pattern(g, "0x05"@, 0, 5);
    let short = "LargeForwardOpen response too short"@;
    let missing = "LargeForwardOpen response missing connection ID"@;
    lemma_absent_first_char(short, "0x01"@);
    lemma_absent_first_char(short, "0x20"@);
    lemma_absent_first_char(short, "0x26"@);
    lemma_absent_first_char(short, "0x05"@);
    lemma_absent_first_char(missing, "0x01"@);
    lemma_absent_first_char(missing, "0x20"@);
    lemma_absent_first_char(missing, "0x26"@);
    lemma_absent_first_char(missing, "0x05"@);
}

} // verus!
