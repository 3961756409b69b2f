//! Canned replies.

use vstd::prelude::*;

use crate::backend::CursorHandle;
use crate::kms::state::{KmsBackend, KmsView};
use crate::wire;

verus! {

/// A reply of `n` bytes that are all 0 but for the first, which marks a reply.
pub open spec fn blank_reply(n: nat) -> Seq<u8> {
    wire::zeros(n).update(0, 1)
}

/// Makes a blank reply.
pub fn make_reply(n: usize) -> (r: Vec<u8>)
    requires
        n >= 1,
    ensures
        r@ == blank_reply(n as nat),
{
    let mut r: Vec<u8> = Vec::new();
    let mut i: usize = 0;
    assert(r@ =~= wire::zeros(0));
    while i < n
        invariant
            i <= n,
            r@ == wire::zeros(i as nat),
        decreases n - i,
    {
        r.push(0);
        i += 1;
        assert(r@ =~= wire::zeros(i as nat));
    }
    r.set(0, 1);
    r
}

/// A ListFonts reply without names, so that the client does not wait.
pub fn list_fonts_reply() -> (r: Vec<u8>)
    ensures
        r@ == blank_reply(32),
{
    make_reply(32)
}

/// The replies to ListFontsWithInfo: only the one without a name that ends the
/// list.
pub fn list_fonts_with_info_replies() -> (r: Vec<Vec<u8>>)
    ensures
        r@.len() == 1,
        r@[0]@ == blank_reply(60),
{
    let mut r: Vec<Vec<u8>> = Vec::new();
    r.push(make_reply(60));
    r
}

impl KmsBackend {
    /// An identifier for a cursor. The cursor on the screen is always the same.
    pub fn create_cursor(&mut self) -> (r: CursorHandle)
        requires
            old(self)@.next_host_xid < u32::MAX,
        ensures
            r.raw == old(self)@.new_xid(),
            final(self)@ == (KmsView { next_host_xid: r.raw, ..old(self)@ }),
    {
        let host_xid: u32 = self.take_host_xid();
        CursorHandle { raw: host_xid }
    }

    pub fn window_id(&self) -> (r: u32)
        ensures
            r == self@.window_id,
    {
        self.window_id
    }

    pub fn root_visual_xid(&self) -> (r: u32)
        ensures
            r == self@.root_visual_xid,
    {
        self.root_visual_xid
    }
}

} // verus!
