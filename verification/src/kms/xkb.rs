//! Replies of the XKEYBOARD extension.

use vstd::prelude::*;

use crate::kms::replies;
use crate::kms::replies::make_reply;
use crate::wire;

verus! {

/// `s` with the bytes of `part` from `at` on.
pub open spec fn overlaid(s: Seq<u8>, at: int, part: Seq<u8>) -> Seq<u8> {
    Seq::new(
        s.len(),
        |i: int|
            if at <= i < at + part.len() {
                part[i - at]
            } else {
                s[i]
            },
    )
}

fn put_u16(r: &mut Vec<u8>, at: usize, value: u16)
    requires
        at <= 88,
        at + 2 <= old(r)@.len(),
    ensures
        final(r)@ == overlaid(old(r)@, at as int, wire::le16(value as int)),
{
    r.set(at, (value % 256) as u8);
    r.set(at + 1, (value / 256) as u8);
    assert(r@ =~= overlaid(old(r)@, at as int, wire::le16(value as int)));
}

fn put_u32(r: &mut Vec<u8>, at: usize, value: u32)
    requires
        at <= 88,
        at + 4 <= old(r)@.len(),
    ensures
        final(r)@ == overlaid(old(r)@, at as int, wire::le32(value as int)),
{
    r.set(at, (value % 256) as u8);
    r.set(at + 1, (value / 256 % 256) as u8);
    r.set(at + 2, (value / 65536 % 256) as u8);
    r.set(at + 3, (value / 16777216) as u8);
    assert(r@ =~= overlaid(old(r)@, at as int, wire::le32(value as int)));
}

/// UseExtension: supported, version 1.0.
pub open spec fn use_extension_bytes() -> Seq<u8> {
    replies::blank_reply(32).update(1, 1).update(8, 1)
}

pub fn reply_use_extension() -> (r: Vec<u8>)
    ensures
        r@ == use_extension_bytes(),
        r@.len() == 32,
{
    let mut r = make_reply(32);
    r.set(1, 1);
    r.set(8, 1);
    r
}

/// GetControls: keys repeat after 500 ms, every 33 ms; RepeatKeys and
/// PerKeyRepeat are on. 92 bytes, fifteen words beyond the header.
pub open spec fn get_controls_bytes() -> Seq<u8> {
    overlaid(
        overlaid(
            overlaid(overlaid(replies::blank_reply(92), 4, wire::le32(15)), 12, wire::le16(500)),
            14,
            wire::le16(33),
        ),
        32,
        wire::le32(0x1000_0001),
    )
}

pub fn reply_get_controls() -> (r: Vec<u8>)
    ensures
        r@ == get_controls_bytes(),
        r@.len() == 92,
{
    let mut r = make_reply(92);
    put_u32(&mut r, 4, 15);
    put_u16(&mut r, 12, 500);
    put_u16(&mut r, 14, 33);
    put_u32(&mut r, 32, 0x1000_0001);
    r
}

/// GetMap of device 1: the range of keycodes, and no tables. 40 bytes, two words
/// beyond the header.
pub open spec fn get_map_bytes(min_keycode: u32, max_keycode: u32) -> Seq<u8> {
    overlaid(replies::blank_reply(40).update(1, 1), 4, wire::le32(2)).update(
        10,
        (min_keycode % 256) as u8,
    ).update(11, (max_keycode % 256) as u8)
}

pub fn reply_get_map(min_keycode: u32, max_keycode: u32) -> (r: Vec<u8>)
    ensures
        r@ == get_map_bytes(min_keycode, max_keycode),
        r@.len() == 40,
{
    let mut r = make_reply(40);
    r.set(1, 1);
    put_u32(&mut r, 4, 2);
    r.set(10, (min_keycode % 256) as u8);
    r.set(11, (max_keycode % 256) as u8);
    r
}

/// GetNames: no names.
pub fn reply_get_names() -> (r: Vec<u8>)
    ensures
        r@ == replies::blank_reply(32),
{
    make_reply(32)
}

/// GetCompatMap of device 1: empty.
pub fn reply_get_compat_map() -> (r: Vec<u8>)
    ensures
        r@ == replies::blank_reply(32).update(1, 1),
        r@.len() == 32,
{
    let mut r = make_reply(32);
    r.set(1, 1);
    r
}

/// GetDeviceInfo of device 1: no feedbacks, no buttons, no name.
pub fn reply_get_device_info() -> (r: Vec<u8>)
    ensures
        r@ == replies::blank_reply(32).update(1, 1),
        r@.len() == 32,
{
    let mut r = make_reply(32);
    r.set(1, 1);
    r
}

/// A reply for requests that clients do not look into.
pub fn reply_minimal() -> (r: Vec<u8>)
    ensures
        r@ == replies::blank_reply(32),
{
    make_reply(32)
}

/// Whether the extra length that a reply names, in words, is its own.
pub open spec fn names_extra_length(r: Seq<u8>) -> bool {
    r.len() == 32 + 4 * wire::u32_at(r, 4)
}

/// Every reply is marked as one and names its own length.
pub proof fn lemma_replies_name_their_length(min_keycode: u32, max_keycode: u32)
    ensures
        use_extension_bytes()[0] == 1 && names_extra_length(use_extension_bytes()),
        get_controls_bytes()[0] == 1 && names_extra_length(get_controls_bytes()),
        get_map_bytes(min_keycode, max_keycode)[0] == 1 && names_extra_length(
            get_map_bytes(min_keycode, max_keycode),
        ),
        names_extra_length(replies::blank_reply(32)),
        names_extra_length(replies::blank_reply(32).update(1, 1)),
{
}

/// What the replies hold, byte by byte: UseExtension a yes and version 1.0; GetControls
/// fifteen more words, a delay of 500 and an interval of 33, and two control bits;
/// GetMap two more words and the lowest and highest keycode. All other bytes are zero.
pub proof fn lemma_replies_hold_their_values(min_keycode: u32, max_keycode: u32, i: int)
    requires
        0 <= i,
    ensures
        use_extension_bytes().len() == 32,
        i < 32 ==> use_extension_bytes()[i] == (if i == 0 || i == 1 || i == 8 {
            1
        } else {
            0int
        }),
        get_controls_bytes().len() == 92,
        i < 92 ==> get_controls_bytes()[i] == (if i == 0 {
            1
        } else if i == 4 {
            15
        } else if i == 12 {
            500 - 256
        } else if i == 13 {
            1
        } else if i == 14 {
            33
        } else if i == 32 {
            1
        } else if i == 35 {
            0x10
        } else {
            0int
        }),
        get_map_bytes(min_keycode, max_keycode).len() == 40,
        i < 40 ==> get_map_bytes(min_keycode, max_keycode)[i] == (if i == 0 || i == 1 {
            1
        } else if i == 4 {
            2
        } else if i == 10 {
            min_keycode as int % 256
        } else if i == 11 {
            max_keycode as int % 256
        } else {
            0int
        }),
{
}

/// A blank reply is marked as one and holds zeros otherwise.
pub proof fn lemma_blank_replies_hold_zeros(n: nat, i: int)
    requires
        0 <= i < n,
    ensures
        replies::blank_reply(n).len() == n,
        replies::blank_reply(n)[i] == if i == 0 {
            1
        } else {
            0int
        },
{
}

} // verus!
