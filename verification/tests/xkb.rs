use yserver::kms::replies::{list_fonts_reply, list_fonts_with_info_replies};
use yserver::kms::xkb::{
    reply_get_compat_map, reply_get_controls, reply_get_device_info, reply_get_map,
    reply_get_names, reply_minimal, reply_use_extension,
};

#[test]
fn use_extension_reply_length() {
    assert_eq!(reply_use_extension().len(), 32);
}

#[test]
fn use_extension_success_flag() {
    let r = reply_use_extension();
    assert_eq!(r[1], 1, "success must be 1");
}

#[test]
fn get_controls_reply_length() {
    assert_eq!(reply_get_controls().len(), 92);
}

#[test]
fn get_map_reply_size_40() {
    // The range of keycodes of an evdev keymap.
    let r = reply_get_map(8, 255);
    assert_eq!(r.len(), 40, "sz_xkbGetMapReply = 40 per xkbproto");
    assert!(r[10] <= r[11], "min_keycode <= max_keycode");
}

#[test]
fn get_compat_map_reply_size_32() {
    assert_eq!(reply_get_compat_map().len(), 32);
}

#[test]
fn get_device_info_reply_size_32() {
    assert_eq!(reply_get_device_info().len(), 32);
}

#[test]
fn use_extension_offers_version_1_0() {
    let mut want = vec![0u8; 32];
    want[0] = 1;
    want[1] = 1;
    want[8] = 1;
    assert_eq!(reply_use_extension(), want);
}

#[test]
fn controls_repeat_keys() {
    let mut want = vec![0u8; 92];
    want[0] = 1;
    want[4] = 15;
    want[12..14].copy_from_slice(&500u16.to_le_bytes());
    want[14..16].copy_from_slice(&33u16.to_le_bytes());
    want[32..36].copy_from_slice(&0x1000_0001u32.to_le_bytes());
    assert_eq!(reply_get_controls(), want);
}

#[test]
fn map_names_the_low_bytes_of_the_keycodes() {
    let mut want = vec![0u8; 40];
    want[0] = 1;
    want[1] = 1;
    want[4] = 2;
    want[10] = 9;
    want[11] = 196;
    assert_eq!(reply_get_map(9, 708), want);
}

#[test]
fn other_replies_are_blank() {
    let mut want = vec![0u8; 32];
    want[0] = 1;
    assert_eq!(reply_get_names(), want);
    assert_eq!(reply_minimal(), want);
    assert_eq!(list_fonts_reply(), want);
    want[1] = 1;
    assert_eq!(reply_get_compat_map(), want);
    assert_eq!(reply_get_device_info(), want);
}

#[test]
fn replies_name_their_own_length() {
    for r in [reply_use_extension(), reply_get_controls(), reply_get_map(8, 255), reply_get_names()]
    {
        let extra = u32::from_le_bytes([r[4], r[5], r[6], r[7]]) as usize;
        assert_eq!(r.len(), 32 + 4 * extra);
    }
}

#[test]
fn font_list_with_info_is_only_a_terminator() {
    let replies = list_fonts_with_info_replies();
    assert_eq!(replies.len(), 1);
    assert_eq!(replies[0].len(), 60);
    assert_eq!(replies[0][0], 1);
    assert!(replies[0][1..].iter().all(|&b| b == 0));
}
