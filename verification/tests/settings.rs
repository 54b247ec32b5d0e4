use crosshair_code::settings::{
    checksum_of, CrosshairSettings, FORMAT_VERSION, MAX_MODIFIER, MAX_SELECTOR, MAX_SIZE,
    MAX_SPLITDIST, PAYLOAD_LEN,
};

fn plain() -> CrosshairSettings {
    CrosshairSettings {
        gap: -51,
        outline_thickness: 3,
        red: 10,
        green: 200,
        blue: 255,
        alpha: 128,
        dynamic_splitdist: 7,
        recoil: true,
        fixed_gap: 30,
        color: 5,
        draw_outline: true,
        dynamic_splitalpha_innermod: 10,
        dynamic_splitalpha_outermod: 3,
        dynamic_maxdist_split_ratio: 15,
        thickness: 12,
        style: 4,
        dot: true,
        gap_use_weapon_value: false,
        use_alpha: true,
        t: false,
        size: 35,
    }
}

const PLAIN_PAYLOAD: [u8; 18] =
    [238, 1, 205, 3, 10, 200, 255, 128, 135, 30, 173, 243, 12, 88, 35, 0, 0, 0];

#[test]
fn settings_are_packed_byte_by_byte() {
    assert_eq!(PAYLOAD_LEN, 18);
    assert_eq!(plain().pack(), PLAIN_PAYLOAD);
    assert_eq!(plain().pack()[1], FORMAT_VERSION);
}

#[test]
fn default_settings_are_packed() {
    let payload = CrosshairSettings::default().pack();
    assert_eq!(payload, [44, 1, 0, 2, 255, 255, 255, 255, 0, 0, 89, 85, 5, 72, 50, 0, 0, 0]);
}

#[test]
fn settings_are_unpacked_byte_by_byte() {
    assert_eq!(CrosshairSettings::unpack(&PLAIN_PAYLOAD), plain());
}

#[test]
fn every_flag_has_its_own_bit() {
    let mut s = CrosshairSettings::unpack(&[0; 18]);
    assert!(!s.recoil && !s.draw_outline && !s.dot && !s.gap_use_weapon_value);
    assert!(!s.use_alpha && !s.t);
    s.recoil = true;
    assert_eq!(s.pack()[8], 0x80);
    s.draw_outline = true;
    assert_eq!(s.pack()[10], 0x08);
    s.dot = true;
    assert_eq!(s.pack()[13], 0x10);
    s.gap_use_weapon_value = true;
    assert_eq!(s.pack()[13], 0x30);
    s.use_alpha = true;
    assert_eq!(s.pack()[13], 0x70);
    s.t = true;
    assert_eq!(s.pack()[13], 0xf0);
    assert_eq!(CrosshairSettings::unpack(&s.pack()), s);
}

#[test]
fn bits_that_hold_no_field_are_not_read() {
    let mut payload = PLAIN_PAYLOAD;
    payload[0] = 0;
    payload[1] = 77;
    payload[13] |= 0x01;
    payload[15] |= 0xe0;
    payload[16] = 255;
    payload[17] = 255;
    assert_eq!(CrosshairSettings::unpack(&payload), plain());
}

#[test]
fn fields_beyond_their_place_are_clamped() {
    let mut s = plain();
    s.dynamic_splitdist = 200;
    s.color = 9;
    s.dynamic_splitalpha_innermod = 20;
    s.dynamic_splitalpha_outermod = 16;
    s.dynamic_maxdist_split_ratio = 255;
    s.style = 8;
    s.size = 10000;
    let clamped = s.clamp();
    assert_eq!(clamped.dynamic_splitdist, MAX_SPLITDIST);
    assert_eq!(clamped.color, MAX_SELECTOR);
    assert_eq!(clamped.dynamic_splitalpha_innermod, MAX_MODIFIER);
    assert_eq!(clamped.dynamic_splitalpha_outermod, MAX_MODIFIER);
    assert_eq!(clamped.dynamic_maxdist_split_ratio, MAX_MODIFIER);
    assert_eq!(clamped.style, MAX_SELECTOR);
    assert_eq!(clamped.size, MAX_SIZE);
    assert_eq!(clamped.gap, s.gap);
    assert_eq!(clamped.recoil, s.recoil);
    assert_eq!(
        s.pack(),
        [197, 1, 205, 3, 10, 200, 255, 128, 255, 30, 255, 255, 12, 94, 255, 31, 0, 0]
    );
    assert_eq!(CrosshairSettings::unpack(&s.pack()), clamped);
    assert_eq!(plain().clamp(), plain());
}

#[test]
fn inner_modifier_of_two_is_read_back_as_one_and_a_half() {
    let mut s = CrosshairSettings::default();
    s.dynamic_splitalpha_innermod = (2.0f32 * 10.0).min(255.0) as u8;
    let payload = s.pack();
    assert_eq!(payload[10] >> 4, 15);
    assert_eq!(payload[10] & 0x0f, 0x09);
    let back = CrosshairSettings::unpack(&payload);
    assert_eq!(back.dynamic_splitalpha_innermod as f32 / 10.0, 1.5);
    assert_eq!(back.color, 1);
    assert!(back.draw_outline);
}

#[test]
fn signed_gaps_keep_their_sign() {
    for gap in [-128i8, -51, -1, 0, 1, 127] {
        let mut s = CrosshairSettings::default();
        s.gap = gap;
        s.fixed_gap = gap;
        let payload = s.pack();
        assert_eq!(payload[2], gap as u8);
        assert_eq!(payload[9], gap as u8);
        let back = CrosshairSettings::unpack(&payload);
        assert_eq!(back.gap, gap);
        assert_eq!(back.fixed_gap, gap);
    }
}

#[test]
fn size_is_split_over_two_bytes() {
    let mut s = CrosshairSettings::default();
    s.size = 0x1abc;
    let payload = s.pack();
    assert_eq!(payload[14], 0xbc);
    assert_eq!(payload[15], 0x1a);
    assert_eq!(CrosshairSettings::unpack(&payload).size, 0x1abc);
    s.size = 8192;
    assert_eq!(CrosshairSettings::unpack(&s.pack()).size, 8191);
}

#[test]
fn checksum_is_the_sum_of_the_other_bytes() {
    assert_eq!(checksum_of(&PLAIN_PAYLOAD), 238);
    assert_eq!(checksum_of(&[0; 18]), 0);
    assert_eq!(checksum_of(&[255; 18]), ((17 * 255) % 256) as u8);
    let mut payload = [0u8; 18];
    payload[0] = 200;
    payload[17] = 3;
    assert_eq!(checksum_of(&payload), 3);
}

#[test]
fn default_settings_are_within_range() {
    let d = CrosshairSettings::default();
    assert_eq!(d.gap, 0);
    assert_eq!(d.outline_thickness, 2);
    assert_eq!((d.red, d.green, d.blue, d.alpha), (255, 255, 255, 255));
    assert_eq!(d.color, 1);
    assert_eq!(d.style, 4);
    assert_eq!(d.thickness, 5);
    assert_eq!(d.size, 50);
    assert!(d.draw_outline && d.use_alpha);
    assert_eq!(d.clamp(), d);
}

#[test]
fn tenths_survive_a_passage_through_fractions() {
    for k in -128i32..=127 {
        assert_eq!(((k as f32 / 10.0) * 10.0) as i8 as i32, k);
    }
    for k in 0u32..=255 {
        assert_eq!(((k as f32 / 10.0) * 10.0).min(255.0) as u8 as u32, k);
        assert_eq!(((k as f32 / 2.0) * 2.0).min(255.0) as u8 as u32, k);
    }
    for k in 0u32..=8191 {
        assert_eq!(((k as f32 / 10.0) * 10.0).min(65535.0) as u16 as u32, k);
    }
}
