//! Crosshair settings and the 18 bytes that carry them.
//!
//! Fractions are held in fixed point: `gap`, `fixed_gap`, `thickness`, `size`
//! and the three split modifiers in tenths, `outline_thickness` in halves.
//!
//! Layout of a payload, by byte:
//!
//! | byte  | holds                                                         |
//! |-------|---------------------------------------------------------------|
//! | 0     | checksum: the sum of bytes 1 to 17, modulo 256                |
//! | 1     | format version, 1 when written; not read                      |
//! | 2     | `gap`, as a signed byte                                       |
//! | 3     | `outline_thickness`                                           |
//! | 4-7   | `red`, `green`, `blue`, `alpha`                               |
//! | 8     | bits 0-6 `dynamic_splitdist`, bit 7 `recoil`                  |
//! | 9     | `fixed_gap`, as a signed byte                                 |
//! | 10    | bits 0-2 `color`, bit 3 `draw_outline`, bits 4-7 inner modifier |
//! | 11    | bits 0-3 outer modifier, bits 4-7 split ratio                 |
//! | 12    | `thickness`                                                   |
//! | 13    | bits 1-3 `style`, bit 4 `dot`, bit 5 `gap_use_weapon_value`, bit 6 `use_alpha`, bit 7 `t` |
//! | 14    | low 8 bits of `size`                                          |
//! | 15    | bits 0-4: high 5 bits of `size`; bits 5-7 not read            |
//! | 16-17 | zero when written; not read                                   |

use vstd::prelude::*;

verus! {

/// The length of a payload in bytes.
pub const PAYLOAD_LEN: usize = 18;

/// The format version that byte 1 of a written payload holds.
pub const FORMAT_VERSION: u8 = 1;

/// The greatest `dynamic_splitdist` that its 7 bits hold.
pub const MAX_SPLITDIST: u8 = 127;

/// The greatest `color` and the greatest `style` that their 3 bits hold.
pub const MAX_SELECTOR: u8 = 7;

/// The greatest split modifier that its 4 bits hold: 1.5, in tenths.
pub const MAX_MODIFIER: u8 = 15;

/// The greatest `size` that its 13 bits hold: 819.1, in tenths.
pub const MAX_SIZE: u16 = 8191;

/// The settings of a crosshair: what a payload carries.
#[derive(Clone, Copy, Debug, PartialEq, Eq, Structural)]
pub struct CrosshairSettings {
    /// Gap, in tenths: -12.8 to 12.7.
    pub gap: i8,
    /// Outline thickness, in halves: 0 to 127.5.
    pub outline_thickness: u8,
    pub red: u8,
    pub green: u8,
    pub blue: u8,
    pub alpha: u8,
    /// Dynamic split distance: 0 to 127.
    pub dynamic_splitdist: u8,
    pub recoil: bool,
    /// Fixed gap, in tenths: -12.8 to 12.7.
    pub fixed_gap: i8,
    /// Colour selector: 0 to 7.
    pub color: u8,
    pub draw_outline: bool,
    /// Inner alpha modifier of the dynamic split, in tenths: 0 to 1.5.
    pub dynamic_splitalpha_innermod: u8,
    /// Outer alpha modifier of the dynamic split, in tenths: 0 to 1.5.
    pub dynamic_splitalpha_outermod: u8,
    /// Split ratio at the greatest distance, in tenths: 0 to 1.5.
    pub dynamic_maxdist_split_ratio: u8,
    /// Line thickness, in tenths: 0 to 25.5.
    pub thickness: u8,
    /// Style selector: 0 to 7.
    pub style: u8,
    pub dot: bool,
    pub gap_use_weapon_value: bool,
    pub use_alpha: bool,
    pub t: bool,
    /// Line length, in tenths. A payload holds 0 to 819.1.
    pub size: u16,
}

/// 1 for a flag that is set, 0 for one that is not.
pub open spec fn bit(flag: bool) -> int {
    if flag {
        1
    } else {
        0
    }
}

/// The byte that holds a signed value in two's complement.
pub open spec fn byte_of_signed(value: i8) -> u8 {
    if value >= 0 {
        value as u8
    } else {
        (value + 256) as u8
    }
}

/// The signed value that a byte holds in two's complement.
pub open spec fn signed_of_byte(byte: u8) -> i8 {
    if byte < 128 {
        byte as i8
    } else {
        (byte - 256) as i8
    }
}

/// The sum of bytes 1 to 17 modulo 256: the checksum that byte 0 of a
/// payload should hold.
pub open spec fn checksum(bytes: Seq<u8>) -> u8
    recommends
        bytes.len() == 18,
{
    (sum_of(bytes.subrange(1, 18)) % 256) as u8
}

/// The sum of the bytes.
pub open spec fn sum_of(bytes: Seq<u8>) -> nat
    decreases bytes.len(),
{
    if bytes.len() == 0 {
        0
    } else {
        sum_of(bytes.drop_last()) + bytes.last() as nat
    }
}

impl CrosshairSettings {
    /// Every field is within what its place in the payload holds.
    pub open spec fn in_range(self) -> bool {
        &&& self.dynamic_splitdist <= MAX_SPLITDIST
        &&& self.color <= MAX_SELECTOR
        &&& self.dynamic_splitalpha_innermod <= MAX_MODIFIER
        &&& self.dynamic_splitalpha_outermod <= MAX_MODIFIER
        &&& self.dynamic_maxdist_split_ratio <= MAX_MODIFIER
        &&& self.style <= MAX_SELECTOR
        &&& self.size <= MAX_SIZE
    }

    /// The settings with every field that is beyond its greatest value set
    /// to that value.
    pub open spec fn clamped(self) -> CrosshairSettings {
        CrosshairSettings {
            dynamic_splitdist: at_most(self.dynamic_splitdist, MAX_SPLITDIST),
            color: at_most(self.color, MAX_SELECTOR),
            dynamic_splitalpha_innermod: at_most(self.dynamic_splitalpha_innermod, MAX_MODIFIER),
            dynamic_splitalpha_outermod: at_most(self.dynamic_splitalpha_outermod, MAX_MODIFIER),
            dynamic_maxdist_split_ratio: at_most(self.dynamic_maxdist_split_ratio, MAX_MODIFIER),
            style: at_most(self.style, MAX_SELECTOR),
            size: if self.size > MAX_SIZE {
                MAX_SIZE
            } else {
                self.size
            },
            ..self
        }
    }

    /// The payload without its checksum: byte 0 is zero, the others hold the
    /// clamped settings.
    pub open spec fn payload_body(self) -> Seq<u8> {
        let c = self.clamped();
        seq![
            0u8,
            FORMAT_VERSION,
            byte_of_signed(c.gap),
            c.outline_thickness,
            c.red,
            c.green,
            c.blue,
            c.alpha,
            (c.dynamic_splitdist + 128 * bit(c.recoil)) as u8,
            byte_of_signed(c.fixed_gap),
            (c.color + 8 * bit(c.draw_outline) + 16 * c.dynamic_splitalpha_innermod) as u8,
            (c.dynamic_splitalpha_outermod + 16 * c.dynamic_maxdist_split_ratio) as u8,
            c.thickness,
            (2 * c.style + 16 * bit(c.dot) + 32 * bit(c.gap_use_weapon_value) + 64 * bit(
                c.use_alpha,
            ) + 128 * bit(c.t)) as u8,
            (c.size % 256) as u8,
            (c.size / 256) as u8,
            0u8,
            0u8,
        ]
    }

    /// The payload that carries the settings, clamped: the body with its
    /// checksum in byte 0.
    pub open spec fn payload(self) -> Seq<u8> {
        self.payload_body().update(0, checksum(self.payload_body()))
    }

    /// The settings that a payload carries.
    pub open spec fn from_payload(bytes: Seq<u8>) -> CrosshairSettings
        recommends
            bytes.len() == 18,
    {
        CrosshairSettings {
            gap: signed_of_byte(bytes[2]),
            outline_thickness: bytes[3],
            red: bytes[4],
            green: bytes[5],
            blue: bytes[6],
            alpha: bytes[7],
            dynamic_splitdist: bytes[8] % 128,
            recoil: bytes[8] >= 128,
            fixed_gap: signed_of_byte(bytes[9]),
            color: bytes[10] % 8,
            draw_outline: (bytes[10] / 8) % 2 == 1,
            dynamic_splitalpha_innermod: bytes[10] / 16,
            dynamic_splitalpha_outermod: bytes[11] % 16,
            dynamic_maxdist_split_ratio: bytes[11] / 16,
            thickness: bytes[12],
            style: (bytes[13] % 16) / 2,
            dot: (bytes[13] / 16) % 2 == 1,
            gap_use_weapon_value: (bytes[13] / 32) % 2 == 1,
            use_alpha: (bytes[13] / 64) % 2 == 1,
            t: bytes[13] >= 128,
            size: ((bytes[15] % 32) * 256 + bytes[14]) as u16,
        }
    }

    /// Sets every field that is beyond its greatest value to that value.
    pub fn clamp(&self) -> (r: CrosshairSettings)
        ensures
            r == self.clamped(),
            r.in_range(),
    {
        CrosshairSettings {
            dynamic_splitdist: lesser(self.dynamic_splitdist, MAX_SPLITDIST),
            color: lesser(self.color, MAX_SELECTOR),
            dynamic_splitalpha_innermod: lesser(self.dynamic_splitalpha_innermod, MAX_MODIFIER),
            dynamic_splitalpha_outermod: lesser(self.dynamic_splitalpha_outermod, MAX_MODIFIER),
            dynamic_maxdist_split_ratio: lesser(self.dynamic_maxdist_split_ratio, MAX_MODIFIER),
            style: lesser(self.style, MAX_SELECTOR),
            size: if self.size > MAX_SIZE {
                MAX_SIZE
            } else {
                self.size
            },
            ..*self
        }
    }

    /// Packs the settings, clamped, into a payload with its checksum.
    pub fn pack(&self) -> (r: [u8; 18])
        ensures
            r@ == self.payload(),
    {
        let c = self.clamp();
        let recoil: u8 = flag_bit(c.recoil);
        let draw_outline: u8 = flag_bit(c.draw_outline);
        let dot: u8 = flag_bit(c.dot);
        let gap_use_weapon_value: u8 = flag_bit(c.gap_use_weapon_value);
        let use_alpha: u8 = flag_bit(c.use_alpha);
        let t: u8 = flag_bit(c.t);
        let splitdist = c.dynamic_splitdist;
        let color = c.color;
        let inner = c.dynamic_splitalpha_innermod;
        let outer = c.dynamic_splitalpha_outermod;
        let ratio = c.dynamic_maxdist_split_ratio;
        let style = c.style;
        let size = c.size;
        let gap = c.gap;
        let fixed_gap = c.fixed_gap;
        assert(gap as u8 == byte_of_signed(gap) && fixed_gap as u8 == byte_of_signed(fixed_gap))
            by (bit_vector);
        assert(splitdist | (recoil << 7) == splitdist + 128 * recoil) by (bit_vector)
            requires
                splitdist <= 127,
                recoil <= 1,
        ;
        assert((color & 0x07) | (draw_outline << 3) | (inner << 4) == color + 8 * draw_outline + 16
            * inner) by (bit_vector)
            requires
                color <= 7,
                draw_outline <= 1,
                inner <= 15,
        ;
        assert((outer & 0x0f) | (ratio << 4) == outer + 16 * ratio) by (bit_vector)
            requires
                outer <= 15,
                ratio <= 15,
        ;
        assert((style << 1) | (dot << 4) | (gap_use_weapon_value << 5) | (use_alpha << 6) | (t << 7)
            == 2 * style + 16 * dot + 32 * gap_use_weapon_value + 64 * use_alpha + 128 * t)
            by (bit_vector)
            requires
                style <= 7,
                dot <= 1,
                gap_use_weapon_value <= 1,
                use_alpha <= 1,
                t <= 1,
        ;
        assert(size as u8 == size % 256 && ((size >> 8) as u8) & 0x1f == size / 256)
            by (bit_vector)
            requires
                size <= 8191,
        ;
        let mut bytes: [u8; 18] = [
            0,
            FORMAT_VERSION,
            gap as u8,
            c.outline_thickness,
            c.red,
            c.green,
            c.blue,
            c.alpha,
            splitdist | (recoil << 7),
            fixed_gap as u8,
            (color & 0x07) | (draw_outline << 3) | (inner << 4),
            (outer & 0x0f) | (ratio << 4),
            c.thickness,
            (style << 1) | (dot << 4) | (gap_use_weapon_value << 5) | (use_alpha << 6) | (t << 7),
            size as u8,
            ((size >> 8) as u8) & 0x1f,
            0,
            0,
        ];
        assert(bytes@ =~= self.payload_body());
        let sum = checksum_of(&bytes);
        bytes[0] = sum;
        bytes
    }

    /// Reads the settings that a payload carries. The checksum, the version
    /// and the bytes and bits that hold no field are not looked at.
    pub fn unpack(bytes: &[u8; 18]) -> (r: CrosshairSettings)
        ensures
            r == CrosshairSettings::from_payload(bytes@),
            r.in_range(),
    {
        let b2 = bytes[2];
        let b8 = bytes[8];
        let b9 = bytes[9];
        let b10 = bytes[10];
        let b11 = bytes[11];
        let b13 = bytes[13];
        let b14 = bytes[14];
        let b15 = bytes[15];
        assert(b2 as i8 == signed_of_byte(b2) && b9 as i8 == signed_of_byte(b9)) by (bit_vector);
        assert(b8 & 0x7f == b8 % 128 && ((b8 >> 7) != 0) == (b8 >= 128)) by (bit_vector);
        assert(b10 & 0x07 == b10 % 8 && ((b10 & 0x08) != 0) == ((b10 / 8) % 2 == 1) && b10 >> 4
            == b10 / 16) by (bit_vector);
        assert(b11 & 0x0f == b11 % 16 && b11 >> 4 == b11 / 16) by (bit_vector);
        assert((b13 & 0x0f) >> 1 == (b13 % 16) / 2 && ((b13 & 0x10) != 0) == ((b13 / 16) % 2 == 1)
            && ((b13 & 0x20) != 0) == ((b13 / 32) % 2 == 1) && ((b13 & 0x40) != 0) == ((b13 / 64)
            % 2 == 1) && ((b13 & 0x80) != 0) == (b13 >= 128)) by (bit_vector);
        assert((((b15 & 0x1f) as u16) << 8) | (b14 as u16) == (b15 % 32) * 256 + b14)
            by (bit_vector);
        CrosshairSettings {
            gap: b2 as i8,
            outline_thickness: bytes[3],
            red: bytes[4],
            green: bytes[5],
            blue: bytes[6],
            alpha: bytes[7],
            dynamic_splitdist: b8 & 0x7f,
            recoil: (b8 >> 7) != 0,
            fixed_gap: b9 as i8,
            color: b10 & 0x07,
            draw_outline: (b10 & 0x08) != 0,
            dynamic_splitalpha_innermod: b10 >> 4,
            dynamic_splitalpha_outermod: b11 & 0x0f,
            dynamic_maxdist_split_ratio: b11 >> 4,
            thickness: bytes[12],
            style: (b13 & 0x0f) >> 1,
            dot: (b13 & 0x10) != 0,
            gap_use_weapon_value: (b13 & 0x20) != 0,
            use_alpha: (b13 & 0x40) != 0,
            t: (b13 & 0x80) != 0,
            size: (((b15 & 0x1f) as u16) << 8) | (b14 as u16),
        }
    }
}

/// The lesser of a value and its greatest allowed value.
pub open spec fn at_most(value: u8, max: u8) -> u8 {
    if value > max {
        max
    } else {
        value
    }
}

fn lesser(value: u8, max: u8) -> (r: u8)
    ensures
        r == at_most(value, max),
{
    if value > max {
        max
    } else {
        value
    }
}

fn flag_bit(flag: bool) -> (r: u8)
    ensures
        r == bit(flag),
{
    if flag {
        1
    } else {
        0
    }
}

/// The sum of at most 17 bytes stays below 17 * 256.
proof fn lemma_sum_bound(bytes: Seq<u8>)
    ensures
        sum_of(bytes) <= 255 * bytes.len(),
    decreases bytes.len(),
{
    if bytes.len() > 0 {
        lemma_sum_bound(bytes.drop_last());
    }
}

/// Computes the checksum of a payload: the sum of bytes 1 to 17, of which
/// the low 8 bits are kept.
pub fn checksum_of(bytes: &[u8; 18]) -> (r: u8)
    ensures
        r == checksum(bytes@),
{
    let mut sum: u16 = 0;
    let mut i: usize = 1;
    while i < 18
        invariant
            1 <= i <= 18,
            sum == sum_of(bytes@.subrange(1, i as int)),
            sum <= 255 * (i - 1),
        decreases 18 - i,
    {
        proof {
            assert(bytes@.subrange(1, i + 1).drop_last() =~= bytes@.subrange(1, i as int));
            lemma_sum_bound(bytes@.subrange(1, i + 1));
        }
        sum = sum + bytes[i] as u16;
        i = i + 1;
    }
    assert(sum as u8 == sum % 256) by (bit_vector);
    sum as u8
}

impl CrosshairSettings {
    /// A white crosshair of style 4: outline one unit thick, lines five
    /// units long and half a unit thick, modifiers at one half.
    pub open spec fn default_settings() -> CrosshairSettings {
        CrosshairSettings {
            gap: 0,
            outline_thickness: 2,
            red: 255,
            green: 255,
            blue: 255,
            alpha: 255,
            dynamic_splitdist: 0,
            recoil: false,
            fixed_gap: 0,
            color: 1,
            draw_outline: true,
            dynamic_splitalpha_innermod: 5,
            dynamic_splitalpha_outermod: 5,
            dynamic_maxdist_split_ratio: 5,
            thickness: 5,
            style: 4,
            dot: false,
            gap_use_weapon_value: false,
            use_alpha: true,
            t: false,
            size: 50,
        }
    }
}

impl Default for CrosshairSettings {
    fn default() -> (r: CrosshairSettings)
        ensures
            r == CrosshairSettings::default_settings(),
            r.in_range(),
    {
        CrosshairSettings {
            gap: 0,
            outline_thickness: 2,
            red: 255,
            green: 255,
            blue: 255,
            alpha: 255,
            dynamic_splitdist: 0,
            recoil: false,
            fixed_gap: 0,
            color: 1,
            draw_outline: true,
            dynamic_splitalpha_innermod: 5,
            dynamic_splitalpha_outermod: 5,
            dynamic_maxdist_split_ratio: 5,
            thickness: 5,
            style: 4,
            dot: false,
            gap_use_weapon_value: false,
            use_alpha: true,
            t: false,
            size: 50,
        }
    }
}

/// Settings within range are their own clamped form, and clamped settings
/// are within range.
pub proof fn lemma_clamped(settings: CrosshairSettings)
    ensures
        settings.clamped().in_range(),
        settings.in_range() ==> settings.clamped() == settings,
        settings.clamped().clamped() == settings.clamped(),
{
}

/// A written payload has 18 bytes, holds its own checksum, and carries the
/// settings that were written, clamped: every field is read back as it was
/// packed.
pub proof fn lemma_from_payload_of_payload(settings: CrosshairSettings)
    ensures
        settings.payload().len() == 18,
        settings.payload()[0] == checksum(settings.payload()),
        settings.payload()[1] == FORMAT_VERSION,
        settings.payload()[16] == 0 && settings.payload()[17] == 0,
        CrosshairSettings::from_payload(settings.payload()) == settings.clamped(),
{
    let body = settings.payload_body();
    let payload = settings.payload();
    assert(payload.subrange(1, 18) =~= body.subrange(1, 18));
}

/// What a payload carries is within range, whatever the bytes are.
pub proof fn lemma_from_payload_in_range(bytes: Seq<u8>)
    ensures
        CrosshairSettings::from_payload(bytes).in_range(),
{
}

} // verus!
