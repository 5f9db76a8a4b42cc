use eight_bytes::mask8x8;
use eight_bytes::u8x8;

fn bools_of(k: u8) -> [bool; 8] {
    [
        k & 0x01 != 0,
        k & 0x02 != 0,
        k & 0x04 != 0,
        k & 0x08 != 0,
        k & 0x10 != 0,
        k & 0x20 != 0,
        k & 0x40 != 0,
        k & 0x80 != 0,
    ]
}

#[test]
pub fn u8x8_array_round_trip() {
    let a = [0u8, 1, 2, 127, 128, 200, 254, 255];
    assert_eq!(u8x8::from_array(a).to_array(), a);
    let b = [255u8, 254, 200, 128, 127, 2, 1, 0];
    assert_eq!(u8x8::from_array(b).to_array(), b);
}

#[test]
pub fn splat_fills_all_lanes() {
    assert_eq!(u8x8::splat(0).to_array(), [0; 8]);
    assert_eq!(u8x8::splat(0xa5).to_array(), [0xa5; 8]);
    assert_eq!(u8x8::splat(255).to_array(), [255; 8]);
}

#[test]
pub fn bitwise_ops() {
    let a = u8x8::from_array([0x00, 0xff, 0x0f, 0xf0, 0x55, 0xaa, 0x12, 0x34]);
    let b = u8x8::from_array([0xff, 0xff, 0xf0, 0xf0, 0xaa, 0xaa, 0x10, 0x04]);
    assert_eq!(
        a.bitor(b).to_array(),
        [0xff, 0xff, 0xff, 0xf0, 0xff, 0xaa, 0x12, 0x34]
    );
    assert_eq!(
        a.bitand(b).to_array(),
        [0x00, 0xff, 0x00, 0xf0, 0x00, 0xaa, 0x10, 0x04]
    );
    assert_eq!(
        a.bitxor(b).to_array(),
        [0xff, 0x00, 0xff, 0x00, 0xff, 0x00, 0x02, 0x30]
    );
    assert_eq!(
        a.complement().to_array(),
        [0xff, 0x00, 0xf0, 0x0f, 0xaa, 0x55, 0xed, 0xcb]
    );
}

#[test]
pub fn wrapping_edges() {
    let all_max = u8x8::splat(255);
    let one = u8x8::splat(1);
    assert_eq!(all_max.wrapping_add(one).to_array(), [0; 8]);
    assert_eq!(all_max.saturating_add(one).to_array(), [255; 8]);
    let zero = u8x8::splat(0);
    assert_eq!(zero.wrapping_sub(one).to_array(), [255; 8]);
    assert_eq!(zero.saturating_sub(one).to_array(), [0; 8]);
    assert_eq!(zero.abs_difference(all_max).to_array(), [255; 8]);
    assert_eq!(all_max.mean(all_max).to_array(), [255; 8]);
    assert_eq!(zero.mean(one).to_array(), [0; 8]);
}

#[test]
pub fn bitmask_le_round_trip_all_values() {
    for k in 0..=255u8 {
        let mask = mask8x8::from_bitmask_le(k);
        assert_eq!(mask.to_bitmask_le(), k);
    }
}

#[test]
pub fn bitmask_be_round_trip_all_values() {
    for k in 0..=255u8 {
        let mask = mask8x8::from_bitmask_be(k);
        assert_eq!(mask.to_bitmask_be(), k);
    }
}

#[test]
pub fn mask_array_round_trip_all_values() {
    for k in 0..=255u8 {
        let a = bools_of(k);
        let mask = mask8x8::from_array(a);
        assert_eq!(mask.to_array(), a);
        assert_eq!(mask8x8::from_array(mask.to_array()), mask);
    }
}

#[test]
pub fn from_bitmask_be_puts_bit_seven_first() {
    let mask = mask8x8::from_bitmask_be(0b11001010);
    assert_eq!(
        mask.to_array(),
        [true, true, false, false, true, false, true, false]
    );
}

#[test]
pub fn from_bitmask_le_puts_bit_zero_first() {
    let mask = mask8x8::from_bitmask_le(0b11001010);
    assert_eq!(
        mask.to_array(),
        [false, true, false, true, false, false, true, true]
    );
}

#[test]
pub fn count_partition_all_values() {
    for k in 0..=255u8 {
        let mask = mask8x8::from_bitmask_le(k);
        assert_eq!(mask.count_true() + mask.count_false(), 8);
        assert_eq!(mask.count_true(), k.count_ones());
    }
}

#[test]
pub fn comparison_trichotomy_per_lane() {
    let a = u8x8::from_array([0, 1, 127, 128, 200, 255, 5, 5]);
    let b = u8x8::from_array([0, 2, 126, 128, 255, 0, 5, 6]);
    let e = a.equals(b).to_array();
    let l = a.less_than(b).to_array();
    let g = a.greater_than(b).to_array();
    for i in 0..8 {
        let set = [e[i], l[i], g[i]].iter().filter(|x| **x).count();
        assert_eq!(set, 1);
    }
}

#[test]
pub fn less_than_is_swapped_greater_than() {
    let a = u8x8::from_array([0, 1, 127, 128, 200, 255, 5, 5]);
    let b = u8x8::from_array([0, 2, 126, 128, 255, 0, 5, 6]);
    assert_eq!(a.less_than(b), b.greater_than(a));
    assert_eq!(a.greater_than(b), b.less_than(a));
}

#[test]
pub fn mask_to_u8x8_conversions() {
    let mask = mask8x8::from_array([true, false, false, true, true, false, true, false]);
    assert_eq!(mask.to_u8x8().to_array(), [1, 0, 0, 1, 1, 0, 1, 0]);
    assert_eq!(
        mask.to_u8x8_with(0x7c).to_array(),
        [0x7c, 0, 0, 0x7c, 0x7c, 0, 0x7c, 0]
    );
    assert_eq!(
        mask8x8::from_array([true; 8]).to_u8x8_with(0xff).to_array(),
        [0xff; 8]
    );
}

#[test]
pub fn select_reads_each_lane() {
    let bitmap = 0b10101100;
    let mask = mask8x8::from_bitmask_be(bitmap);
    let pixels = mask.select(0xff, 0x01);
    assert_eq!(
        pixels.to_array(),
        [0xff, 0x01, 0xff, 0x01, 0xff, 0xff, 0x01, 0x01]
    );
}

#[test]
pub fn popcount_all_byte_values() {
    for k in 0..=255u8 {
        let v = u8x8::splat(k);
        assert_eq!(v.popcount().to_array(), [k.count_ones() as u8; 8]);
    }
}

#[test]
pub fn exhaustive_single_lane_arithmetic() {
    for a in (0..=255u8).step_by(17) {
        for b in (0..=255u8).step_by(13) {
            let va = u8x8::splat(a);
            let vb = u8x8::splat(b);
            assert_eq!(va.wrapping_add(vb).to_array(), [a.wrapping_add(b); 8]);
            assert_eq!(va.saturating_add(vb).to_array(), [a.saturating_add(b); 8]);
            assert_eq!(va.wrapping_sub(vb).to_array(), [a.wrapping_sub(b); 8]);
            assert_eq!(va.saturating_sub(vb).to_array(), [a.saturating_sub(b); 8]);
            assert_eq!(va.abs_difference(vb).to_array(), [a.abs_diff(b); 8]);
            assert_eq!(va.max(vb).to_array(), [a.max(b); 8]);
            assert_eq!(va.min(vb).to_array(), [a.min(b); 8]);
            let m = (a as u16 + b as u16) / 2;
            assert_eq!(va.mean(vb).to_array(), [m as u8; 8]);
        }
    }
}
