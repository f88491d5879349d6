use ryleigh_banff::rng::Rng;
use ryleigh_banff::sky::{pick_sky, SkyKind};
use ryleigh_banff::texture::tex_hash;

#[test]
fn xorshift_from_one_gives_known_stream() {
    let mut r = Rng::new(1);
    assert_eq!(r.next_u32(), 270369);
    assert_eq!(r.next_u32(), 67634689);
}

#[test]
fn zero_seed_uses_golden_constant() {
    let mut a = Rng::new(0);
    let mut b = Rng::new(0x9E37_79B9);
    assert_eq!(a.next_u32(), 1359758873);
    assert_eq!(b.next_u32(), 1359758873);
}

#[test]
fn same_seed_same_stream() {
    let mut a = Rng::new(7);
    let mut b = Rng::new(7);
    for _ in 0..1000 {
        let x = a.next_u32();
        assert_eq!(x, b.next_u32());
        assert_ne!(x, 0);
    }
}

#[test]
fn different_seeds_different_streams() {
    let mut a = Rng::new(1);
    let mut b = Rng::new(2);
    assert_ne!(a.next_u32(), b.next_u32());
}

#[test]
fn fraction_bits_are_the_top_24_bits() {
    let mut a = Rng::new(1);
    assert_eq!(a.next_u24(), 270369 >> 8);
    let mut b = Rng::new(12345);
    for _ in 0..1000 {
        assert!(b.next_u24() < (1 << 24));
    }
}

#[test]
fn sky_follows_output_modulo_four() {
    let mut r = Rng::new(1);
    // 270369 % 4 == 1
    assert_eq!(pick_sky(&mut r), SkyKind::ClearDay);
    // 67634689 % 4 == 1
    assert_eq!(pick_sky(&mut r), SkyKind::ClearDay);
    let mut z = Rng::new(0);
    // 1359758873 % 4 == 1
    assert_eq!(pick_sky(&mut z), SkyKind::ClearDay);
    for seed in 1..200u32 {
        let mut g = Rng::new(seed);
        let mut h = Rng::new(seed);
        let x = g.next_u32();
        let s = pick_sky(&mut h);
        let expect = match x % 4 {
            0 => SkyKind::Dawn,
            1 => SkyKind::ClearDay,
            2 => SkyKind::Dusk,
            _ => SkyKind::StarryNight,
        };
        assert_eq!(s, expect);
        assert_eq!(s.is_night(), x % 4 == 3);
        assert_eq!(s.is_warm(), x % 2 == 0);
    }
}

#[test]
fn weave_hash_known_values() {
    assert_eq!(tex_hash(0, 0), 0);
    assert_eq!(tex_hash(1, 0), 5363);
    assert_eq!(tex_hash(0, 1), 44384);
    assert_eq!(tex_hash(7, 3), 16374);
}

#[test]
fn weave_hash_stays_in_sixteen_bits() {
    for y in 0..50 {
        for x in 0..50 {
            let v = tex_hash(x, y);
            assert!(v <= 0xffff);
            let noise = v as f32 / 65535.0;
            assert!((0.0..=1.0).contains(&noise));
        }
    }
}
