use midi_inspector::double::Double;

fn debug_text(x: f64) -> String {
    let mut out = String::new();
    Double { bits: x.to_bits() }.push_debug_text(&mut out);
    out
}

fn fixed_text(x: f64, places: usize) -> String {
    let mut out = String::new();
    Double { bits: x.to_bits() }.push_fixed_text(&mut out, places);
    out
}

fn agree(x: f64) {
    assert_eq!(debug_text(x), format!("{x:?}"), "bits {:x}", x.to_bits());
    assert_eq!(fixed_text(x, 2), format!("{x:.2}"), "bits {:x}", x.to_bits());
    assert_eq!(fixed_text(x, 4), format!("{x:.4}"), "bits {:x}", x.to_bits());
}

struct Stream(u64);

impl Stream {
    fn next(&mut self) -> u64 {
        self.0 ^= self.0 << 13;
        self.0 ^= self.0 >> 7;
        self.0 ^= self.0 << 17;
        self.0
    }
}

#[test]
fn plain_numbers_have_their_shortest_form() {
    assert_eq!(debug_text(0.0), "0.0");
    assert_eq!(debug_text(-0.0), "-0.0");
    assert_eq!(debug_text(1.0), "1.0");
    assert_eq!(debug_text(0.1), "0.1");
    assert_eq!(debug_text(-120.5), "-120.5");
    assert_eq!(debug_text(96000.0), "96000.0");
    assert_eq!(debug_text(0.0001), "0.0001");
    assert_eq!(debug_text(0.00001), "1e-5");
    assert_eq!(debug_text(1e16), "1e16");
    assert_eq!(debug_text(9999999999999998.0), "9999999999999998.0");
    assert_eq!(debug_text(1.5e300), "1.5e300");
    assert_eq!(debug_text(f64::NAN), "NaN");
    assert_eq!(debug_text(f64::INFINITY), "inf");
    assert_eq!(debug_text(f64::NEG_INFINITY), "-inf");
}

#[test]
fn fixed_places_round_half_to_even() {
    assert_eq!(fixed_text(0.5, 4), "0.5000");
    assert_eq!(fixed_text(0.125, 2), "0.12");
    assert_eq!(fixed_text(0.375, 2), "0.38");
    assert_eq!(fixed_text(-0.001, 2), "-0.00");
    assert_eq!(fixed_text(120.0, 2), "120.00");
    assert_eq!(fixed_text(1e22, 2), "10000000000000000000000.00");
    assert_eq!(fixed_text(1e-300, 4), "0.0000");
    assert_eq!(fixed_text(f64::NAN, 2), "NaN");
    assert_eq!(fixed_text(f64::NEG_INFINITY, 2), "-inf");
}

#[test]
fn corner_cases_agree_with_the_formatter() {
    for x in [
        f64::MIN_POSITIVE,
        f64::MAX,
        f64::MIN,
        f64::EPSILON,
        f64::from_bits(1),
        f64::from_bits(2),
        f64::from_bits(3),
        f64::from_bits(0x000f_ffff_ffff_ffff),
        f64::from_bits(0x0010_0000_0000_0001),
        9007199254740991.0,
        9007199254740992.0,
        9007199254740993.0,
        562949953421312.25,
        562949953421312.75,
        1125899906842624.5,
        2251799813685248.5,
        5e-324,
        1.7976931348623157e308,
        9.5367431640625e-7,
        4.35,
        0.3,
        2.0 / 3.0,
    ] {
        agree(x);
        agree(-x);
    }
}

#[test]
fn powers_of_two_agree_with_the_formatter() {
    let mut field = 0u64;
    while field < 2047 {
        let bits = field << 52;
        agree(f64::from_bits(bits));
        agree(f64::from_bits(bits + 1));
        if bits > 0 {
            agree(f64::from_bits(bits - 1));
        }
        field += 3;
    }
}

#[test]
fn powers_of_ten_agree_with_the_formatter() {
    for e in -323..309 {
        let x: f64 = format!("1e{e}").parse().unwrap();
        agree(x);
        agree(f64::from_bits(x.to_bits() + 1));
        agree(f64::from_bits(x.to_bits() - 1));
    }
}

#[test]
fn arbitrary_bits_agree_with_the_formatter() {
    let mut stream = Stream(0x9e37_79b9_7f4a_7c15);
    for _ in 0..1500 {
        agree(f64::from_bits(stream.next()));
    }
}

#[test]
fn everyday_numbers_agree_with_the_formatter() {
    let mut stream = Stream(0x1234_5678_9abc_def1);
    for _ in 0..4000 {
        let n = (stream.next() % 2_000_001) as f64 - 1_000_000.0;
        agree(n / 1000.0);
        agree(n / 1024.0);
        agree((stream.next() >> 11) as f64 / 9007199254740992.0);
        agree((stream.next() >> 8) as f64 / 64.0);
    }
}
