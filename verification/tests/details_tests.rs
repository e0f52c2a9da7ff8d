use lockbox::details::{classify_size, SizeClass};

#[test]
fn small_sizes_are_whole_bytes() {
    let r = classify_size(0);
    assert_eq!(r.class, SizeClass::Bytes);
    assert_eq!(r.value, 0);
    let r = classify_size(1023);
    assert_eq!(r.class, SizeClass::Bytes);
    assert_eq!(r.value, 1023);
}

#[test]
fn kibibyte_sizes_scale_to_hundredths() {
    let r = classify_size(1024);
    assert_eq!(r.class, SizeClass::Kibibytes);
    assert_eq!(r.value, 100);
    let r = classify_size(1536);
    assert_eq!(r.class, SizeClass::Kibibytes);
    assert_eq!(r.value, 150);
    // 1034 bytes: 1.0097... KiB, displayed as 1.01
    let r = classify_size(1034);
    assert_eq!(r.value, 101);
    // the largest kibibyte size
    let r = classify_size(1048575);
    assert_eq!(r.class, SizeClass::Kibibytes);
    assert_eq!(r.value, (1048575u64 * 100 + 512) / 1024);
}

#[test]
fn mebibyte_sizes_scale_to_hundredths() {
    let r = classify_size(1048576);
    assert_eq!(r.class, SizeClass::Mebibytes);
    assert_eq!(r.value, 100);
    let r = classify_size(2621440);
    assert_eq!(r.class, SizeClass::Mebibytes);
    assert_eq!(r.value, 250);
    let r = classify_size(u64::MAX);
    assert_eq!(r.class, SizeClass::Mebibytes);
    assert_eq!(r.value, ((u64::MAX as u128 * 100 + 524288) / 1048576) as u64);
}

#[test]
fn exact_half_hundredths_round_up() {
    // 1152 bytes = 1.125 KiB = 112.5 hundredths, displayed as 1.13 KB
    let r = classify_size(1152);
    assert_eq!(r.class, SizeClass::Kibibytes);
    assert_eq!(r.value, 113);
}
