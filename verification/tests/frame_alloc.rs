use perf_kernel::frame_alloc::{Error, FrameAllocator};

const TWOMB: usize = 0x200000;
const FOURMB: usize = TWOMB * 2;
const PAGE: usize = 0x1000;

/// Splits the bitmap text into runs of equal characters.
fn parse_bar_str(barr_str: &str) -> Vec<String> {
    let chars: Vec<char> = barr_str.chars().collect();
    let mut res = vec![];
    let mut i = 0;
    while i < chars.len() {
        let mut j = i;
        while j < chars.len() && chars[j] == chars[i] {
            j += 1;
        }
        res.push(chars[i..j].iter().collect());
        i = j;
    }
    res
}

#[test]
fn invalid_alloc() {
    let mut f = FrameAllocator::<FOURMB, 128>::new(128);
    let frame = f.allocate(3).unwrap_err();
    match frame {
        Error::AlignmentError(_) => (),
        _ => panic!("Wrong error"),
    }
}

#[test]
fn one_bit_alloc() {
    let mut f = FrameAllocator::<512, 128>::new(0);
    f.allocate(128).unwrap();
    f.allocate(128).unwrap();

    let bar_str = f.bar_as_string();
    let bar_vec = parse_bar_str(&bar_str);
    let mut bar_iter = bar_vec.iter();

    let bar_part = bar_iter.next().unwrap();
    assert_eq!(bar_part.len(), 62);
    let bar_part = bar_iter.next().unwrap();
    assert_eq!(bar_part.len(), 2);
}

#[test]
fn small_allocator_len() {
    let mut f = FrameAllocator::<512, 128>::new(128);
    let frame = f.allocate(256).unwrap();
    let frame2 = f.allocate(128).unwrap();

    let bar_str = f.bar_as_string();
    let bar_vec = parse_bar_str(&bar_str);
    let mut bar_iter = bar_vec.iter();

    assert_eq!(frame, 128);
    assert_eq!(frame2, frame + 256);

    let bar_part = bar_iter.next().unwrap();
    assert_eq!(bar_part.len(), 61);

    let bar_part = bar_iter.next().unwrap();
    assert_eq!(bar_part.len(), 3);
}

#[test]
fn multi_alloc() {
    let mut f = FrameAllocator::<FOURMB, 128>::new(128);
    let frame = f.allocate(128).unwrap();
    let frame2 = f.allocate(256).unwrap();

    let bar_str = f.bar_as_string();

    let bar_vec = parse_bar_str(&bar_str);
    let mut bar_iter = bar_vec.iter();

    assert_eq!(frame, 128);
    assert_eq!(frame2, frame + 128);
    let bar_part = bar_iter.next().unwrap();
    assert_eq!(bar_part.len(), 61);
    let bar_part = bar_iter.next().unwrap();
    assert_eq!(bar_part.len(), 3);
}

#[test]
fn alloc_weird_size2() {
    let mut f = FrameAllocator::<0xA00, 1>::new(128);
    let frame = f.allocate(0x500).unwrap();

    let bar_str = f.bar_as_string();
    let bar_vec = parse_bar_str(&bar_str);

    assert_eq!(frame, 128);
    assert_eq!(bar_vec[0].len(), 0x500);
    assert_eq!(bar_vec[0].chars().next().unwrap(), '1');

    let frame2 = f.allocate(0x500).unwrap();

    let bar_str = f.bar_as_string();
    let bar_vec = parse_bar_str(&bar_str);

    assert_eq!(frame2, 128 + 0x500);
    assert_eq!(bar_vec[0].len(), 0x500 * 2);

    let frame = f.allocate(1);
    assert!(frame.is_err());
}

#[test]
fn alloc_weird_size() {
    let mut f = FrameAllocator::<64, 1>::new(0);
    let frame = f.allocate(64).unwrap();

    let bar_str = f.bar_as_string();
    let bar_vec = parse_bar_str(&bar_str);

    assert_eq!(frame, 0);
    assert_eq!(bar_vec[0].len(), 64);
    assert_eq!(bar_vec[0].chars().next().unwrap(), '1');
    let frame = f.allocate(1);
    assert!(frame.is_err());
}

#[test]
fn alloc_test() {
    let mut f = FrameAllocator::<FOURMB, PAGE>::new(0);
    let frame = f.allocate(TWOMB).unwrap();
    let frame2 = f.allocate(TWOMB).unwrap();

    let bar_str = f.bar_as_string();
    let bar_vec = parse_bar_str(&bar_str);
    let mut bar_iter = bar_vec.iter();

    assert_eq!(frame, 0);
    assert_eq!(frame2, frame + TWOMB);
    let bar_part = bar_iter.next().unwrap();
    assert_eq!(bar_part.len(), TWOMB * 2 / PAGE);
}

#[test]
fn frames_stay_inside_the_window() {
    let mut f = FrameAllocator::<512, 128>::new(0);
    assert_eq!(f.allocate(384).unwrap(), 0);
    assert!(matches!(f.allocate(256), Err(Error::NotEnoughMem)));
    assert_eq!(f.allocate(128).unwrap(), 384);
    assert!(matches!(f.allocate(128), Err(Error::NotEnoughMem)));
}

#[test]
fn no_frame_is_handed_out_twice() {
    let mut f = FrameAllocator::<0x400000, 128>::new(0);
    assert_eq!(f.allocate(7680).unwrap(), 0);
    assert_eq!(f.allocate(1024).unwrap(), 7680);
    assert_eq!(f.allocate(128).unwrap(), 8704);
}
