use anchor::identify::identify_window;

fn dictionary_of_len(n: usize) -> Vec<u8> {
    let mut v: Vec<u8> = Vec::new();
    let mut i: usize = 0;
    while i < n {
        v.push((i % 251) as u8);
        i += 1;
    }
    v
}

#[test]
fn identify_slicing() {
    let data = dictionary_of_len(5000);
    let (off, slice) = identify_window(&data, 0, 40);
    assert_eq!(off, 0);
    assert_eq!(slice.len(), 40);
    assert_eq!(slice, &data[0..40]);

    let (off, slice) = identify_window(&data, 4990, 40);
    assert_eq!(off, 4990);
    assert_eq!(slice.len(), 10);
    assert_eq!(slice, &data[4990..5000]);

    let (off, slice) = identify_window(&data, 6000, 40);
    assert_eq!(off, 5000);
    assert_eq!(slice.len(), 0);
}

#[test]
fn identify_round_trip() {
    // Reading consecutive windows reassembles the dictionary exactly.
    let data = dictionary_of_len(1000);
    let mut rebuilt: Vec<u8> = Vec::new();
    let mut offset: u32 = 0;
    loop {
        let (off, slice) = identify_window(&data, offset, 64);
        assert_eq!(off, offset);
        if slice.is_empty() {
            break;
        }
        rebuilt.extend_from_slice(slice);
        offset += slice.len() as u32;
    }
    assert_eq!(rebuilt, data);
}

#[test]
fn identify_offset_overflow_is_clamped() {
    let data = dictionary_of_len(10);
    // offset + count would overflow a 32-bit sum; the window is clamped
    // to the dictionary's end.
    let (off, slice) = identify_window(&data, u32::MAX, u32::MAX);
    assert_eq!(off, 10);
    assert_eq!(slice.len(), 0);
}
