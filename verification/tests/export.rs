use ballsim::world::World;
use ballsim::voxel::{rasterize, Volume, PEAK};
use ballsim::codec::{decode_aux, decode_primary, serialize};
use ballsim::encode::data_url;
use ballsim::SimError;

const TICKS_PER_SECOND: u32 = 30;

#[test]
fn voxelization_is_idempotent() {
    let mut w = World::new();
    w.add_ball(40_000, 30_000);
    w.add_ball(90_000, 50_000);
    let v1 = rasterize(&w, 128, 96, 1);
    let v2 = rasterize(&w, 128, 96, 1);
    for x in 0..128 {
        for y in 0..96 {
            assert_eq!(v1.get(x, y, 0), v2.get(x, y, 0));
        }
    }
}

#[test]
fn blend_takes_the_maximum_never_the_sum() {
    let mut wa = World::new();
    wa.add_ball(40_000, 40_000);
    let mut wb = World::new();
    wb.add_ball(50_000, 40_000);
    let mut wab = World::new();
    wab.add_ball(40_000, 40_000);
    wab.add_ball(50_000, 40_000);
    let va = rasterize(&wa, 96, 96, 1);
    let vb = rasterize(&wb, 96, 96, 1);
    let vab = rasterize(&wab, 96, 96, 1);
    let mut overlapped = false;
    for x in 0..96 {
        for y in 0..96 {
            let a = va.get(x, y, 0);
            let b = vb.get(x, y, 0);
            assert_eq!(vab.get(x, y, 0), a.max(b));
            if a > 0 && b > 0 {
                overlapped = true;
                assert!((vab.get(x, y, 0) as u32) < a as u32 + b as u32);
            }
        }
    }
    assert!(overlapped, "the two stamps were meant to overlap");
}

#[test]
fn stamp_peaks_at_the_center_and_clips_at_the_edge() {
    let mut w = World::new();
    w.add_ball(10_000, 48_000);
    let v = rasterize(&w, 64, 96, 1);
    assert_eq!(v.get(10, 48, 0), PEAK);
    // One radius out the stamp has faded; far away it is zero.
    assert!(v.get(10, 48 + 19, 0) > 0);
    assert_eq!(v.get(10, 48 + 21, 0), 0);
    // The stamp reaches past the left edge of the grid and is clipped
    // there by the grid itself: the remaining cells still carry it.
    assert!(v.get(0, 48, 0) > 0);
}

#[test]
fn serialization_round_trips() {
    let mut v = Volume::new(4, 4, 1);
    v.set(2, 1, 0, 1000);
    let (primary, aux) = serialize(&v).unwrap();
    assert_eq!(aux.len(), 12);
    assert_eq!(primary.len(), 12 + 2 * 16);

    let dims = decode_aux(&aux).unwrap();
    assert_eq!(dims, (4, 4, 1));

    let back = decode_primary(&primary).unwrap();
    assert_eq!(back.width(), 4);
    assert_eq!(back.height(), 4);
    assert_eq!(back.depth(), 1);
    for x in 0..4 {
        for y in 0..4 {
            let expected = if (x, y) == (2, 1) { 1000 } else { 0 };
            assert_eq!(back.get(x, y, 0), expected);
        }
    }
}

#[test]
fn serializer_layout_is_little_endian_row_major() {
    let mut v = Volume::new(2, 2, 1);
    v.set(0, 0, 0, 0x0102);
    v.set(1, 1, 0, 3);
    let (primary, aux) = serialize(&v).unwrap();
    assert_eq!(aux, vec![2, 0, 0, 0, 2, 0, 0, 0, 1, 0, 0, 0]);
    assert_eq!(
        primary,
        vec![
            2, 0, 0, 0, 2, 0, 0, 0, 1, 0, 0, 0, // header: 2 x 2 x 1
            0x02, 0x01, // cell (0, 0, 0)
            0, 0, // cell (0, 1, 0)
            0, 0, // cell (1, 0, 0)
            3, 0, // cell (1, 1, 0)
        ]
    );
}

#[test]
fn degenerate_volume_is_rejected() {
    let v = Volume::new(4, 0, 1);
    assert_eq!(serialize(&v), Err(SimError::EncodingError));
}

#[test]
fn malformed_buffers_are_rejected() {
    assert!(decode_aux(&vec![1, 2, 3]).is_none());
    assert!(decode_primary(&vec![0; 11]).is_none());
    // A header promising more cells than the buffer holds.
    let (mut primary, _) = serialize(&Volume::new(4, 4, 1)).unwrap();
    primary.pop();
    assert!(decode_primary(&primary).is_none());
}

#[test]
fn decoder_reads_hand_written_bytes() {
    let bytes = vec![
        1, 0, 0, 0, 1, 0, 0, 0, 1, 0, 0, 0, // header: 1 x 1 x 1
        0x34, 0x12, // one cell
    ];
    let v = decode_primary(&bytes).unwrap();
    assert_eq!((v.width(), v.height(), v.depth()), (1, 1, 1));
    assert_eq!(v.get(0, 0, 0), 0x1234);
}

#[test]
fn export_covers_each_resting_ball() {
    let mut w = World::new();
    w.add_ball(101_000, 350_000);
    w.add_ball(102_000, 500_000);
    w.add_ball(100_000, 550_000);
    for _ in 0..900 {
        w.step(TICKS_PER_SECOND);
    }
    let v = rasterize(&w, 600, 600, 1);
    let (primary, aux) = serialize(&v).unwrap();
    assert_eq!(aux.len(), 12);
    assert_eq!(primary.len(), 12 + 2 * 600 * 600);
    for h in 0..w.count() {
        let (x, y) = w.position_of(h).unwrap();
        let vx = (x / 1000) as usize;
        let vy = (y / 1000) as usize;
        assert!(v.get(vx, vy, 0) > 0, "no material at ball {h}");
    }
}

#[test]
fn data_url_prefixes_the_base64_text() {
    let empty = data_url(&Vec::new());
    assert_eq!(empty, b"data:application/octet-stream;base64,".to_vec());
    let url = data_url(&b"Man".to_vec());
    assert_eq!(url, b"data:application/octet-stream;base64,TWFu".to_vec());
    let padded = data_url(&b"abcd".to_vec());
    assert_eq!(padded, b"data:application/octet-stream;base64,YWJjZA==".to_vec());
}
