use raytracer::frame::{FrameBuffer, ScanlineResult};

fn row(values: &[u32]) -> Vec<u32> {
    values.to_vec()
}

#[test]
fn new_frame_has_empty_rows() {
    let f = FrameBuffer::new(3, 2);
    assert_eq!(f.width(), 3);
    assert_eq!(f.height(), 2);
    assert!(!f.is_complete());
    assert_eq!(f.pixels(), Vec::<u32>::new());
}

#[test]
fn scanlines_are_filed_by_row_not_by_arrival() {
    let mut f = FrameBuffer::new(2, 3);
    f.place(ScanlineResult { id: 2, scanline: row(&[5, 6]) });
    f.place(ScanlineResult { id: 0, scanline: row(&[1, 2]) });
    assert!(!f.is_complete());
    f.place(ScanlineResult { id: 1, scanline: row(&[3, 4]) });
    assert!(f.is_complete());
    assert_eq!(f.pixels(), vec![1, 2, 3, 4, 5, 6]);
}

#[test]
fn any_arrival_order_gives_the_same_image() {
    let orders: [[usize; 3]; 6] = [[0, 1, 2], [0, 2, 1], [1, 0, 2], [1, 2, 0], [2, 0, 1], [2, 1, 0]];
    for order in orders.iter() {
        let mut f = FrameBuffer::new(2, 3);
        for &id in order.iter() {
            let base = id as u32 * 10;
            f.place(ScanlineResult { id, scanline: row(&[base, base + 1]) });
        }
        assert_eq!(f.pixels(), vec![0, 1, 10, 11, 20, 21]);
    }
}

#[test]
fn placing_a_row_again_replaces_it() {
    let mut f = FrameBuffer::new(1, 1);
    f.place(ScanlineResult { id: 0, scanline: row(&[7]) });
    f.place(ScanlineResult { id: 0, scanline: row(&[9]) });
    assert_eq!(f.pixels(), vec![9]);
}

#[test]
fn short_row_leaves_frame_incomplete() {
    let mut f = FrameBuffer::new(2, 1);
    f.place(ScanlineResult { id: 0, scanline: row(&[7]) });
    assert!(!f.is_complete());
    assert_eq!(f.pixels(), vec![7]);
}
