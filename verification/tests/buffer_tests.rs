use specan::fft::{slide_ingest, FftCompute};
use specan::window::WindowKind;

#[test]
fn small_block_slides_fifo() {
    let mut buf = vec![1i64, 2, 3, 4];
    slide_ingest(&mut buf, &vec![5, 6]);
    assert_eq!(buf, vec![3, 4, 5, 6]);
}

#[test]
fn block_of_buffer_length_replaces_all() {
    let mut buf = vec![1i64, 2, 3, 4];
    slide_ingest(&mut buf, &vec![7, 8, 9, 10]);
    assert_eq!(buf, vec![7, 8, 9, 10]);
}

#[test]
fn oversized_block_keeps_its_tail() {
    // the replacement must come from the end of the incoming block
    let mut buf = vec![0i64; 4];
    slide_ingest(&mut buf, &vec![1, 2, 3, 4, 5, 6, 7]);
    assert_eq!(buf, vec![4, 5, 6, 7]);
}

#[test]
fn empty_block_changes_nothing() {
    let mut buf = vec![9i64, 8, 7];
    slide_ingest(&mut buf, &vec![]);
    assert_eq!(buf, vec![9, 8, 7]);
}

#[test]
fn chunking_does_not_matter() {
    // ingesting [a,b] then [c,d] equals ingesting [a,b,c,d] at once
    let mut one = vec![0i64; 4];
    slide_ingest(&mut one, &vec![10, 20]);
    slide_ingest(&mut one, &vec![30, 40]);
    let mut whole = vec![0i64; 4];
    slide_ingest(&mut whole, &vec![10, 20, 30, 40]);
    assert_eq!(one, whole);

    let mut uneven = vec![0i64; 4];
    slide_ingest(&mut uneven, &vec![10]);
    slide_ingest(&mut uneven, &vec![20, 30, 40]);
    assert_eq!(uneven, whole);
}

#[test]
fn buffer_holds_last_n_of_stream() {
    let mut buf = vec![0i64; 3];
    for chunk in [vec![1i64, 2], vec![3], vec![4, 5], vec![6, 7, 8, 9]] {
        slide_ingest(&mut buf, &chunk);
    }
    assert_eq!(buf, vec![7, 8, 9]);
}

#[test]
fn callback_slides_and_windows() {
    let mut pipe = FftCompute::new(4, WindowKind::Hann);
    assert_eq!(pipe.sliding().clone(), vec![0i64; 4]);
    // hann coefficients for N=4: 0, 49152, 65536, 49152
    assert_eq!(pipe.coefs().clone(), vec![0, 49152, 65536, 49152]);

    pipe.callback(&vec![65536, 65536, 65536, 65536]);
    assert_eq!(pipe.sliding().clone(), vec![65536; 4]);
    assert_eq!(pipe.frame().clone(), vec![0, 49152, 65536, 49152]);

    // a two-sample block slides the history and rewindows everything
    pipe.callback(&vec![-65536, 131072]);
    assert_eq!(pipe.sliding().clone(), vec![65536, 65536, -65536, 131072]);
    assert_eq!(pipe.frame().clone(), vec![0, 49152, -65536, 98304]);
}

#[test]
fn callback_windowed_product_floors_toward_minus_infinity() {
    let mut pipe = FftCompute::new(4, WindowKind::Hann);
    // coefficient 49152 (= 0.75) times 3 floors to 2, times -3 floors to -3
    pipe.callback(&vec![0, 3, 0, -3]);
    assert_eq!(pipe.frame().clone(), vec![0, 2, 0, -3]);
}
