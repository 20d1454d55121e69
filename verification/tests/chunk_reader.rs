use multiplexing_stream::rw::Reader;

#[test]
fn chunks_are_split_across_reads() {
    let (_tx, rx) = tokio::sync::mpsc::channel::<Vec<u8>>(1);
    let mut reader = Reader::new(rx);
    assert!(reader.take_buffered().is_none());
    let mut out = [0u8; 3];
    assert_eq!(reader.read_buffered(&mut out), None);
    assert_eq!(reader.read_received(&mut out, vec![1, 2, 3, 4, 5]), 3);
    assert_eq!(out, [1, 2, 3]);
    let mut out = [9u8; 3];
    assert_eq!(reader.read_buffered(&mut out), Some(2));
    assert_eq!(out, [4, 5, 9]);
    assert_eq!(reader.read_buffered(&mut out), None);
}

#[test]
fn small_chunk_fits_and_kept_elements_come_whole() {
    let (_tx, rx) = tokio::sync::mpsc::channel::<Vec<u8>>(1);
    let mut reader = Reader::new(rx);
    let mut out = [0u8; 4];
    assert_eq!(reader.read_received(&mut out, vec![7, 8]), 2);
    assert_eq!(out, [7, 8, 0, 0]);
    let mut small = [0u8; 1];
    assert_eq!(reader.read_received(&mut small, vec![1, 2, 3]), 1);
    assert_eq!(reader.take_buffered(), Some(vec![2, 3]));
    assert_eq!(reader.take_buffered(), None);
}

#[test]
fn channel_is_reachable() {
    let (tx, rx) = tokio::sync::mpsc::channel::<Vec<u8>>(1);
    let mut reader = Reader::new(rx);
    tx.try_send(vec![4, 2]).unwrap();
    assert_eq!(reader.channel_mut().try_recv().unwrap(), vec![4, 2]);
}
