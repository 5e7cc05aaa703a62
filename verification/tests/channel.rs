use fsdr_blocks::async_chan::AsyncChannelSource;
use fsdr_blocks::channel::chunk::Received;
use fsdr_blocks::channel::{CrossbeamSink, CrossbeamSource};

#[test]
fn crossbeam_source_hands_out_chunks_in_order() {
    let (tx, rx) = crossbeam_channel::unbounded::<Box<[u32]>>();
    let mut src = CrossbeamSource::<u32>::new(rx);
    tx.send(vec![1, 2, 3, 4, 5].into_boxed_slice()).unwrap();
    tx.send(vec![6].into_boxed_slice()).unwrap();

    let r = src.work(2);
    assert_eq!(r.items, vec![1, 2]);
    assert!(!r.call_again && !r.finished);
    let r = src.work(2);
    assert_eq!(r.items, vec![3, 4]);
    let r = src.work(2);
    assert_eq!(r.items, vec![5]);
    assert!(r.call_again);
    let r = src.work(0);
    assert!(r.items.is_empty() && !r.call_again && !r.finished);
    let r = src.work(8);
    assert_eq!(r.items, vec![6]);
    assert!(r.call_again);
    let r = src.work(8);
    assert!(r.items.is_empty() && r.call_again && !r.finished);
    drop(tx);
    let r = src.work(8);
    assert!(r.items.is_empty() && r.finished);
}

#[test]
fn crossbeam_source_step_with_given_outcomes() {
    let (_tx, rx) = crossbeam_channel::unbounded::<Box<[i8]>>();
    let mut src = CrossbeamSource::<i8>::new(rx);
    assert!(src.needs_chunk());
    let r = src.step(Some(Received::Data(vec![-1, -2, -3])), 2);
    assert_eq!(r.items, vec![-1, -2]);
    assert!(!src.needs_chunk());
    let r = src.step(None, 2);
    assert_eq!(r.items, vec![-3]);
    assert!(r.call_again);
    let r = src.step(Some(Received::Data(vec![])), 2);
    assert!(r.items.is_empty() && r.call_again && !r.finished);
    let r = src.step(Some(Received::Empty), 2);
    assert!(r.items.is_empty() && r.call_again && !r.finished);
    let r = src.step(Some(Received::Closed), 2);
    assert!(r.finished);
}

#[test]
fn crossbeam_sink_sends_each_call_as_one_chunk() {
    let (tx, rx) = crossbeam_channel::unbounded::<Box<[f32]>>();
    let mut snk = CrossbeamSink::<f32>::new(tx);
    let orig: Vec<f32> = vec![0.0, 1.0, 2.0, 3.0];
    assert_eq!(snk.work(&orig), 4);
    assert_eq!(snk.work(&[]), 0);
    assert_eq!(rx.recv().unwrap().to_vec(), orig);
    assert!(rx.try_recv().is_err());
}

#[test]
fn crossbeam_sink_drops_a_chunk_the_channel_refuses() {
    let (tx, rx) = crossbeam_channel::bounded::<Box<[u8]>>(1);
    let mut snk = CrossbeamSink::<u8>::new(tx);
    assert_eq!(snk.work(&[1, 2]), 2);
    assert_eq!(snk.work(&[3]), 1);
    assert_eq!(rx.recv().unwrap().to_vec(), vec![1, 2]);
    assert!(rx.try_recv().is_err());
}

#[test]
fn crossbeam_source_to_sink_round_trip() {
    let (tx_in, rx_in) = crossbeam_channel::unbounded::<Box<[u16]>>();
    let (tx_out, rx_out) = crossbeam_channel::unbounded::<Box<[u16]>>();
    let mut src = CrossbeamSource::<u16>::new(rx_in);
    let mut snk = CrossbeamSink::<u16>::new(tx_out);
    let data: Vec<u16> = (0..50).collect();
    for chunk in data.chunks(7) {
        tx_in.send(chunk.to_vec().into_boxed_slice()).unwrap();
    }
    drop(tx_in);
    loop {
        let r = src.work(5);
        snk.work(&r.items);
        if r.finished {
            break;
        }
    }
    let mut got: Vec<u16> = vec![];
    while let Ok(c) = rx_out.try_recv() {
        got.extend(c.iter());
    }
    assert_eq!(got, data);
}

#[test]
fn async_channel_source_hands_out_chunks_in_order() {
    let (tx, rx) = async_channel::unbounded::<Box<[u32]>>();
    let mut src = AsyncChannelSource::<u32>::new(rx);
    let r = src.work(4);
    assert!(r.items.is_empty() && r.call_again && !r.finished);
    tx.try_send(vec![7, 8, 9].into_boxed_slice()).unwrap();
    let r = src.work(2);
    assert_eq!(r.items, vec![7, 8]);
    assert!(!r.call_again);
    tx.close();
    let r = src.work(2);
    assert_eq!(r.items, vec![9]);
    assert!(r.call_again && !r.finished);
    let r = src.work(2);
    assert!(r.items.is_empty() && r.finished);
}
