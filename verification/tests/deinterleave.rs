use fsdr_blocks::stream::Deinterleave;

#[test]
fn deinterleave_u8() {
    let mut deinterleaver = Deinterleave::<u8>::new();

    let orig: Vec<u8> = vec![0, 1, 0, 1, 0, 1, 0, 1, 0, 1];
    let r = deinterleaver.work(&orig, 1024, 1024);
    let snk_0 = r.out0;
    let snk_1 = r.out1;

    assert_eq!(r.consumed, orig.len());
    assert_eq!(snk_0.len(), orig.len() / 2);
    assert_eq!(snk_0.len(), snk_1.len());
    assert!(snk_0.iter().all(|v| *v == 0));
    assert!(snk_1.iter().all(|v| *v == 1));
}

#[test]
fn deinterleave_odd_count_keeps_parity_across_calls() {
    let mut d = Deinterleave::<u32>::new();
    let a = d.work(&[10, 11, 12], 8, 8);
    assert_eq!(a.consumed, 3);
    assert_eq!(a.out0, vec![10, 12]);
    assert_eq!(a.out1, vec![11]);
    let b = d.work(&[13, 14, 15], 8, 8);
    assert_eq!(b.out0, vec![14]);
    assert_eq!(b.out1, vec![13, 15]);
}

#[test]
fn deinterleave_stops_when_due_output_is_full() {
    let mut d = Deinterleave::<u8>::new();
    let r = d.work(&[1, 2, 3, 4, 5, 6], 2, 1);
    assert_eq!(r.consumed, 3);
    assert_eq!(r.out0, vec![1, 3]);
    assert_eq!(r.out1, vec![2]);
    let r = d.work(&[4, 5, 6], 0, 5);
    assert_eq!(r.consumed, 1);
    assert_eq!(r.out0, Vec::<u8>::new());
    assert_eq!(r.out1, vec![4]);
}

#[test]
fn deinterleave_empty_input_and_no_room() {
    let mut d = Deinterleave::<i16>::default();
    let r = d.work(&[], 4, 4);
    assert_eq!(r.consumed, 0);
    let r = d.work(&[7, 8], 0, 4);
    assert_eq!(r.consumed, 0);
    assert!(r.out0.is_empty() && r.out1.is_empty());
}

#[test]
fn deinterleave_split_equals_whole() {
    let input: Vec<u16> = (0..21).collect();
    let mut whole = Deinterleave::<u16>::new();
    let w = whole.work(&input, 100, 100);
    let mut parts = Deinterleave::<u16>::new();
    let mut out0 = Vec::new();
    let mut out1 = Vec::new();
    for chunk in input.chunks(4) {
        let r = parts.work(chunk, 100, 100);
        out0.extend(r.out0);
        out1.extend(r.out1);
    }
    assert_eq!(out0, w.out0);
    assert_eq!(out1, w.out1);
    let mut rebuilt = Vec::new();
    for k in 0..out0.len() {
        rebuilt.push(out0[k]);
        if k < out1.len() {
            rebuilt.push(out1[k]);
        }
    }
    assert_eq!(rebuilt, input);
}
