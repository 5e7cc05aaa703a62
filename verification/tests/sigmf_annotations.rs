use fsdr_blocks::sigmf::annotation_tags;

#[test]
fn annotations_in_the_window_become_tags() {
    let starts = [Some(100), None, Some(104), Some(110), Some(105)];
    let r = annotation_tags(&starts, 100, 10);
    assert_eq!(r.removed, 3);
    assert_eq!(r.tags, vec![(0, 0), (2, 4)]);
}

#[test]
fn annotation_before_the_window_stops_the_scan() {
    let starts = [Some(3), Some(12)];
    let r = annotation_tags(&starts, 10, 5);
    assert_eq!(r.removed, 0);
    assert!(r.tags.is_empty());
}

#[test]
fn annotations_without_start_are_dropped_and_empty_reads_tag_nothing() {
    let starts = [None, None, Some(0)];
    let r = annotation_tags(&starts, 0, 0);
    assert_eq!(r.removed, 2);
    assert!(r.tags.is_empty());
    let r = annotation_tags(&[], 0, 8);
    assert_eq!(r.removed, 0);
}
