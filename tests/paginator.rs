use salmon::paginator::Paginator;

#[test]
fn test_paginator() {
    let vec: Vec<_> = (0..=28).collect();
    let mut paginator = Paginator::new(&vec, 10);

    assert_eq!(3, paginator.len());

    let mut i = 0;
    while let Some(p) = paginator.next() {
        match i {
            0 => {
                assert_eq!(10, p.len());
                assert_eq!((0..=9).collect::<Vec<_>>(), p);
            }
            1 => {
                assert_eq!(10, p.len());
                assert_eq!((10..=19).collect::<Vec<_>>(), p);
            }
            _ => {
                assert_eq!(9, p.len());
                assert_eq!((20..=28).collect::<Vec<_>>(), p);
            }
        }
        i += 1;
    }
    assert_eq!(3, i);
}

#[test]
fn page_count_on_exact_multiple() {
    let vec: Vec<u32> = (0..20).collect();
    let paginator = Paginator::new(&vec, 10);
    assert_eq!(2, paginator.len());
    assert_eq!(Some(&vec[10..20]), paginator.at(1));
    assert_eq!(None, paginator.at(2));
}

#[test]
fn page_sizes_of_twenty_nine_items() {
    let vec: Vec<u32> = (0..29).collect();
    let paginator = Paginator::new(&vec, 10);
    let sizes: Vec<usize> = (0..paginator.len()).map(|i| paginator.at(i).unwrap().len()).collect();
    assert_eq!(vec![10, 10, 9], sizes);
    assert_eq!(None, paginator.at(3));
}

#[test]
fn empty_sequence_has_no_pages() {
    let vec: Vec<u32> = Vec::new();
    let mut paginator = Paginator::new(&vec, 3);
    assert_eq!(0, paginator.len());
    assert_eq!(None, paginator.at(0));
    assert_eq!(None, paginator.next());
}

#[test]
fn next_stops_after_last_page() {
    let vec: Vec<u32> = (0..5).collect();
    let mut paginator = Paginator::new(&vec, 2);
    assert_eq!(Some(&vec[0..2]), paginator.next());
    assert_eq!(Some(&vec[2..4]), paginator.next());
    assert_eq!(Some(&vec[4..5]), paginator.next());
    assert_eq!(None, paginator.next());
    assert_eq!(None, paginator.next());
}
