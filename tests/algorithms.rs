use page_replacement::algorithms::{
    fifo, lowest_class_of, count_of_class, lru, nru, nru_with_choice, recursive_second_chance,
    second_chance,
};
use page_replacement::MemoryPage;

#[test]
fn lru_should_return_expected() {
    let page_frames = vec![
        MemoryPage::new(2),
        MemoryPage::new(1),
        MemoryPage::new(0),
        MemoryPage::new(3),
    ];
    let page = MemoryPage::new(4);
    let past_pages = vec![7, 0, 1, 2, 0, 3, 0];

    let expected = vec![
        MemoryPage::new(2),
        MemoryPage::new(0),
        MemoryPage::new(3),
        MemoryPage::new(4),
    ];

    let res = lru(page_frames, page, past_pages);
    assert_eq!(res, expected);
}

#[test]
fn fifo_should_return_expected() {
    let page_frames = vec![MemoryPage::new(0), MemoryPage::new(3), MemoryPage::new(5)];
    let page = MemoryPage::new(6);
    let past_pages = vec![];
    let expected = vec![MemoryPage::new(3), MemoryPage::new(5), MemoryPage::new(6)];

    let res = fifo(page_frames, page, past_pages);
    assert_eq!(res, expected);
}

#[test]
fn second_chance_all_frame_no_second_chance_should_return_expected() {
    let page_frames = vec![MemoryPage::new(0), MemoryPage::new(1), MemoryPage::new(2)];
    let page = MemoryPage::new(3);
    let expected = vec![MemoryPage::new(1), MemoryPage::new(2), MemoryPage::new(3)];

    let res = second_chance(page_frames, page, vec![]);
    assert_eq!(res, expected);
}

#[test]
fn second_chance_oldest_page_referenced_should_replace_second_oldest() {
    let page_frames = vec![
        MemoryPage::new(0).referenced(),
        MemoryPage::new(1),
        MemoryPage::new(2),
    ];
    let page = MemoryPage::new(3);
    let expected = vec![MemoryPage::new(2), MemoryPage::new(0), MemoryPage::new(3)];
    let res = second_chance(page_frames, page, vec![]);
    assert_eq!(res, expected);
}

#[test]
fn second_chance_two_oldest_pages_referenced_should_replace_third_oldest() {
    let page_frames = vec![
        MemoryPage::new(0).referenced(),
        MemoryPage::new(1).referenced(),
        MemoryPage::new(2),
    ];
    let page = MemoryPage::new(3);
    let expected = vec![MemoryPage::new(0), MemoryPage::new(1), MemoryPage::new(3)];
    let res = second_chance(page_frames, page, vec![]);
    assert_eq!(res, expected);
}

#[test]
fn second_chance_all_pages_referenced_should_resort_to_replace_oldest() {
    let page_frames = vec![
        MemoryPage::new(0).referenced(),
        MemoryPage::new(1).referenced(),
        MemoryPage::new(2).referenced(),
    ];
    let page = MemoryPage::new(3);
    let expected = vec![MemoryPage::new(1), MemoryPage::new(2), MemoryPage::new(3)];
    let res = second_chance(page_frames, page, vec![]);
    assert_eq!(res, expected);
}

#[test]
fn nru_should_remove_nonmodified_nonreferenced() {
    let page_frames = vec![
        MemoryPage::new(4).referenced(),
        MemoryPage::new(2).modified_and_referenced(),
        MemoryPage::new(1).modified(),
        MemoryPage::new(0),
    ];

    let page = MemoryPage::new(6).referenced();
    let expected = vec![MemoryPage::new(4), MemoryPage::new(2), MemoryPage::new(1), MemoryPage::new(6)];
    let res = nru(page_frames, page, vec![]);
    assert_eq!(res, expected);
}

#[test]
fn nru_should_remove_modified_and_nonreferenced() {
    let page_frames = vec![
        MemoryPage::new(8).referenced(),
        MemoryPage::new(9).modified_and_referenced(),
        MemoryPage::new(1).modified(),
    ];
    let page = MemoryPage::new(3).referenced();
    let expected = vec![MemoryPage::new(8), MemoryPage::new(9), MemoryPage::new(3)];
    let res = nru(page_frames, page, vec![]);
    assert_eq!(res, expected);
}

#[test]
fn nru_should_remove_referenced() {
    let page_frames = vec![
        MemoryPage::new(9).modified_and_referenced(),
        MemoryPage::new(1).modified_and_referenced(),
        MemoryPage::new(8).referenced(),
    ];
    let page = MemoryPage::new(4).modified_and_referenced();
    let expected = vec![MemoryPage::new(9), MemoryPage::new(1), MemoryPage::new(4)];
    let res = nru(page_frames, page, vec![]);
    assert_eq!(res, expected);
}

#[test]
fn second_chance_spares_referenced_oldest_and_clears_its_bit() {
    let page_frames = vec![
        MemoryPage::new(0).referenced(),
        MemoryPage::new(1),
        MemoryPage::new(2),
    ];
    let res = recursive_second_chance(page_frames, MemoryPage::new(3));
    let numbers: Vec<u32> = res.iter().map(|p| p.number).collect();
    assert_eq!(numbers, vec![2, 0, 3]);
    assert!(!res[1].referenced);
    assert!(!res[2].referenced);
}

#[test]
fn second_chance_keeps_modify_bit_of_spared_page() {
    let page_frames = vec![
        MemoryPage::new(5).modified_and_referenced(),
        MemoryPage::new(6).modified(),
    ];
    let res = second_chance(page_frames, MemoryPage::new(7), vec![]);
    let numbers: Vec<u32> = res.iter().map(|p| p.number).collect();
    assert_eq!(numbers, vec![5, 7]);
    assert!(!res[0].referenced);
    assert!(res[0].modified);
}

#[test]
fn second_chance_single_frame_all_referenced() {
    let res = second_chance(vec![MemoryPage::new(1).referenced()], MemoryPage::new(2), vec![]);
    assert_eq!(res, vec![MemoryPage::new(2)]);
}

#[test]
fn lru_prefers_never_used_page() {
    let page_frames = vec![MemoryPage::new(1), MemoryPage::new(9), MemoryPage::new(2)];
    let res = lru(page_frames, MemoryPage::new(5), vec![1, 2]);
    assert_eq!(res, vec![MemoryPage::new(1), MemoryPage::new(2), MemoryPage::new(5)]);
}

#[test]
fn lru_evicts_earliest_latest_use() {
    let page_frames = vec![MemoryPage::new(0), MemoryPage::new(2), MemoryPage::new(3)];
    let res = lru(page_frames, MemoryPage::new(1), vec![0, 1, 2, 0, 3, 2]);
    assert_eq!(res, vec![MemoryPage::new(2), MemoryPage::new(3), MemoryPage::new(1)]);
}

#[test]
fn nru_with_choice_picks_nth_of_lowest_class() {
    let page_frames = vec![
        MemoryPage::new(1).referenced(),
        MemoryPage::new(2),
        MemoryPage::new(3).modified_and_referenced(),
        MemoryPage::new(4),
    ];
    assert_eq!(lowest_class_of(&page_frames), 0);
    assert_eq!(count_of_class(&page_frames, 0), 2);
    let first = nru_with_choice(page_frames.clone(), MemoryPage::new(9), 0);
    assert_eq!(first, vec![MemoryPage::new(1), MemoryPage::new(3), MemoryPage::new(4), MemoryPage::new(9)]);
    let second = nru_with_choice(page_frames, MemoryPage::new(9), 1);
    assert_eq!(second, vec![MemoryPage::new(1), MemoryPage::new(2), MemoryPage::new(3), MemoryPage::new(9)]);
}

#[test]
fn nru_never_evicts_above_lowest_class() {
    // Class 3 in front and class 2 behind; the two class-0 pages are the only candidates.
    for _ in 0..50 {
        let page_frames = vec![
            MemoryPage::new(10).modified_and_referenced(),
            MemoryPage::new(11),
            MemoryPage::new(12),
            MemoryPage::new(13).referenced(),
            MemoryPage::new(14).modified(),
        ];
        let res = nru(page_frames, MemoryPage::new(20), vec![]);
        let numbers: Vec<u32> = res.iter().map(|p| p.number).collect();
        assert_eq!(res.len(), 5);
        assert!(numbers.contains(&10));
        assert!(numbers.contains(&13));
        assert!(numbers.contains(&14));
        assert_eq!(numbers[4], 20);
        assert!(numbers.contains(&11) != numbers.contains(&12));
    }
}

#[test]
fn page_class_follows_bits() {
    assert_eq!(MemoryPage::new(1).class(), 0);
    assert_eq!(MemoryPage::new(1).modified().class(), 1);
    assert_eq!(MemoryPage::new(1).referenced().class(), 2);
    assert_eq!(MemoryPage::new(1).modified_and_referenced().class(), 3);
    assert_eq!(MemoryPage::new(1).modified_and_referenced().clear().class(), 0);
}

#[test]
fn referenced_keeps_modify_bit() {
    let p = MemoryPage::new(3).modified().referenced();
    assert_eq!(p.number, 3);
    assert!(p.referenced && p.modified);
    let q = MemoryPage::new(4).referenced().modified();
    assert!(q.referenced && q.modified);
}
