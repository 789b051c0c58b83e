use boenmind::pdf_omni::layout::{chunk_ranges, grid_groups, layout_a4, sorted_pages, PageOutOfRange, A4_H, A4_MARGIN, A4_W};
use boenmind::pdf_omni::verify::{compute_stats, content_lines, count_mismatches, overlap_counts, stat_of, StatKey};
use boenmind::permission_store::{schema_supported, PermissionStore, CURRENT_VERSION};

#[test]
fn chunking_ranges() {
    assert_eq!(chunk_ranges(450, 190), vec![(0, 190), (190, 380), (380, 450)]);
    assert_eq!(chunk_ranges(190, 190), vec![(0, 190)]);
    assert_eq!(chunk_ranges(0, 190), vec![]);
}

#[test]
fn pages_sorted_and_grouped() {
    assert_eq!(sorted_pages(&vec![5, 1, 5, 3]), vec![1, 3, 5]);
    let g = grid_groups(&vec![9, 0, 1, 2, 3, 4, 1], 10).unwrap();
    assert_eq!(g, vec![vec![0, 1, 2, 3], vec![4, 9]]);
    assert_eq!(grid_groups(&vec![2, 12, 11], 10), Err(PageOutOfRange { requested: 12, total: 10 }));
    assert_eq!(grid_groups(&vec![], 10).unwrap(), Vec::<Vec<u64>>::new());
}

#[test]
fn a4_greedy_layout() {
    // Tallest first; rows wrap at the right margin; a new canvas when full.
    let sizes = vec![(500, 100), (500, 300), (500, 200), (1196, 1700)];
    let pages = layout_a4(&sizes);
    assert_eq!(pages.len(), 2);
    // canvas 1: the 1700-high image alone
    assert_eq!(pages[0].len(), 1);
    assert_eq!((pages[0][0].item, pages[0][0].x, pages[0][0].y), (3, A4_MARGIN, A4_MARGIN));
    // canvas 2: 300 and 200 side by side, then 100 on the next row
    let p = &pages[1];
    assert_eq!(p.iter().map(|q| q.item).collect::<Vec<_>>(), vec![1, 2, 0]);
    assert_eq!((p[0].x, p[0].y), (22, 22));
    assert_eq!((p[1].x, p[1].y), (22 + 500 + 15, 22));
    assert_eq!((p[2].x, p[2].y), (22, 22 + 300 + 15));
    for page in &pages {
        for q in page {
            assert!(q.x + q.w + A4_MARGIN <= A4_W && q.y + q.h + A4_MARGIN <= A4_H);
        }
    }
    assert!(layout_a4(&vec![]).is_empty());
}

#[test]
fn equal_heights_keep_order() {
    let pages = layout_a4(&vec![(100, 50), (100, 50), (100, 60)]);
    assert_eq!(pages[0].iter().map(|q| q.item).collect::<Vec<_>>(), vec![2, 0, 1]);
}

#[test]
fn content_lines_and_overlap() {
    let a = content_lines("# 同一份内容标题\n\n```\ncode line here\n```\n| t | x |\nshort\n同一份内容标题\nAnother long line");
    assert_eq!(a, vec!["同一份内容标题".to_string(), "Anotherlongline".to_string()]);
    let b = content_lines("Another long line\n新的一行文字内容");
    assert_eq!(overlap_counts(&a, &b), (1, 3));
    assert_eq!(overlap_counts(&vec![], &vec![]), (0, 0));
}

#[test]
fn stat_mismatches() {
    let s1 = compute_stats("a\n\nb");
    let s2 = compute_stats("a\n\n| x |");
    assert_eq!(count_mismatches(&s1, &s2), vec![StatKey::TableRows]);
    assert_eq!(count_mismatches(&s1, &s1), vec![]);
    assert_eq!(stat_of(&s1, StatKey::Paragraphs), 2);
    assert_eq!(stat_of(&s1, StatKey::Chars), 4);
}

#[test]
fn permission_schema_and_export() {
    assert!(schema_supported(CURRENT_VERSION));
    assert!(!schema_supported(2));
    let mut s = PermissionStore::new();
    s.record("a", "http", true);
    s.record("b", "exec", false);
    s.record("a", "http", false);
    let all = s.all_decisions();
    assert_eq!(all.len(), 2);
    assert!(all.iter().any(|(e, d)| e == "a" && d.capability == "http" && !d.allow));
}
