use ruget::{window, window_at, Window};

#[test]
fn windows_keep_forty_bytes_each_way() {
    assert_eq!(window(1000, 500), Window { start: 460, end: 540, mark: 40 });
    assert_eq!(window(1000, 10), Window { start: 0, end: 50, mark: 10 });
    assert_eq!(window(1000, 990), Window { start: 950, end: 1000, mark: 40 });
    assert_eq!(window(30, 15), Window { start: 0, end: 30, mark: 15 });
    assert_eq!(window(0, 0), Window { start: 0, end: 0, mark: 0 });
    assert_eq!(window(100, 100), Window { start: 60, end: 100, mark: 40 });
    assert_eq!(window(100, 250), Window { start: 60, end: 100, mark: 40 });
    assert_eq!(window(100, 40), Window { start: 0, end: 80, mark: 40 });
    assert_eq!(window(100, 60), Window { start: 20, end: 100, mark: 40 });
}

#[test]
fn windows_follow_lines_and_columns() {
    let text = format!("{}\n{}\n{}", "a".repeat(50), "b".repeat(50), "c".repeat(50));
    assert_eq!(window_at(&text, 1, 1), Window { start: 0, end: 40, mark: 0 });
    assert_eq!(window_at(&text, 2, 1), Window { start: 11, end: 91, mark: 40 });
    assert_eq!(window_at(&text, 2, 11), Window { start: 21, end: 101, mark: 40 });
    assert_eq!(window_at(&text, 3, 50), Window { start: 111, end: 152, mark: 40 });
    assert_eq!(window_at(&text, 9, 9), Window { start: 112, end: 152, mark: 40 });
    assert_eq!(window_at("äöü\nx", 1, 3), Window { start: 0, end: 8, mark: 4 });
    assert_eq!(window_at("", 1, 1), Window { start: 0, end: 0, mark: 0 });
}
