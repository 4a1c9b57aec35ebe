use dioxus_toast::{group_by_position, Icon, Position, ToastInfo, ToastManager, ID};

fn ids(m: &ToastManager) -> Vec<usize> {
    m.snapshot().iter().map(|e| e.0).collect()
}

fn timed(text: &str, position: Position, ttl: Option<usize>) -> ToastInfo {
    ToastInfo {
        heading: None,
        context: text.to_string(),
        allow_toast_close: true,
        position,
        icon: None,
        hide_after: ttl,
    }
}

#[test]
fn id_counts_up_from_one() {
    let mut id = ID::new();
    assert_eq!(id.get(), 1);
    assert_eq!(id.add(), 1);
    assert_eq!(id.add(), 2);
    assert_eq!(id.get(), 3);
}

#[test]
fn default_capacity_evicts_first_of_seven() {
    let mut m = ToastManager::default();
    assert_eq!(m.capacity(), 6);
    let mut issued = Vec::new();
    for k in 1..=7 {
        issued.push(m.popup(ToastInfo::simple(&format!("toast {}", k))));
    }
    assert_eq!(issued, vec![1, 2, 3, 4, 5, 6, 7]);
    assert_eq!(ids(&m), vec![2, 3, 4, 5, 6, 7]);
    let texts: Vec<String> = m.snapshot().iter().map(|e| e.1.info.context.clone()).collect();
    assert_eq!(texts, vec!["toast 2", "toast 3", "toast 4", "toast 5", "toast 6", "toast 7"]);
}

#[test]
fn identifiers_are_distinct() {
    let mut m = ToastManager::new(2);
    let mut issued = Vec::new();
    for _ in 0..50 {
        issued.push(m.popup_at(ToastInfo::simple("x"), 10));
    }
    let mut sorted = issued.clone();
    sorted.sort();
    sorted.dedup();
    assert_eq!(sorted.len(), 50);
}

#[test]
fn store_never_exceeds_capacity() {
    for cap in 0..5u8 {
        let mut m = ToastManager::new(cap);
        for k in 0..12 {
            m.popup_at(ToastInfo::simple("x"), k);
            assert!(m.snapshot().len() <= cap as usize);
        }
    }
}

#[test]
fn fifo_eviction_keeps_last_capacity() {
    let mut m = ToastManager::new(3);
    for k in 0..4 {
        m.popup_at(ToastInfo::simple(&format!("{}", k)), 0);
    }
    assert_eq!(ids(&m), vec![2, 3, 4]);
}

#[test]
fn zero_capacity_still_returns_identifier() {
    let mut m = ToastManager::new(0);
    assert_eq!(m.popup_at(ToastInfo::simple("gone"), 0), 1);
    assert_eq!(m.popup_at(ToastInfo::simple("gone"), 0), 2);
    assert!(m.snapshot().is_empty());
}

#[test]
fn expiry_is_stored_absolute() {
    let mut m = ToastManager::new(6);
    m.popup_at(timed("a", Position::BottomLeft, Some(5)), 100_000);
    m.popup_at(timed("b", Position::BottomLeft, None), 100_000);
    assert_eq!(m.snapshot()[0].1.hide_after, Some(105_000));
    assert_eq!(m.snapshot()[1].1.hide_after, None);
}

#[test]
fn record_kept_before_expiry_and_dropped_at_it() {
    let mut m = ToastManager::new(6);
    let id = m.popup_at(timed("a", Position::BottomLeft, Some(5)), 100_900);
    m.sweep_expired(105_899);
    assert_eq!(ids(&m), vec![id]);
    m.sweep_expired(105_900);
    assert!(m.snapshot().is_empty());
}

#[test]
fn one_second_toast_gone_after_sweep() {
    let mut m = ToastManager::default();
    m.popup_at(timed("short", Position::BottomLeft, Some(1)), 1_000_000);
    m.sweep_expired(1_001_100);
    assert!(m.snapshot().is_empty());
}

#[test]
fn zero_duration_expires_on_first_sweep() {
    let mut m = ToastManager::default();
    m.popup_at(timed("now", Position::TopLeft, Some(0)), 50);
    m.sweep_expired(50);
    assert!(m.snapshot().is_empty());
}

#[test]
fn permanent_toast_survives_sweeps() {
    let mut m = ToastManager::default();
    let id = m.popup_at(timed("stay", Position::BottomLeft, None), 1_000_000);
    m.sweep_expired(2_000_000);
    m.sweep_expired(i64::MAX);
    assert_eq!(ids(&m), vec![id]);
}

#[test]
fn sweep_keeps_order_of_survivors() {
    let mut m = ToastManager::default();
    m.popup_at(timed("a", Position::BottomLeft, None), 0);
    m.popup_at(timed("b", Position::BottomLeft, Some(1)), 0);
    m.popup_at(timed("c", Position::BottomLeft, Some(10)), 0);
    m.popup_at(timed("d", Position::BottomLeft, None), 0);
    m.sweep_expired(5_000);
    assert_eq!(ids(&m), vec![1, 3, 4]);
}

#[test]
fn sweep_reads_the_clock() {
    let mut m = ToastManager::default();
    let old = m.popup_at(timed("old", Position::BottomLeft, Some(1)), 0);
    let fresh = m.popup(ToastInfo::simple("fresh"));
    m.sweep();
    assert_eq!(ids(&m), vec![fresh]);
    assert_ne!(old, fresh);
}

#[test]
fn one_second_toast_kept_before_its_second() {
    let mut m = ToastManager::default();
    let id = m.popup_at(timed("short", Position::BottomLeft, Some(1)), 1_000_900);
    m.sweep_expired(1_001_100);
    assert_eq!(ids(&m), vec![id]);
}

#[test]
fn eviction_after_removal_drops_oldest() {
    let mut m = ToastManager::new(2);
    m.popup_at(ToastInfo::simple("a"), 0);
    m.popup_at(ToastInfo::simple("b"), 0);
    m.remove(2);
    m.popup_at(ToastInfo::simple("c"), 0);
    m.popup_at(ToastInfo::simple("d"), 0);
    assert_eq!(ids(&m), vec![3, 4]);
}

#[test]
fn remove_takes_exactly_one() {
    let mut m = ToastManager::default();
    for _ in 0..3 {
        m.popup_at(ToastInfo::simple("x"), 0);
    }
    m.remove(2);
    assert_eq!(ids(&m), vec![1, 3]);
}

#[test]
fn remove_unknown_identifier_changes_nothing() {
    let mut m = ToastManager::default();
    m.popup_at(ToastInfo::simple("a"), 0);
    m.popup_at(ToastInfo::simple("b"), 0);
    m.remove(999);
    assert_eq!(ids(&m), vec![1, 2]);
}

#[test]
fn clear_then_popup() {
    let mut m = ToastManager::default();
    for _ in 0..4 {
        m.popup_at(ToastInfo::simple("x"), 0);
    }
    m.clear();
    assert!(m.snapshot().is_empty());
    let id = m.popup_at(ToastInfo::simple("y"), 0);
    assert_eq!(id, 5);
    assert_eq!(ids(&m), vec![5]);
}

#[test]
fn grouping_two_corners() {
    let mut m = ToastManager::default();
    let a = m.popup_at(timed("A", Position::BottomLeft, None), 0);
    let b = m.popup_at(timed("B", Position::TopRight, None), 0);
    let snap = m.snapshot();
    let g = group_by_position(snap);
    let bl: Vec<usize> = g.bottom_left.iter().map(|&i| snap[i].0).collect();
    let tr: Vec<usize> = g.top_right.iter().map(|&i| snap[i].0).collect();
    assert_eq!(bl, vec![a]);
    assert_eq!(tr, vec![b]);
    assert!(g.bottom_right.is_empty());
    assert!(g.top_left.is_empty());
}

#[test]
fn grouping_partitions_in_order() {
    let mut m = ToastManager::default();
    let corners = [
        Position::TopLeft,
        Position::BottomRight,
        Position::TopLeft,
        Position::BottomLeft,
        Position::TopRight,
        Position::TopLeft,
    ];
    for p in corners.iter() {
        m.popup_at(timed("x", *p, None), 0);
    }
    let g = group_by_position(m.snapshot());
    assert_eq!(g.top_left, vec![0, 2, 5]);
    assert_eq!(g.bottom_right, vec![1]);
    assert_eq!(g.bottom_left, vec![3]);
    assert_eq!(g.top_right, vec![4]);
}

#[test]
fn constructors_fill_defaults() {
    let s = ToastInfo::simple("hello");
    assert_eq!(s.context, "hello");
    assert_eq!(s.heading, None);
    assert!(s.allow_toast_close);
    assert_eq!(s.position, Position::BottomLeft);
    assert_eq!(s.icon, None);
    assert_eq!(s.hide_after, Some(6));

    let cases = [
        (ToastInfo::success("t", "h"), Icon::Success),
        (ToastInfo::warning("t", "h"), Icon::Warning),
        (ToastInfo::info("t", "h"), Icon::Info),
        (ToastInfo::error("t", "h"), Icon::Error),
    ];
    for (info, icon) in cases.iter() {
        assert_eq!(info.context, "t");
        assert_eq!(info.heading.as_deref(), Some("h"));
        assert_eq!(info.icon, Some(*icon));
        assert_eq!(info.position, Position::BottomLeft);
        assert_eq!(info.hide_after, Some(6));
        assert!(info.allow_toast_close);
    }
}
