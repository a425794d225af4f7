use synapse::throttle::{ThrottleData, Throttler, URATE};

#[test]
fn throttle_zero_rate_is_unlimited() {
    let mut b = ThrottleData::new(0, 1024);
    assert_eq!(b.get_tokens(1_000_000_000), Ok(()));
    assert_eq!(b.last_used, 1_000_000_000);
    assert_eq!(b.tokens, 0);
}

#[test]
fn throttle_refill_ceiling() {
    let mut b = ThrottleData::new(100, 1000);
    for _ in 0..1000 {
        b.add_tokens();
    }
    assert_eq!(b.tokens, 1000);
}

#[test]
fn one_tick_adds_rate_times_period() {
    let mut b = ThrottleData::new(10, 1000);
    assert_eq!(b.add_tokens(), 0);
    assert_eq!(b.tokens, 10 * URATE);
}

#[test]
fn refused_request_changes_nothing() {
    let mut b = ThrottleData::new(100, 1000);
    b.add_tokens();
    assert_eq!(b.get_tokens(1501), Err(()));
    assert_eq!(b.tokens, 1000);
    assert_eq!(b.last_used, 0);
    assert_eq!(b.get_tokens(400), Ok(()));
    assert_eq!(b.tokens, 600);
    assert_eq!(b.last_used, 400);
}

#[test]
fn restore_inverts_take() {
    let mut b = ThrottleData::new(100, 1000);
    b.add_tokens();
    b.get_tokens(300).unwrap();
    b.restore_tokens(300);
    assert_eq!(b.tokens, 1000);
    assert_eq!(b.last_used, 0);
}

#[test]
fn restore_after_tick_clamps_usage() {
    let mut b = ThrottleData::new(100, 1000);
    b.add_tokens();
    b.get_tokens(300).unwrap();
    b.add_tokens();
    b.restore_tokens(300);
    assert_eq!(b.last_used, 0);
}

#[test]
fn tick_reports_bytes_per_second() {
    let mut b = ThrottleData::new(0, 1000);
    b.get_tokens(3000).unwrap();
    assert_eq!(b.add_tokens(), 3000 / 15 * 1000);
    assert_eq!(b.last_used, 0);
}

#[test]
fn granted_over_window_is_bounded() {
    let mut b = ThrottleData::new(10, 100);
    let mut granted: usize = 0;
    let ticks: usize = 20;
    for _ in 0..ticks {
        b.add_tokens();
        for _ in 0..10 {
            if b.get_tokens(70).is_ok() {
                granted += 70;
            }
        }
    }
    assert!(granted <= 10 * URATE * ticks + 100);
    assert!(granted > 0);
}

#[test]
fn refused_peer_is_flushed_once() {
    let mut t = Throttler::new(100, 100, 1000, 7, 8);
    let h = t.get_throttle(42);
    assert_eq!(h.get_bytes_dl(&mut t, 10), Err(()));
    assert_eq!(h.get_bytes_dl(&mut t, 10), Err(()));
    assert_eq!(t.flush_dl(), vec![42]);
    assert_eq!(t.flush_dl(), Vec::<usize>::new());
    assert_eq!(t.id(), 7);
    assert_eq!(t.fid(), 8);
}

#[test]
fn released_handle_leaves_both_sets() {
    let mut t = Throttler::new(100, 100, 1000, 1, 2);
    let h = t.get_throttle(5);
    let other = h.new_sibling(6);
    assert!(h.get_bytes_ul(&mut t, 10).is_err());
    assert!(h.get_bytes_dl(&mut t, 10).is_err());
    assert!(other.get_bytes_ul(&mut t, 10).is_err());
    h.release(&mut t);
    assert_eq!(t.flush_ul(), vec![6]);
    assert_eq!(t.flush_dl(), Vec::<usize>::new());
}

#[test]
fn update_reports_only_changes() {
    let mut t = Throttler::new(0, 0, 1000, 1, 2);
    assert_eq!(t.update(), None);
    let h = t.get_throttle(1);
    h.get_bytes_ul(&mut t, 150).unwrap();
    assert_eq!(t.update(), Some((10000, 0)));
    assert_eq!(t.update(), Some((0, 0)));
    assert_eq!(t.update(), None);
}

#[test]
fn rates_can_be_changed() {
    let mut t = Throttler::new(1, 2, 1000, 1, 2);
    assert_eq!(t.dl_rate(), 1);
    assert_eq!(t.ul_rate(), 2);
    t.set_dl_rate(5);
    t.set_ul_rate(6);
    let h = t.get_throttle(0);
    assert_eq!(h.dl_rate(&t), 5);
    assert_eq!(h.ul_rate(&t), 6);
    h.set_dl_rate(&mut t, 0);
    h.set_ul_rate(&mut t, 0);
    assert_eq!(t.dl_rate(), 0);
    assert_eq!(t.ul_rate(), 0);
}

#[test]
fn handle_restores_tokens() {
    let mut t = Throttler::new(10, 10, 1000, 1, 2);
    t.update();
    let h = t.get_throttle(3);
    h.get_bytes_ul(&mut t, 100).unwrap();
    h.get_bytes_dl(&mut t, 50).unwrap();
    h.restore_bytes_ul(&mut t, 100);
    h.restore_bytes_dl(&mut t, 50);
    assert_eq!(t.ul_data.tokens, 150);
    assert_eq!(t.dl_data.tokens, 150);
}
