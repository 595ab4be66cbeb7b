use tty_web::scrollback::{Scrollback, SCROLLBACK_LIMIT};
use tty_web::session::{Session, ORPHAN_TIMEOUT_MS};
use tty_web::sid::format_session_id;
use tty_web::store::SessionStore;

#[test]
fn scrollback_keeps_appended_bytes() {
    let mut sb = Scrollback::new();
    sb.append(b"hello ");
    sb.append(b"world");
    assert_eq!(sb.snapshot(), b"hello world".to_vec());
    assert_eq!(sb.len(), 11);
}

#[test]
fn scrollback_is_bounded_and_keeps_the_tail() {
    let mut sb = Scrollback::new();
    let chunk: Vec<u8> = (0..=255u8).collect();
    // Push well past the limit: 80 KiB of a repeating pattern.
    let mut total: Vec<u8> = Vec::new();
    for _ in 0..320 {
        sb.append(&chunk);
        total.extend_from_slice(&chunk);
        assert!(sb.len() <= SCROLLBACK_LIMIT);
    }
    assert_eq!(sb.len(), SCROLLBACK_LIMIT);
    let snap = sb.snapshot();
    assert_eq!(&snap[..], &total[total.len() - SCROLLBACK_LIMIT..]);
}

#[test]
fn fresh_session_has_no_clients() {
    let s = Session::new();
    assert_eq!(s.client_count(), 0);
    assert_eq!(s.detached_at_ms(), None);
    assert_eq!(s.scrollback_len(), 0);
}

#[test]
fn attach_returns_scrollback_snapshot() {
    let mut s = Session::new();
    s.note_output(b"hello\r\n");
    let snapshot = s.attach();
    assert_eq!(snapshot, b"hello\r\n".to_vec());
    assert_eq!(s.client_count(), 1);
    assert_eq!(s.detached_at_ms(), None);
}

#[test]
fn attach_snapshot_meets_later_output_without_gap() {
    let mut s = Session::new();
    s.note_output(b"before ");
    let snapshot = s.attach();
    // Bytes published after the attach arrive only on the subscription.
    s.note_output(b"after");
    let mut seen = snapshot.clone();
    seen.extend_from_slice(b"after");
    assert_eq!(seen, b"before after".to_vec());
}

#[test]
fn two_clients_share_one_session() {
    let mut s = Session::new();
    let snap_a = s.attach();
    let snap_b = s.attach();
    assert_eq!(snap_a, snap_b);
    assert_eq!(s.client_count(), 2);
    // Closing one client does not affect the other.
    s.detach(5);
    assert_eq!(s.client_count(), 1);
    assert_eq!(s.detached_at_ms(), None);
    // The last detach starts the orphan clock.
    s.detach(9);
    assert_eq!(s.client_count(), 0);
    assert_eq!(s.detached_at_ms(), Some(9));
}

#[test]
fn reattach_clears_the_orphan_clock() {
    let mut s = Session::new();
    let _ = s.attach();
    s.detach(100);
    assert_eq!(s.detached_at_ms(), Some(100));
    let _ = s.attach();
    assert_eq!(s.detached_at_ms(), None);
    assert_eq!(s.client_count(), 1);
}

#[test]
fn orphan_needs_the_full_timeout() {
    let mut s = Session::new();
    let _ = s.attach();
    s.detach(1000);
    assert!(!s.is_orphaned(1000));
    assert!(!s.is_orphaned(1000 + ORPHAN_TIMEOUT_MS - 1));
    assert!(s.is_orphaned(1000 + ORPHAN_TIMEOUT_MS));
}

#[test]
fn attached_session_is_never_an_orphan() {
    let mut s = Session::new();
    let _ = s.attach();
    assert!(!s.is_orphaned(u64::MAX));
    assert!(!s.should_reap(false, u64::MAX));
}

#[test]
fn dead_detached_session_is_reaped_at_once() {
    let s = Session::new();
    // The shell closed; no client attached: removed whatever the clock says.
    assert!(s.should_reap(true, 0));
}

#[test]
fn dead_session_with_client_waits_for_detach() {
    let mut s = Session::new();
    let _ = s.attach();
    assert!(!s.should_reap(true, 0));
    s.detach(3);
    assert!(s.should_reap(true, 3));
}

#[test]
fn orphaned_session_is_reaped_even_alive() {
    let mut s = Session::new();
    let _ = s.attach();
    s.detach(0);
    assert!(s.should_reap(false, ORPHAN_TIMEOUT_MS));
}

#[test]
fn store_insert_then_get() {
    let mut store: SessionStore<u32> = SessionStore::new();
    let id = store.insert(7);
    assert_eq!(store.len(), 1);
    assert!(store.contains(id));
    assert_eq!(store.get(id).copied(), Some(7));
    assert_eq!(format_session_id(id).len(), 36);
}

#[test]
fn store_ids_are_distinct() {
    let mut store: SessionStore<&'static str> = SessionStore::new();
    let a = store.insert("a");
    let b = store.insert("b");
    assert_ne!(a, b);
    assert_eq!(store.get(a).copied(), Some("a"));
    assert_eq!(store.get(b).copied(), Some("b"));
    assert_eq!(store.len(), 2);
}

#[test]
fn removed_session_no_longer_resolves() {
    let mut store: SessionStore<u32> = SessionStore::new();
    let id = store.insert(1);
    let other = store.insert(2);
    assert!(store.remove(id));
    assert!(store.get(id).is_none());
    assert!(!store.contains(id));
    assert_eq!(store.get(other).copied(), Some(2));
    // A second removal finds nothing.
    assert!(!store.remove(id));
    assert_eq!(store.len(), 1);
}

#[test]
fn unknown_id_resolves_to_nothing() {
    let store: SessionStore<u32> = SessionStore::new();
    assert!(store.get(42).is_none());
    assert!(!store.contains(42));
}
