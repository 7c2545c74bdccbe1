use rspi::pool::{PoolError, ProcessPool};

struct FakeSession {
    cmd_name: String,
    has_child: bool,
}

fn session(name: &str, has_child: bool) -> FakeSession {
    FakeSession { cmd_name: name.to_string(), has_child }
}

#[test]
fn orphan_then_adopt_by_name_round_trip() {
    let mut pool = ProcessPool::new();
    pool.orphan("top".to_string(), session("top", true));
    let before = pool.len();
    let s = session("sleep", true);
    let id = pool.orphan(s.cmd_name.clone(), s);
    assert_eq!(id, 1);
    let (i, p) = pool.adopt("sleep").unwrap();
    assert_eq!(i, 1);
    assert!(p.session.has_child);
    assert_eq!(p.session.cmd_name, "sleep");
    assert_eq!(p.name, "sleep");
    assert_eq!(pool.len(), before);
}

#[test]
fn adopt_by_name_ignores_ascii_case_and_takes_first() {
    let mut pool = ProcessPool::new();
    pool.orphan("Sleep".to_string(), 1u32);
    pool.orphan("sleep".to_string(), 2u32);
    let (i, p) = pool.adopt("SLEEP").unwrap();
    assert_eq!((i, p.session), (0, 1));
    assert_eq!(pool.get(0).session, 2);
}

#[test]
fn adopt_same_index_twice_fails_second_time() {
    let mut pool = ProcessPool::new();
    pool.orphan("sleep".to_string(), session("sleep", true));
    assert!(pool.adopt("0").is_ok());
    assert_eq!(pool.adopt("0").err(), Some(PoolError::NotFound));
    assert_eq!(pool.len(), 0);
}

#[test]
fn adopt_index_shifts_later_entries_down() {
    let mut pool = ProcessPool::new();
    pool.orphan("a".to_string(), 'a');
    pool.orphan("b".to_string(), 'b');
    pool.orphan("c".to_string(), 'c');
    assert_eq!(pool.adopt("1").unwrap().1.session, 'b');
    assert_eq!(pool.adopt("1").unwrap().1.session, 'c');
    assert_eq!(pool.adopt("1").err(), Some(PoolError::NotFound));
    assert_eq!(pool.len(), 1);
}

#[test]
fn adopt_missing_leaves_pool_unchanged() {
    let mut pool = ProcessPool::new();
    pool.orphan("sleep".to_string(), 5u8);
    assert_eq!(pool.adopt("vim").err(), Some(PoolError::NotFound));
    assert_eq!(pool.adopt("9").err(), Some(PoolError::NotFound));
    assert_eq!(pool.remove(3).err(), Some(PoolError::NotFound));
    assert_eq!(pool.len(), 1);
    assert_eq!(pool.position_by_name("SLEEP"), Some(0));
    assert_eq!(pool.position_by_name("vim"), None);
}

#[test]
fn listing_shows_index_name_and_status() {
    let mut pool = ProcessPool::new();
    assert_eq!(pool.listing(&[]), "\n");
    pool.orphan("sleep".to_string(), ());
    pool.orphan("None".to_string(), ());
    assert_eq!(pool.listing(&[true, false]), "0\tsleep\trunning\n1\tNone\tnot running\n");
}
