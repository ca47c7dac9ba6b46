use flexc::Manager;

type Pool = flexc::Pool<MockManager>;

/// A manager over plain in-memory resources, counting its invocations.
struct MockManager {
    connects: usize,
    checks: usize,
    next_id: usize,
}

struct MockConn {
    id: usize,
    count: usize,
}

impl MockManager {
    fn new() -> Self {
        MockManager { connects: 0, checks: 0, next_id: 0 }
    }
}

impl Manager for MockManager {
    type Connection = MockConn;
    type Error = ();

    fn connect(&mut self) -> Result<MockConn, ()> {
        self.connects += 1;
        let id = self.next_id;
        self.next_id += 1;
        Ok(MockConn { id, count: 0 })
    }

    fn check(&mut self, _conn: &mut MockConn) -> Result<(), ()> {
        self.checks += 1;
        Ok(())
    }
}

#[test]
fn it_works() {
    assert_eq!(2 + 2, 4);
}

#[test]
fn default_configuration() {
    let pool = Pool::new(MockManager::new());
    let st = pool.state();
    assert_eq!(st.maxsize, 20);
    assert_eq!(st.empty, 20);
    assert_eq!(st.size, 0);
    assert_eq!(st.wait, 0);
}

#[test]
fn basic_growth() {
    let mut pool = Pool::builder()
        .maxsize(16)
        .timeout(Some(1000))
        .check(Some(1000))
        .build(MockManager::new());

    let st = pool.state();
    assert_eq!(st.size, 0);
    assert_eq!(st.idle, 0);

    let con0 = pool.get(0).unwrap();
    let st = pool.state();
    assert_eq!(st.size, 1);
    assert_eq!(st.idle, 0);
    assert_eq!(pool.manager().connects, 1);

    let con1 = pool.get(0).unwrap();
    let st = pool.state();
    assert_eq!(st.size, 2);
    assert_eq!(st.idle, 0);
    assert_eq!(pool.manager().connects, 2);

    let con2 = pool.get(0).unwrap();
    let st = pool.state();
    assert_eq!(st.size, 3);
    assert_eq!(st.idle, 0);
    assert_eq!(pool.manager().connects, 3);

    pool.checkin(con0);
    let st = pool.state();
    assert_eq!(st.size, 3);
    assert_eq!(st.idle, 1);

    pool.checkin(con1);
    let st = pool.state();
    assert_eq!(st.size, 3);
    assert_eq!(st.idle, 2);

    pool.checkin(con2);
    let st = pool.state();
    assert_eq!(st.size, 3);
    assert_eq!(st.idle, 3);
    assert_eq!(pool.manager().connects, 3);
}

#[test]
fn prewarm() {
    let mut pool = Pool::builder()
        .maxsize(3)
        .timeout(Some(1000))
        .check(Some(0))
        .build(MockManager::new());

    pool.start_connections(0).unwrap();
    let st = pool.state();
    assert_eq!(st.size, 3);
    assert_eq!(st.idle, 3);
    assert_eq!(st.inuse, 0);
    assert_eq!(st.empty, 0);
    assert_eq!(pool.manager().connects, 3);
    assert_eq!(pool.manager().checks, 3);

    // With no empty slot left, warming again succeeds without consulting
    // the manager at all.
    pool.start_connections(0).unwrap();
    assert_eq!(pool.manager().connects, 3);
    assert_eq!(pool.manager().checks, 3);

    let h0 = pool.get(0).unwrap();
    let h1 = pool.get(0).unwrap();
    let h2 = pool.get(0).unwrap();
    let st = pool.state();
    assert_eq!(st.inuse, 3);
    assert_eq!(st.idle, 0);
    assert_eq!(pool.manager().connects, 3);
    assert_eq!(pool.manager().checks, 6);

    pool.checkin(h0);
    pool.checkin(h1);
    pool.checkin(h2);
}

#[test]
fn check_every_checkout_with_zero_interval() {
    let mut pool = Pool::builder()
        .maxsize(1)
        .timeout(Some(1000))
        .check(Some(0))
        .build(MockManager::new());

    for round in 1..=5usize {
        let h = pool.get(round as u64).unwrap();
        assert_eq!(pool.manager().checks, round);
        pool.checkin(h);
    }
    assert_eq!(pool.manager().connects, 1);
}

#[test]
fn check_skipped_within_interval() {
    let mut pool = Pool::builder()
        .maxsize(1)
        .timeout(Some(1000))
        .check(Some(10))
        .build(MockManager::new());

    // A fresh resource is always probed.
    let h = pool.get(0).unwrap();
    assert_eq!(pool.manager().checks, 1);
    pool.checkin(h);

    // Within the interval the probe is skipped.
    let h = pool.get(5).unwrap();
    assert_eq!(pool.manager().checks, 1);
    pool.checkin(h);

    // At the interval boundary the probe runs again.
    let h = pool.get(10).unwrap();
    assert_eq!(pool.manager().checks, 2);
    pool.checkin(h);
}

#[test]
fn same_resource_reused_without_check() {
    let mut pool = Pool::builder()
        .maxsize(1)
        .timeout(Some(1000))
        .check(None)
        .build(MockManager::new());

    let h = pool.get(0).unwrap();
    let first_id = h.con.as_ref().unwrap().id;
    assert_eq!(pool.manager().connects, 1);
    pool.checkin(h);

    let h = pool.get(1).unwrap();
    assert_eq!(h.con.as_ref().unwrap().id, first_id);
    assert_eq!(pool.manager().connects, 1);
    assert_eq!(pool.manager().checks, 0);
    pool.checkin(h);
}

#[test]
fn take_empties_the_slot() {
    let mut pool = Pool::builder()
        .maxsize(2)
        .timeout(Some(1000))
        .check(None)
        .build(MockManager::new());

    let mut h = pool.get(0).unwrap();
    let before = pool.state();
    let taken = h.take();
    assert_eq!(taken.count, 0);
    assert!(h.is_empty());
    pool.checkin(h);

    let after = pool.state();
    assert_eq!(after.empty, before.empty + 1);
    assert_eq!(after.size, before.size - 1);

    // The next checkout of that slot connects again.
    assert_eq!(pool.manager().connects, 1);
    let h = pool.get(0).unwrap();
    assert_eq!(pool.manager().connects, 2);
    pool.checkin(h);
}

#[test]
fn quiescence_returns_every_slot() {
    let mut pool = Pool::builder()
        .maxsize(3)
        .timeout(Some(1000))
        .check(Some(0))
        .build(MockManager::new());

    for round in 0..10u64 {
        let h = pool.get(round).unwrap();
        pool.checkin(h);
    }
    let st = pool.state();
    assert_eq!(st.inuse, 0);
    assert_eq!(st.incheck, 0);
    assert_eq!(st.idle + st.empty, st.maxsize);
}

#[test]
fn many_checkouts_through_one_slot() {
    let mut pool = Pool::builder()
        .maxsize(1)
        .timeout(Some(1000))
        .check(Some(0))
        .build(MockManager::new());

    let mut total = 0usize;
    for round in 0..100u64 {
        let mut h = pool.get(round).unwrap();
        h.con.as_mut().unwrap().count += 1;
        total += 1;
        pool.checkin(h);
    }
    assert_eq!(total, 100);
    let st = pool.state();
    assert_eq!(st.inuse, 0);
    assert_eq!(st.size, 1);
    assert_eq!(st.idle, 1);
    assert_eq!(pool.manager().connects, 1);
}

#[test]
fn fan_out_counters_sum_up() {
    let mut pool = Pool::builder()
        .maxsize(3)
        .timeout(Some(2000))
        .build(MockManager::new());

    pool.start_connections(0).unwrap();
    let st = pool.state();
    assert_eq!(st.idle, 3);
    assert_eq!(st.size, 3);
    assert_eq!(st.maxsize, 3);

    for round in 0..100u64 {
        let mut h = pool.get(round).unwrap();
        h.con.as_mut().unwrap().count += 1;
        pool.checkin(h);
    }

    let st = pool.state();
    assert_eq!(st.inuse, 0);
    assert_eq!(st.size, 3);
    assert_eq!(st.idle, 3);

    let values = [
        pool.get(200).unwrap(),
        pool.get(200).unwrap(),
        pool.get(200).unwrap(),
    ];
    let st = pool.state();
    assert_eq!(st.idle, 0);
    assert_eq!(st.inuse, 3);
    let sum: usize = values.iter().map(|h| h.con.as_ref().unwrap().count).sum();
    assert_eq!(sum, 100);
    for h in values {
        pool.checkin(h);
    }
}
