use flexc::Error;
use flexc::Manager;
use flexc::Stage;

type Pool = flexc::Pool<FlakyManager>;

/// The error of a result whose success carries a pool handle, which has no
/// `Debug` form.
fn expect_err<T>(r: Result<T, Error<&'static str>>) -> Error<&'static str> {
    match r {
        Err(e) => e,
        Ok(_) => panic!("expected an error"),
    }
}

/// A manager that can be configured to fail: every `connect`, or a range of
/// `check` invocations.
struct FlakyManager {
    connect_attempts: usize,
    checks: usize,
    fail_connect: bool,
    fail_connect_from: Option<usize>,
    bad_checks: Option<(usize, usize)>,
}

struct FlakyConn {
    id: usize,
}

impl FlakyManager {
    fn reliable() -> Self {
        FlakyManager {
            connect_attempts: 0,
            checks: 0,
            fail_connect: false,
            fail_connect_from: None,
            bad_checks: None,
        }
    }

    fn failing_connect() -> Self {
        FlakyManager {
            connect_attempts: 0,
            checks: 0,
            fail_connect: true,
            fail_connect_from: None,
            bad_checks: None,
        }
    }

    fn bad_check_range(from: usize, to: usize) -> Self {
        FlakyManager {
            connect_attempts: 0,
            checks: 0,
            fail_connect: false,
            fail_connect_from: None,
            bad_checks: Some((from, to)),
        }
    }

    fn failing_connect_from(from: usize) -> Self {
        FlakyManager {
            connect_attempts: 0,
            checks: 0,
            fail_connect: false,
            fail_connect_from: Some(from),
            bad_checks: None,
        }
    }
}

impl Manager for FlakyManager {
    type Connection = FlakyConn;
    type Error = &'static str;

    fn connect(&mut self) -> Result<FlakyConn, &'static str> {
        let id = self.connect_attempts;
        self.connect_attempts += 1;
        if self.fail_connect {
            return Err("connect refused");
        }
        if let Some(from) = self.fail_connect_from {
            if id >= from {
                return Err("connect refused");
            }
        }
        Ok(FlakyConn { id })
    }

    fn check(&mut self, _conn: &mut FlakyConn) -> Result<(), &'static str> {
        let n = self.checks;
        self.checks += 1;
        if let Some((from, to)) = self.bad_checks {
            if n >= from && n < to {
                return Err("check refused");
            }
        }
        Ok(())
    }
}

#[test]
fn lib_it_works() {
    assert_eq!(2 + 2, 4);
}

#[test]
fn saturation_times_out_at_wait() {
    let mut pool = Pool::builder()
        .maxsize(1)
        .timeout(Some(0))
        .check(None)
        .build(FlakyManager::reliable());

    let held = pool.get(0).unwrap();

    let err = expect_err(pool.get(0));
    assert!(err.is_timeout());
    assert!(matches!(err, Error::Timeout(Stage::Wait)));
    if let Error::Timeout(stage) = err {
        assert_eq!(stage.tag(), "wait");
    }

    // Without waiting, saturation is reported as no handle rather than an
    // error.
    assert!(pool.try_get(0).unwrap().is_none());

    // Returning the held handle frees the pool again.
    pool.checkin(held);
    let h = pool.get(1).unwrap();
    pool.checkin(h);
}

#[test]
fn connect_failure_surfaces_inner_and_retries() {
    let mut pool = Pool::builder()
        .maxsize(2)
        .timeout(Some(100))
        .check(None)
        .build(FlakyManager::failing_connect());

    let err = expect_err(pool.get(0));
    assert!(err.is_inner());
    let st = pool.state();
    assert_eq!(st.empty, st.maxsize);
    assert_eq!(pool.manager().connect_attempts, 1);

    // The next call attempts to connect again: no internal retry, no
    // poisoned slot.
    let err = expect_err(pool.get(1));
    assert!(err.is_inner());
    assert_eq!(err.into_inner(), Some("connect refused"));
    assert_eq!(pool.manager().connect_attempts, 2);
    let st = pool.state();
    assert_eq!(st.empty, st.maxsize);
}

#[test]
fn bad_check_window() {
    const GETS: usize = 100;
    const MAX_SIZE: u32 = 12;
    const BAD_FROM: usize = 10;
    const BAD_TO: usize = 20;

    let mut pool = Pool::builder()
        .maxsize(MAX_SIZE as usize)
        .timeout(Some(1000))
        .check(Some(0))
        .build(FlakyManager::bad_check_range(BAD_FROM, BAD_TO));

    let mut okc = 0usize;
    let mut errc = 0usize;
    let mut held = Vec::new();

    for _ in 0..BAD_FROM {
        held.push(pool.get(0).unwrap());
        okc += 1;
    }

    for _ in BAD_FROM..BAD_TO {
        assert!(expect_err(pool.get(0)).is_inner());
        errc += 1;
    }

    for _ in BAD_TO..GETS {
        let h = pool.get(0).unwrap();
        okc += 1;
        pool.checkin(h);
    }

    assert_eq!(okc, GETS - BAD_TO + BAD_FROM);
    assert_eq!(errc, BAD_TO - BAD_FROM);

    // Take every held resource out, return the emptied handles, then
    // saturate the pool completely.
    for mut h in held.drain(..) {
        let _ = h.take();
        pool.checkin(h);
    }
    let mut all = Vec::new();
    for _ in 0..MAX_SIZE {
        all.push(pool.get(0).unwrap());
    }
    assert_eq!(all.len() as u32, MAX_SIZE);
    let st = pool.state();
    assert_eq!(st.maxsize, MAX_SIZE);
    assert_eq!(st.size, MAX_SIZE);
    assert_eq!(st.inuse, MAX_SIZE);
    assert_eq!(st.idle, 0);

    assert!(expect_err(pool.get(0)).is_timeout());
    assert!(pool.try_get(0).unwrap().is_none());

    for h in all {
        pool.checkin(h);
    }
}

#[test]
fn closed_pool_refuses_every_call() {
    let mut pool = Pool::builder()
        .maxsize(2)
        .timeout(Some(100))
        .check(None)
        .build(FlakyManager::reliable());

    let held = pool.get(0).unwrap();
    pool.close();

    assert!(expect_err(pool.get(1)).is_closed());
    assert!(expect_err(pool.try_get(1)).is_closed());
    assert!(pool.start_connections(1).err().map(|e| e.is_closed()).unwrap_or(false));

    // A handle checked in after close is retired: the permit is not
    // released and the pool stays closed.
    pool.checkin(held);
    assert!(expect_err(pool.get(2)).is_closed());
}

#[test]
fn saturated_then_released() {
    let mut pool = Pool::builder()
        .maxsize(10)
        .timeout(Some(100))
        .check(None)
        .build(FlakyManager::reliable());

    let mut held = Vec::new();
    for _ in 0..10 {
        held.push(pool.get(0).unwrap());
    }
    assert!(expect_err(pool.get(0)).is_timeout());

    for h in held.drain(..) {
        pool.checkin(h);
    }
    let h = pool.get(1).unwrap();
    pool.checkin(h);
}

#[test]
fn error_predicates() {
    let inner: Error<&'static str> = Error::Inner("boom");
    assert!(inner.is_inner());
    assert!(!inner.is_timeout());
    assert!(!inner.is_closed());
    assert_eq!(inner.into_inner(), Some("boom"));

    let timeout: Error<&'static str> = Error::Timeout(Stage::Connect);
    assert!(timeout.is_timeout());
    assert!(!timeout.is_inner());
    assert_eq!(timeout.into_inner(), None);

    let converted: Error<&'static str> = Error::from("lost");
    assert!(converted.is_inner());
    assert_eq!(converted.into_inner(), Some("lost"));

    let closed: Error<&'static str> = Error::Closed;
    assert!(closed.is_closed());
    assert!(!closed.is_inner());
    assert!(!closed.is_timeout());
    assert_eq!(closed.into_inner(), None);
}

#[test]
fn warm_up_stops_at_first_failure() {
    let mut pool = Pool::builder()
        .maxsize(3)
        .timeout(Some(100))
        .check(None)
        .build(FlakyManager::failing_connect_from(1));

    // The second connect fails: the first slot is warm, the failing slot
    // and the one after it stay empty, and the failure surfaces as Inner.
    let err = pool.start_connections(0).err().unwrap();
    assert!(err.is_inner());
    let st = pool.state();
    assert_eq!(st.idle, 1);
    assert_eq!(st.empty, 2);
    assert_eq!(st.inuse, 0);
    assert_eq!(pool.manager().connect_attempts, 2);
}
