use flexc::Manager;
use flexc::State;

type Pool = flexc::Pool<UnitManager>;

struct UnitManager;

impl Manager for UnitManager {
    type Connection = u8;
    type Error = ();

    fn connect(&mut self) -> Result<u8, ()> {
        Ok(0)
    }

    fn check(&mut self, _conn: &mut u8) -> Result<(), ()> {
        Ok(())
    }
}

#[test]
fn state_roundtrip_from_pool() {
    let mut pool = Pool::builder()
        .maxsize(5)
        .timeout(Some(100))
        .check(Some(0))
        .build(UnitManager);

    let h = pool.get(0).unwrap();
    let st = pool.state();
    assert_eq!(st.inuse, 1);

    let bytes = st.encode();
    assert_eq!(bytes.len(), 28);
    let back = State::decode(&bytes);
    assert_eq!(back, Some(st.clone()));

    pool.checkin(h);
}

#[test]
fn state_roundtrip_concrete_values() {
    let st = State {
        maxsize: 0xffff_ffff,
        empty: 0,
        size: 1,
        inuse: 0x0102_0304,
        idle: 7,
        incheck: 256,
        wait: 65536,
    };
    let bytes = st.encode();
    assert_eq!(bytes.len(), 28);
    assert_eq!(State::decode(&bytes), Some(st));
}

#[test]
fn decode_rejects_wrong_length() {
    assert_eq!(State::decode(&Vec::new()), None);
    assert_eq!(State::decode(&vec![0u8; 27]), None);
    assert_eq!(State::decode(&vec![0u8; 29]), None);
    let zeros = State::decode(&vec![0u8; 28]).unwrap();
    assert_eq!(zeros, State::default());
}

#[test]
fn encoding_is_big_endian_per_field() {
    let st = State { maxsize: 1, empty: 2, size: 3, inuse: 4, idle: 5, incheck: 6, wait: 7 };
    let bytes = st.encode();
    let expected = vec![
        0u8, 0, 0, 1, 0, 0, 0, 2, 0, 0, 0, 3, 0, 0, 0, 4, 0, 0, 0, 5, 0, 0, 0, 6, 0, 0, 0, 7,
    ];
    assert_eq!(bytes, expected);
}
