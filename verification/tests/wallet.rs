//! Address derivation paths and currency amounts.

use lightnode::bip44::{
    Account, AddrType, Addressing, Change, Error, Path, BIP44_COIN_TYPE, BIP44_PURPOSE,
};
use lightnode::coin;
use lightnode::coin::{Coin, MAX_COIN};
use lightnode::cbor::{ErrorKind, Value};

#[test]
fn account_must_be_hardened() {
    assert_eq!(Account::new(0), Err(Error::AccountOutOfBound(0)));
    assert!(Account::new(0x80000000).is_ok());
}

#[test]
fn sequential_addressing_from_account() {
    let addr = Account::new(0x80000000)
        .unwrap()
        .external()
        .unwrap()
        .index(0)
        .unwrap();
    assert_eq!(addr.index, 0);
    assert_eq!(addr.change, 0);
    assert_eq!(addr.address_type(), AddrType::External);
    let internal = Account::new(0x80000000).unwrap().internal().unwrap().index(3).unwrap();
    assert_eq!(internal.change, 1);
    assert_eq!(internal.address_type(), AddrType::Internal);
}

#[test]
fn change_and_index_must_be_soft() {
    let account = Account::new(0x80000000).unwrap();
    assert_eq!(Change::new(account, 0x80000000), Err(Error::ChangeOutOfBound(0x80000000)));
    let change = Change::new(account, 0).unwrap();
    assert_eq!(change.index(0x80000000), Err(Error::IndexOutOfBound(0x80000000)));
}

#[test]
fn addressing_bounds() {
    assert!(Addressing::new(0x80000000, AddrType::External).is_ok());
    assert!(Addressing::new(0, AddrType::External).is_err());
}

#[test]
fn path_roundtrip() {
    let addr = Addressing::new(0x80000000, AddrType::External).unwrap();
    let path = addr.to_path();
    assert_eq!(
        path.0,
        vec![BIP44_PURPOSE, BIP44_COIN_TYPE, 0x80000000, 0, 0]
    );
    assert_eq!(Addressing::from_path(path), Ok(addr));
}

#[test]
fn path_rejections() {
    assert_eq!(
        Addressing::from_path(Path(vec![1, 2, 3])),
        Err(Error::InvalidLength(3))
    );
    assert_eq!(
        Addressing::from_path(Path(vec![9, BIP44_COIN_TYPE, 0x80000000, 0, 0])),
        Err(Error::InvalidPurpose(9))
    );
    assert_eq!(
        Addressing::from_path(Path(vec![BIP44_PURPOSE, 9, 0x80000000, 0, 0])),
        Err(Error::InvalidType(9))
    );
    assert_eq!(
        Addressing::from_path(Path(vec![BIP44_PURPOSE, BIP44_COIN_TYPE, 9, 0, 0])),
        Err(Error::AccountOutOfBound(9))
    );
    assert_eq!(
        Addressing::from_path(Path(vec![
            BIP44_PURPOSE,
            BIP44_COIN_TYPE,
            0x80000000,
            0x80000000,
            0
        ])),
        Err(Error::ChangeOutOfBound(0x80000000))
    );
    assert_eq!(
        Addressing::from_path(Path(vec![
            BIP44_PURPOSE,
            BIP44_COIN_TYPE,
            0x80000000,
            0,
            0x80000000
        ])),
        Err(Error::IndexOutOfBound(0x80000000))
    );
}

#[test]
fn incrementing_the_index() {
    let addr = Addressing::new(0x80000000, AddrType::External).unwrap();
    let next = addr.incr(32).unwrap().incr(10).unwrap();
    assert_eq!(next.index, 42);
    assert_eq!(next.incr(0x80000000), Err(Error::IndexOutOfBound(0x80000000)));
}

#[test]
fn next_chunks_enumerates_indices() {
    let addr = Addressing::new(0x80000000, AddrType::External).unwrap();
    let chunk = addr.next_chunks(5).unwrap();
    assert_eq!(chunk.len(), 5);
    for (i, a) in chunk.iter().enumerate() {
        assert_eq!(a.index, i as u32);
        assert_eq!(a.account, 0x80000000);
        assert_eq!(a.change, 0);
    }
}

#[test]
fn coin_bounds() {
    assert_eq!(Coin::zero().value(), 0);
    let c = Coin::new(42).unwrap();
    assert_eq!(c.value(), 42);
    assert!(Coin::new(MAX_COIN).is_ok());
    assert_eq!(
        Coin::new(45000000000000001),
        Err(coin::Error::OutOfBound(45000000000000001))
    );
}

#[test]
fn coin_arithmetic() {
    let a = Coin::new(40).unwrap();
    let b = Coin::new(2).unwrap();
    assert_eq!(a.add(b).unwrap().value(), 42);
    assert_eq!(a.sub(b).unwrap().value(), 38);
    assert!(b.sub(a).is_none());
    let max = Coin::new(MAX_COIN).unwrap();
    let one = Coin::new(1).unwrap();
    assert_eq!(max.add(one), Err(coin::Error::OutOfBound(MAX_COIN + 1)));
}

#[test]
fn coin_codec() {
    let c = Coin::new(914909).unwrap();
    let d = Coin::decode(c.encode()).unwrap();
    assert_eq!(c, d);
    let e = Coin::decode(Value::U64(u64::MAX)).unwrap_err();
    assert_eq!(e.root_kind(), ErrorKind::Between(0, MAX_COIN));
}
