use ppp::v2::{Command, Protocol, Tlv};
use ppp::Version;

#[test]
fn tlv() {
    let tlv = Tlv::new(7, vec![1, 2, 3]);

    assert_eq!(3, tlv.len());
    assert_eq!(7, tlv.value_type());
    assert_eq!(&vec![1, 2, 3][..], tlv.value());
}

#[test]
fn version() {
    assert_eq!(Err(()), Version::new(0));
    assert_eq!(Ok(Version::One), Version::new(1));
    assert_eq!(Ok(Version::Two), Version::new(2));
}

#[test]
fn protocol() {
    assert_eq!(Ok(Protocol::Unspecified), Protocol::new(0));
    assert_eq!(Ok(Protocol::Stream), Protocol::new(1));
    assert_eq!(Ok(Protocol::Datagram), Protocol::new(2));
    assert_eq!(Err(()), Protocol::new(3));
}

#[test]
fn command() {
    assert_eq!(Ok(Command::Local), Command::new(0));
    assert_eq!(Ok(Command::Proxy), Command::new(1));
    assert_eq!(Err(()), Command::new(3));
}
