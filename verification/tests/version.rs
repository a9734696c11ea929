use punktf::version::{ParseVersionError, ProfileVersion, Version};

#[test]
fn version_parse_ok() {
    assert_eq!("1".parse::<Version>().unwrap(), Version::zero().with_major(1));
    assert_eq!(
        "22.12".parse::<Version>().unwrap(),
        Version::zero().with_major(22).with_minor(12)
    );
    assert_eq!(
        "0.12.55".parse::<Version>().unwrap(),
        Version::zero().with_minor(12).with_patch(55)
    );
}

#[test]
fn version_parse_err() {
    assert_eq!(
        "1.".parse::<Version>(),
        Err(ParseVersionError::TrailingCharacters)
    );
    assert_eq!("".parse::<Version>(), Err(ParseVersionError::Empty));
    assert_eq!(
        "1.1.1 ".parse::<Version>(),
        Err(ParseVersionError::TrailingCharacters)
    );
    assert_eq!(
        "1.1.1.".parse::<Version>(),
        Err(ParseVersionError::TrailingCharacters)
    );
    assert_eq!(
        "1.1.1.1".parse::<Version>(),
        Err(ParseVersionError::TrailingCharacters)
    );
    assert_eq!(
        "256".parse::<Version>(),
        Err(ParseVersionError::InvalidNumber)
    );
}

#[test]
fn version_cmp() {
    assert!(Version::zero().with_major(1) == Version::zero().with_major(1));
    assert!(Version::zero().with_minor(2) == Version::zero().with_minor(2));
    assert!(Version::zero().with_patch(3) == Version::zero().with_patch(3));

    assert!(Version::zero().with_major(1) < Version::zero().with_major(2));
    assert!(Version::zero().with_minor(2) < Version::zero().with_major(2));
    assert!(Version::zero().with_patch(3) < Version::zero().with_major(2));

    assert!(
        Version {
            major: 2,
            minor: 3,
            patch: 1
        } > Version {
            major: 2,
            minor: 1,
            patch: 10
        }
    );
}

#[test]
fn version_text_round_trip() {
    let v = Version::new(1, 22, 255);
    assert_eq!(v.to_text(), "1.22.255");
    assert_eq!(Version::parse(&v.to_text()), Ok(v));
    assert_eq!(Version::new(0, 0, 0).to_text(), "0.0.0");
}

#[test]
fn version_parse_errors_each_kind() {
    assert_eq!(Version::parse("a"), Err(ParseVersionError::InvalidNumber));
    assert_eq!(Version::parse("1a"), Err(ParseVersionError::InvalidSeparator));
    assert_eq!(Version::parse("1234"), Err(ParseVersionError::InvalidSeparator));
    assert_eq!(Version::parse("1.2"), Ok(Version::new(1, 2, 0)));
    assert_eq!(Version::parse("007.8.9"), Ok(Version::new(7, 8, 9)));
    assert_eq!(ParseVersionError::Empty.message(), "empty");
    assert_eq!(ParseVersionError::InvalidSeparator.message(), "invalid separator");
}

#[test]
fn version_compatible() {
    assert!(Version::new(1, 2, 3).compatible(Version::new(1, 0, 0)));
    assert!(!Version::new(1, 2, 3).compatible(Version::new(2, 2, 3)));
    assert_eq!(Version::default(), Version::zero());
}

#[test]
fn profile_version_defaults_to_zero() {
    let pv = ProfileVersion::default();
    assert_eq!(pv.version, Version::new(0, 0, 0));
    let pv = ProfileVersion { version: Version::new(1, 2, 3) };
    assert_eq!(Version::from(pv), Version::new(1, 2, 3));
}

#[test]
fn version_order_by_major_minor_patch() {
    assert!(Version::new(1, 0, 0) > Version::new(0, 255, 255));
    assert!(Version::new(1, 2, 0) < Version::new(1, 3, 0));
    assert!(Version::new(1, 2, 3) < Version::new(1, 2, 4));
    assert_eq!(Version::new(1, 2, 3).partial_cmp(&Version::new(1, 2, 3)), Some(std::cmp::Ordering::Equal));
    assert!(!(Version::new(1, 2, 3) < Version::new(1, 2, 3)));
}
