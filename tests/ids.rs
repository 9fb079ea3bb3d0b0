use cashflow::ids::{parse_uuid, resolve_prefix, IdError};

const A: u128 = 0x67e5504410b1426f9247bb680e5fe0c8;
const B: u128 = 0x67e55044aaaa426f9247bb680e5fe0c8;
const C: u128 = 0x12345678aaaa426f9247bb680e5fe0c8;

#[test]
fn full_uuid_is_taken_as_is() {
    let ids = vec![B];
    assert_eq!(parse_uuid("67e55044-10b1-426f-9247-bb680e5fe0c8", &ids), Ok(A));
}

#[test]
fn unique_prefix_picks_one_identifier() {
    let ids = vec![A, C];
    assert_eq!(parse_uuid("67E55044", &ids), Ok(A));
    assert_eq!(parse_uuid("12345678-aaaa", &ids), Ok(C));
}

#[test]
fn prefix_errors() {
    let ids = vec![A, B, C];
    assert_eq!(parse_uuid("67e55044", &ids), Err(IdError::Ambiguous));
    assert_eq!(parse_uuid("ffffffff", &ids), Err(IdError::NoMatch));
    assert_eq!(parse_uuid("67e5", &ids), Err(IdError::InvalidFormat));
    assert_eq!(resolve_prefix("67e55044-10", &ids), Ok(A));
}
