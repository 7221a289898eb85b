use hickory_client::proto::{ProtoError, ProtoErrorKind};
use hickory_client::{ClientError, ClientErrorKind};

use blastdns::address::{Endpoint, IpAddress};
use blastdns::client::ResolverInput;
use blastdns::zone_transfer::{zone_transfer, ZoneQuery};
use blastdns::BlastDNSError;

fn nameserver() -> ResolverInput {
    ResolverInput {
        text: "127.0.0.1:5354".to_string(),
        direct: Ok(Endpoint { ip: IpAddress::V4(0x7f00_0001), port: 5354, scope_id: 0 }),
    }
}

fn query() -> ZoneQuery {
    match ZoneQuery::new(&nameserver(), "zonetransfer.test") {
        Ok(query) => query,
        Err(err) => panic!("{}", err.message()),
    }
}

fn failure(kind: ClientErrorKind) -> ClientError {
    ClientError::from(kind)
}

#[test]
fn test_invalid_nameserver() {
    let nameserver = ResolverInput {
        text: "not-an-ip".to_string(),
        direct: Err("invalid socket address syntax".to_string()),
    };
    let result = ZoneQuery::new(&nameserver, "example.com");
    assert!(result.is_err());
    let Err(err) = result else {
        unreachable!();
    };
    assert_eq!(err.message(), "invalid resolver `not-an-ip`");
}

#[test]
fn an_unusable_zone_is_rejected() {
    let Err(err) = ZoneQuery::new(&nameserver(), "bad zone") else {
        panic!("expected failure");
    };
    assert_eq!(err.message(), "invalid hostname `bad zone`");
}

#[test]
fn a_transfer_returns_all_records_in_order() {
    let query = query();
    assert_eq!(query.name.to_ascii(), "zonetransfer.test.");
    assert_eq!(query.nameserver.port, 5354);
    let replies = vec![Ok(vec![1, 2]), Ok(Vec::new()), Ok(vec![3])];
    let Ok(result) = zone_transfer(query, Ok(()), replies) else {
        panic!("transfer failed");
    };
    assert_eq!(result.zone, "zonetransfer.test");
    assert_eq!(
        result.nameserver,
        Endpoint { ip: IpAddress::V4(0x7f00_0001), port: 5354, scope_id: 0 }
    );
    assert_eq!(result.records, vec![1, 2, 3]);
}

#[test]
fn a_failed_reply_fails_the_transfer() {
    let replies = vec![
        Ok(vec![1]),
        Err(failure(ClientErrorKind::Timeout)),
        Err(failure(ClientErrorKind::Message("busy"))),
    ];
    let Err(err) = zone_transfer(query(), Ok(()), replies) else {
        panic!("expected failure");
    };
    assert!(err.is_timeout(), "the first failure decides");
    assert_eq!(err.message(), "resolver 127.0.0.1:5354 query failed");
    assert!(matches!(
        err,
        BlastDNSError::ResolverRequestFailed { resolver, .. } if Ok(resolver) == nameserver().direct
    ));
}

#[test]
fn a_failed_connection_fails_the_transfer() {
    let connected = Err(ProtoError::from(ProtoErrorKind::Busy));
    let Err(err) = zone_transfer::<u8>(query(), connected, Vec::new()) else {
        panic!("expected failure");
    };
    assert!(matches!(err, BlastDNSError::ResolverSetupFailed { .. }));
    assert_eq!(err.message(), "failed to initialize resolver 127.0.0.1:5354");
}
