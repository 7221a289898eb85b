use blastdns::address::{bind_endpoint, parse_ip, Endpoint, IpAddress};
use blastdns::utils::{
    bare_address, check_ulimits, choose_resolver, format_ptr_query, get_system_resolvers,
    parse_resolver, ptr_query, required_fds, FileLimit, FileLimitReadings,
};
use blastdns::BlastDNSError;

/// Read a resolver that is given without a port.
fn portless(input: &str) -> Result<Endpoint, BlastDNSError> {
    parse_resolver(input, &Err("invalid socket address syntax".to_string()))
}

#[test]
fn format_ptr_query_handles_ipv4() {
    assert_eq!(format_ptr_query("8.8.8.8"), "8.8.8.8.in-addr.arpa");
    assert_eq!(format_ptr_query("192.168.1.1"), "1.1.168.192.in-addr.arpa");
}

#[test]
fn format_ptr_query_handles_ipv6() {
    // Short form
    assert_eq!(
        format_ptr_query("::1"),
        "1.0.0.0.0.0.0.0.0.0.0.0.0.0.0.0.0.0.0.0.0.0.0.0.0.0.0.0.0.0.0.0.ip6.arpa"
    );

    // Full form
    assert_eq!(
        format_ptr_query("2001:4860:4860::8888"),
        "8.8.8.8.0.0.0.0.0.0.0.0.0.0.0.0.0.0.0.0.0.6.8.4.0.6.8.4.1.0.0.2.ip6.arpa"
    );
}

#[test]
fn format_ptr_query_leaves_formatted_queries_unchanged() {
    assert_eq!(format_ptr_query("8.8.8.8.in-addr.arpa"), "8.8.8.8.in-addr.arpa");
    assert_eq!(format_ptr_query("example.com"), "example.com");
}

#[test]
fn addresses_are_read_as_numbers() {
    assert_eq!(parse_ip("1.2.3.4"), Some(IpAddress::V4(0x0102_0304)));
    assert_eq!(
        parse_ip("2001:db8::7"),
        Some(IpAddress::V6(0x2001_0db8_0000_0000_0000_0000_0000_0007))
    );
    assert_eq!(parse_ip("::ffff:1.2.3.4"), Some(IpAddress::V6(0xffff_0102_0304)));
    for text in ["", "1.2.3", "1.2.3.4.5", "01.2.3.4", "1.2.3.4:53", "[::1]", " 1.2.3.4"] {
        assert_eq!(parse_ip(text), None, "{text}");
    }
}

#[test]
fn a_given_address_decides_on_the_reverse_name() {
    assert_eq!(ptr_query("x", Some(IpAddress::V4(0x0102_0304))), "4.3.2.1.in-addr.arpa");
    assert_eq!(ptr_query("1.2.3.4", None), "1.2.3.4");
}

#[test]
fn ptr_names_spell_every_digit() {
    assert_eq!(
        format_ptr_query("fedc:ba98:7654:3210:0123:4567:89ab:cdef"),
        "f.e.d.c.b.a.9.8.7.6.5.4.3.2.1.0.0.1.2.3.4.5.6.7.8.9.a.b.c.d.e.f.ip6.arpa"
    );
    assert_eq!(format_ptr_query("255.10.100.0"), "0.100.10.255.in-addr.arpa");
    assert_ne!(format_ptr_query("1.11.0.0"), format_ptr_query("11.1.0.0"));
}

#[test]
fn per_query_sockets_scale_with_concurrency_not_resolvers() {
    // A UDP socket is bound per query in flight, so a small resolver list with high
    // concurrency still needs a high limit. Basing the check on the resolver count would
    // let it pass and then run out of FDs mid-run.
    let modest = required_fds(100, 5, false);
    let heavy = required_fds(5000, 5, false);
    assert!(
        heavy > modest * 10,
        "concurrency must dominate the requirement: {modest} vs {heavy}"
    );
    assert!(
        heavy >= 5000,
        "5000 concurrent queries need at least that many FDs, got {heavy}"
    );
}

#[test]
fn persistent_sockets_scale_with_the_resolver_list() {
    // Persistent sockets are held for the client's life, one per resolver, so a large
    // pool outgrows the concurrency setting. Sizing this off concurrency alone passes a
    // config that then runs out of FDs.
    let concurrency = 1000;
    let resolvers = 6000;
    let persistent = required_fds(concurrency, resolvers, true);
    let per_query = required_fds(concurrency, resolvers, false);
    assert!(
        persistent >= resolvers,
        "{resolvers} persistent sockets need at least that many FDs, got {persistent}"
    );
    assert!(
        persistent > per_query,
        "a resolver list larger than concurrency must raise the requirement: \
         {per_query} per-query vs {persistent} persistent"
    );
    assert_eq!(persistent, 7100);
    assert_eq!(per_query, 2100);
}

#[test]
fn parse_resolver_accepts_portless_ip() {
    let addr = portless("203.0.113.10").expect("should parse");
    assert_eq!(
        addr,
        Endpoint { ip: IpAddress::V4(u32::from_be_bytes([203, 0, 113, 10])), port: 53, scope_id: 0 }
    );
}

#[test]
fn parse_resolver_rejects_garbage() {
    let err = portless("not-an-ip").expect_err("should fail");
    assert!(matches!(err, BlastDNSError::InvalidResolver { .. }));
    assert_eq!(err.message(), "invalid resolver `not-an-ip`");
    let BlastDNSError::InvalidResolver { resolver, source } = err else {
        unreachable!();
    };
    assert_eq!(resolver, "not-an-ip");
    assert_eq!(source, "invalid socket address syntax");
}

#[test]
fn parse_resolver_accepts_ipv6() {
    let direct = Endpoint { ip: IpAddress::V6(1), port: 53, scope_id: 0 };
    let addr = parse_resolver("[::1]:53", &Ok(direct)).expect("should parse");
    assert_eq!(addr.ip, IpAddress::V6(1));
    assert_eq!(addr.port, 53);
}

#[test]
fn parse_resolver_accepts_portless_ipv6() {
    let addr = portless("::1").expect("should parse");
    assert_eq!(addr.ip, IpAddress::V6(1));
    assert_eq!(addr.port, 53);
}

#[test]
fn a_given_port_is_kept() {
    let direct = Endpoint { ip: IpAddress::V4(1), port: 5353, scope_id: 0 };
    assert_eq!(parse_resolver("2.2.2.2", &Ok(direct)).unwrap(), direct);
    let bare = Some(IpAddress::V4(2));
    assert_eq!(choose_resolver("x", &Ok(direct), bare).unwrap(), direct);
    let unread = Err("no port".to_string());
    assert_eq!(
        choose_resolver("x", &unread, bare).unwrap(),
        Endpoint { ip: IpAddress::V4(2), port: 53, scope_id: 0 }
    );
    let err = choose_resolver(" x ", &unread, None).expect_err("should fail");
    assert_eq!(err.message(), "invalid resolver ` x `");
}

#[test]
fn white_space_and_brackets_are_dropped() {
    assert_eq!(bare_address("  [::1]\t"), "::1");
    assert_eq!(bare_address("\u{a0}\u{3000}[[1.1.1.1]\u{2028}"), "1.1.1.1");
    assert_eq!(bare_address("[ ::1 ]"), " ::1 ");
    assert_eq!(bare_address("]["), "");
    assert_eq!(bare_address(" \n "), "");
    assert_eq!(portless(" [2001:db8::7] ").unwrap().ip, parse_ip("2001:db8::7").unwrap());
    for given in ["1.1.1.1", "[1.1.1.1]", " [1.1.1.1\n", "1.1.1.1]"] {
        let read = Endpoint { ip: IpAddress::V4(0x0101_0101), port: 53, scope_id: 0 };
        assert_eq!(portless(given).unwrap(), read);
    }
}

#[test]
fn endpoints_have_a_text() {
    let v4 = Endpoint { ip: IpAddress::V4(0xc0a8_010a), port: 5353, scope_id: 0 };
    assert_eq!(v4.to_text(), "192.168.1.10:5353");
    let v6 = Endpoint {
        ip: parse_ip("2001:db8:0:0::7").unwrap(),
        port: 53,
        scope_id: 0,
    };
    assert_eq!(v6.to_text(), "[2001:db8::7]:53");
    let scoped = Endpoint { ip: parse_ip("fe80::1").unwrap(), port: 53, scope_id: 12 };
    assert_eq!(scoped.to_text(), "[fe80::1%12]:53");
}

#[test]
fn sockets_are_bound_to_the_resolvers_family() {
    let v4 = Endpoint { ip: IpAddress::V4(77), port: 53, scope_id: 0 };
    let v6 = Endpoint { ip: IpAddress::V6(77), port: 53, scope_id: 0 };
    assert_eq!(bind_endpoint(v4), Endpoint { ip: IpAddress::V4(0), port: 0, scope_id: 0 });
    assert_eq!(bind_endpoint(v6), Endpoint { ip: IpAddress::V6(0), port: 0, scope_id: 0 });
}

fn readings(soft: u64, hard: u64, raised: u64) -> Option<FileLimitReadings> {
    Some(FileLimitReadings {
        initial: Some(FileLimit { soft, hard }),
        raise: Ok(()),
        reread: Some(FileLimit { soft: raised, hard }),
    })
}

#[test]
fn a_sufficient_limit_passes() {
    assert!(check_ulimits(100, 5, false, &readings(300, 300, 0)).is_ok());
    assert!(check_ulimits(100, 5, false, &readings(10, 300, 300)).is_ok());
    assert!(check_ulimits(100, 5, false, &None).is_ok(), "no limit to keep within");
}

#[test]
fn a_limit_that_is_too_low_is_explained() {
    assert_eq!(
        check_ulimits(100, 5, false, &readings(10, 299, 299)).unwrap_err(),
        "NOFILE limit too low even after raising soft limit: current=299, required=300\n\
         max_concurrency of 100 needs ~300 FDs\n\
         Increase with: ulimit -n 300 (or higher), or lower max_concurrency"
    );
    assert_eq!(
        check_ulimits(100, 1000, true, &readings(1024, 1024, 0)).unwrap_err(),
        "NOFILE limit too low even after raising soft limit: current=1024, required=1200\n\
         persistent sockets for 1000 resolvers plus max_concurrency 100 needs ~1200 FDs\n\
         Increase with: ulimit -n 1200 (or higher), or lower max_concurrency"
    );
}

#[test]
fn limits_that_cannot_be_read_or_raised_are_reported() {
    let unread = FileLimitReadings { initial: None, raise: Ok(()), reread: None };
    assert_eq!(
        check_ulimits(1, 1, false, &Some(unread)).unwrap_err(),
        "failed to read RLIMIT_NOFILE"
    );

    let stuck = FileLimitReadings {
        initial: Some(FileLimit { soft: 256, hard: 4096 }),
        raise: Err("Operation not permitted (os error 1)".to_string()),
        reread: None,
    };
    assert_eq!(
        check_ulimits(1, 1, false, &Some(stuck)).unwrap_err(),
        "failed to raise RLIMIT_NOFILE to hard limit (soft=256, hard=4096): \
         Operation not permitted (os error 1)"
    );

    let lost = FileLimitReadings {
        initial: Some(FileLimit { soft: 256, hard: 4096 }),
        raise: Ok(()),
        reread: None,
    };
    assert_eq!(
        check_ulimits(1, 1, false, &Some(lost)).unwrap_err(),
        "failed to re-read RLIMIT_NOFILE after raising it"
    );

    assert_eq!(
        FileLimit { soft: 256, hard: 4096 }.raised(),
        Some(FileLimit { soft: 4096, hard: 4096 })
    );
    assert_eq!(FileLimit { soft: 4096, hard: 4096 }.raised(), None);
}

#[test]
fn system_resolvers_are_listed_once() {
    let a = IpAddress::V4(1);
    let b = IpAddress::V6(1);
    let c = IpAddress::V4(2);
    assert_eq!(get_system_resolvers(Ok(vec![a, b, a, c, b])).unwrap(), vec![a, b, c]);
}

#[test]
fn missing_system_resolvers_are_errors() {
    assert_eq!(
        get_system_resolvers(Ok(Vec::new())).unwrap_err().message(),
        "No system resolvers found"
    );
    let unread = get_system_resolvers(Err("no such file".to_string())).unwrap_err();
    assert!(matches!(unread, BlastDNSError::Configuration(_)));
    assert_eq!(
        unread.message(),
        "Failed to read system DNS configuration: no such file"
    );
}
