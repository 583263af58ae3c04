//! Stateless address autoconfiguration.

use xarxa::iface::slaac::{
    from_link_prefix, Phase, Route, Slaac, SlaacConfig, RTR_SOLICITATION_INTERVAL,
};
use xarxa::time::{Clock, Duration, Instant};
use xarxa::wire::ndisc::{
    NdiscPrefixInfoFlags, NdiscRouterFlags, PrefixInformation, NDISC_PREFIX_ADDRCONF,
};
use xarxa::wire::{EthernetAddress, HardwareAddress, Ieee802154Address, Ipv6Address, Ipv6Cidr};

fn source() -> Ipv6Address {
    Ipv6Address::new(0xfe80, 0xdb8, 0, 0, 0, 0, 0, 0)
}

fn advertised_prefix() -> PrefixInformation {
    PrefixInformation {
        prefix_len: 64,
        flags: NdiscPrefixInfoFlags { bits: NDISC_PREFIX_ADDRCONF },
        valid_lifetime: Duration::from_secs(700),
        preferred_lifetime: Duration::from_secs(300),
        prefix: Ipv6Address::new(0x2001, 0xdb8, 0, 0, 0, 0, 0, 0),
    }
}

fn valid() -> Duration {
    Duration::from_secs(600)
}

fn route() -> Route {
    Route {
        cidr: Ipv6Cidr::new(Ipv6Address::unspecified(), 0),
        via_router: source(),
        valid_until: Instant::from_millis(100000),
    }
}

/// Whether a sync is required in a poll at `now`, and the deadline it counts.
fn sync_required(slaac: &Slaac, now: Instant) -> (bool, Instant) {
    let mut clock = Clock::new(now);
    let required = slaac.sync_required(&mut clock);
    (required, clock.next())
}

fn advertise(
    slaac: &mut Slaac,
    router_lifetime: Duration,
    prefix: Option<PrefixInformation>,
    now: Instant,
) {
    let prefixes: Vec<PrefixInformation> = prefix.into_iter().collect();
    slaac.process_advertisement(
        &source(),
        NdiscRouterFlags::empty(),
        router_lifetime,
        &prefixes,
        now,
    );
}

/// `from_link_prefix` forms prefix + EUI-64, for a /64 prefix only.
#[test]
fn test_from_link_prefix() {
    let prefix = Ipv6Cidr::new(Ipv6Address::new(0x2001, 0xdb8, 3, 0, 0, 0, 0, 0), 64);
    {
        let hw = HardwareAddress::Ethernet(EthernetAddress(0xaa, 0xbb, 0xcc, 0xdd, 0xee, 0xff));
        assert_eq!(
            from_link_prefix(&prefix, hw),
            Some(Ipv6Cidr::new(
                Ipv6Address::new(0x2001, 0xdb8, 3, 0, 0xa8bb, 0xccff, 0xfedd, 0xeeff),
                64
            ))
        );
        let long_prefix = Ipv6Cidr::new(Ipv6Address::new(0x2001, 0xdb8, 3, 0, 0, 0, 0, 0), 72);
        assert_eq!(from_link_prefix(&long_prefix, hw), None);
    }
    {
        let hw = HardwareAddress::Ieee802154(Ieee802154Address::Extended(0x0011_2233_4455_6677));
        assert_eq!(
            from_link_prefix(&prefix, hw),
            Some(Ipv6Cidr::new(
                Ipv6Address::new(0x2001, 0xdb8, 3, 0, 0x211, 0x2233, 0x4455, 0x6677),
                64
            ))
        );
        let short = HardwareAddress::Ieee802154(Ieee802154Address::Short(0x1234));
        assert_eq!(from_link_prefix(&prefix, short), None);
    }
}

#[test]
fn test_route() {
    let unspecified = Ipv6Address::unspecified();
    assert!(route().same_route(&Ipv6Cidr::new(unspecified, 0), &source()));
    assert!(!route().same_route(&Ipv6Cidr::new(unspecified, 64), &source()));
    assert!(!route().same_route(&Ipv6Cidr::new(unspecified, 0), &unspecified));
    assert!(!route().same_route(&Ipv6Cidr::new(source(), 0), &unspecified));
    assert!(!route().same_route(&Ipv6Cidr::new(source(), 64), &unspecified));
}

#[test]
fn test_route_valid() {
    assert!(route().is_valid(Instant::zero()));
    assert!(!route().is_valid(Instant::from_secs(200)));
}

#[test]
fn test_solicitation() {
    let mut slaac = Slaac::new(SlaacConfig::default());
    let now = Instant::from_millis(1);
    assert!(slaac.rs_required(&mut Clock::new(now)));

    slaac.rs_sent(now);
    assert_eq!(slaac.num_solicitations, 2);
    assert!(!slaac.rs_required(&mut Clock::new(now)));

    let next_poll = slaac.rs_at();
    assert_eq!(next_poll, now.after(Duration::from_secs(RTR_SOLICITATION_INTERVAL)));

    let now = next_poll;
    assert!(slaac.rs_required(&mut Clock::new(now)));

    slaac.num_solicitations = 0;
    assert!(!slaac.rs_required(&mut Clock::new(now)));
    slaac.rs_sent(now);
    assert_eq!(slaac.phase, Phase::GaveUp);
    assert_eq!(slaac.rs_at(), Instant::max_value());
}

#[test]
fn test_ra_state() {
    let mut slaac = Slaac::new(SlaacConfig::default());
    assert_eq!(slaac.phase, Phase::Start);
    let now = Instant::from_millis(1);
    assert!(!slaac.has_ra_update());
    assert!(!slaac.state().routers_seen);

    // Unsolicited advertisement
    let prefix_info = advertised_prefix();
    advertise(&mut slaac, valid(), Some(prefix_info), now);
    assert_eq!(slaac.phase, Phase::Start);
    assert!(slaac.has_ra_update());
    assert!(slaac.state().routers_seen);

    let now = Instant::from_secs(300);
    slaac.rs_sent(now);
    assert_eq!(slaac.phase, Phase::Discovering);

    // Solicited advertisement
    advertise(&mut slaac, valid(), Some(prefix_info), now);
    advertise(&mut slaac, valid(), Some(prefix_info), now);
    assert_eq!(slaac.phase, Phase::Maintaining);
    assert_eq!(slaac.rs_at(), Instant::max_value());
    let (_, poll_at) = sync_required(&slaac, now);
    assert_eq!(poll_at, now.after(valid()));

    for (prefix, info) in slaac.prefix.as_slice().iter() {
        assert_eq!(prefix.address(), prefix_info.prefix);
        assert_eq!(prefix.prefix_len(), prefix_info.prefix_len);
        assert_eq!(info.valid_until, now.after(prefix_info.valid_lifetime));
        assert_eq!(info.preferred_until, now.after(prefix_info.preferred_lifetime));
        assert!(info.is_valid(now));
    }

    for route in slaac.routes.as_slice().iter() {
        assert_eq!(route.cidr, Ipv6Cidr::new(Ipv6Address::unspecified(), 0));
        assert_eq!(route.via_router, source());
        assert_eq!(route.valid_until, now.after(valid()));
        assert!(route.is_valid(now));
    }
    assert_eq!(slaac.prefix.len(), 1);
    assert_eq!(slaac.routes.len(), 1);
    assert!(sync_required(&slaac, now).0);

    slaac.update_slaac_state(now);
    assert!(!sync_required(&slaac, now).0);

    // Skip time until the route expires
    let now = poll_at;
    assert!(sync_required(&slaac, now).0);
    for (_prefix, info) in slaac.prefix.as_slice().iter() {
        assert!(info.is_valid(now));
    }
    for route in slaac.routes.as_slice().iter() {
        assert!(!route.is_valid(now));
    }

    slaac.update_slaac_state(now);
    assert!(!sync_required(&slaac, now).0);
    assert_eq!(slaac.routes.len(), 0);

    // Skip time until the prefix expires
    let (_, poll_at) = sync_required(&slaac, now);
    let now = poll_at;
    // Expired, so it needs a sync and there is nothing left to wait for.
    assert_eq!(sync_required(&slaac, now), (true, Instant::max_value()));
    for (_prefix, info) in slaac.prefix.as_slice().iter() {
        assert!(!info.is_valid(now));
    }
    slaac.update_slaac_state(now);
    assert!(!sync_required(&slaac, now).0);
    assert_eq!(slaac.routes.len(), 0);
    assert_eq!(slaac.prefix.len(), 0);

    // No state remaining, nothing to wait on
    assert_eq!(sync_required(&slaac, now), (false, Instant::max_value()));
}

/// A multicast prefix would form a multicast address. It is ignored.
#[test]
fn test_ra_multicast_prefix() {
    let mut slaac = Slaac::new(SlaacConfig::default());
    let now = Instant::from_millis(1);
    let mut prefix = advertised_prefix();
    prefix.prefix = Ipv6Address::new(0xff02, 0, 0, 0, 0, 0, 0, 0);
    advertise(&mut slaac, valid(), Some(prefix), now);
    assert_eq!(slaac.prefix.len(), 0);
}

/// A prefix longer than an address is ignored.
#[test]
fn test_ra_prefix_too_long() {
    let mut slaac = Slaac::new(SlaacConfig::default());
    let now = Instant::from_millis(1);
    let mut prefix = advertised_prefix();
    prefix.prefix_len = 129;
    advertise(&mut slaac, valid(), Some(prefix), now);
    assert_eq!(slaac.prefix.len(), 0);
}

#[test]
fn test_ra_expire() {
    let mut slaac = Slaac::new(SlaacConfig::default());
    let now = Instant::from_millis(1);
    slaac.rs_sent(now);
    advertise(&mut slaac, valid(), Some(advertised_prefix()), now);

    let now = Instant::from_secs(300);

    assert!(sync_required(&slaac, now).0);
    for (_prefix, info) in slaac.prefix.as_slice().iter() {
        assert!(info.is_valid(now));
    }
    for route in slaac.routes.as_slice().iter() {
        assert!(route.is_valid(now));
    }
    slaac.update_slaac_state(now);

    let mut expire_prefix = advertised_prefix();
    expire_prefix.preferred_lifetime = Duration::zero();
    expire_prefix.valid_lifetime = Duration::zero();

    // Invalidate the prefix, but not the route
    advertise(&mut slaac, valid(), Some(expire_prefix), now);

    assert!(sync_required(&slaac, now).0);
    for (_prefix, info) in slaac.prefix.as_slice().iter() {
        assert!(!info.is_valid(now));
    }
    for route in slaac.routes.as_slice().iter() {
        assert!(route.is_valid(now));
    }
    slaac.update_slaac_state(now);
    assert_eq!(slaac.prefix.len(), 0);
    assert_eq!(slaac.routes.len(), 1);

    assert!(!sync_required(&slaac, now).0);
    // Invalidate also the route
    advertise(&mut slaac, Duration::zero(), Some(expire_prefix), now);
    assert!(sync_required(&slaac, now).0);
    for route in slaac.routes.as_slice().iter() {
        assert!(!route.is_valid(now));
    }

    slaac.update_slaac_state(now);
    assert_eq!(slaac.prefix.len(), 0);
    assert_eq!(slaac.routes.len(), 0);
    assert!(!sync_required(&slaac, now).0);
    // No state remaining, nothing to wait on
    assert_eq!(sync_required(&slaac, now), (false, Instant::max_value()));
}
