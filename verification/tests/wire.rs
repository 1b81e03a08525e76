use bgp_packet::afi::{Afi, Safi};
use bgp_packet::attr::Attr;
use bgp_packet::cap::CapabilityPacket;
use bgp_packet::error::BgpParseError;
use bgp_packet::evpn::EvpnRoute;
use bgp_packet::mp::{MpNexthop, MpNlriReachAttr, MpNlriUnreachAttr};
use bgp_packet::nlri::{Ipv4Nlri, Ipv4Prefix, Ipv6Nlri, Ipv6Prefix};
use bgp_packet::packet::BgpPacket;
use bgp_packet::types::{nlri_psize, Label, RouteDistinguisher};

#[test]
fn psize_boundaries() {
    assert_eq!(nlri_psize(0), 0);
    assert_eq!(nlri_psize(1), 1);
    assert_eq!(nlri_psize(24), 3);
    assert_eq!(nlri_psize(25), 4);
    assert_eq!(nlri_psize(32), 4);
    assert_eq!(nlri_psize(128), 16);
}

#[test]
fn prefix_zero_and_host_round_trip() {
    // The default route: length 0, no address bytes.
    let v = Ipv4Nlri { id: 0, prefix: Ipv4Prefix { addr: 0, plen: 0 } };
    let mut out: Vec<u8> = Vec::new();
    v.emit(&mut out, false);
    assert_eq!(out, vec![0x00]);
    let (n, back) = Ipv4Nlri::parse_nlri(&out, 0, out.len(), false).unwrap();
    assert_eq!(n, 1);
    assert_eq!(back, v);

    // A host route: the full address width.
    let v = Ipv4Nlri { id: 0, prefix: Ipv4Prefix { addr: 0xC0A8_0101, plen: 32 } };
    let mut out: Vec<u8> = Vec::new();
    v.emit(&mut out, false);
    assert_eq!(out, vec![32, 0xC0, 0xA8, 0x01, 0x01]);
    let (_, back) = Ipv4Nlri::parse_nlri(&out, 0, out.len(), false).unwrap();
    assert_eq!(back, v);

    // The IPv6 host route.
    let v6 = Ipv6Nlri { id: 0, prefix: Ipv6Prefix { addr: 0x2001_0db8, plen: 128 } };
    let mut out: Vec<u8> = Vec::new();
    v6.emit(&mut out, false);
    assert_eq!(out.len(), 17);
    let (_, back) = Ipv6Nlri::parse_nlri(&out, 0, out.len(), false).unwrap();
    assert_eq!(back, v6);
}

#[test]
fn prefix_over_family_width_rejected() {
    let bytes = [33u8, 10, 0, 0, 0];
    let r = Ipv4Nlri::parse_nlri(&bytes, 0, bytes.len(), false);
    assert_eq!(r.unwrap_err(), BgpParseError::BadValue { typ: 0 });
}

#[test]
fn label_round_trip() {
    let l = Label { value: 0xABCDE, exp: 3, bos: true };
    let mut out: Vec<u8> = Vec::new();
    l.emit(&mut out);
    assert_eq!(out.len(), 3);
    let (_, back) = Label::parse_be(&out, 0, out.len()).unwrap();
    assert_eq!(back, l);
    // The trailing byte carries the low label nibble, the class and the
    // bottom-of-stack bit.
    assert_eq!(out[2], 0xE0 | (3 << 1) | 1);
}

#[test]
fn rd_round_trip() {
    let rd = RouteDistinguisher { typ: 0, val: 0x0064_0000_0001 };
    let mut out: Vec<u8> = Vec::new();
    rd.emit(&mut out);
    assert_eq!(out, vec![0, 0, 0, 0x64, 0, 0, 0, 1]);
    let (_, back) = RouteDistinguisher::parse_be(&out, 0, out.len()).unwrap();
    assert_eq!(back, rd);
}

#[test]
fn attribute_length_promotion_boundary() {
    // A value of exactly 255 bytes keeps the one-byte length form.
    let a = Attr::Unknown { flags: 0xC0, typ: 0x63, data: vec![7; 255] };
    let mut out: Vec<u8> = Vec::new();
    a.emit(&mut out, None);
    assert_eq!(out[0], 0xC0);
    assert_eq!(out[2], 255);
    assert_eq!(out.len(), 3 + 255);

    // A value of exactly 256 bytes takes the extended form: the flag bit is
    // set and the length is written in two bytes.
    let a = Attr::Unknown { flags: 0xC0, typ: 0x63, data: vec![7; 256] };
    let mut out: Vec<u8> = Vec::new();
    a.emit(&mut out, None);
    assert_eq!(out[0], 0xD0);
    assert_eq!(out[2], 0x01);
    assert_eq!(out[3], 0x00);
    assert_eq!(out.len(), 4 + 256);
}

#[test]
fn large_community_payload() {
    let payload = [
        0xC0u8, 0x20, 0x0C, 0x00, 0x00, 0x00, 0x01, 0x00, 0x00, 0x00, 0x02, 0x00, 0x00, 0x00,
        0x03,
    ];
    let (n, attr) = bgp_packet::attr::parse_attr(&payload, 0, payload.len(), false, None).unwrap();
    assert_eq!(n, payload.len());
    match attr {
        Attr::LargeCom(l) => {
            assert_eq!(l.0.len(), 1);
            assert_eq!(l.0[0].global, 1);
            assert_eq!(l.0[0].local1, 2);
            assert_eq!(l.0[0].local2, 3);
        },
        _ => panic!("attribute must be a large community"),
    }
}

#[test]
fn mp_reach_nexthop_lengths() {
    // VPNv4 with the fixed 12-byte next hop.
    let mut p: Vec<u8> = vec![0x00, 0x01, 0x80, 12];
    p.extend_from_slice(&[0; 8]);
    p.extend_from_slice(&[10, 0, 0, 1]);
    p.push(0);
    let r = MpNlriReachAttr::parse_nlri_opt(&p, 0, p.len(), None).unwrap();
    assert!(matches!(r, MpNlriReachAttr::Vpnv4 { .. }));

    // IPv6 unicast with a 16-byte global next hop.
    let mut p: Vec<u8> = vec![0x00, 0x02, 0x01, 16];
    p.extend_from_slice(&[0x20, 0x01, 0, 0, 0, 0, 0, 0, 0, 0, 0, 0, 0, 0, 0, 1]);
    p.push(0);
    match MpNlriReachAttr::parse_nlri_opt(&p, 0, p.len(), None).unwrap() {
        MpNlriReachAttr::Ipv6 { nhop_ll, .. } => assert!(nhop_ll.is_none()),
        _ => panic!("family must be IPv6 unicast"),
    }

    // IPv6 unicast with global and link-local next hops: 32 bytes.
    let mut p: Vec<u8> = vec![0x00, 0x02, 0x01, 32];
    p.extend_from_slice(&[0x20, 0x01, 0, 0, 0, 0, 0, 0, 0, 0, 0, 0, 0, 0, 0, 1]);
    p.extend_from_slice(&[0xFE, 0x80, 0, 0, 0, 0, 0, 0, 0, 0, 0, 0, 0, 0, 0, 2]);
    p.push(0);
    match MpNlriReachAttr::parse_nlri_opt(&p, 0, p.len(), None).unwrap() {
        MpNlriReachAttr::Ipv6 { nhop_ll, .. } => assert!(nhop_ll.is_some()),
        _ => panic!("family must be IPv6 unicast"),
    }

    // An EVPN next hop may be a four-byte IPv4 address.
    let p: Vec<u8> = vec![0x00, 0x19, 0x46, 4, 10, 0, 0, 1, 0];
    match MpNlriReachAttr::parse_nlri_opt(&p, 0, p.len(), None).unwrap() {
        MpNlriReachAttr::Evpn { nhop, updates, .. } => {
            assert_eq!(nhop, MpNexthop::V4(0x0A00_0001));
            assert_eq!(updates.len(), 0);
        },
        _ => panic!("family must be EVPN"),
    }

    // A wrong next-hop length is rejected.
    let p: Vec<u8> = vec![0x00, 0x02, 0x01, 17];
    let r = MpNlriReachAttr::parse_nlri_opt(&p, 0, p.len(), None);
    assert_eq!(r.unwrap_err(), BgpParseError::BadLength);
}

#[test]
fn mp_unreach_vpnv4_round_trip() {
    let v = MpNlriUnreachAttr::Vpnv4(vec![bgp_packet::nlri::Vpnv4Nlri {
        label: Label { value: 16, exp: 0, bos: true },
        rd: RouteDistinguisher { typ: 0, val: 0x0064_0000_0001 },
        nlri: Ipv4Nlri { id: 0, prefix: Ipv4Prefix { addr: 0x0A00_0000, plen: 24 } },
    }]);
    let mut out: Vec<u8> = Vec::new();
    v.emit_value(&mut out, None);
    let back = MpNlriUnreachAttr::parse_nlri_opt(&out, 0, out.len(), None).unwrap();
    match back {
        MpNlriUnreachAttr::Vpnv4(w) => {
            assert_eq!(w.len(), 1);
            assert_eq!(w[0].nlri.prefix.plen, 24);
            assert_eq!(w[0].label.value, 16);
            assert!(w[0].label.bos);
        },
        _ => panic!("family must be VPNv4"),
    }
}

#[test]
fn evpn_multicast_route_round_trip() {
    let route = EvpnRoute::Multicast(bgp_packet::evpn::EvpnMulticast {
        id: 0,
        rd: RouteDistinguisher { typ: 1, val: 0x0102_0304_0002 },
        ether_tag: 9,
        orig: Ipv6Prefix { addr: 0x2001_0db8 << 96, plen: 32 },
    });
    let mut out: Vec<u8> = Vec::new();
    route.emit(&mut out, false);
    let (n, back) = EvpnRoute::parse_nlri(&out, 0, out.len(), false).unwrap();
    assert_eq!(n, out.len());
    match back {
        EvpnRoute::Multicast(m) => {
            assert_eq!(m.rd.typ, 1);
            assert_eq!(m.ether_tag, 9);
            assert_eq!(m.orig.plen, 32);
        },
        _ => panic!("route must be inclusive multicast"),
    }
}

#[test]
fn evpn_route_overrun_rejected() {
    // Declared remainder longer than the body.
    let bytes = [0x02u8, 0x21, 0x00];
    let r = EvpnRoute::parse_nlri(&bytes, 0, bytes.len(), false);
    assert_eq!(r.unwrap_err(), BgpParseError::Malformed);
}

#[test]
fn open_with_capabilities_round_trip() {
    let caps: Vec<CapabilityPacket> = vec![
        CapabilityPacket::MultiProtocol(bgp_packet::cap::CapMultiProtocol::new(
            &Afi::Ip,
            &Safi::Unicast,
        )),
        CapabilityPacket::As4(bgp_packet::cap::CapabilityAs4::new(65536)),
        CapabilityPacket::RouteRefresh(bgp_packet::cap::CapabilityRouteRefresh {}),
    ];
    // Header length: 29 fixed + three parameters of 2 + 2 + value.
    let total = 29 + (2 + 2 + 4) + (2 + 2 + 4) + (2 + 2);
    let header = bgp_packet::packet::BgpHeader::new(bgp_packet::packet::BgpType::Open, total);
    let open = bgp_packet::open::OpenPacket::new(header, 23456, 90, 0x0A00_0001, caps);
    let mut out: Vec<u8> = Vec::new();
    open.emit(&mut out);
    assert_eq!(out.len(), total as usize);
    let (n, packet) = BgpPacket::parse_packet(&out, 0, false, None).unwrap();
    assert_eq!(n, out.len());
    match packet {
        BgpPacket::Open(o) => {
            assert_eq!(o.asn, 23456);
            assert_eq!(o.caps.len(), 3);
            assert!(matches!(o.caps[0], CapabilityPacket::MultiProtocol(_)));
            assert!(matches!(
                o.caps[1],
                CapabilityPacket::As4(bgp_packet::cap::CapabilityAs4 { asn: 65536 })
            ));
            assert!(matches!(o.caps[2], CapabilityPacket::RouteRefresh(_)));
        },
        _ => panic!("Packet must be Open"),
    }
}

#[test]
fn graceful_restart_legacy_forms() {
    // The two-byte legacy form.
    let p = [64u8, 2, 0x12, 0x34];
    let (_, cap) = CapabilityPacket::parse_cap(&p, 0, p.len()).unwrap();
    match cap {
        CapabilityPacket::GracefulRestart(g) => {
            assert_eq!(g.restart_time, 0x1234);
            assert_eq!(g.tuples.len(), 0);
        },
        _ => panic!("capability must be graceful restart"),
    }
    // The four-byte legacy form.
    let p = [64u8, 4, 0x00, 0x01, 0x02, 0x03];
    let (_, cap) = CapabilityPacket::parse_cap(&p, 0, p.len()).unwrap();
    match cap {
        CapabilityPacket::GracefulRestart(g) => {
            assert_eq!(g.restart_time, 0x0001_0203);
            assert_eq!(g.tuples.len(), 0);
        },
        _ => panic!("capability must be graceful restart"),
    }
    // The full layout: flags and time, then one family tuple.
    let p = [64u8, 6, 0x40, 0x78, 0x00, 0x01, 0x01, 0x80];
    let (_, cap) = CapabilityPacket::parse_cap(&p, 0, p.len()).unwrap();
    match cap {
        CapabilityPacket::GracefulRestart(g) => {
            assert_eq!(g.restart_time, 0x4078);
            assert_eq!(g.tuples.len(), 1);
            assert_eq!(g.tuples[0].afi, Afi::Ip);
            assert_eq!(g.tuples[0].safi, Safi::Unicast);
            assert_eq!(g.tuples[0].flags, 0x80);
        },
        _ => panic!("capability must be graceful restart"),
    }
}

#[test]
fn add_path_capability_round_trip() {
    let cap = CapabilityPacket::AddPath(bgp_packet::cap::CapabilityAddPath::new(
        Afi::Ip,
        Safi::Unicast,
        3,
    ));
    let mut out: Vec<u8> = Vec::new();
    cap.encode(&mut out);
    assert_eq!(out, vec![69, 4, 0x00, 0x01, 0x01, 0x03]);
    let (_, back) = CapabilityPacket::parse_cap(&out, 0, out.len()).unwrap();
    match back {
        CapabilityPacket::AddPath(a) => {
            assert_eq!(a.values.len(), 1);
            assert!(a.values[0].send_receive.is_send());
            assert!(a.values[0].send_receive.is_receive());
        },
        _ => panic!("capability must be Add-Path"),
    }
}

#[test]
fn notification_round_trip() {
    let mut buf: Vec<u8> = vec![0xFF; 16];
    buf.extend_from_slice(&[0x00, 0x17, 0x03, 0x06, 0x02, 0xAA, 0xBB]);
    let (n, packet) = BgpPacket::parse_packet(&buf, 0, false, None).unwrap();
    assert_eq!(n, 23);
    let p = match packet {
        BgpPacket::Notification(p) => p,
        _ => panic!("Packet must be Notification"),
    };
    assert_eq!(p.code, 6);
    assert_eq!(p.sub_code, 2);
    assert_eq!(p.data, vec![0xAA, 0xBB]);
    let mut out: Vec<u8> = Vec::new();
    p.emit(&mut out);
    assert_eq!(out, buf);
}

#[test]
fn route_refresh_parse() {
    let mut buf: Vec<u8> = vec![0xFF; 16];
    buf.extend_from_slice(&[0x00, 0x17, 0x05, 0x00, 0x01, 0x00, 0x01]);
    let (_, packet) = BgpPacket::parse_packet(&buf, 0, false, None).unwrap();
    match packet {
        BgpPacket::RouteRefresh(p) => {
            assert_eq!(p.afi, Afi::Ip);
            assert_eq!(p.safi, Safi::Unicast);
        },
        _ => panic!("Packet must be RouteRefresh"),
    }
}

#[test]
fn aggregator_widths_by_mode() {
    // In four-octet mode the AGGREGATOR value takes eight bytes.
    let p4 = [0xC0u8, 0x07, 0x08, 0x00, 0x01, 0x00, 0x00, 10, 0, 0, 1];
    let (_, attr) = bgp_packet::attr::parse_attr(&p4, 0, p4.len(), true, None).unwrap();
    match attr {
        Attr::Aggregator(a) => assert_eq!(a.asn, 65536),
        _ => panic!("attribute must be the four-octet aggregator"),
    }
    // In two-octet mode it takes six.
    let p2 = [0xC0u8, 0x07, 0x06, 0x00, 0x64, 10, 0, 0, 1];
    let (_, attr) = bgp_packet::attr::parse_attr(&p2, 0, p2.len(), false, None).unwrap();
    match attr {
        Attr::Aggregator2(a) => assert_eq!(a.asn, 100),
        _ => panic!("attribute must be the two-octet aggregator"),
    }
    // The widths are not interchangeable.
    let r = bgp_packet::attr::parse_attr(&p2, 0, p2.len(), true, None);
    assert_eq!(r.unwrap_err(), BgpParseError::BadLength);
}

#[test]
fn rtc_nlri_round_trip() {
    // An RTC entry: origin AS 65000, route target 100:1.
    let mut p: Vec<u8> = vec![0x00, 0x01, 0x84, 4, 10, 0, 0, 1, 0];
    p.extend_from_slice(&[96, 0x00, 0x00, 0xFD, 0xE8]);
    p.extend_from_slice(&[0x00, 0x02, 0x00, 0x64, 0x00, 0x00, 0x00, 0x01]);
    let r = MpNlriReachAttr::parse_nlri_opt(&p, 0, p.len(), None).unwrap();
    match r {
        MpNlriReachAttr::Rtcv4 { updates, .. } => {
            assert_eq!(updates.len(), 1);
            assert_eq!(updates[0].asn, 65000);
            assert_eq!(updates[0].rt.high_type, 0x00);
            assert_eq!(updates[0].rt.low_type, 0x02);
        },
        _ => panic!("family must be route-target constraint"),
    }
}

#[test]
fn ipv6_community_value_codec() {
    let v = bgp_packet::community::ExtIpv6CommunityValue {
        high_type: 0x00,
        low_type: 0x02,
        global: 0x2001_0db8 << 96,
        local: 10,
    };
    let mut out: Vec<u8> = Vec::new();
    v.encode(&mut out);
    assert_eq!(out.len(), 20);
    let (n, back) =
        bgp_packet::community::ExtIpv6CommunityValue::parse_be(&out, 0, out.len()).unwrap();
    assert_eq!(n, 20);
    assert_eq!(back, v);
}

#[test]
fn add_path_zero_identifier_round_trip() {
    // A path identifier of zero is carried and re-emitted under Add-Path.
    let bytes = [0u8, 0, 0, 0, 24, 10, 0, 0];
    let (n, v) = Ipv4Nlri::parse_nlri(&bytes, 0, bytes.len(), true).unwrap();
    assert_eq!(n, bytes.len());
    assert_eq!(v.id, 0);
    let mut out: Vec<u8> = Vec::new();
    v.emit(&mut out, true);
    assert_eq!(out, bytes);
}

#[test]
fn mp_reach_emits_zero_rd_and_snpa() {
    // Whatever SNPA and next-hop RD bytes arrived, the emitter writes zeros.
    let mut p: Vec<u8> = vec![0x00, 0x01, 0x80, 12];
    p.extend_from_slice(&[9, 9, 9, 9, 9, 9, 9, 9]);
    p.extend_from_slice(&[10, 0, 0, 1]);
    p.push(7);
    let v = MpNlriReachAttr::parse_nlri_opt(&p, 0, p.len(), None).unwrap();
    let mut out: Vec<u8> = Vec::new();
    v.emit_value(&mut out, None);
    assert_eq!(&out[4..12], &[0u8; 8]);
    assert_eq!(out[16], 0);
}

#[test]
fn update_set_length_prepares_emission() {
    let mut update = bgp_packet::packet::UpdatePacket::new();
    update.ipv4_update.push(Ipv4Nlri {
        id: 0,
        prefix: Ipv4Prefix { addr: 0x0A00_0000, plen: 24 },
    });
    assert!(update.set_length(None));
    assert_eq!(update.header.length, 23 + 4);
    let mut out: Vec<u8> = Vec::new();
    update.emit(&mut out, None);
    assert_eq!(out.len(), 27);
    let (_, packet) = BgpPacket::parse_packet(&out, 0, false, None).unwrap();
    match packet {
        BgpPacket::Update(u) => assert_eq!(u.ipv4_update.len(), 1),
        _ => panic!("Packet must be Update"),
    }
}

#[test]
fn open_set_length_prepares_emission() {
    let caps: Vec<CapabilityPacket> = vec![CapabilityPacket::As4(
        bgp_packet::cap::CapabilityAs4::new(65536),
    )];
    let header = bgp_packet::packet::BgpHeader::new(bgp_packet::packet::BgpType::Open, 0);
    let mut open = bgp_packet::open::OpenPacket::new(header, 23456, 90, 0x0A00_0001, caps);
    assert!(open.set_length());
    let mut out: Vec<u8> = Vec::new();
    open.emit(&mut out);
    assert_eq!(out.len(), open.header.length as usize);
    let (_, packet) = BgpPacket::parse_packet(&out, 0, false, None).unwrap();
    match packet {
        BgpPacket::Open(o) => assert_eq!(o.caps.len(), 1),
        _ => panic!("Packet must be Open"),
    }
}

#[test]
fn notification_set_length_prepares_emission() {
    let mut p = bgp_packet::packet::NotificationPacket {
        header: bgp_packet::packet::BgpHeader::new(bgp_packet::packet::BgpType::Notification, 0),
        code: 6,
        sub_code: 2,
        data: vec![1, 2, 3],
    };
    assert!(p.set_length());
    assert_eq!(p.header.length, 24);
    let mut out: Vec<u8> = Vec::new();
    p.emit(&mut out);
    let (_, packet) = BgpPacket::parse_packet(&out, 0, false, None).unwrap();
    match packet {
        BgpPacket::Notification(n) => assert_eq!(n.data, vec![1, 2, 3]),
        _ => panic!("Packet must be Notification"),
    }
}

#[test]
fn community_text_rejects_unqualified_value() {
    // A value before any keyword fits no form of the grammar.
    assert!(bgp_packet::community::ExtCommunity::from_str("100:200").is_err());
    assert!(bgp_packet::community::ExtCommunity::from_str("rt 100").is_err());
    assert!(bgp_packet::community::ExtCommunity::from_str("rx 100:200").is_err());
}
