use bgp_packet::aspath::As4Path;
use bgp_packet::attr::Attr;
use bgp_packet::bgp_attr::BgpAttr;
use bgp_packet::community::ExtCommunity;
use bgp_packet::context::{Direct, ParseOption};
use bgp_packet::error::BgpParseError;
use bgp_packet::community_token::{tokenizer, Token};
use bgp_packet::packet::{BgpPacket, UpdatePacket};

fn marker() -> Vec<u8> {
    vec![0xFF; 16]
}

#[test]
fn aspath_parse() {
    let aspath = As4Path::from_str("1 2 3 65536").unwrap();
    assert_eq!(aspath.to_str(), "1 2 3 1.0");

    let aspath = As4Path::from_str("1 2 3 {4} 4294967295").unwrap();
    assert_eq!(aspath.to_str(), "1 2 3 {4} 65535.65535");

    let aspath = As4Path::from_str("1 2 3 [4 5] 6").unwrap();
    assert_eq!(aspath.to_str(), "1 2 3 [4 5] 6");

    let aspath = As4Path::from_str("1 2 3 [4 5] 6 (7)").unwrap();
    assert_eq!(aspath.to_str(), "1 2 3 [4 5] 6 (7)");
}

#[test]
fn prepend() {
    let aspath = As4Path::from_str("10 11 12").unwrap();
    let front = As4Path::from_str("1 2 3").unwrap();
    let result = aspath.prepend(&front);
    assert_eq!(result.to_str(), "1 2 3 10 11 12");
}

#[test]
fn ext_community_parse() {
    let ecom = ExtCommunity::from_str("rt 100:200").unwrap();
    assert_eq!(ecom.to_str(), "rt 100:200");

    let ecom = ExtCommunity::from_str("soo 1.2.3.4:200").unwrap();
    assert_eq!(ecom.to_str(), "soo 1.2.3.4:200");

    let ecom = ExtCommunity::from_str("rt 1.2.3.4:100 soo 10:100").unwrap();
    assert_eq!(ecom.to_str(), "rt 1.2.3.4:100 soo 10:100");
}

fn evpn_packet_bytes() -> Vec<u8> {
    let mut buf = marker();
    buf.extend_from_slice(&[
        0x00, 0x41, 0x02, 0x00, 0x00, 0x00, 0x2a, 0x90, 0x0f, 0x00, 0x26, 0x00, 0x19, 0x46, 0x02,
        0x21, 0x00, 0x01, 0x01, 0x02, 0x03, 0x04, 0x00, 0x02, 0x00, 0x00, 0x00, 0x00, 0x00, 0x00,
        0x00, 0x00, 0x00, 0x00, 0x00, 0x00, 0x00, 0x00, 0x30, 0x5e, 0xe9, 0x1e, 0x08, 0x4d, 0x68,
        0x00, 0x00, 0x00, 0x00,
    ]);
    buf
}

#[test]
fn parse_evpn_test_1() {
    let buf = evpn_packet_bytes();
    let packet = BgpPacket::parse_packet(&buf, 0, true, None);
    assert!(packet.is_ok());

    let (_, packet) = packet.unwrap();
    if let BgpPacket::Update(update) = packet {
        let mut seen = false;
        for attr in update.attrs.iter() {
            if let Attr::MpUnreachNlri(bgp_packet::mp::MpNlriUnreachAttr::Evpn(routes)) = attr {
                assert_eq!(routes.len(), 1);
                seen = true;
            }
        }
        assert!(seen);
    } else {
        panic!("Packet must be Update");
    }
}

#[test]
fn evpn_mac_route_fields() {
    let buf = evpn_packet_bytes();
    let (n, packet) = BgpPacket::parse_packet(&buf, 0, true, None).unwrap();
    assert_eq!(n, buf.len());
    let update = match packet {
        BgpPacket::Update(u) => u,
        _ => panic!("Packet must be Update"),
    };
    let routes = match &update.attrs[0] {
        Attr::MpUnreachNlri(bgp_packet::mp::MpNlriUnreachAttr::Evpn(routes)) => routes,
        _ => panic!("attribute must be an EVPN MP_UNREACH"),
    };
    match &routes[0] {
        bgp_packet::evpn::EvpnRoute::Mac(m) => {
            // The route distinguisher is the IP form 1.2.3.4:2.
            assert_eq!(m.rd.typ, 1);
            assert_eq!(m.rd.val, 0x0102_0304_0002);
            assert_eq!(m.mac, 0x5ee9_1e08_4d68);
            assert_eq!(m.esi_type, 0);
            assert_eq!(m.esi, 0);
            assert_eq!(m.ether_tag, 0);
            assert_eq!(m.vni, 0);
        },
        _ => panic!("route must be a MAC/IP advertisement"),
    }
}

#[test]
fn keepalive_parse() {
    let mut buf = marker();
    buf.extend_from_slice(&[0x00, 0x13, 0x04]);
    let (n, packet) = BgpPacket::parse_packet(&buf, 0, false, None).unwrap();
    assert_eq!(n, 19);
    match packet {
        BgpPacket::Keepalive(h) => assert_eq!(h.length, 19),
        _ => panic!("Packet must be Keepalive"),
    }
}

#[test]
fn open_parse() {
    let mut buf = marker();
    buf.extend_from_slice(&[
        0x00, 0x1D, 0x01, 0x04, 0x00, 0x64, 0x00, 0xB4, 0x0A, 0x00, 0x00, 0x01, 0x00,
    ]);
    let (n, packet) = BgpPacket::parse_packet(&buf, 0, false, None).unwrap();
    assert_eq!(n, 29);
    match packet {
        BgpPacket::Open(o) => {
            assert_eq!(o.asn, 100);
            assert_eq!(o.hold_time, 180);
            assert_eq!(o.bgp_id, 0x0A00_0001);
            assert_eq!(o.caps.len(), 0);
        },
        _ => panic!("Packet must be Open"),
    }
}

fn ipv4_update_bytes() -> Vec<u8> {
    let mut buf = marker();
    buf.extend_from_slice(&[0x00, 0x2D, 0x02]);
    buf.extend_from_slice(&[0x00, 0x00]);
    buf.extend_from_slice(&[0x00, 0x12]);
    // ORIGIN: IGP.
    buf.extend_from_slice(&[0x40, 0x01, 0x01, 0x00]);
    // AS_PATH: one sequence segment holding AS 100, two-byte numbers.
    buf.extend_from_slice(&[0x40, 0x02, 0x04, 0x02, 0x01, 0x00, 0x64]);
    // NEXT_HOP: 10.0.0.1.
    buf.extend_from_slice(&[0x40, 0x03, 0x04, 0x0A, 0x00, 0x00, 0x01]);
    // Announced NLRI: 10.0.0.0/24.
    buf.extend_from_slice(&[0x18, 0x0A, 0x00, 0x00]);
    buf
}

#[test]
fn ipv4_unicast_update() {
    let buf = ipv4_update_bytes();
    let (n, packet) = BgpPacket::parse_packet(&buf, 0, false, None).unwrap();
    assert_eq!(n, buf.len());
    let update = match packet {
        BgpPacket::Update(u) => u,
        _ => panic!("Packet must be Update"),
    };
    assert_eq!(update.ipv4_update.len(), 1);
    assert_eq!(update.ipv4_update[0].prefix.plen, 24);
    assert_eq!(update.ipv4_update[0].prefix.addr, 0x0A00_0000);
    assert_eq!(update.ipv4_withdraw.len(), 0);
    assert_eq!(update.attrs.len(), 3);
}

#[test]
fn ipv4_update_round_trip() {
    let buf = ipv4_update_bytes();
    let (_, packet) = BgpPacket::parse_packet(&buf, 0, false, None).unwrap();
    let update = match packet {
        BgpPacket::Update(u) => u,
        _ => panic!("Packet must be Update"),
    };
    let mut out: Vec<u8> = Vec::new();
    update.emit(&mut out, None);
    assert_eq!(out, buf);
}

#[test]
fn evpn_update_round_trip() {
    // The extended-length bit of the wire form is normalized away on
    // re-emission, so the second round trip is byte-exact.
    let buf = evpn_packet_bytes();
    let (_, packet) = BgpPacket::parse_packet(&buf, 0, true, None).unwrap();
    let mut update = match packet {
        BgpPacket::Update(u) => u,
        _ => panic!("Packet must be Update"),
    };
    let mut out: Vec<u8> = Vec::new();
    // The canonical form is three bytes shorter in the envelope and carries a
    // recomputed total length.
    update.header.length -= 1;
    update.emit(&mut out, None);
    let (_, packet2) = BgpPacket::parse_packet(&out, 0, true, None).unwrap();
    let update2 = match packet2 {
        BgpPacket::Update(u) => u,
        _ => panic!("Packet must be Update"),
    };
    let mut out2: Vec<u8> = Vec::new();
    update2.emit(&mut out2, None);
    assert_eq!(out, out2);
}

#[test]
fn eor_detection_and_emission() {
    let mut buf = marker();
    buf.extend_from_slice(&[0x00, 0x1E, 0x02, 0x00, 0x00, 0x00, 0x07]);
    buf.extend_from_slice(&[0x90, 0x0F, 0x00, 0x03, 0x00, 0x19, 0x46]);
    let (_, packet) = BgpPacket::parse_packet(&buf, 0, false, None).unwrap();
    let update = match packet {
        BgpPacket::Update(u) => u,
        _ => panic!("Packet must be Update"),
    };
    assert!(matches!(
        update.attrs[0],
        Attr::MpUnreachNlri(bgp_packet::mp::MpNlriUnreachAttr::EvpnEor)
    ));
    // Re-emission of the End-of-RIB marker: type, one-byte length, and the
    // bare AFI+SAFI header.
    let mut out: Vec<u8> = Vec::new();
    update.attrs[0].emit(&mut out, None);
    assert_eq!(out, vec![0x80, 0x0F, 0x03, 0x00, 0x19, 0x46]);
}

#[test]
fn add_path_identifier_preserved() {
    let mut ctx = ParseOption::new();
    ctx.set_add_path(
        bgp_packet::afi::Afi::Ip,
        bgp_packet::afi::Safi::Unicast,
        Direct { recv: true, send: true },
    );
    let mut buf = marker();
    // Total 19 + 2 + 2 + 8 = 31: one announced prefix led by identifier 7.
    buf.extend_from_slice(&[0x00, 0x1F, 0x02, 0x00, 0x00, 0x00, 0x00]);
    buf.extend_from_slice(&[0x00, 0x00, 0x00, 0x07, 0x18, 0x0A, 0x00, 0x00]);
    let (_, packet) = BgpPacket::parse_packet(&buf, 0, false, Some(&ctx)).unwrap();
    let update = match packet {
        BgpPacket::Update(u) => u,
        _ => panic!("Packet must be Update"),
    };
    assert_eq!(update.ipv4_update.len(), 1);
    assert_eq!(update.ipv4_update[0].id, 7);
    let mut out: Vec<u8> = Vec::new();
    update.emit(&mut out, Some(&ctx));
    assert_eq!(out, buf);
}

#[test]
fn test_bgp_attr_new() {
    let bgp_attr = BgpAttr::new();
    assert!(bgp_attr.origin.is_some());
    assert!(bgp_attr.aspath.is_some());
    assert!(bgp_attr.med.is_some());
    assert_eq!(bgp_attr.origin.unwrap().origin, 0);
    assert_eq!(bgp_attr.aspath.unwrap().segs.len(), 0);
}

#[test]
fn test_bgp_attr_to_empty() {
    let bgp_attr = BgpAttr::empty();
    let attrs = bgp_attr.to();
    assert_eq!(attrs.len(), 0);
}

#[test]
fn test_bgp_attr_to_from_roundtrip() {
    let mut bgp_attr = BgpAttr::new();
    bgp_attr.nexthop = Some(bgp_packet::bgp_attr::BgpNexthop::Ipv4(0xC0A8_0101));
    bgp_attr.local_pref = Some(bgp_packet::attr::LocalPref { local_pref: 100 });
    bgp_attr.com = Some(bgp_packet::community::Community(vec![100 * 65536 + 200]));

    let attrs = bgp_attr.to();
    assert!(attrs.iter().any(|a| matches!(a, Attr::Origin(_))));
    assert!(attrs.iter().any(|a| matches!(a, Attr::As4Path(_))));
    assert!(attrs.iter().any(|a| matches!(a, Attr::NextHop(_))));
    assert!(attrs.iter().any(|a| matches!(a, Attr::Med(_))));
    assert!(attrs.iter().any(|a| matches!(a, Attr::LocalPref(_))));
    assert!(attrs.iter().any(|a| matches!(a, Attr::Community(_))));

    let bgp_attr2 = BgpAttr::from(&attrs);
    assert_eq!(
        bgp_attr.origin.unwrap().origin,
        bgp_attr2.origin.unwrap().origin
    );
    assert_eq!(
        bgp_attr.local_pref.unwrap().local_pref,
        bgp_attr2.local_pref.unwrap().local_pref
    );
    assert_eq!(bgp_attr2.nexthop, bgp_attr.nexthop);
}

#[test]
fn update_length_field_matches() {
    let buf = ipv4_update_bytes();
    let (_, packet) = BgpPacket::parse_packet(&buf, 0, false, None).unwrap();
    let update = match packet {
        BgpPacket::Update(u) => u,
        _ => panic!("Packet must be Update"),
    };
    let mut out: Vec<u8> = Vec::new();
    update.emit(&mut out, None);
    let total = ((out[16] as usize) << 8) | out[17] as usize;
    assert_eq!(total, out.len());
}

#[test]
fn peek_length() {
    let buf = ipv4_update_bytes();
    assert_eq!(bgp_packet::packet::peek_bgp_length(&buf, 0), Some(0x2D));
    assert_eq!(bgp_packet::packet::peek_bgp_length(&buf[..10], 0), None);
}

#[test]
fn truncated_input_reports_needed() {
    let buf = vec![0xFFu8; 10];
    let r = BgpPacket::parse_packet(&buf, 0, false, None);
    assert_eq!(r.unwrap_err(), BgpParseError::Truncated { needed: 19 });
}

#[test]
fn bad_origin_value_rejected() {
    let mut buf = marker();
    buf.extend_from_slice(&[0x00, 0x1B, 0x02, 0x00, 0x00, 0x00, 0x04]);
    buf.extend_from_slice(&[0x40, 0x01, 0x01, 0x03]);
    let r = BgpPacket::parse_packet(&buf, 0, false, None);
    assert_eq!(r.unwrap_err(), BgpParseError::BadValue { typ: 1 });
}

#[test]
fn origin_flag_violation_rejected() {
    let mut buf = marker();
    buf.extend_from_slice(&[0x00, 0x1B, 0x02, 0x00, 0x00, 0x00, 0x04]);
    buf.extend_from_slice(&[0x80, 0x01, 0x01, 0x00]);
    let r = BgpPacket::parse_packet(&buf, 0, false, None);
    assert_eq!(r.unwrap_err(), BgpParseError::FlagViolation { typ: 1 });
}

#[test]
fn unknown_attr_without_optional_rejected() {
    let mut buf = marker();
    buf.extend_from_slice(&[0x00, 0x1B, 0x02, 0x00, 0x00, 0x00, 0x04]);
    buf.extend_from_slice(&[0x40, 0x63, 0x01, 0x00]);
    let r = BgpPacket::parse_packet(&buf, 0, false, None);
    assert_eq!(r.unwrap_err(), BgpParseError::OptionalMissing { typ: 0x63 });
}

#[test]
fn unknown_attr_preserved_verbatim() {
    let mut buf = marker();
    buf.extend_from_slice(&[0x00, 0x1C, 0x02, 0x00, 0x00, 0x00, 0x05]);
    buf.extend_from_slice(&[0xC0, 0x63, 0x02, 0xAB, 0xCD]);
    let (_, packet) = BgpPacket::parse_packet(&buf, 0, false, None).unwrap();
    let update = match packet {
        BgpPacket::Update(u) => u,
        _ => panic!("Packet must be Update"),
    };
    match &update.attrs[0] {
        Attr::Unknown { flags, typ, data } => {
            assert_eq!(*flags, 0xC0);
            assert_eq!(*typ, 0x63);
            assert_eq!(data.as_slice(), &[0xAB, 0xCD]);
        },
        _ => panic!("attribute must be preserved as unknown"),
    }
    let mut out: Vec<u8> = Vec::new();
    update.emit(&mut out, None);
    assert_eq!(out, buf);
}

#[test]
fn unsupported_family_reported() {
    // An MP_REACH for an unhandled family: AFI 1, SAFI 133 (flow-spec).
    let payload = [0x00u8, 0x01, 0x85, 0x04, 1, 2, 3, 4, 0];
    let r = bgp_packet::mp::MpNlriReachAttr::parse_nlri_opt(&payload, 0, payload.len(), None);
    assert_eq!(
        r.unwrap_err(),
        BgpParseError::UnsupportedFamily { afi: 1, safi: 133 }
    );
}

#[test]
fn update_truncated_attribute_rejected() {
    let mut buf = marker();
    buf.extend_from_slice(&[0x00, 0x1A, 0x02, 0x00, 0x00, 0x00, 0x03]);
    buf.extend_from_slice(&[0x40, 0x01, 0x01]);
    let r = BgpPacket::parse_packet(&buf, 0, false, None);
    assert!(matches!(r.unwrap_err(), BgpParseError::Truncated { .. }));
}

#[test]
fn token() {
    let token = tokenizer(String::from("[3001:2001::1]:10"));
    assert!(token.is_ok());

    let tokens = tokenizer(String::from("rt 3001:2001:::10"));
    assert!(tokens.is_ok());

    let tokens = tokenizer(String::from("soo 3001:2001:::10"));
    assert!(tokens.is_ok());

    let tokens = tokenizer(String::from("soo [3ffe:101:2fa::1]:100"));
    assert!(tokens.is_ok());

    let tokens = tokenizer(String::from("rt [3001:2001::1]:10 soo 3ffe:101:2f::1:100"));
    assert!(tokens.is_ok());

    let tokens = tokenizer(String::from("rt [::1]:10"));
    assert!(tokens.is_ok());
}

#[test]
fn token_values() {
    let tokens = tokenizer(String::from("rt [3001:2001::1]:10")).unwrap();
    assert_eq!(tokens.len(), 2);
    assert_eq!(tokens[0], Token::Rt);
    assert_eq!(
        tokens[1],
        Token::Rd(0x3001_2001_0000_0000_0000_0000_0000_0001, 10)
    );
    let tokens = tokenizer(String::from("soo 1:2:3:4:5:6:7:8:9")).unwrap();
    assert_eq!(
        tokens[1],
        Token::Rd(0x0001_0002_0003_0004_0005_0006_0007_0008, 9)
    );
    assert!(tokenizer(String::from("rt ::1")).is_err());
    assert!(tokenizer(String::from("zz [::1]:10")).is_err());
}
