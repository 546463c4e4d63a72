use netom::addr::IpAddr;
use netom::clickhouse::event::{array_u32, ip_bytes, nullable_u32, string, varint, Derived, Event};
use netom::clickhouse::record::{expiry, Rows};

const V6: IpAddr = IpAddr::V6(0x2001_0db8_0000_0000_0000_0000_0000_0001);
const V4: IpAddr = IpAddr::V4(0xc000_0201);

#[test]
fn mixed_family_update_selects_the_routes_own_next_hop() {
    let mut raw = vec![64, 3, 4, 192, 0, 2, 1, 128, 14, 21, 0, 2, 1, 16];
    let v6 = ip_bytes(V6);
    raw.extend_from_slice(&v6);
    raw.push(0);
    assert_eq!(
        Derived::parse(&raw, 4, 1, 1).unwrap().next_hop,
        Some(ip_bytes(V4))
    );
    assert_eq!(Derived::parse(&raw, 4, 2, 1).unwrap().next_hop, Some(v6));
}

#[test]
fn legacy_as_path_and_unknown_attribute_are_preserved() {
    let raw = [
        0, 0, 64, 2, 6, 2, 2, 0xfd, 0xe8, 0xfd, 0xe9, 128, 99, 3, 0, 255, 128,
    ];
    let e = Event { attrs: raw.to_vec(), ..Default::default() };
    let d = Derived::parse(&raw[2..], 2, 1, 1).unwrap();
    assert_eq!(d.path, [65000, 65001]);
    let mut bytes = Vec::new();
    e.encode(&mut bytes);
    assert!(bytes.windows(raw.len() - 2).any(|v| v == &raw[2..]));
}

fn prefix_sid(value_len: u8, tlv_len: u16) -> Vec<u8> {
    let mut a = vec![0xC0, 40, value_len, 1];
    a.extend_from_slice(&tlv_len.to_be_bytes());
    a.extend_from_slice(&[0, 0, 0, 0, 0, 0, 100]);
    a
}

fn update_with(sid: &[u8]) -> Vec<u8> {
    let mut raw = vec![0, 1, 64, 1, 1, 0, 64, 2, 10, 2, 2];
    raw.extend_from_slice(&65000u32.to_be_bytes());
    raw.extend_from_slice(&65001u32.to_be_bytes());
    raw.extend_from_slice(sid);
    raw.extend_from_slice(&[0xC0, 8, 4, 0xFD, 0xE8, 0, 7]);
    raw
}

fn encoded(raw: &[u8]) -> (Vec<u8>, u8) {
    let mut bytes = Vec::new();
    Event { attrs: raw.to_vec(), afi: 1, safi: 1, ..Default::default() }.encode(&mut bytes);
    let ok = bytes[bytes.len() - 2];
    (bytes, ok)
}

#[test]
fn prefix_sid_attribute_is_stored_and_does_not_disturb_derivation() {
    let raw = update_with(&prefix_sid(10, 7));
    let d = Derived::parse(&raw[2..], 4, 1, 1).unwrap();
    assert_eq!(d.path, [65000, 65001]);
    assert_eq!(d.communities, [0xFDE80007]);
    let (bytes, ok) = encoded(&raw);
    assert_eq!(ok, 1);
    assert!(bytes.windows(raw.len() - 2).any(|w| w == &raw[2..]));
}

#[test]
fn prefix_sid_with_malformed_inner_tlv_is_stored_verbatim() {
    let sid = prefix_sid(10, 0x00FF);
    let raw = update_with(&sid);
    let d = Derived::parse(&raw[2..], 4, 1, 1).unwrap();
    assert_eq!(d.path, [65000, 65001]);
    assert_eq!(d.communities, [0xFDE80007]);
    let (bytes, ok) = encoded(&raw);
    assert_eq!(ok, 1);
    assert!(bytes.windows(sid.len()).any(|w| w == sid));
}

#[test]
fn prefix_sid_with_overrunning_length_is_stored_with_parse_not_ok() {
    let raw = update_with(&prefix_sid(0xFF, 7));
    assert!(Derived::parse(&raw[2..], 4, 1, 1).is_none());
    let (bytes, ok) = encoded(&raw);
    assert_eq!(ok, 0);
    assert!(bytes.windows(raw.len() - 2).any(|w| w == &raw[2..]));
}

#[test]
fn malformed_attributes_never_panic_or_publish_partial_derivations() {
    let raw = [64, 5, 4, 0, 0, 0, 100, 128, 99, 255];
    assert!(Derived::parse(&raw, 4, 1, 1).is_none());
    for i in 0..raw.len() {
        let _ = Derived::parse(&raw[..i], 4, 1, 1);
    }
}

#[test]
fn rowbinary_lengths_and_nulls() {
    let mut out = Vec::new();
    string(&mut out, &[42; 128]);
    assert_eq!(&out[..2], &[128, 1]);
    out.clear();
    nullable_u32(&mut out, None);
    nullable_u32(&mut out, Some(0x12345678));
    assert_eq!(out, [1, 0, 0x78, 0x56, 0x34, 0x12]);
}

#[test]
fn lists_and_numbers_have_an_exact_form() {
    let mut out = Vec::new();
    varint(&mut out, 300);
    assert_eq!(out, [0xac, 2]);
    out.clear();
    array_u32(&mut out, &[1, 0x0102_0304]);
    assert_eq!(out, [2, 1, 0, 0, 0, 4, 3, 2, 1]);
    assert_eq!(ip_bytes(V4), [0, 0, 0, 0, 0, 0, 0, 0, 0, 0, 0xff, 0xff, 192, 0, 2, 1]);
}

#[test]
fn rows_expire_with_the_hour() {
    let hour = 3_600_000;
    assert_eq!(expiry(hour, 24), expiry(2 * hour - 1, 24));
    assert_eq!(expiry(2 * hour, 24) - expiry(hour, 24), 3600);
}

#[test]
fn an_identity_is_introduced_once_in_a_segment() {
    let mut rows = Rows::new();
    let event = || Event { identity: "{}".into(), peer: [9; 16], kind: 4, ..Default::default() };
    rows.record(event(), [2; 16], 24);
    assert_eq!(rows.frame_rows, 2);
    rows.record(event(), [2; 16], 24);
    assert_eq!(rows.frame_rows, 3);
    rows.flush();
    rows.leave_segment();
    rows.record(event(), [2; 16], 24);
    assert_eq!(rows.frame_rows, 2);
}
