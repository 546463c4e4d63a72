use netom::addr::IpAddr;
use netom::keyed::Keyed;
use netom::metrics::{label, Metric, MetricType, MetricUnit, Sample, Target};
use netom::order::{compare_bytes, compare_u64, Order};
use netom::roto_runtime::unsupported::FamilyCount;
use netom::sorting::sort;
use netom::text::{decimal, find_last, parse_number, same_ignoring_case, split_on, strip_leading, trim};
use netom::toml_doc::{document_text, parse, Toml};
use netom::wire::{put_be16, put_be32, put_le32, read_be16, read_be32, read_le32};

#[test]
fn entries_are_found_by_their_keys() {
    let mut entries: Keyed<u32, &str> = Keyed::new();
    entries.insert(5, "five");
    entries.insert(1, "one");
    entries.insert(3, "three");
    entries.insert(3, "drei");
    let keys: Vec<u32> = entries.entries.iter().map(|e| e.0).collect();
    assert_eq!(keys, [1, 3, 5]);
    assert_eq!(entries.get(3), Some(&"drei"));
    assert_eq!(entries.get(4), None);
    assert!(entries.contains(1));
    *entries.get_mut(1).unwrap() = "eins";
    assert!(entries.get_mut(2).is_none());
    assert_eq!(*entries.get_or_insert(1, "x"), "eins");
    assert_eq!(*entries.get_or_insert(2, "zwei"), "zwei");
    assert_eq!(entries.remove(1), Some("eins"));
    assert_eq!(entries.remove(1), None);
    assert_eq!(entries.entries.len(), 3);
}

#[test]
fn addresses_are_ordered_by_family_first() {
    let mut entries: Keyed<IpAddr, u8> = Keyed::new();
    entries.insert(IpAddr::V6(0), 3);
    entries.insert(IpAddr::V4(u32::MAX), 2);
    entries.insert(IpAddr::V4(0), 1);
    let values: Vec<u8> = entries.entries.iter().map(|e| e.1).collect();
    assert_eq!(values, [1, 2, 3]);
    assert_eq!(IpAddr::V4(u32::MAX).compare(IpAddr::V6(0)), Order::Less);
}

#[test]
fn sorting_keeps_the_order_of_equals() {
    let count = |safi: u8, count: u64| FamilyCount { family: (1, safi), count };
    let sorted = sort(vec![count(1, 5), count(2, 9), count(3, 5), count(4, 9)]);
    let order: Vec<u8> = sorted.iter().map(|c| c.family.1).collect();
    assert_eq!(order, [2, 4, 1, 3]);
}

#[test]
fn octets_are_ordered_as_words_are() {
    assert_eq!(compare_bytes(b"ab", b"abc"), Order::Less);
    assert_eq!(compare_bytes(b"b", b"abc"), Order::Greater);
    assert_eq!(compare_u64(3, 3), Order::Equal);
}

#[test]
fn numbers_are_put_on_the_wire() {
    let mut out = Vec::new();
    put_be16(&mut out, 0x0102);
    put_be32(&mut out, 0x0304_0506);
    put_le32(&mut out, 0x0708_090a);
    assert_eq!(out, [1, 2, 3, 4, 5, 6, 10, 9, 8, 7]);
    assert_eq!(read_be16(&out, 0), 0x0102);
    assert_eq!(read_be32(&out, 2), 0x0304_0506);
    assert_eq!(read_le32(&out, 6), 0x0708_090a);
}

#[test]
fn texts_are_taken_apart() {
    assert_eq!(decimal(u64::MAX), u64::MAX.to_string());
    assert_eq!(parse_number("+65535", 65535), Some(65535));
    assert_eq!(parse_number("65536", 65535), None);
    assert_eq!(parse_number("-1", 65535), None);
    assert_eq!(parse_number("", 65535), None);
    assert_eq!(trim(" \u{2003}a b\n"), "a b");
    let chars: Vec<char> = "a:b:c".chars().collect();
    assert_eq!(split_on(&chars, ':'), ["a", "b", "c"]);
    assert_eq!(find_last(&chars, ':'), Some(3));
    assert_eq!(find_last(&chars, '/'), None);
    assert_eq!(strip_leading("ASAS1", "AS"), "1");
    assert!(same_ignoring_case(&['A'], &['a']));
}

#[test]
fn documents_are_read_and_written() {
    let document = parse("b = 1\na = [\"x\", 2.0]\n").unwrap();
    assert!(matches!(document.get("b"), Some(Toml::Integer(1))));
    let Some(Toml::Array(items)) = document.get("a") else {
        panic!("not an array");
    };
    assert!(matches!(&items[0], Toml::Text(text) if text == "x"));
    assert!(document.get("c").is_none());
    let text = document_text(document).unwrap();
    let value: toml::Value = toml::de::from_str(&text).unwrap();
    assert_eq!(value["a"][1].as_float(), Some(2.0));
    assert!(document_text(Toml::Table(vec![("a".into(), Toml::Float("x".into()))])).is_none());
    assert!(parse("a = = b").unwrap_err().len() > 0);
}

#[test]
fn samples_have_labels() {
    let metric = Metric::new("n", "h", MetricType::Counter, MetricUnit::Total);
    let mut target = Target::new();
    target.append_simple(metric, "unit", 3);
    let labels = label(Vec::new(), "k", "v");
    target.append(Sample { metric, unit_name: None, labels, value: 4 });
    assert_eq!(target.samples[0].unit_name.as_deref(), Some("unit"));
    assert_eq!(target.samples[1].labels, vec![("k".to_string(), "v".to_string())]);
}
