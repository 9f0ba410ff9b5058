//! Text and maps with text keys.
use steambattery::key_map::KeyMap;
use steambattery::text::{order, parse_number, push_decimal, split_once, Order};

#[test]
fn texts_are_ordered_as_strings_are() {
    let texts = ["", "a", "ab", "b", "B", "\u{e9}", "\u{1F600}", "\u{ffff}", "/sys/1", "/sys/10"];
    for a in texts {
        for b in texts {
            let expected = match a.cmp(b) {
                std::cmp::Ordering::Less => Order::Before,
                std::cmp::Ordering::Equal => Order::Same,
                std::cmp::Ordering::Greater => Order::After,
            };
            assert_eq!(order(a, b), expected, "{a:?} {b:?}");
        }
    }
}

#[test]
fn decimals_are_as_they_are_printed() {
    for n in [0, 7, 9, 10, 42, 99, 100, 65535, 1_000_000, u64::MAX] {
        let mut s = "n=".to_string();
        push_decimal(&mut s, n);
        assert_eq!(s, format!("n={n}"));
    }
}

#[test]
fn numbers_are_read_as_they_are_parsed() {
    let texts = [
        "", "0", "00", "+", "+5", "++5", "-5", "5 ", "255", "256", "28de", "28DE", "000028DE",
        "ffffffff", "100000000", "1g", "0x10", "\u{663}",
    ];
    for t in texts {
        assert_eq!(
            parse_number(t, 16, u32::MAX),
            u32::from_str_radix(t, 16).ok(),
            "{t:?}"
        );
        assert_eq!(
            parse_number(t, 10, 255),
            t.parse::<u8>().ok().map(u32::from),
            "{t:?}"
        );
    }
}

#[test]
fn texts_are_cut_at_the_first_separator() {
    for t in ["", ":", "a:b", "a:b:c", "abc", "\u{e9}:\u{1F600}:x"] {
        assert_eq!(split_once(t, ':'), t.split_once(':'), "{t:?}");
    }
}

#[test]
fn a_key_map_keeps_its_keys_in_order() {
    let mut m: KeyMap<u32> = KeyMap::new();
    assert_eq!(m.len(), 0);
    m.insert("b".to_string(), 2);
    m.insert("a".to_string(), 1);
    m.insert("c".to_string(), 3);
    m.insert("b".to_string(), 20);
    assert_eq!(m.len(), 3);
    assert_eq!(m.key_at(0), "a");
    assert_eq!(m.key_at(1), "b");
    assert_eq!(m.key_at(2), "c");
    assert_eq!(*m.value_at(1), 20);
    assert_eq!(m.get("b"), Some(&20));
    assert_eq!(m.get("d"), None);
    assert!(m.contains_key("c"));
    *m.get_mut("c").unwrap() += 1;
    assert!(m.get_mut("d").is_none());
    *m.value_at_mut(0) = 11;
    assert_eq!(m.remove("a"), Some(11));
    assert_eq!(m.remove("a"), None);
    assert_eq!(m.remove("c"), Some(4));
    assert_eq!(m.len(), 1);
}
