use babiniku::text::{same, strip_prefix, strip_suffix, to_decimal, trim};

#[test]
fn numbers_in_decimal() {
    for n in [0usize, 1, 9, 10, 42, 100, 1_234_567_890] {
        assert_eq!(to_decimal(n), n.to_string());
    }
}

#[test]
fn prefixes_and_suffixes() {
    for s in ["", "a", "net.cfm.x", "net.cfm.", "net.cf", "weight_g", "conv.weight_g", "weight_gg", "\u{e9}\u{e8}"] {
        for p in ["", "net.cfm.", "weight_g", "\u{e9}"] {
            assert_eq!(strip_prefix(s, p), s.strip_prefix(p).map(|r| r.to_string()), "{s} {p}");
            assert_eq!(strip_suffix(s, p), s.strip_suffix(p).map(|r| r.to_string()), "{s} {p}");
            assert_eq!(same(s, p), s == p);
        }
    }
}

#[test]
fn white_space_is_trimmed() {
    for s in ["", " ", "y", " y\n", "\t\r\n yes \u{a0}\u{3000}", "a b", " \u{200b}x ", "\u{85}\u{1680}q\u{2028}"] {
        assert_eq!(trim(s), s.trim(), "{s:?}");
    }
    for c in (0..=0x10_ffffu32).step_by(1).filter_map(char::from_u32).filter(|c| c.is_whitespace()) {
        assert_eq!(trim(&c.to_string()), "");
    }
    for c in (0..0x3100u32).filter_map(char::from_u32).filter(|c| !c.is_whitespace()) {
        assert_eq!(trim(&c.to_string()), c.to_string());
    }
}
