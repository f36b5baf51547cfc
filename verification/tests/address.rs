use dogpaddle_sink::address::is_numeric_address;
use dogpaddle_sink::doris::config::DorisSinkConfig;
use dogpaddle_sink::notation::write_address;

#[test]
fn numeric_addresses_are_recognised() {
    for address in [
        "0.0.0.0",
        "255.255.255.255",
        "::",
        "1::",
        "::1",
        "1:2:3:4:5:6:7:8",
        "1:2:3:4:5:6:7.8.9.10",
        "::ffff:1.2.3.4",
        "2001:DB8::a",
    ] {
        assert!(is_numeric_address(address), "{address}");
    }
    for text in [
        "",
        "localhost",
        "256.0.0.1",
        "01.2.3.4",
        "1.2.3",
        "1.2.3.4.5",
        "1:2:3:4:5:6:7",
        "1:2:3:4:5:6:7:8:9",
        "1::2::3",
        ":::",
        "12345::",
        "::g",
        "1.2.3.4::",
        "[::1]",
    ] {
        assert!(!is_numeric_address(text), "{text}");
    }
}

#[test]
fn an_address_has_one_canonical_notation() {
    for (address, written) in [
        ("127.0.0.1", "127.0.0.1"),
        ("0:0:0:0:0:0:0:0", "::"),
        ("0:0:0:0:0:0:0:1", "::1"),
        ("1:0:0:2:0:0:0:3", "1:0:0:2::3"),
        ("a:0:0:b:0:0:c:d", "a::b:0:0:c:d"),
        ("2001:0DB8::0001", "2001:db8::1"),
        ("1:0:3:4:5:6:7:8", "1:0:3:4:5:6:7:8"),
        ("0:0:1::", "0:0:1::"),
        ("::ffff:102:304", "::ffff:1.2.3.4"),
        ("::ffff:1.2.3.4", "::ffff:1.2.3.4"),
        ("::1.2.3.4", "::102:304"),
    ] {
        assert_eq!(write_address(address), written);
    }
}

#[test]
fn a_configuration_keeps_the_canonical_notation_of_its_host() {
    let config =
        DorisSinkConfig::new_unencrypted("0:0::1", 9030, "db", "user", "secret").unwrap();
    assert_eq!(config.host(), "::1");
    assert_eq!(
        config.redacted(),
        "DorisSinkConfig { host: ::1, port: 9030, database: \"db\", user: \"user\", \
         password: \"[redacted]\" }"
    );
}
