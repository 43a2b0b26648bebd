use dns_client::text::chars_of;
use dns_client::nsconfig::find_last_keyword;
use dns_client::nsconfig::is_white_space;
use dns_client::nsconfig::nameserver_in;
use dns_client::nsconfig::read_nameservers;

fn lines(text: &[&str]) -> Vec<String> {
    text.iter().map(|l| l.to_string()).collect()
}

#[test]
fn chars_are_those_of_the_text() {
    assert_eq!(chars_of("añb"), vec!['a', 'ñ', 'b']);
    assert_eq!(chars_of(""), Vec::<char>::new());
}

#[test]
fn white_space_is_what_the_standard_library_takes_for_it() {
    for u in 0u32..0x11_0000 {
        if let Some(c) = char::from_u32(u) {
            assert_eq!(is_white_space(c), c.is_whitespace(), "U+{:04X}", u);
        }
    }
}

#[test]
fn name_servers_of_a_configuration() {
    let config = lines(&[
        "# Generated by NetworkManager",
        "search example.org",
        "nameserver 192.168.1.1",
        "nameserver 8.8.4.4",
        "options edns0",
    ]);
    assert_eq!(read_nameservers(&config), vec!["192.168.1.1", "8.8.4.4"]);
}

#[test]
fn no_line_with_the_keyword_gives_no_name_server() {
    assert_eq!(read_nameservers(&lines(&["search example.org", ""])), Vec::<String>::new());
    assert_eq!(read_nameservers(&vec![]), Vec::<String>::new());
}

#[test]
fn name_server_is_what_follows_the_last_keyword() {
    assert_eq!(nameserver_in("nameserver 1.2.3.4"), Some("1.2.3.4".to_string()));
    assert_eq!(nameserver_in("  nameserver\t1.2.3.4  "), Some("1.2.3.4".to_string()));
    assert_eq!(
        nameserver_in("nameserver 1.1.1.1 nameserver 2.2.2.2"),
        Some("2.2.2.2".to_string())
    );
    assert_eq!(nameserver_in("#nameserver 9.9.9.9"), Some("9.9.9.9".to_string()));
    assert_eq!(nameserver_in("nameserver"), Some("".to_string()));
    assert_eq!(nameserver_in("nameserver   "), Some("".to_string()));
    assert_eq!(nameserver_in("nameserver 1.2.3.4 # home"), Some("1.2.3.4 # home".to_string()));
    assert_eq!(nameserver_in("nameservernameserver"), Some("".to_string()));
    assert_eq!(nameserver_in("xnameserverx"), Some("x".to_string()));
}

#[test]
fn line_without_the_keyword_names_no_server() {
    assert_eq!(nameserver_in(""), None);
    assert_eq!(nameserver_in("nameserve 1.2.3.4"), None);
    assert_eq!(nameserver_in("Nameserver 1.2.3.4"), None);
    assert_eq!(nameserver_in("name server 1.2.3.4"), None);
}

#[test]
fn name_server_is_trimmed_of_all_white_space() {
    assert_eq!(
        nameserver_in("nameserver\u{a0}\u{2003} 1.2.3.4 \u{3000}\r"),
        Some("1.2.3.4".to_string())
    );
    assert_eq!(nameserver_in("nameserver a b"), Some("a b".to_string()));
    assert_eq!(nameserver_in("nameserver é "), Some("é".to_string()));
}

#[test]
fn name_server_agrees_with_splitting_and_trimming() {
    for line in [
        "nameserver 10.0.0.1",
        "  nameserver   fe80::1%eth0  ",
        "nameserver a nameserver b nameserver c ",
        "nonameserver",
        "servername",
        "nameservenameserver r",
        "\tnameserver\t\t10.1.1.1\t",
        "ünameserver ü",
    ] {
        let expected = if line.contains("nameserver") {
            line.split("nameserver").last().map(|ns| ns.trim().to_string())
        } else {
            None
        };
        assert_eq!(nameserver_in(line), expected, "{:?}", line);
    }
}

#[test]
fn last_keyword_is_found() {
    assert_eq!(find_last_keyword(&chars_of("nameserver")), Some(0));
    assert_eq!(find_last_keyword(&chars_of("nameserver nameserver")), Some(11));
    assert_eq!(find_last_keyword(&chars_of("nameserve")), None);
    assert_eq!(find_last_keyword(&chars_of("")), None);
    assert_eq!(find_last_keyword(&chars_of("é nameserver x")), Some(2));
}
