use signal_relay::discovery::{
    arp_host, common_ports, last_octet_of, mdns_host, merge_hosts, parse_arp_line,
    parse_arp_table, probe_verdict, service_types, sort_by_last_octet, subnet_candidates,
    subnet_prefix, HostInfo, HostTable,
};

fn s(text: &str) -> String {
    text.to_string()
}

fn host(ip: &str, name: Option<&str>, source: &str) -> HostInfo {
    HostInfo::new(s(ip), name.map(s), s(source))
}

#[test]
fn host_info_keeps_its_fields() {
    let h = host("192.168.1.7", Some("nas"), "mDNS");
    assert_eq!(h.ip(), "192.168.1.7");
    assert_eq!(h.hostname(), &Some(s("nas")));
    assert_eq!(h.source(), "mDNS");
    let anonymous = host("10.0.0.1", None, "TCP");
    assert_eq!(anonymous.hostname(), &None);
    assert_eq!(h.clone(), h);
    assert_ne!(h, anonymous);
}

#[test]
fn last_octet_reads_the_number_behind_the_last_dot() {
    assert_eq!(last_octet_of("192.168.1.42"), 42);
    assert_eq!(last_octet_of("192.168.1.0"), 0);
    assert_eq!(last_octet_of("10.0.0.254"), 254);
    assert_eq!(last_octet_of("10.0.0.300"), 300);
    assert_eq!(last_octet_of("7"), 7);
    assert_eq!(last_octet_of("1.2.3.+9"), 9);
}

#[test]
fn last_octet_is_zero_where_there_is_no_number() {
    assert_eq!(last_octet_of(""), 0);
    assert_eq!(last_octet_of("host"), 0);
    assert_eq!(last_octet_of("1.2.3."), 0);
    assert_eq!(last_octet_of("1.2.3.x"), 0);
    assert_eq!(last_octet_of("1.2.3.-4"), 0);
    assert_eq!(last_octet_of("1.2.3.4294967296"), 0);
    assert_eq!(last_octet_of("fe80::1"), 0);
}

#[test]
fn host_table_holds_each_address_once() {
    let mut table = HostTable::new();
    assert_eq!(table.len(), 0);
    table.insert_new(host("10.0.0.1", Some("a"), "mDNS"));
    table.insert_new(host("10.0.0.2", None, "ARP"));
    table.insert_new(host("10.0.0.1", Some("b"), "ARP"));
    assert_eq!(table.len(), 2);
    assert!(table.contains_key(&s("10.0.0.1")));
    assert!(table.contains_key(&s("10.0.0.2")));
    assert!(!table.contains_key(&s("10.0.0.3")));
    assert_eq!(table.get(&s("10.0.0.1")), Some(&host("10.0.0.1", Some("a"), "mDNS")));
    assert_eq!(table.get(&s("10.0.0.3")), None);

    table.insert(host("10.0.0.1", Some("c"), "TCP"));
    assert_eq!(table.len(), 2);
    assert_eq!(table.get(&s("10.0.0.1")), Some(&host("10.0.0.1", Some("c"), "TCP")));
    table.insert(host("10.0.0.9", None, "Ping"));
    assert_eq!(
        table.into_values(),
        vec![
            host("10.0.0.1", Some("c"), "TCP"),
            host("10.0.0.2", None, "ARP"),
            host("10.0.0.9", None, "Ping"),
        ]
    );
}

#[test]
fn host_table_extends_in_both_ways() {
    let mut table = HostTable::new();
    table.extend_latest(&vec![
        host("10.0.0.1", Some("first"), "mDNS"),
        host("10.0.0.2", Some("two"), "mDNS"),
        host("10.0.0.1", Some("second"), "mDNS"),
    ]);
    table.extend_new(&vec![
        host("10.0.0.2", Some("other"), "ARP"),
        host("10.0.0.3", None, "ARP"),
        host("10.0.0.3", Some("late"), "ARP"),
    ]);
    assert_eq!(
        table.into_values(),
        vec![
            host("10.0.0.1", Some("second"), "mDNS"),
            host("10.0.0.2", Some("two"), "mDNS"),
            host("10.0.0.3", None, "ARP"),
        ]
    );
}

#[test]
fn sort_orders_by_last_octet() {
    let sorted = sort_by_last_octet(vec![
        host("192.168.1.200", None, "TCP"),
        host("192.168.1.3", None, "TCP"),
        host("unknown", None, "TCP"),
        host("192.168.1.10", None, "TCP"),
        host("192.168.1.1", None, "TCP"),
    ]);
    let ips: Vec<&str> = sorted.iter().map(|h| h.ip().as_str()).collect();
    assert_eq!(ips, vec!["unknown", "192.168.1.1", "192.168.1.3", "192.168.1.10", "192.168.1.200"]);
    assert_eq!(sort_by_last_octet(vec![]), vec![]);
}

#[test]
fn sort_keeps_every_host() {
    let input = vec![
        host("10.0.1.5", Some("a"), "mDNS"),
        host("10.0.2.5", Some("b"), "ARP"),
        host("10.0.3.4", None, "TCP"),
        host("10.0.4.5", Some("c"), "Ping"),
    ];
    let sorted = sort_by_last_octet(input.clone());
    assert_eq!(sorted.len(), 4);
    for h in &input {
        assert_eq!(sorted.iter().filter(|x| *x == h).count(), 1);
    }
    assert_eq!(sorted[0], host("10.0.3.4", None, "TCP"));
    for pair in sorted.windows(2) {
        assert!(last_octet_of(pair[0].ip()) <= last_octet_of(pair[1].ip()));
    }
}

#[test]
fn merge_prefers_earlier_scans() {
    let mdns = vec![host("192.168.1.20", Some("tv"), "mDNS"), host("192.168.1.5", Some("nas"), "mDNS")];
    let arp = vec![
        host("192.168.1.5", Some("nas.lan"), "ARP"),
        host("192.168.1.1", Some("router"), "ARP"),
    ];
    let tcp = vec![
        host("192.168.1.1", None, "TCP"),
        host("192.168.1.20", None, "TCP"),
        host("192.168.1.77", None, "Ping"),
    ];
    assert_eq!(
        merge_hosts(&mdns, &arp, &tcp),
        vec![
            host("192.168.1.1", Some("router"), "ARP"),
            host("192.168.1.5", Some("nas"), "mDNS"),
            host("192.168.1.20", Some("tv"), "mDNS"),
            host("192.168.1.77", None, "Ping"),
        ]
    );
    assert_eq!(merge_hosts(&vec![], &vec![], &vec![]), vec![]);
}

#[test]
fn parse_arp_line_reads_address_and_name() {
    assert_eq!(
        parse_arp_line("? (192.168.1.1) at aa:bb:cc:dd:ee:ff on en0 ifscope [ethernet]"),
        Some((s("192.168.1.1"), None))
    );
    assert_eq!(
        parse_arp_line("router.lan (10.0.0.1) at 0:11:22:33:44:55 [ether] on eth0"),
        Some((s("10.0.0.1"), Some(s("router.lan"))))
    );
    assert_eq!(
        parse_arp_line("  padded (172.16.0.9) at"),
        Some((s("172.16.0.9"), Some(s("padded"))))
    );
    assert_eq!(parse_arp_line("(192.168.0.2)"), Some((s("192.168.0.2"), Some(s("(192.168.0.2)")))));
    assert_eq!(parse_arp_line("x (192.) y (10.1.1.1)"), Some((s("192."), Some(s("x")))));
}

#[test]
fn parse_arp_line_passes_over_other_lines() {
    assert_eq!(parse_arp_line(""), None);
    assert_eq!(parse_arp_line("Address HWtype HWaddress Flags Mask Iface"), None);
    assert_eq!(parse_arp_line("dns (8.8.8.8) at aa:bb"), None);
    assert_eq!(parse_arp_line("x (1920.1.1.1) at"), None);
    assert_eq!(parse_arp_line("x (192.168.1.1 at"), None);
    assert_eq!(parse_arp_line("x 192.168.1.1) at"), None);
    assert_eq!(parse_arp_line("x )192.168.1.1( at"), None);
    assert_eq!(parse_arp_line("x () at"), None);
    assert_eq!(parse_arp_line("x ( 10.0.0.1) at"), None);
}

#[test]
fn parse_arp_table_reads_every_line() {
    let output = "? (192.168.1.1) at aa:bb:cc:dd:ee:01 on en0\r\n\
                  nas.local (192.168.1.5) at aa:bb:cc:dd:ee:05 on en0\n\
                  bogus line\n\
                  ? (224.0.0.251) at 1:0:5e:0:0:fb on en0\n\
                  tv (10.1.2.3) at (incomplete) on en0";
    assert_eq!(
        parse_arp_table(output),
        vec![
            (s("192.168.1.1"), None),
            (s("192.168.1.5"), Some(s("nas.local"))),
            (s("10.1.2.3"), Some(s("tv"))),
        ]
    );
    assert_eq!(parse_arp_table(""), vec![]);
}

#[test]
fn arp_host_is_marked_arp() {
    assert_eq!(arp_host(s("10.0.0.1"), Some(s("gw"))), host("10.0.0.1", Some("gw"), "ARP"));
    assert_eq!(arp_host(s("10.0.0.2"), None), host("10.0.0.2", None, "ARP"));
}

#[test]
fn subnet_prefix_joins_three_octets() {
    assert_eq!(subnet_prefix(192, 168, 1), "192.168.1");
    assert_eq!(subnet_prefix(10, 0, 0), "10.0.0");
    assert_eq!(subnet_prefix(255, 255, 255), "255.255.255");
}

#[test]
fn subnet_candidates_leave_out_known_hosts() {
    let mut known = HostTable::new();
    known.insert_new(host("192.168.1.1", None, "ARP"));
    known.insert_new(host("192.168.1.254", None, "mDNS"));
    known.insert_new(host("192.168.1.100", None, "mDNS"));
    known.insert_new(host("192.168.2.7", None, "mDNS"));
    known.insert_new(host("192.168.1.255", None, "mDNS"));
    let candidates = subnet_candidates("192.168.1", &known);
    assert_eq!(candidates.len(), 251);
    assert_eq!(candidates[0], "192.168.1.2");
    assert_eq!(candidates[1], "192.168.1.3");
    assert_eq!(candidates[97], "192.168.1.99");
    assert_eq!(candidates[98], "192.168.1.101");
    assert_eq!(candidates[250], "192.168.1.253");
    assert!(!candidates.contains(&s("192.168.1.0")));
    assert!(!candidates.contains(&s("192.168.1.255")));

    let all = subnet_candidates("10.0.0", &HostTable::new());
    assert_eq!(all.len(), 254);
    assert_eq!(all[0], "10.0.0.1");
    assert_eq!(all[253], "10.0.0.254");
}

#[test]
fn common_ports_are_tried_in_order() {
    assert_eq!(common_ports(), vec![445, 139, 135, 3389, 22, 80, 443, 5985, 8080, 3306, 5432]);
}

#[test]
fn probe_verdict_prefers_tcp() {
    assert_eq!(probe_verdict(s("10.0.0.4"), true, false), Some(host("10.0.0.4", None, "TCP")));
    assert_eq!(probe_verdict(s("10.0.0.4"), true, true), Some(host("10.0.0.4", None, "TCP")));
    assert_eq!(probe_verdict(s("10.0.0.4"), false, true), Some(host("10.0.0.4", None, "Ping")));
    assert_eq!(probe_verdict(s("10.0.0.4"), false, false), None);
}

#[test]
fn service_types_are_the_browsed_ones() {
    assert_eq!(
        service_types(),
        vec![
            "_http._tcp.local.",
            "_https._tcp.local.",
            "_ssh._tcp.local.",
            "_smb._tcp.local.",
            "_workstation._tcp.local.",
            "_device-info._tcp.local.",
            "_googlecast._tcp.local.",
            "_airplay._tcp.local.",
            "_raop._tcp.local.",
            "_printer._tcp.local.",
            "_ipp._tcp.local.",
        ]
    );
}

#[test]
fn mdns_host_takes_the_name_before_the_first_dot() {
    assert_eq!(
        mdns_host(s("192.168.1.9"), "Living Room TV._googlecast._tcp.local."),
        host("192.168.1.9", Some("Living Room TV"), "mDNS")
    );
    assert_eq!(mdns_host(s("192.168.1.9"), "plain"), host("192.168.1.9", Some("plain"), "mDNS"));
    assert_eq!(mdns_host(s("192.168.1.9"), ""), host("192.168.1.9", Some(""), "mDNS"));
}
