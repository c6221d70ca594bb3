use xnetify::netinfo::{
    default_gateway_from_route, physical_interface_info, physical_ip_from_ifconfig, physical_ip_from_ip_addr,
    tun_device_from_ifconfig, FALLBACK_GATEWAY,
};

const ROUTE: &str = "   route to: default\ndestination: default\n       mask: default\n    gateway: 192.168.0.1\n  interface: en0\n";

const IFCONFIG: &str = "lo0: flags=8049<UP,LOOPBACK,RUNNING,MULTICAST> mtu 16384\n\tinet 127.0.0.1 netmask 0xff000000\nutun3: flags=8051<UP,POINTOPOINT,RUNNING,MULTICAST> mtu 1500\n\tinet 10.0.0.1 --> 10.0.0.1 netmask 0xffffff00\nen0: flags=8863<UP,BROADCAST,SMART,RUNNING,SIMPLEX,MULTICAST> mtu 1500\n\tether 3c:22:fb:00:00:01\n\tinet6 fe80::1%en0 prefixlen 64 scopeid 0x6\n\tinet 192.168.0.23 netmask 0xffffff00 broadcast 192.168.0.255\n";

#[test]
fn gateway_read_from_route() {
    assert_eq!(default_gateway_from_route(ROUTE).as_deref(), Some("192.168.0.1"));
    assert_eq!(default_gateway_from_route("destination: default\n"), None);
    assert_eq!(default_gateway_from_route("gateway:gateway: 10.0.0.1"), Some("10.0.0.1".to_string()));
}

#[test]
fn physical_ip_skips_loopback_and_tunnels() {
    assert_eq!(physical_ip_from_ifconfig(IFCONFIG).as_deref(), Some("192.168.0.23"));
    assert_eq!(physical_ip_from_ifconfig("lo0: flags=1\n\tinet 127.0.0.1 netmask 0\n"), None);
    assert_eq!(physical_ip_from_ifconfig(""), None);
}

#[test]
fn physical_ip_first_inet_line_only() {
    // Only the first inet line of an interface is looked at.
    let out = "en1: flags=1\n\tinet 127.0.0.2 netmask 0\n\tinet 10.1.1.1 netmask 0\nen2: flags=1\n\tinet 10.2.2.2 netmask 0\n";
    assert_eq!(physical_ip_from_ifconfig(out).as_deref(), Some("10.2.2.2"));
}

#[test]
fn interface_info_with_gateway() {
    let info = physical_interface_info(IFCONFIG, Some(ROUTE)).unwrap();
    assert_eq!(info.ip, "192.168.0.23");
    assert_eq!(info.gateway, "192.168.0.1");
    let fallback = physical_interface_info(IFCONFIG, None).unwrap();
    assert_eq!(fallback.gateway, FALLBACK_GATEWAY);
    let no_gateway = physical_interface_info(IFCONFIG, Some("nothing here")).unwrap();
    assert_eq!(no_gateway.gateway, "192.168.1.1");
    assert!(physical_interface_info("", Some(ROUTE)).is_none());
}

#[test]
fn ip_addr_output_read() {
    let out = "1: lo: <LOOPBACK,UP> mtu 65536\n    inet 127.0.0.1/8 scope host lo\n2: eth0@if5: <BROADCAST,UP> mtu 1500\n    inet 172.17.0.2/16 brd 172.17.255.255 scope global eth0\n3: tun0: <POINTOPOINT> mtu 1500\n    inet 10.0.0.1/24 scope global tun0\n";
    assert_eq!(physical_ip_from_ip_addr(out).as_deref(), Some("172.17.0.2"));
    assert_eq!(physical_ip_from_ip_addr("3: tun0: <X>\n    inet 10.0.0.1/24\n"), None);
}

#[test]
fn tun_device_found_by_address() {
    let out = "utun0: flags=8051 mtu 1380\n\tinet6 fe80::1 prefixlen 64\nutun4: flags=8051 mtu 1500\n\tinet 10.0.0.1 --> 10.0.0.1 netmask 0xffffff00\n";
    // Lines are trimmed, and a header must end with a colon.
    assert_eq!(tun_device_from_ifconfig(out, "10.0.0.1"), None);
    let headers = "utun0:\n\tinet6 fe80::1 prefixlen 64\nutun4:\n\tinet 10.0.0.1 --> 10.0.0.1 netmask 0xffffff00\n";
    assert_eq!(tun_device_from_ifconfig(headers, "10.0.0.1").as_deref(), Some("utun4"));
    assert_eq!(tun_device_from_ifconfig(headers, "10.0.0.2"), None);
}

#[test]
fn header_must_start_alphanumeric() {
    // A line starting with a symbol is no interface header, so the inet line
    // after it belongs to no interface.
    let out = "-en5: flags=1\n\tinet 10.9.9.9 netmask 0\nén6: flags=1\n\tinet 10.8.8.8 netmask 0\n";
    assert_eq!(physical_ip_from_ifconfig(out).as_deref(), Some("10.8.8.8"));
}
