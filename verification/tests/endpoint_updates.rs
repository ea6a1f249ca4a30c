use linkerd_trace::address::{to_socket_addr, Ip, IpAddr, IpAddress, SocketAddr, TcpAddress};
use linkerd_trace::endpoints::{
    get_label, hear_profile, Endpoints, Event, ProfileEvent, Update, WeightedAddr,
};

fn tcp(ip: Ip, port: u32) -> TcpAddress {
    TcpAddress { ip: Some(IpAddress { ip: Some(ip) }), port }
}

fn v4(last: u32, port: u32) -> TcpAddress {
    tcp(Ip::Ipv4(0x0a00_0000 + last), port)
}

fn socket(last: u32, port: u16) -> SocketAddr {
    SocketAddr { ip: IpAddr::V4(0x0a00_0000 + last), port }
}

fn labels(pairs: &[(&str, &str)]) -> Vec<(String, String)> {
    pairs.iter().map(|(key, value)| (key.to_string(), value.to_string())).collect()
}

fn weighted(addr: Option<TcpAddress>, pairs: &[(&str, &str)]) -> WeightedAddr {
    WeightedAddr { addr, metric_labels: labels(pairs) }
}

fn add(addrs: Vec<WeightedAddr>, pairs: &[(&str, &str)]) -> Event {
    Event::Message(Some(Update::Add { addrs, metric_labels: labels(pairs) }))
}

fn remove(addrs: Vec<TcpAddress>) -> Event {
    Event::Message(Some(Update::Remove(addrs)))
}

fn known(endpoints: Endpoints) -> Vec<(SocketAddr, WeightedAddr)> {
    endpoints.into_entries()
}

fn label_of(endpoint: &WeightedAddr, key: &str) -> Option<String> {
    get_label(&endpoint.metric_labels, key).cloned()
}

#[test]
fn short_addresses_become_sockets() {
    assert_eq!(to_socket_addr(v4(7, 8080)), socket(7, 8080));
}

#[test]
fn the_last_half_of_a_long_address_is_the_high_one() {
    let addr = tcp(Ip::Ipv6 { first: 1, last: 0xfd00_0000_0000_0000 }, 443);
    let expected: u128 = 0xfd00_0000_0000_0000_0000_0000_0000_0001;
    assert_eq!(to_socket_addr(addr), SocketAddr { ip: IpAddr::V6(expected), port: 443 });
    let all = tcp(Ip::Ipv6 { first: u64::MAX, last: u64::MAX }, 0);
    assert_eq!(to_socket_addr(all).ip, IpAddr::V6(u128::MAX));
}

#[test]
fn ports_are_cut_to_sixteen_bits() {
    assert_eq!(to_socket_addr(v4(1, 65_535)).port, 65_535);
    assert_eq!(to_socket_addr(v4(1, 65_536 + 80)).port, 80);
    assert_eq!(to_socket_addr(v4(1, 80)), to_socket_addr(v4(1, 65_536 + 80)));
    assert_ne!(to_socket_addr(v4(1, 80)), to_socket_addr(v4(2, 80)));
}

#[test]
fn addresses_without_ip_are_incomplete() {
    assert!(v4(1, 80).is_complete());
    assert!(!TcpAddress { ip: None, port: 80 }.is_complete());
    assert!(!TcpAddress { ip: Some(IpAddress { ip: None }), port: 80 }.is_complete());
}

#[test]
fn numbers_tell_long_and_short_addresses_apart() {
    let short = SocketAddr { ip: IpAddr::V4(9), port: 80 };
    let long = SocketAddr { ip: IpAddr::V6(9), port: 80 };
    assert_eq!(short.to_numbers(), (false, 9, 80));
    assert_eq!(long.to_numbers(), (true, 9, 80));
}

#[test]
fn events_are_complete_where_their_addresses_are() {
    let partial = TcpAddress { ip: None, port: 80 };
    assert!(!add(vec![weighted(Some(partial), &[])], &[]).is_complete());
    assert!(add(vec![weighted(None, &[])], &[]).is_complete());
    assert!(!remove(vec![v4(1, 80), partial]).is_complete());
    assert!(Event::Message(Some(Update::NoEndpoints)).is_complete());
    assert!(Event::Timeout.is_complete());
}

#[test]
fn added_endpoints_are_known() {
    let mut endpoints = Endpoints::new();
    assert!(endpoints.hear(add(
        vec![weighted(Some(v4(1, 80)), &[]), weighted(None, &[]), weighted(Some(v4(2, 80)), &[])],
        &[],
    )));
    let entries = known(endpoints);
    assert_eq!(entries.len(), 2);
    assert_eq!(entries[0].0, socket(1, 80));
    assert_eq!(entries[1].0, socket(2, 80));
}

#[test]
fn own_labels_win_over_common_ones() {
    let mut endpoints = Endpoints::new();
    endpoints.hear(add(
        vec![weighted(Some(v4(1, 80)), &[("pod", "web-1")])],
        &[("pod", "none"), ("namespace", "emojivoto")],
    ));
    let entries = known(endpoints);
    assert_eq!(label_of(&entries[0].1, "pod"), Some("web-1".to_string()));
    assert_eq!(label_of(&entries[0].1, "namespace"), Some("emojivoto".to_string()));
    assert_eq!(label_of(&entries[0].1, "zone"), None);
}

#[test]
fn the_last_endpoint_at_an_address_stays() {
    let mut endpoints = Endpoints::new();
    endpoints.hear(add(vec![weighted(Some(v4(1, 80)), &[("pod", "old")])], &[]));
    endpoints.hear(add(
        vec![
            weighted(Some(v4(1, 80)), &[("pod", "newer")]),
            weighted(Some(v4(1, 65_536 + 80)), &[("pod", "newest")]),
        ],
        &[],
    ));
    let entries = known(endpoints);
    assert_eq!(entries.len(), 1);
    assert_eq!(label_of(&entries[0].1, "pod"), Some("newest".to_string()));
}

#[test]
fn removed_endpoints_are_gone() {
    let mut endpoints = Endpoints::new();
    endpoints.hear(add(
        vec![
            weighted(Some(v4(1, 80)), &[]),
            weighted(Some(v4(2, 80)), &[]),
            weighted(Some(v4(3, 80)), &[]),
        ],
        &[],
    ));
    assert!(endpoints.hear(remove(vec![v4(2, 80), v4(9, 80)])));
    let sockets: Vec<SocketAddr> = known(endpoints).into_iter().map(|entry| entry.0).collect();
    assert_eq!(sockets, vec![socket(1, 80), socket(3, 80)]);
}

#[test]
fn removing_undoes_adding() {
    let mut endpoints = Endpoints::new();
    endpoints.hear(add(vec![weighted(Some(v4(1, 80)), &[])], &[]));
    endpoints.hear(add(vec![weighted(Some(v4(2, 80)), &[]), weighted(None, &[])], &[]));
    endpoints.hear(remove(vec![v4(2, 80)]));
    let entries = known(endpoints);
    assert_eq!(entries.len(), 1);
    assert_eq!(entries[0].0, socket(1, 80));
}

#[test]
fn an_update_that_comes_again_changes_nothing() {
    let update = || {
        add(
            vec![
                weighted(Some(v4(1, 80)), &[("pod", "a")]),
                weighted(Some(v4(1, 80)), &[("pod", "b")]),
            ],
            &[],
        )
    };
    let mut endpoints = Endpoints::new();
    endpoints.hear(update());
    endpoints.hear(update());
    let entries = known(endpoints);
    assert_eq!(entries.len(), 1);
    assert_eq!(label_of(&entries[0].1, "pod"), Some("b".to_string()));
}

#[test]
fn no_endpoints_ends_the_updates() {
    let mut endpoints = Endpoints::new();
    endpoints.hear(add(vec![weighted(Some(v4(1, 80)), &[])], &[]));
    assert!(!endpoints.hear(Event::Message(Some(Update::NoEndpoints))));
    assert!(known(endpoints).is_empty());
}

#[test]
fn waiting_ends_with_the_stream_or_in_time() {
    let mut endpoints = Endpoints::new();
    endpoints.hear(add(vec![weighted(Some(v4(1, 80)), &[])], &[]));
    assert!(endpoints.hear(Event::Message(None)));
    assert!(!endpoints.hear(Event::Timeout));
    assert!(!endpoints.hear(Event::Closed));
    assert_eq!(known(endpoints).len(), 1);
}

#[test]
fn the_first_label_of_a_name_counts() {
    let both = labels(&[("pod", "first"), ("pod", "second")]);
    assert_eq!(get_label(&both, "pod").map(|value| value.as_str()), Some("first"));
    assert_eq!(get_label(&both, "namespace"), None);
}

#[test]
fn profiles_are_kept_until_none_comes() {
    let mut profiles: Vec<&str> = Vec::new();
    assert!(hear_profile(&mut profiles, ProfileEvent::Message("first")));
    assert!(hear_profile(&mut profiles, ProfileEvent::Message("second")));
    assert!(!hear_profile(&mut profiles, ProfileEvent::Timeout));
    assert!(!hear_profile(&mut profiles, ProfileEvent::Closed));
    assert_eq!(profiles, vec!["first", "second"]);
}

#[test]
fn endpoints_are_known_at_their_address() {
    let mut endpoints = Endpoints::new();
    endpoints.hear(add(
        vec![weighted(Some(v4(1, 65_536 + 80)), &[]), weighted(Some(v4(2, 443)), &[])],
        &[],
    ));
    for (addr, endpoint) in known(endpoints) {
        assert_eq!(to_socket_addr(endpoint.addr.unwrap()), addr);
    }
}
