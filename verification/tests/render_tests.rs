use opnsense_bind9::records::{render, render_bodies, IgnoreSet, Lease};
use opnsense_bind9::errors::SyncError;

fn lease(host: &str, addr: &str) -> Lease {
    Lease { hostname: Some(host.to_string()), address: Some(addr.to_string()) }
}

fn no_ignores() -> IgnoreSet {
    IgnoreSet { hostnames: Vec::new(), addresses: Vec::new() }
}

#[test]
fn end_to_end_scenario_one_in_scope_lease() {
    let leases = vec![lease("foo", "10.0.1.5"), lease("bar", "10.0.2.9")];
    let (fwd, rev) = render(&leases, "10.0.1", "lan", &no_ignores(), &no_ignores());
    assert_eq!(fwd, "foo                     \tIN\tA\t10.0.1.5\n");
    assert_eq!(rev, "5\tIN\tPTR\tfoo.lan.\n");
    assert!(!fwd.contains("bar"));
    assert!(!rev.contains("bar"));
}

#[test]
fn out_of_scope_address_appears_in_neither_body() {
    let leases = vec![lease("alpha", "192.168.7.2")];
    let (fwd, rev) = render(&leases, "10.0.1", "lan", &no_ignores(), &no_ignores());
    assert_eq!(fwd, "");
    assert_eq!(rev, "");
}

#[test]
fn prefix_match_is_textual_not_cidr() {
    // the documented quirk: prefix 10.0.1 also matches 10.0.10.5
    let leases = vec![lease("edge", "10.0.10.5")];
    let (fwd, rev) = render(&leases, "10.0.1", "lan", &no_ignores(), &no_ignores());
    assert_eq!(fwd, "edge                    \tIN\tA\t10.0.10.5\n");
    assert_eq!(rev, "5\tIN\tPTR\tedge.lan.\n");
}

#[test]
fn forward_ignore_by_lowercased_hostname_keeps_reverse_record() {
    let leases = vec![lease("FOO", "10.0.1.5")];
    let fig = IgnoreSet { hostnames: vec!["foo".to_string()], addresses: Vec::new() };
    let (fwd, rev) = render(&leases, "10.0.1", "lan", &fig, &no_ignores());
    assert_eq!(fwd, "");
    assert_eq!(rev, "5\tIN\tPTR\tFOO.lan.\n");
}

#[test]
fn reverse_ignore_by_address_keeps_forward_record() {
    let leases = vec![lease("foo", "10.0.1.5")];
    let rig = IgnoreSet { hostnames: Vec::new(), addresses: vec!["10.0.1.5".to_string()] };
    let (fwd, rev) = render(&leases, "10.0.1", "lan", &no_ignores(), &rig);
    assert_eq!(fwd, "foo                     \tIN\tA\t10.0.1.5\n");
    assert_eq!(rev, "");
}

#[test]
fn lease_order_is_preserved_without_sorting() {
    let leases = vec![
        lease("zulu", "10.0.1.9"),
        lease("alpha", "10.0.1.3"),
        lease("mike", "10.0.1.6"),
    ];
    let (fwd, rev) = render(&leases, "10.0.1", "lan", &no_ignores(), &no_ignores());
    let fwd_lines: Vec<&str> = fwd.lines().collect();
    assert_eq!(fwd_lines.len(), 3);
    assert!(fwd_lines[0].starts_with("zulu"));
    assert!(fwd_lines[1].starts_with("alpha"));
    assert!(fwd_lines[2].starts_with("mike"));
    assert_eq!(rev, "9\tIN\tPTR\tzulu.lan.\n3\tIN\tPTR\talpha.lan.\n6\tIN\tPTR\tmike.lan.\n");
}

#[test]
fn lease_with_missing_field_is_silently_skipped() {
    let leases = vec![
        Lease { hostname: None, address: Some("10.0.1.5".to_string()) },
        Lease { hostname: Some("ghost".to_string()), address: None },
        lease("real", "10.0.1.7"),
    ];
    let (fwd, rev) = render(&leases, "10.0.1", "lan", &no_ignores(), &no_ignores());
    assert_eq!(fwd, "real                    \tIN\tA\t10.0.1.7\n");
    assert_eq!(rev, "7\tIN\tPTR\treal.lan.\n");
}

#[test]
fn long_hostname_is_not_truncated() {
    let leases = vec![lease("a-very-long-hostname-beyond-the-padding", "10.0.1.8")];
    let (fwd, _) = render(&leases, "10.0.1", "lan", &no_ignores(), &no_ignores());
    assert_eq!(fwd, "a-very-long-hostname-beyond-the-padding\tIN\tA\t10.0.1.8\n");
}

#[test]
fn address_without_dot_is_its_own_last_octet() {
    let leases = vec![lease("odd", "10x")];
    let (_, rev) = render(&leases, "10", "lan", &no_ignores(), &no_ignores());
    assert_eq!(rev, "10x\tIN\tPTR\todd.lan.\n");
}

#[test]
fn address_with_trailing_dot_yields_empty_last_octet() {
    let leases = vec![lease("dotty", "10.0.1.")];
    let (_, rev) = render(&leases, "10.0.1", "lan", &no_ignores(), &no_ignores());
    assert_eq!(rev, "\tIN\tPTR\tdotty.lan.\n");
}

#[test]
fn empty_lease_list_is_a_source_error() {
    let leases: Vec<Lease> = Vec::new();
    let r = render_bodies(&leases, "10.0.1", "lan", &no_ignores(), &no_ignores());
    assert_eq!(r.unwrap_err(), SyncError::EmptyLeaseSet);
}

#[test]
fn nonempty_lease_list_renders() {
    let leases = vec![lease("foo", "10.0.1.5")];
    let r = render_bodies(&leases, "10.0.1", "lan", &no_ignores(), &no_ignores());
    let (fwd, rev) = r.unwrap();
    assert_eq!(fwd, "foo                     \tIN\tA\t10.0.1.5\n");
    assert_eq!(rev, "5\tIN\tPTR\tfoo.lan.\n");
}
