use opnsense_bind9::config::{build_config, get_value, parse_config_text, split_ignore_list};
use opnsense_bind9::errors::{ConfigKey, SyncError};

const FULL_CONFIG: &str = "# zone sync settings\n\
API_URL = https://router.lan/api/leases\n\
API_USER = svc\n\
API_PASS = SECRET-REDACTED\n\
BASE_DIR = /var/named\n\
ZONE_NAME = lan\n\
MAIN_CONF = db.lan\n\
HOST_FILE = hosts.lan\n\
SUBNET_PREFIX = 10.0.1.\n\
PTR_FILE = hosts.rev\n\
IGNORED_HOSTS = Router, SWITCH ,10.0.1.2\n";

#[test]
fn parse_skips_blanks_comments_and_lines_without_equals() {
    let text = "# comment\n\n   \nKEY = value\nnoise line\nOTHER=x\n";
    let pairs = parse_config_text(text);
    assert_eq!(pairs.len(), 2);
    assert_eq!(pairs[0], ("KEY".to_string(), "value".to_string()));
    assert_eq!(pairs[1], ("OTHER".to_string(), "x".to_string()));
}

#[test]
fn parse_trims_keys_and_values_and_keeps_later_equals() {
    let pairs = parse_config_text("  URL  =  https://x/?a=b  \n");
    assert_eq!(pairs.len(), 1);
    assert_eq!(pairs[0], ("URL".to_string(), "https://x/?a=b".to_string()));
}

#[test]
fn later_duplicate_key_wins() {
    let pairs = parse_config_text("K = first\nK = second\n");
    assert_eq!(get_value(&pairs, "K"), Some("second".to_string()));
    assert_eq!(get_value(&pairs, "MISSING"), None);
}

#[test]
fn build_config_fills_defaults_and_derived_paths() {
    let pairs = parse_config_text(FULL_CONFIG);
    let c = build_config(&pairs).unwrap();
    assert_eq!(c.rndc_cmd, "/usr/sbin/rndc");
    assert_eq!(c.api_url, "https://router.lan/api/leases");
    assert_eq!(c.api_user, "svc");
    assert_eq!(c.base_dir, "/var/named");
    assert_eq!(c.zone_name, "lan");
    assert_eq!(c.main_conf, "/var/named/db.lan");
    assert_eq!(c.host_file, "/var/named/hosts.lan");
    assert_eq!(c.subnet_prefix, "10.0.1");
    assert_eq!(c.ptr_zone_name, "1.0.10.in-addr.arpa");
    assert_eq!(c.ptr_conf, "/var/named/db.1.0.10.in-addr.arpa");
    assert_eq!(c.ptr_file, "/var/named/hosts.rev");
    assert_eq!(c.ignored_hosts, vec!["router", "switch", "10.0.1.2"]);
    assert!(c.ignored_ptr.is_empty());
}

#[test]
fn build_config_default_base_dir_applies() {
    let text = "API_URL = u\nAPI_USER = a\nAPI_PASS = p\nZONE_NAME = z\nMAIN_CONF = m\nHOST_FILE = h\nSUBNET_PREFIX = 10.0.1\nPTR_FILE = r\n";
    let c = build_config(&parse_config_text(text)).unwrap();
    assert_eq!(c.base_dir, "/etc/bind");
    assert_eq!(c.main_conf, "/etc/bind/m");
}

#[test]
fn build_config_reports_first_missing_key() {
    let no_url = "API_USER = a\nAPI_PASS = p\n";
    assert_eq!(
        build_config(&parse_config_text(no_url)).unwrap_err(),
        SyncError::MissingKey(ConfigKey::ApiUrl)
    );
    let no_prefix = "API_URL = u\nAPI_USER = a\nAPI_PASS = p\nZONE_NAME = z\nMAIN_CONF = m\nHOST_FILE = h\nPTR_FILE = r\n";
    assert_eq!(
        build_config(&parse_config_text(no_prefix)).unwrap_err(),
        SyncError::MissingKey(ConfigKey::SubnetPrefix)
    );
}

#[test]
fn ignore_list_entries_are_trimmed_and_lowercased() {
    let entries = split_ignore_list("Foo, BAR ,10.0.1.9");
    assert_eq!(entries, vec!["foo", "bar", "10.0.1.9"]);
}
