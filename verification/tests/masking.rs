use ping_service::models::mask_address;
use ping_service::text::{chars_eq, contains_char, from_chars, join_prefix, split_chars, str_eq, to_chars};
use ping_service::{Machine, MachinePublic, MachineTargetsPublic, Target, TargetPublic};

fn machine(ip: &str) -> Machine {
    Machine {
        id: 7,
        name: "edge-7".to_string(),
        ip: ip.to_string(),
        key: "s3cret".to_string(),
        created: 1_700_000_000,
        updated: None,
    }
}

#[test]
fn ipv4_keeps_first_two_octets() {
    assert_eq!(mask_address("198.51.100.7"), "198.51.*.*");
    assert_eq!(mask_address("203.0.113.42"), "203.0.*.*");
}

#[test]
fn ipv6_of_seven_groups_keeps_first_three() {
    assert_eq!(mask_address("2001:db8:0:0:0:0:1"), "2001:db8:0::*");
}

#[test]
fn ipv6_of_eight_groups_keeps_first_four() {
    assert_eq!(mask_address("2001:db8:0:0:0:0:0:1"), "2001:db8:0:0::*");
}

#[test]
fn ipv6_of_five_groups_keeps_first_one() {
    assert_eq!(mask_address("a:b:c:d:e"), "a::*");
}

#[test]
fn ipv6_of_four_or_fewer_groups_drops_the_last() {
    assert_eq!(mask_address("a:b:c:d"), "a:b:c::*");
    assert_eq!(mask_address("a:b:c"), "a:b::*");
    assert_eq!(mask_address("a:b"), "a::*");
}

#[test]
fn ipv6_compressed_form_counts_empty_groups() {
    // "::1" splits into "", "" and "1".
    assert_eq!(mask_address("::1"), ":::*");
    assert_eq!(mask_address("fe80::1"), "fe80:::*");
}

#[test]
fn single_group_stays_whole() {
    assert_eq!(mask_address("localhost"), "localhost::*");
    assert_eq!(mask_address(""), "::*");
}

#[test]
fn dotted_address_with_two_pieces() {
    assert_eq!(mask_address("10.1"), "10.1.*.*");
    assert_eq!(mask_address("."), "..*.*");
}

#[test]
fn dot_wins_over_colon() {
    assert_eq!(mask_address("::ffff:192.0.2.1"), "::ffff:192.0.*.*");
}

#[test]
fn masking_twice_gives_the_same_text() {
    let first = mask_address("198.51.100.7");
    let second = mask_address("198.51.100.7");
    assert_eq!(first, second);
}

#[test]
fn masking_forgets_the_tail() {
    assert_eq!(mask_address("198.51.100.7"), mask_address("198.51.3.250"));
    assert_eq!(mask_address("2001:db8:0:0:0:0:0:1"), mask_address("2001:db8:0:0:9:9:9:9"));
    assert_ne!(mask_address("198.51.100.7"), mask_address("198.52.100.7"));
}

#[test]
fn masking_non_ascii_text() {
    assert_eq!(mask_address("é.ü.x.y"), "é.ü.*.*");
}

#[test]
fn public_machine_masks_ip_and_drops_key() {
    let public = MachinePublic::from(machine("198.51.100.7"));
    assert_eq!(
        public,
        MachinePublic {
            id: 7,
            name: "edge-7".to_string(),
            ip: "198.51.*.*".to_string(),
            created: 1_700_000_000,
            updated: None,
        }
    );
    let shown = format!("{:?}", public);
    assert!(!shown.contains("s3cret"));
    assert!(!shown.contains("100.7"));
}

#[test]
fn public_machine_carries_updated() {
    let mut m = machine("2001:db8:0:0:0:0:1");
    m.updated = Some(1_700_000_600);
    let public = MachinePublic::from(m);
    assert_eq!(public.ip, "2001:db8:0::*");
    assert_eq!(public.updated, Some(1_700_000_600));
}

#[test]
fn timestamps_before_the_epoch_wrap() {
    let mut m = machine("10.0.0.1");
    m.created = -1;
    m.updated = Some(i64::MIN);
    let public = MachinePublic::from(m);
    assert_eq!(public.created, u64::MAX);
    assert_eq!(public.updated, Some(1u64 << 63));
    assert_eq!(ping_service::models::to_unix_ts(-5), (-5i64) as u64);
    assert_eq!(ping_service::models::to_unix_ts(0), 0);
    assert_eq!(ping_service::models::to_opt_unix_ts(None), None);
}

#[test]
fn public_target_keeps_id_name_and_times() {
    let target = Target {
        id: 3,
        name: "dns".to_string(),
        domain: Some("dns.example".to_string()),
        ipv4: Some("192.0.2.53".to_string()),
        ipv6: None,
        created: 100,
        updated: Some(200),
    };
    assert_eq!(
        TargetPublic::from(target),
        TargetPublic { id: 3, name: "dns".to_string(), created: 100, updated: Some(200) }
    );
}

#[test]
fn machine_with_targets_starts_without_targets() {
    let wide = MachineTargetsPublic::from(MachinePublic::from(machine("198.51.100.7")));
    assert_eq!(wide.id, 7);
    assert_eq!(wide.name, "edge-7");
    assert_eq!(wide.ip, "198.51.*.*");
    assert_eq!(wide.created, 1_700_000_000);
    assert!(wide.targets.is_empty());
}

#[test]
fn clones_are_equal() {
    let m = machine("198.51.100.7");
    assert_eq!(m.clone(), m);
    let public = MachinePublic::from(m);
    assert_eq!(public.clone(), public);
    let mut wide = MachineTargetsPublic::from(public);
    wide.targets.push(TargetPublic { id: 1, name: "a".to_string(), created: 1, updated: None });
    wide.targets.push(TargetPublic { id: 2, name: "b".to_string(), created: 2, updated: Some(3) });
    assert_eq!(wide.clone(), wide);
}

#[test]
fn split_keeps_empty_pieces() {
    let parts = split_chars(&to_chars("a..b"), '.');
    let texts: Vec<String> = parts.iter().map(from_chars).collect();
    assert_eq!(texts, vec!["a".to_string(), "".to_string(), "b".to_string()]);
    let one = split_chars(&to_chars(""), '.');
    assert_eq!(one.len(), 1);
    assert!(one[0].is_empty());
    let trailing = split_chars(&to_chars("a:"), ':');
    assert_eq!(trailing.len(), 2);
}

#[test]
fn join_writes_separators_between_pieces() {
    let parts = split_chars(&to_chars("a:b:c:d"), ':');
    assert_eq!(from_chars(&join_prefix(&parts, 3, '-')), "a-b-c");
    assert_eq!(from_chars(&join_prefix(&parts, 1, '-')), "a");
    assert_eq!(from_chars(&join_prefix(&parts, 0, '-')), "");
}

#[test]
fn chars_round_trip() {
    let text = "päng:7d";
    let chars = to_chars(text);
    assert_eq!(chars.len(), 7);
    assert_eq!(from_chars(&chars), text);
    assert!(contains_char(&chars, ':'));
    assert!(!contains_char(&chars, '.'));
}

#[test]
fn text_equality() {
    assert!(str_eq("7d", "7d"));
    assert!(!str_eq("7d", "7D"));
    assert!(!str_eq("7d", "7d "));
    assert!(str_eq("", ""));
    assert!(chars_eq(&to_chars("abc"), &to_chars("abc")));
    assert!(!chars_eq(&to_chars("abc"), &to_chars("abd")));
    assert!(!chars_eq(&to_chars("abc"), &to_chars("ab")));
}
