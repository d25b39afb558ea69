use dns_monitor::model::NetworkConfig;
use dns_monitor::netcfg::{
    prefix_to_subnet_mask, prefix_to_subnet_mask_linux, set_interface_dns,
    set_network_config_linux, set_network_config_macos, set_network_config_windows, Platform,
    subnet_mask_to_prefix,
};

fn strings(v: &[&str]) -> Vec<String> {
    v.iter().map(|s| s.to_string()).collect()
}

fn config(name: &str, dhcp: bool, ip: &str, mask: &str, gw: &str, dns: &[&str]) -> NetworkConfig {
    NetworkConfig {
        interface_name: name.to_string(),
        dhcp,
        ip_address: ip.to_string(),
        subnet_mask: mask.to_string(),
        gateway: gw.to_string(),
        dns: strings(dns),
    }
}

#[test]
fn subnet_mask_to_prefix_counts_bits() {
    assert_eq!(subnet_mask_to_prefix("255.255.255.0"), 24);
    assert_eq!(subnet_mask_to_prefix("255.255.0.0"), 16);
    assert_eq!(subnet_mask_to_prefix("255.255.255.255"), 32);
    assert_eq!(subnet_mask_to_prefix("0.0.0.0"), 0);
    assert_eq!(subnet_mask_to_prefix("255.255.255.128"), 25);
}

#[test]
fn malformed_masks_fall_back_to_24() {
    assert_eq!(subnet_mask_to_prefix("not a mask"), 24);
    assert_eq!(subnet_mask_to_prefix("255.255.255"), 24);
    assert_eq!(subnet_mask_to_prefix("255.255.255.256"), 24);
    assert_eq!(subnet_mask_to_prefix(""), 24);
}

#[test]
fn octets_parse_like_ordinary_unsigned_numbers() {
    // a leading plus and leading zeros are accepted, as u8 parsing has it
    assert_eq!(subnet_mask_to_prefix("255.255.255.+0"), 24);
    assert_eq!(subnet_mask_to_prefix("255.255.255.000"), 24);
    // a segment too large for a byte is dropped, leaving too few octets
    assert_eq!(subnet_mask_to_prefix("99999999999999999999.255.255.0"), 24);
}

#[test]
fn dropped_segments_mirror_the_lenient_parse() {
    // Unparseable segments are dropped before counting, so a five-part
    // string with one bad part still reads as four octets.
    assert_eq!(subnet_mask_to_prefix("255.255.x.255.0"), 24);
}

#[test]
fn prefix_to_mask_round_trips() {
    assert_eq!(prefix_to_subnet_mask(24), "255.255.255.0");
    assert_eq!(prefix_to_subnet_mask(16), "255.255.0.0");
    assert_eq!(prefix_to_subnet_mask(0), "0.0.0.0");
    assert_eq!(prefix_to_subnet_mask(32), "255.255.255.255");
    assert_eq!(prefix_to_subnet_mask(25), "255.255.255.128");
    assert_eq!(prefix_to_subnet_mask(33), "255.255.255.0");
    assert_eq!(prefix_to_subnet_mask_linux(16), "255.255.0.0");
    assert_eq!(
        subnet_mask_to_prefix(&prefix_to_subnet_mask(19)),
        19
    );
}

#[test]
fn windows_dns_command_chains_the_servers() {
    let dns = strings(&["1.1.1.1", "8.8.8.8"]);
    let cmd = set_interface_dns("Ethernet", &dns, Platform::Windows).unwrap();
    assert_eq!(cmd.program, "cmd");
    assert_eq!(cmd.args.len(), 2);
    assert_eq!(cmd.args[0], "/C");
    assert_eq!(
        cmd.args[1],
        "netsh interface ip set dns \"Ethernet\" static 1.1.1.1 \
         & netsh interface ip add dns \"Ethernet\" 8.8.8.8"
    );
}

#[test]
fn windows_dns_command_rejects_an_empty_list() {
    let dns: Vec<String> = Vec::new();
    let r = set_interface_dns("Ethernet", &dns, Platform::Windows);
    assert_eq!(r.err().unwrap(), "DNS servers list is empty");
}

#[test]
fn linux_dns_command_rewrites_the_resolver() {
    let dns = strings(&["1.1.1.1", "8.8.8.8"]);
    let cmd = set_interface_dns("eth0", &dns, Platform::Linux).unwrap();
    assert_eq!(cmd.program, "sh");
    assert_eq!(cmd.args[0], "-c");
    assert_eq!(
        cmd.args[1],
        "echo 'nameserver 1.1.1.1\nnameserver 8.8.8.8' | sudo tee /etc/resolv.conf > /dev/null"
    );
}

#[test]
fn macos_dns_command_passes_the_joined_list() {
    let dns = strings(&["1.1.1.1", "8.8.8.8"]);
    let cmd = set_interface_dns("en0", &dns, Platform::MacOs).unwrap();
    assert_eq!(cmd.program, "sudo");
    assert_eq!(
        cmd.args,
        strings(&["networksetup", "-setdnsservers", "en0", "1.1.1.1 8.8.8.8"])
    );
}

#[test]
fn windows_dhcp_plan_releases_and_flushes() {
    let plan = set_network_config_windows(&config("Ethernet", true, "", "", "", &[])).unwrap();
    assert_eq!(plan.commands.len(), 3);
    assert_eq!(
        plan.commands[0].args[1],
        "netsh interface ip set address name=\"Ethernet\" source=dhcp"
    );
    assert_eq!(
        plan.commands[1].args[1],
        "netsh interface ip set dns name=\"Ethernet\" source=dhcp"
    );
    assert_eq!(plan.commands[2].args[1], "ipconfig /flushdns");
    assert_eq!(plan.success_message, "DHCP enabled for Ethernet");
    assert!(plan.fallback.is_none());
    assert!(plan.file_writes.is_empty());
}

#[test]
fn windows_static_plan_sets_address_dns_and_indexes() {
    let plan = set_network_config_windows(&config(
        "Ethernet",
        false,
        "192.168.1.10",
        "255.255.255.0",
        "192.168.1.1",
        &["1.1.1.1", "8.8.8.8", "9.9.9.9"],
    ))
    .unwrap();
    assert_eq!(plan.commands.len(), 5);
    assert_eq!(
        plan.commands[0].args[1],
        "netsh interface ip set address name=\"Ethernet\" static 192.168.1.10 255.255.255.0 192.168.1.1"
    );
    assert_eq!(
        plan.commands[1].args[1],
        "netsh interface ip set dns name=\"Ethernet\" static 1.1.1.1"
    );
    assert_eq!(
        plan.commands[2].args[1],
        "netsh interface ip add dns name=\"Ethernet\" 8.8.8.8 index=2"
    );
    assert_eq!(
        plan.commands[3].args[1],
        "netsh interface ip add dns name=\"Ethernet\" 9.9.9.9 index=3"
    );
    assert_eq!(plan.commands[4].args[1], "ipconfig /flushdns");
    assert_eq!(plan.success_message, "Static IP configured for Ethernet");
}

#[test]
fn windows_static_without_address_is_rejected() {
    let r = set_network_config_windows(&config("Ethernet", false, "", "255.255.255.0", "", &[]));
    assert_eq!(
        r.err().unwrap(),
        "IP address and subnet mask are required for static configuration"
    );
}

#[test]
fn linux_dhcp_plan_uses_the_network_manager_with_a_fallback() {
    let plan = set_network_config_linux(&config("eth0", true, "", "", "", &[])).unwrap();
    assert_eq!(plan.commands.len(), 2);
    assert_eq!(plan.commands[0].program, "nmcli");
    assert_eq!(
        plan.commands[0].args,
        strings(&["con", "mod", "eth0", "ipv4.method", "auto"])
    );
    assert_eq!(plan.commands[1].args, strings(&["con", "up", "eth0"]));
    let fb = plan.fallback.unwrap();
    assert_eq!(fb.program, "dhclient");
    assert_eq!(fb.args, strings(&["eth0"]));
    assert_eq!(plan.success_message, "DHCP enabled for eth0");
}

#[test]
fn linux_static_plan_readds_the_address_and_writes_the_resolver() {
    let plan = set_network_config_linux(&config(
        "eth0",
        false,
        "192.168.1.10",
        "255.255.255.0",
        "192.168.1.1",
        &["1.1.1.1", "8.8.8.8"],
    ))
    .unwrap();
    assert_eq!(plan.commands.len(), 2);
    assert_eq!(plan.commands[0].program, "sh");
    assert_eq!(
        plan.commands[0].args[1],
        "ip addr flush dev eth0 && ip addr add 192.168.1.10/24 dev eth0"
    );
    assert_eq!(plan.commands[1].args[1], "ip route add default via 192.168.1.1");
    assert_eq!(plan.file_writes.len(), 1);
    assert_eq!(plan.file_writes[0].path, "/etc/resolv.conf");
    assert_eq!(
        plan.file_writes[0].contents,
        "nameserver 1.1.1.1\nnameserver 8.8.8.8"
    );
    assert_eq!(plan.success_message, "Static IP configured for eth0");
}

#[test]
fn linux_static_without_mask_is_rejected() {
    let r = set_network_config_linux(&config("eth0", false, "192.168.1.10", "", "", &[]));
    assert_eq!(r.err().unwrap(), "IP address and subnet mask are required");
}

#[test]
fn macos_plans_use_networksetup() {
    let plan = set_network_config_macos(&config("en0", true, "", "", "", &[])).unwrap();
    assert_eq!(plan.commands.len(), 1);
    assert_eq!(plan.commands[0].program, "networksetup");
    assert_eq!(plan.commands[0].args, strings(&["-setdhcp", "en0"]));

    let plan = set_network_config_macos(&config(
        "en0",
        false,
        "192.168.1.10",
        "255.255.255.0",
        "",
        &["1.1.1.1"],
    ))
    .unwrap();
    assert_eq!(plan.commands.len(), 2);
    assert_eq!(
        plan.commands[0].args,
        strings(&["-setmanual", "en0", "192.168.1.10", "255.255.255.0", "empty"])
    );
    assert_eq!(
        plan.commands[1].args,
        strings(&["-setdnsservers", "en0", "1.1.1.1"])
    );
    assert_eq!(plan.success_message, "Static IP configured for en0");
}

#[test]
fn default_interval_is_one_second() {
    assert_eq!(dns_monitor::model::default_interval(), 1);
}
