use http_proxy_ipv6_pool::address::{
    assign_addresses, fill_host_bits, generate_ipv6, BindAddress, ConfigError, HostAddress, Subnet,
};

fn bit(a: &[u8; 16], i: usize) -> bool {
    a[i / 8] & (0x80u8 >> (i % 8)) != 0
}

const NETWORK: [u8; 16] = [0x2a, 0x12, 0xf8, 0xc1, 0x00, 0x55, 0x07, 0x66, 0, 0, 0, 0, 0, 0, 0, 0];

#[test]
fn parse_reads_network_and_prefix() {
    let subnet = Subnet::parse("2a12:f8c1:55:766::/64").unwrap();
    assert_eq!(subnet.network(), NETWORK);
    assert_eq!(subnet.prefix_len(), 64);
}

#[test]
fn parse_without_prefix_is_a_single_host() {
    let subnet = Subnet::parse("::1").unwrap();
    assert_eq!(subnet.prefix_len(), 128);
    assert_eq!(subnet.network(), [0, 0, 0, 0, 0, 0, 0, 0, 0, 0, 0, 0, 0, 0, 0, 1]);
}

#[test]
fn parse_accepts_the_empty_prefix() {
    let subnet = Subnet::parse("::/0").unwrap();
    assert_eq!(subnet.prefix_len(), 0);
    assert_eq!(subnet.network(), [0u8; 16]);
}

#[test]
fn parse_rejects_text_that_is_no_subnet() {
    assert_eq!(Subnet::parse("not-a-subnet").err(), Some(ConfigError::InvalidSubnet));
    assert_eq!(Subnet::parse("").err(), Some(ConfigError::InvalidSubnet));
    assert_eq!(Subnet::parse("10.0.0.0/8").err(), Some(ConfigError::InvalidSubnet));
}

#[test]
fn parse_rejects_a_prefix_longer_than_an_address() {
    assert_eq!(Subnet::parse("2a12:f8c1:55:766::/129").err(), Some(ConfigError::InvalidSubnet));
}

#[test]
fn parse_rejects_host_bits_in_the_network() {
    assert_eq!(Subnet::parse("2a12:f8c1:55:766::1/64").err(), Some(ConfigError::InvalidSubnet));
}

#[test]
fn from_parts_checks_the_prefix_length() {
    assert!(Subnet::from_parts(NETWORK, 128).is_ok());
    assert_eq!(Subnet::from_parts(NETWORK, 129).err(), Some(ConfigError::InvalidSubnet));
    assert_eq!(Subnet::from_parts(NETWORK, 255).err(), Some(ConfigError::InvalidSubnet));
    let subnet = Subnet::from_parts(NETWORK, 48).unwrap();
    assert_eq!(subnet.network(), NETWORK);
    assert_eq!(subnet.prefix_len(), 48);
}

#[test]
fn fill_host_bits_on_an_octet_boundary() {
    let subnet = Subnet::from_parts(NETWORK, 64).unwrap();
    let noise = [0xabu8; 16];
    assert_eq!(
        fill_host_bits(&subnet, &noise),
        [0x2a, 0x12, 0xf8, 0xc1, 0x00, 0x55, 0x07, 0x66, 0xab, 0xab, 0xab, 0xab, 0xab, 0xab, 0xab, 0xab]
    );
}

#[test]
fn fill_host_bits_inside_an_octet() {
    let subnet = Subnet::from_parts(NETWORK, 60).unwrap();
    let noise = [0xffu8; 16];
    assert_eq!(
        fill_host_bits(&subnet, &noise),
        [0x2a, 0x12, 0xf8, 0xc1, 0x00, 0x55, 0x07, 0x6f, 0xff, 0xff, 0xff, 0xff, 0xff, 0xff, 0xff, 0xff]
    );
    let subnet = Subnet::from_parts(NETWORK, 3).unwrap();
    let noise = [0xffu8; 16];
    let mut expected = [0xffu8; 16];
    expected[0] = 0x3f;
    assert_eq!(fill_host_bits(&subnet, &noise), expected);
}

#[test]
fn fill_host_bits_at_the_two_ends() {
    let noise = [0x5au8; 16];
    let all = Subnet::from_parts([0u8; 16], 0).unwrap();
    assert_eq!(fill_host_bits(&all, &noise), noise);
    let mut host = NETWORK;
    host[15] = 7;
    let single = Subnet::from_parts(host, 128).unwrap();
    assert_eq!(fill_host_bits(&single, &noise), host);
}

#[test]
fn generated_address_keeps_the_network_bits_for_every_prefix_length() {
    let mut rng = rand::thread_rng();
    let full: [u8; 16] = [
        0x2a, 0x12, 0xf8, 0xc1, 0x9d, 0x55, 0x07, 0x66, 0x81, 0x42, 0x24, 0x18, 0xe7, 0x7e, 0xc3, 0x3c,
    ];
    for prefix_len in 0..=128u8 {
        let subnet = Subnet::from_parts(full, prefix_len).unwrap();
        for _ in 0..8 {
            let address = generate_ipv6(&subnet, &mut rng);
            for i in 0..(prefix_len as usize) {
                assert_eq!(bit(&address, i), bit(&full, i));
            }
        }
    }
}

#[test]
fn generated_addresses_differ_in_the_host_bits() {
    let mut rng = rand::thread_rng();
    let subnet = Subnet::parse("2a12:f8c1:55:766::/64").unwrap();
    let first = generate_ipv6(&subnet, &mut rng);
    let mut differs = false;
    for _ in 0..16 {
        if generate_ipv6(&subnet, &mut rng) != first {
            differs = true;
        }
    }
    assert!(differs);
    assert_eq!(&first[..8], &NETWORK[..8]);
}

#[test]
fn assign_addresses_gives_each_listener_its_own_configuration() {
    let mut rng = rand::thread_rng();
    let subnet = Subnet::parse("2a12:f8c1:55:766::/64").unwrap();
    let binds = vec![
        BindAddress { ip: HostAddress::V4([0, 0, 0, 0]), port: 51080 },
        BindAddress { ip: HostAddress::V6([0u8; 16]), port: 51081 },
    ];
    let configs = assign_addresses(&subnet, &binds, &mut rng);
    assert_eq!(configs.len(), 2);
    for (config, bind) in configs.iter().zip(binds.iter()) {
        assert_eq!(config.bind, *bind);
        assert_eq!(config.prefix_len, 64);
        assert_eq!(&config.egress[..8], &NETWORK[..8]);
    }
    assert!(assign_addresses(&subnet, &Vec::new(), &mut rng).is_empty());
}
