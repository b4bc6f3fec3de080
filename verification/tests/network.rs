use chain_storage::network::Network;

#[test]
fn network_bytes() {
    // get networks
    let mainnet = Network::MainNet;
    let testnet = Network::TestNet;
    let localnet = Network::LocalNet;

    // test .as_byte()
    assert_eq!(mainnet.as_byte(), 0xaa_u8);
    assert_eq!(testnet.as_byte(), 0xbb_u8);
    assert_eq!(localnet.as_byte(), 0xcc_u8);

    // test .as_key_str()
    assert_eq!(mainnet.as_key_str(), "mainnet");
    assert_eq!(testnet.as_key_str(), "testnet");
    assert_eq!(localnet.as_key_str(), "localnet");
}

#[test]
fn network_default() {
    let network = Network::default();
    assert_eq!(network, Network::TestNet);
}

#[test]
fn network_from_str() {
    // test .from_str()
    assert_eq!(Network::from_str("mainnet").unwrap(), Network::MainNet);
    assert_eq!(Network::from_str("testnet").unwrap(), Network::TestNet);
    assert_eq!(Network::from_str("localnet").unwrap(), Network::LocalNet);
    // catch error case
    let err_network = Network::from_str("invalid network");
    assert!(err_network.is_err());
}

#[test]
fn network_from_byte() {
    assert_eq!(Network::try_from(0xaa).unwrap(), Network::MainNet);
    assert_eq!(Network::try_from(0xbb).unwrap(), Network::TestNet);
    assert_eq!(Network::try_from(0xcc).unwrap(), Network::LocalNet);
}

#[test]
fn network_from_byte_invalid() {
    assert!(Network::try_from(0x01).is_err());
    assert!(Network::try_from(0x00).is_err());
}

#[test]
fn network_from_str_ignores_ascii_case() {
    assert_eq!(Network::from_str("MainNet").unwrap(), Network::MainNet);
    assert_eq!(Network::from_str("TESTNET").unwrap(), Network::TestNet);
    assert_eq!(Network::from_str("LocalNet").unwrap(), Network::LocalNet);
}

#[test]
fn network_from_str_keeps_offending_value() {
    let err = Network::from_str("moonnet").unwrap_err();
    assert_eq!(err.value, Some("moonnet".to_string()));
}

#[test]
fn network_set_current_only_once() {
    let mut cell: Option<Network> = None;
    assert_eq!(Network::set_current(&mut cell, Network::MainNet), Ok(()));
    assert_eq!(cell, Some(Network::MainNet));
    assert_eq!(
        Network::set_current(&mut cell, Network::LocalNet),
        Err(Network::LocalNet)
    );
    assert_eq!(cell, Some(Network::MainNet));
}

#[test]
fn network_resolution_order() {
    assert_eq!(
        Network::get_current_or_user_setting_or_default(&Some(Network::LocalNet), Some("mainnet")),
        Network::LocalNet
    );
    assert_eq!(
        Network::get_current_or_user_setting_or_default(&None, Some("mainnet")),
        Network::MainNet
    );
    assert_eq!(
        Network::get_current_or_user_setting_or_default(&None, Some("bogus")),
        Network::TestNet
    );
    assert_eq!(
        Network::get_current_or_user_setting_or_default(&None, None),
        Network::TestNet
    );
}
