use block_tps::endpoint::{resolve_endpoint, TESTNET_ALIAS, TESTNET_ENDPOINT};

#[test]
fn testnet_alias_gives_the_testnet_node() {
    assert_eq!(
        resolve_endpoint("harmonie-testnet"),
        "wss://harmonie-endpoint-02.allfeat.io"
    );
    assert_eq!(resolve_endpoint(TESTNET_ALIAS), TESTNET_ENDPOINT);
}

#[test]
fn any_other_text_is_the_address() {
    assert_eq!(resolve_endpoint("ws://127.0.0.1:9944"), "ws://127.0.0.1:9944");
    assert_eq!(resolve_endpoint("harmonie"), "harmonie");
    assert_eq!(resolve_endpoint(""), "");
    assert_eq!(resolve_endpoint("harmonie-testnet "), "harmonie-testnet ");
    assert_eq!(resolve_endpoint("Harmonie-Testnet"), "Harmonie-Testnet");
}

#[test]
fn the_testnet_address_stands_for_itself() {
    assert_eq!(resolve_endpoint(TESTNET_ENDPOINT), TESTNET_ENDPOINT);
}
