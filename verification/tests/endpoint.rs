use file_transfer::endpoint::{Endpoint, Host, LISTEN_PORT};

#[test]
fn receiver_listens_on_every_interface_port_526() {
    let endpoint = Endpoint::listening();
    assert_eq!(endpoint.host, Host::V4 { octets: 0 });
    assert_eq!(endpoint.port, 526);
    assert_eq!(LISTEN_PORT, 526);
}
