use signaling_hub::clients::{Client, Clients, SocketClient};
use signaling_hub::identity::Identity;

fn addr(port: u16) -> Identity {
    Identity::V4 { ip: 0x7f00_0001, port }
}

fn addresses(clients: &Clients<&'static str>) -> Vec<(Identity, &'static str)> {
    clients.vec.iter().map(|client| (client.addr, client.tx)).collect()
}

#[test]
fn a_client_is_its_address_and_its_sink() {
    let client = Client::new(addr(1), "one");
    assert_eq!(client.addr, addr(1));
    assert_eq!(client.tx, "one");
}

#[test]
fn the_list_starts_empty_and_grows_at_the_end() {
    let mut clients: Clients<&'static str> = Clients::default();
    assert!(clients.vec.is_empty());
    assert_eq!(clients.broadcast(None), Vec::<usize>::new());
    clients.push(addr(1), "one");
    clients.push(addr(2), "two");
    clients.push(addr(1), "one again");
    assert_eq!(
        addresses(&clients),
        vec![(addr(1), "one"), (addr(2), "two"), (addr(1), "one again")]
    );
}

#[test]
fn a_message_is_written_to_everyone_but_the_excluded_address() {
    let mut clients: Clients<&'static str> = Clients::default();
    clients.push(addr(1), "one");
    clients.push(addr(2), "two");
    clients.push(addr(1), "one again");
    clients.push(addr(3), "three");
    assert_eq!(clients.broadcast(None), vec![0, 1, 2, 3]);
    assert_eq!(clients.broadcast(Some(addr(1))), vec![1, 3]);
    assert_eq!(clients.broadcast(Some(addr(2))), vec![0, 2, 3]);
    assert_eq!(clients.broadcast(Some(addr(9))), vec![0, 1, 2, 3]);
}

#[test]
fn remove_takes_out_the_first_peer_at_the_address() {
    let mut clients: Clients<&'static str> = Clients::default();
    clients.push(addr(1), "one");
    clients.push(addr(2), "two");
    clients.push(addr(1), "one again");
    clients.remove(addr(1));
    assert_eq!(addresses(&clients), vec![(addr(2), "two"), (addr(1), "one again")]);
    clients.remove(addr(9));
    assert_eq!(addresses(&clients), vec![(addr(2), "two"), (addr(1), "one again")]);
    clients.remove(addr(1));
    clients.remove(addr(1));
    assert_eq!(addresses(&clients), vec![(addr(2), "two")]);
}

#[test]
fn a_socket_client_enters_writes_and_cleans_up() {
    let mut clients: Clients<&'static str> = Clients::default();
    let one = SocketClient::new(addr(1), "one", &mut clients);
    let two = SocketClient::new(addr(2), "two", &mut clients);
    let three = SocketClient::new(addr(3), "three", &mut clients);
    assert_eq!(one.broadcast(&clients), vec![1, 2]);
    assert_eq!(two.broadcast(&clients), vec![0, 2]);
    assert_eq!(three.broadcast_all(&clients), vec![0, 1, 2]);
    two.cleanup(&mut clients);
    assert_eq!(addresses(&clients), vec![(addr(1), "one"), (addr(3), "three")]);
    assert_eq!(one.broadcast(&clients), vec![1]);
    two.cleanup(&mut clients);
    assert_eq!(addresses(&clients), vec![(addr(1), "one"), (addr(3), "three")]);
}
