//! Tests of the network-manager rendezvous protocol.

use comploader::net::{
    client_rendezvous, server_rendezvous, LocalSyncPort, NmOpenObjects, Rendezvous,
};

#[test]
fn it_works() {
    let result = 2 + 2;
    assert_eq!(result, 4);
}

fn blank_rendezvous() -> Rendezvous {
    Rendezvous { ready: 0, tx_buf: 0, rx_buf: 0, tx_queue: 0, rx_queue: 0 }
}

#[test]
fn server_fills_and_hands_over() {
    let mut port = LocalSyncPort { next_word: 1, next_object: 100 };
    let mut r = blank_rendezvous();
    let o = server_rendezvous(&mut port, &mut r);
    assert_eq!(r.ready, 2);
    assert_eq!(
        o,
        NmOpenObjects { tx_buf: 100, rx_buf: 101, tx_queue: 102, rx_queue: 103 }
    );
    assert_eq!(r.tx_buf, 100);
    assert_eq!(r.rx_buf, 101);
    assert_eq!(r.tx_queue, 102);
    assert_eq!(r.rx_queue, 103);
}

#[test]
fn client_copies_out_and_clears() {
    let mut port = LocalSyncPort { next_word: 2, next_object: 0 };
    let mut r = Rendezvous { ready: 2, tx_buf: 10, rx_buf: 11, tx_queue: 12, rx_queue: 13 };
    let o = client_rendezvous(&mut port, &mut r);
    assert_eq!(r.ready, 0);
    assert_eq!(o, NmOpenObjects { tx_buf: 10, rx_buf: 11, tx_queue: 12, rx_queue: 13 });
}

#[test]
fn server_skips_wait_when_client_already_arrived() {
    // The ready word is already nonzero: the server proceeds at once.
    let mut port = LocalSyncPort { next_word: 0, next_object: 5 };
    let mut r = blank_rendezvous();
    r.ready = 1;
    let o = server_rendezvous(&mut port, &mut r);
    assert_eq!(r.ready, 2);
    assert_eq!(o.tx_buf, 5);
}
