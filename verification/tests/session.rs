use xdcc::session::{registration_messages, wire_encode, Session, SessionState};

#[test]
fn registration_sequence() {
    let msgs = registration_messages();
    assert_eq!(
        msgs,
        vec![b"USER AnimeFan42 0 * AnimeFan42".to_vec(), b"NICK AnimeFan42".to_vec()]
    );
}

#[test]
fn wire_encoding_appends_crlf() {
    assert_eq!(wire_encode(b"QUIT"), b"QUIT\r\n".to_vec());
}

#[test]
fn whole_session_flow() {
    let mut s = Session::new(b"CoolBot".to_vec(), 7);

    let step = s.on_chunk(b":server 001 welcome\r\n");
    assert!(step.outbound.is_empty());
    assert!(step.transfer.is_none());

    let step = s.on_chunk(b":server MODE AnimeFan42 +i\r\n");
    assert_eq!(
        step.outbound,
        vec![b"JOIN #nibl".to_vec(), b"PRIVMSG CoolBot :xdcc send #7".to_vec()]
    );

    // the offer request fires at most once per session
    let step = s.on_chunk(b":server MODE AnimeFan42 +w\r\n");
    assert!(step.outbound.is_empty());

    let step = s.on_chunk(b"PING :keepalive\r\n");
    assert_eq!(step.outbound, vec![b"PONG :keepalive".to_vec()]);

    let step =
        s.on_chunk(b":bot!u@h PRIVMSG me :DCC SEND \"My File.mkv\" 3232235521 5000 104857600\r\n");
    assert_eq!(step.outbound, vec![b"QUIT".to_vec()]);
    let d = step.transfer.expect("offer must end negotiation");
    assert_eq!(d.filename, b"My File.mkv".to_vec());
    assert_eq!(d.endpoint, b"192.168.0.1:5000".to_vec());
    assert_eq!(d.size, 104857600);
    assert!(matches!(s.state, SessionState::Transferring));

    // the control channel is dead afterwards
    let step = s.on_chunk(b"PING :late\r\n");
    assert!(step.outbound.is_empty());
    assert!(step.transfer.is_none());
}

#[test]
fn line_split_across_reads_reacts_once() {
    let mut s = Session::new(b"B".to_vec(), 1);
    let step = s.on_chunk(b"PING :ha");
    assert!(step.outbound.is_empty());
    let step = s.on_chunk(b"lf\r\n");
    assert_eq!(step.outbound, vec![b"PONG :half".to_vec()]);
}

#[test]
fn lines_after_offer_in_same_read_are_dropped() {
    let mut s = Session::new(b"B".to_vec(), 1);
    let step = s.on_chunk(b"PRIVMSG me :DCC SEND x.bin 1 2 3\r\nPING :ignored\r\n");
    assert_eq!(step.outbound, vec![b"QUIT".to_vec()]);
    assert!(step.transfer.is_some());
}
