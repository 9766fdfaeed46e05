use xdcc::proto::{handle_message, mode_signal, Dcc};

fn react(line: &[u8]) -> (Vec<Vec<u8>>, Option<Dcc>) {
    let r = handle_message(line, b"CoolBot", 42);
    (r.outbound, r.transfer)
}

#[test]
fn keep_alive_echo() {
    let (out, transfer) = react(b"PING :abc123");
    assert_eq!(out, vec![b"PONG :abc123".to_vec()]);
    assert!(transfer.is_none());
}

#[test]
fn keep_alive_echo_with_prefix() {
    let (out, transfer) = react(b":irc.example.net PING :token77");
    assert_eq!(out, vec![b"PONG :token77".to_vec()]);
    assert!(transfer.is_none());
}

#[test]
fn negotiation_trigger() {
    let (out, transfer) = react(b":irc.example.net MODE AnimeFan42 +i");
    assert_eq!(
        out,
        vec![b"JOIN #nibl".to_vec(), b"PRIVMSG CoolBot :xdcc send #42".to_vec()]
    );
    assert!(transfer.is_none());
}

#[test]
fn offer_extraction() {
    let (out, transfer) =
        react(b":bot!user@host PRIVMSG you :DCC SEND \"My File.mkv\" 3232235521 5000 104857600");
    assert!(out.is_empty());
    let d = transfer.expect("offer line must yield a descriptor");
    assert_eq!(d.filename, b"My File.mkv".to_vec());
    assert_eq!(d.endpoint, b"192.168.0.1:5000".to_vec());
    assert_eq!(d.size, 104857600);
}

#[test]
fn offer_unquoted_lowercase() {
    let (out, transfer) = react(b":b!u@h PRIVMSG me :dcc send file.mkv 16909060 4000 99");
    assert!(out.is_empty());
    let d = transfer.unwrap();
    assert_eq!(d.filename, b"file.mkv".to_vec());
    assert_eq!(d.endpoint, b"1.2.3.4:4000".to_vec());
    assert_eq!(d.size, 99);
}

#[test]
fn offer_dotted_address_passes_through() {
    let (_, transfer) = react(b"PRIVMSG me :DCC SEND x.bin 10.0.0.1 6000 5");
    let d = transfer.unwrap();
    assert_eq!(d.endpoint, b"10.0.0.1:6000".to_vec());
}

#[test]
fn classifier_priority_ping_wins() {
    // matches the keep-alive shape even though MODE appears as its token:
    // the reaction is the echo, never the offer request
    let (out, transfer) = react(b"PING MODEx");
    assert_eq!(out, vec![b"PONG MODEx".to_vec()]);
    assert!(transfer.is_none());
    assert!(!mode_signal(b"PING MODEx"));
    assert!(mode_signal(b":server MODE x"));
    assert!(!mode_signal(b":server PING MODE"));
}

#[test]
fn unmatched_lines_are_silently_skipped() {
    for line in [
        b"".as_slice(),
        b":server 001 welcome",
        b"NOTICE hello there",
        b"PING",
        b"PRIVMSG me :hello",
        b"PRIVMSG me :DCC SEND",
        b"PRIVMSG me :DCC SEND name.bin 1 2",
    ] {
        let (out, transfer) = react(line);
        assert!(out.is_empty(), "unexpected reaction to {:?}", line);
        assert!(transfer.is_none());
    }
}

#[test]
fn oversized_size_token_is_rejected() {
    let (out, transfer) = react(b"PRIVMSG me :DCC SEND x.bin 1 2 99999999999999999999999999");
    assert!(out.is_empty());
    assert!(transfer.is_none());
}

#[test]
fn oversized_address_passes_through_unconverted() {
    let (_, transfer) = react(b"PRIVMSG me :DCC SEND x.bin 99999999999 7000 5");
    let d = transfer.unwrap();
    assert_eq!(d.endpoint, b"99999999999:7000".to_vec());
}
