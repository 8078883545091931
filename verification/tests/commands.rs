use libp2p::multiaddr::Protocol;
use libp2p::{Multiaddr, PeerId};
use musify::command::{
    download_to_peer, download_with_parsed_address, handle_command, request_search, Command,
    CommandError,
};
use musify::provide::{file_stem, providing_files, ProvidePlan, ProvidedFile};
use musify::text::{find_char, same_text, split_all_at, split_once_at};

#[test]
fn splitting_keeps_empty_words() {
    assert_eq!(split_all_at("a  b", ' '), vec!["a", "", "b"]);
    assert_eq!(split_all_at("", ' '), vec![""]);
    assert_eq!(split_all_at("sh: ", ' '), vec!["sh:", ""]);
    assert_eq!(split_once_at("x.y.z", '.'), ("x", Some("y.z")));
    assert_eq!(split_once_at("xyz", '.'), ("xyz", None));
    assert_eq!(find_char("héllo", 'l'), Some(2));
    assert!(same_text("ab", "ab"));
    assert!(!same_text("ab", "abc"));
}

#[test]
fn simple_commands() {
    assert_eq!(handle_command("help"), Ok(Command::Help));
    assert_eq!(handle_command("ls ps"), Ok(Command::ListPeers));
    assert_eq!(handle_command("ls"), Ok(Command::Ignored));
    assert_eq!(handle_command("ls x"), Ok(Command::Ignored));
    assert_eq!(handle_command("sto:"), Ok(Command::Store));
    assert_eq!(handle_command("sto: file"), Ok(Command::Store));
    assert_eq!(handle_command("search: x"), Ok(Command::Unknown));
    assert_eq!(handle_command(""), Ok(Command::Unknown));
    assert_eq!(handle_command(" help"), Ok(Command::Unknown));
}

#[test]
fn search_command() {
    assert_eq!(
        handle_command("sh: song"),
        Ok(Command::Search { item: "song".to_string() })
    );
    assert_eq!(handle_command("sh: "), Ok(Command::Search { item: "".to_string() }));
    assert_eq!(handle_command("sh:"), Err(CommandError::MissingName));
    assert_eq!(request_search("song"), b"song".to_vec());
}

#[test]
fn download_command() {
    let peer = PeerId::random();
    let line = format!("dwn: {} song", peer.to_base58());
    assert_eq!(
        handle_command(&line),
        Ok(Command::Download { peer: peer.to_bytes(), file_name: "song".to_string() })
    );
}

#[test]
fn download_errors() {
    let peer = PeerId::random();
    assert_eq!(handle_command("dwn:"), Err(CommandError::MissingPeer));
    assert_eq!(handle_command("dwn: nopeer song"), Err(CommandError::InvalidPeerAddress));
    assert_eq!(handle_command("dwn: nopeer"), Err(CommandError::InvalidPeerAddress));
    assert_eq!(
        handle_command(&format!("dwn: {}", peer.to_base58())),
        Err(CommandError::MissingFileName)
    );
    assert_eq!(
        handle_command(&format!("dwn: {}/tcp/80 song", peer.to_base58())),
        Err(CommandError::NotAPeerAddress)
    );
}

#[test]
fn peer_bytes_are_not_the_address_bytes() {
    let peer = PeerId::random();
    let addr: Multiaddr = Multiaddr::empty().with(Protocol::P2p(peer));
    match handle_command(&format!("dwn: {} f", peer.to_base58())) {
        Ok(Command::Download { peer: p, .. }) => {
            assert_ne!(p, addr.to_vec());
            assert_eq!(PeerId::from_bytes(&p).unwrap(), peer);
        }
        other => panic!("unexpected {:?}", other),
    }
}

#[test]
fn providing_plan() {
    assert_eq!(providing_files(false, &vec![]), ProvidePlan::CreateDirectory);
    assert_eq!(providing_files(true, &vec![]), ProvidePlan::EmptyDirectory);
    let names = vec!["song.mp3".to_string(), "a.b.c".to_string(), "plain".to_string()];
    assert_eq!(
        providing_files(true, &names),
        ProvidePlan::Provide(vec![
            ProvidedFile { name: "song".to_string(), key: b"song".to_vec() },
            ProvidedFile { name: "a".to_string(), key: b"a".to_vec() },
            ProvidedFile { name: "plain".to_string(), key: b"plain".to_vec() },
        ])
    );
    assert_eq!(file_stem(".hidden"), "");
}

#[test]
fn download_steps() {

    assert_eq!(
        download_with_parsed_address(None, Some("f".to_string())),
        Err(CommandError::InvalidPeerAddress)
    );
    assert_eq!(download_with_parsed_address(Some(vec![1]), None), Err(CommandError::MissingFileName));
    assert_eq!(download_to_peer(None, "f".to_string()), Err(CommandError::NotAPeerAddress));
    assert_eq!(
        download_to_peer(Some(vec![1, 2]), "f".to_string()),
        Ok(Command::Download { peer: vec![1, 2], file_name: "f".to_string() })
    );
}
