//! The commands that the user types: `sh: <name>` searches the network for
//! a file, `dwn: <peer> <name>` downloads it from a peer, `ls ps` lists the
//! known peers, `help` lists the commands, and `sto:` is reserved.
use vstd::prelude::*;
use vstd::utf8::encode_utf8;

use crate::text::{same_text, split_all, split_all_at};

verus! {

/// The binary form of the multiaddress that `text` spells, as
/// `Multiaddr::from_str` parses it, or `None` when it spells none.
pub uninterp spec fn multiaddr_bytes_of(text: Seq<char>) -> Option<Seq<u8>>;

/// The peer that the last component of the multiaddress `addr` (in binary
/// form) names, in the binary form of `PeerId::to_bytes`, or `None` when
/// the bytes are no multiaddress or its last component names no peer.
pub uninterp spec fn final_peer_of(addr: Seq<u8>) -> Option<Seq<u8>>;

/// `Multiaddr::from_str` (through `str::parse`), with the address it gives
/// taken in binary form by `Multiaddr::to_vec`. The result is the named
/// `multiaddr_bytes_of` of the text: the grammar of multiaddresses is not
/// written out here.
#[verifier::external_body]
fn parse_multiaddr(text: &str) -> (r: Option<Vec<u8>>)
    ensures
        match r {
            Some(v) => multiaddr_bytes_of(text@) == Some(v@),
            None => multiaddr_bytes_of(text@) is None,
        },
{
    match text.parse::<libp2p::Multiaddr>() {
        Ok(addr) => Some(addr.to_vec()),
        Err(_) => None,
    }
}

/// `Multiaddr::iter`, to find the last component of a multiaddress given in
/// binary form (read back with `Multiaddr::try_from`); when that component
/// is `/p2p/..`, the peer it names in the form of `PeerId::to_bytes`. The
/// result is the named `final_peer_of` of the bytes.
#[verifier::external_body]
fn final_peer(addr: &[u8]) -> (r: Option<Vec<u8>>)
    ensures
        match r {
            Some(v) => final_peer_of(addr@) == Some(v@),
            None => final_peer_of(addr@) is None,
        },
{
    let addr = match libp2p::Multiaddr::try_from(addr.to_vec()) {
        Ok(a) => a,
        Err(_) => return None,
    };
    match addr.iter().last() {
        Some(libp2p::multiaddr::Protocol::P2p(peer)) => Some(peer.to_bytes()),
        _ => None,
    }
}

/// `kad::RecordKey::new` followed by `RecordKey::to_vec`: a record key is
/// made of the very bytes it is built from.
#[verifier::external_body]
fn record_key(bytes: &[u8]) -> (r: Vec<u8>)
    ensures
        r@ == bytes@,
{
    libp2p::kad::RecordKey::new(&bytes).to_vec()
}

/// The key under which the network is searched for a file name: the bytes
/// of the name in UTF-8.
pub fn request_search(item: &str) -> (key: Vec<u8>)
    ensures
        key@ == encode_utf8(item@),
{
    record_key(item.as_bytes())
}

/// A command typed by the user.
#[derive(Debug, Clone, PartialEq, Eq)]
pub enum Command {
    /// `sto:`: reserved, does nothing.
    Store,
    /// `sh: <item>`: ask the network who provides `item`.
    Search { item: String },
    /// `dwn: <peer> <file_name>`: ask `peer` (in the binary form of
    /// `PeerId::to_bytes`) for `file_name`.
    Download { peer: Vec<u8>, file_name: String },
    /// `ls ps`: list the peers.
    ListPeers,
    /// `help`: list the commands.
    Help,
    /// `ls` followed by anything but `ps`: does nothing.
    Ignored,
    /// Anything else: the command is not known.
    Unknown,
}

/// The model of a command, over sequences.
pub enum CommandView {
    Store,
    Search(Seq<char>),
    Download(Seq<u8>, Seq<char>),
    ListPeers,
    Help,
    Ignored,
    Unknown,
}

impl View for Command {
    type V = CommandView;

    open spec fn view(&self) -> CommandView {
        match self {
            Command::Store => CommandView::Store,
            Command::Search { item } => CommandView::Search(item@),
            Command::Download { peer, file_name } => CommandView::Download(peer@, file_name@),
            Command::ListPeers => CommandView::ListPeers,
            Command::Help => CommandView::Help,
            Command::Ignored => CommandView::Ignored,
            Command::Unknown => CommandView::Unknown,
        }
    }
}

/// Why a typed command cannot be carried out.
#[derive(Debug, Clone, Copy, PartialEq, Eq, Structural)]
pub enum CommandError {
    /// `sh:` without a name.
    MissingName,
    /// `dwn:` without a peer.
    MissingPeer,
    /// `dwn:` with a peer that does not make a multiaddress.
    InvalidPeerAddress,
    /// `dwn:` without a file name.
    MissingFileName,
    /// `dwn:` with an address whose last component names no peer.
    NotAPeerAddress,
}

/// The multiaddress text under which a typed peer is looked up.
pub open spec fn peer_address_text(peer: Seq<char>) -> Seq<char> {
    "/p2p/"@ + peer
}

/// The view of an optional byte vector.
pub open spec fn bytes_view(o: Option<Vec<u8>>) -> Option<Seq<u8>> {
    match o {
        Some(v) => Some(v@),
        None => None,
    }
}

/// The view of an optional string.
pub open spec fn text_view(o: Option<String>) -> Option<Seq<char>> {
    match o {
        Some(s) => Some(s@),
        None => None,
    }
}

/// What a download asks once the peer named by the address is known.
pub open spec fn download_to_peer_spec(peer: Option<Seq<u8>>, file_name: Seq<char>) -> Result<
    CommandView,
    CommandError,
> {
    match peer {
        None => Err(CommandError::NotAPeerAddress),
        Some(p) => Ok(CommandView::Download(p, file_name)),
    }
}

/// What a download asks once the typed peer has been parsed as an address
/// (`None` when it makes none), given the typed file name if any.
pub open spec fn download_with_address(addr: Option<Seq<u8>>, file_name: Option<Seq<char>>) -> Result<
    CommandView,
    CommandError,
> {
    match addr {
        None => Err(CommandError::InvalidPeerAddress),
        Some(a) => match file_name {
            None => Err(CommandError::MissingFileName),
            Some(f) => download_to_peer_spec(final_peer_of(a), f),
        },
    }
}

/// What a `dwn:` command with the words `t` (the command word first) asks.
pub open spec fn download_command(t: Seq<Seq<char>>) -> Result<CommandView, CommandError> {
    if t.len() < 2 {
        Err(CommandError::MissingPeer)
    } else {
        download_with_address(
            multiaddr_bytes_of(peer_address_text(t[1])),
            if t.len() >= 3 {
                Some(t[2])
            } else {
                None
            },
        )
    }
}

/// A download from the peer named by the address, if it names one.
pub fn download_to_peer(peer: Option<Vec<u8>>, file_name: String) -> (r: Result<
    Command,
    CommandError,
>)
    ensures
        match r {
            Ok(c) => download_to_peer_spec(bytes_view(peer), file_name@) == Ok::<
                CommandView,
                CommandError,
            >(c@),
            Err(e) => download_to_peer_spec(bytes_view(peer), file_name@) == Err::<
                CommandView,
                CommandError,
            >(e),
        },
{
    match peer {
        None => Err(CommandError::NotAPeerAddress),
        Some(peer) => Ok(Command::Download { peer, file_name }),
    }
}

/// A download once the typed peer has been parsed as an address (`None`
/// when it makes none), given the typed file name if any.
pub fn download_with_parsed_address(addr: Option<Vec<u8>>, file_name: Option<String>) -> (r: Result<
    Command,
    CommandError,
>)
    ensures
        match r {
            Ok(c) => download_with_address(
                bytes_view(addr),
                text_view(file_name),
            ) == Ok::<CommandView, CommandError>(c@),
            Err(e) => download_with_address(
                bytes_view(addr),
                text_view(file_name),
            ) == Err::<CommandView, CommandError>(e),
        },
{
    match addr {
        None => Err(CommandError::InvalidPeerAddress),
        Some(a) => match file_name {
            None => Err(CommandError::MissingFileName),
            Some(f) => download_to_peer(final_peer(a.as_slice()), f),
        },
    }
}

/// What the typed line asks, read word by word, the words being separated
/// by single spaces.
pub open spec fn parsed_command(line: Seq<char>) -> Result<CommandView, CommandError> {
    let t = split_all(line, ' ');
    if t[0] == "sto:"@ {
        Ok(CommandView::Store)
    } else if t[0] == "sh:"@ {
        if t.len() < 2 {
            Err(CommandError::MissingName)
        } else {
            Ok(CommandView::Search(t[1]))
        }
    } else if t[0] == "dwn:"@ {
        download_command(t)
    } else if t[0] == "ls"@ {
        if t.len() >= 2 && t[1] == "ps"@ {
            Ok(CommandView::ListPeers)
        } else {
            Ok(CommandView::Ignored)
        }
    } else if t[0] == "help"@ {
        Ok(CommandView::Help)
    } else {
        Ok(CommandView::Unknown)
    }
}

/// Splitting always gives at least one piece.
proof fn lemma_split_all_nonempty(s: Seq<char>, sep: char)
    ensures
        split_all(s, sep).len() >= 1,
{
    s.index_of_first_ensures(sep);
}

/// Reads a command typed by the user.
pub fn handle_command(line: &str) -> (r: Result<Command, CommandError>)
    ensures
        match r {
            Ok(c) => parsed_command(line@) == Ok::<CommandView, CommandError>(c@),
            Err(e) => parsed_command(line@) == Err::<CommandView, CommandError>(e),
        },
{
    let words = split_all_at(line, ' ');
    let ghost t = split_all(line@, ' ');
    proof {
        lemma_split_all_nonempty(line@, ' ');
        assert(words@.len() == t.len());
        assert forall|i: int| 0 <= i < t.len() implies words@[i]@ == t[i] by {
            assert(crate::text::views(words@)[i] == words@[i]@);
        }
    }
    let first = words[0].as_str();
    if same_text(first, "sto:") {
        Ok(Command::Store)
    } else if same_text(first, "sh:") {
        if words.len() < 2 {
            Err(CommandError::MissingName)
        } else {
            Ok(Command::Search { item: words[1].clone() })
        }
    } else if same_text(first, "dwn:") {
        if words.len() < 2 {
            return Err(CommandError::MissingPeer);
        }
        let mut text = String::from_str("/p2p/");
        text.append(words[1].as_str());
        let addr = parse_multiaddr(text.as_str());
        let file_name = if words.len() >= 3 {
            Some(words[2].clone())
        } else {
            None
        };
        download_with_parsed_address(addr, file_name)
    } else if same_text(first, "ls") {
        if words.len() >= 2 && same_text(words[1].as_str(), "ps") {
            Ok(Command::ListPeers)
        } else {
            Ok(Command::Ignored)
        }
    } else if same_text(first, "help") {
        Ok(Command::Help)
    } else {
        Ok(Command::Unknown)
    }
}

/// The first occurrence of `c` in `a + b`, when `a` holds none and `b`
/// starts with one.
proof fn lemma_first_at_join(a: Seq<char>, b: Seq<char>, c: char)
    requires
        !a.contains(c),
        b.len() > 0,
        b[0] == c,
    ensures
        (a + b).index_of_first(c) == Some(a.len() as int),
{
    let s = a + b;
    assert(s[a.len() as int] == c);
    s.index_of_first_ensures(c);
    let k = s.index_of_first(c)->0;
    if k < a.len() {
        assert(a[k] == s[k]);
    }
}

/// A text without separator is a single word.
proof fn lemma_single_word(s: Seq<char>, sep: char)
    requires
        !s.contains(sep),
    ensures
        split_all(s, sep) == seq![s],
{
    s.index_of_first_ensures(sep);
}

/// The words of `w + " " + rest`, when `w` holds no space.
proof fn lemma_words_join(w: Seq<char>, rest: Seq<char>)
    requires
        !w.contains(' '),
    ensures
        split_all(w + seq![' '] + rest, ' ') == seq![w] + split_all(rest, ' '),
{
    let s = w + seq![' '] + rest;
    assert(s =~= w + (seq![' '] + rest));
    lemma_first_at_join(w, seq![' '] + rest, ' ');
    assert(s.take(w.len() as int) =~= w);
    assert(s.skip((w.len() + 1) as int) =~= rest);
    s.index_of_first_ensures(' ');
}

/// Law: typing `sh: ` followed by a name without spaces searches for
/// exactly that name.
pub proof fn lemma_search_command(name: Seq<char>)
    requires
        !name.contains(' '),
    ensures
        parsed_command("sh:"@ + seq![' '] + name) == Ok::<CommandView, CommandError>(
            CommandView::Search(name),
        ),
{
    reveal_strlit("sh:");
    reveal_strlit("sto:");
    let w = "sh:"@;
    assert(w.len() == 3 && w[0] == 's' && w[1] == 'h' && w[2] == ':');
    assert(!w.contains(' '));
    lemma_words_join(w, name);
    lemma_single_word(name, ' ');
    assert(seq![w] + seq![name] =~= seq![w, name]);
    assert(w != "sto:"@);
}

/// Law: typing `dwn: `, a peer, a space and a file name, neither holding a
/// space, downloads that file from the peer that the text `/p2p/<peer>`
/// names, or fails as `download_command` says.
pub proof fn lemma_download_command(peer: Seq<char>, file_name: Seq<char>)
    requires
        !peer.contains(' '),
        !file_name.contains(' '),
    ensures
        parsed_command("dwn:"@ + seq![' '] + peer + seq![' '] + file_name) == download_command(
            seq!["dwn:"@, peer, file_name],
        ),
{
    reveal_strlit("dwn:");
    reveal_strlit("sto:");
    reveal_strlit("sh:");
    let w = "dwn:"@;
    assert(w.len() == 4 && w[0] == 'd' && w[1] == 'w' && w[2] == 'n' && w[3] == ':');
    assert(!w.contains(' '));
    let rest = peer + seq![' '] + file_name;
    assert(w + seq![' '] + peer + seq![' '] + file_name =~= w + seq![' '] + rest);
    lemma_words_join(w, rest);
    lemma_words_join(peer, file_name);
    lemma_single_word(file_name, ' ');
    assert(seq![w] + (seq![peer] + seq![file_name]) =~= seq![w, peer, file_name]);
    assert(w != "sto:"@);
    assert(w != "sh:"@);
}

/// Law: a download goes to whatever peer the address names, whatever the
/// length of its id, and asks for the file name unchanged.
pub proof fn lemma_download_to_any_peer(peer: Seq<u8>, file_name: Seq<char>)
    ensures
        download_to_peer_spec(Some(peer), file_name) == Ok::<CommandView, CommandError>(
            CommandView::Download(peer, file_name),
        ),
        download_to_peer_spec(None, file_name) == Err::<CommandView, CommandError>(
            CommandError::NotAPeerAddress,
        ),
{
}

/// Law: typing `dwn: <peer> <file>`, neither word holding a space, where
/// `/p2p/<peer>` parses to an address whose last component names the peer
/// `id`, downloads exactly `<file>` from `id`, whatever their lengths.
pub proof fn lemma_download_goes_to_named_peer(
    peer: Seq<char>,
    file_name: Seq<char>,
    addr: Seq<u8>,
    id: Seq<u8>,
)
    requires
        !peer.contains(' '),
        !file_name.contains(' '),
        multiaddr_bytes_of("/p2p/"@ + peer) == Some(addr),
        final_peer_of(addr) == Some(id),
    ensures
        parsed_command("dwn:"@ + seq![' '] + peer + seq![' '] + file_name) == Ok::<
            CommandView,
            CommandError,
        >(CommandView::Download(id, file_name)),
{
    lemma_download_command(peer, file_name);
    let t = seq!["dwn:"@, peer, file_name];
    assert(t[1] == peer && t[2] == file_name && t.len() == 3);
}

/// Law: `dwn: <peer>` without a file name fails for want of the file name
/// when `/p2p/<peer>` parses, and for want of an address when it does not.
pub proof fn lemma_download_without_file(peer: Seq<char>)
    requires
        !peer.contains(' '),
    ensures
        multiaddr_bytes_of("/p2p/"@ + peer) is Some ==> parsed_command(
            "dwn:"@ + seq![' '] + peer,
        ) == Err::<CommandView, CommandError>(CommandError::MissingFileName),
        multiaddr_bytes_of("/p2p/"@ + peer) is None ==> parsed_command(
            "dwn:"@ + seq![' '] + peer,
        ) == Err::<CommandView, CommandError>(CommandError::InvalidPeerAddress),
{
    reveal_strlit("dwn:");
    reveal_strlit("sto:");
    reveal_strlit("sh:");
    let w = "dwn:"@;
    assert(w.len() == 4 && w[0] == 'd' && w[1] == 'w' && w[2] == 'n' && w[3] == ':');
    assert(!w.contains(' '));
    lemma_words_join(w, peer);
    lemma_single_word(peer, ' ');
    assert(seq![w] + seq![peer] =~= seq![w, peer]);
    assert(w != "sto:"@);
    assert(w != "sh:"@);
}

/// Law: `dwn:` alone lacks a peer, and `sh:` alone lacks a name.
pub proof fn lemma_missing_words()
    ensures
        parsed_command("dwn:"@) == Err::<CommandView, CommandError>(CommandError::MissingPeer),
        parsed_command("sh:"@) == Err::<CommandView, CommandError>(CommandError::MissingName),
{
    reveal_strlit("dwn:");
    reveal_strlit("sto:");
    reveal_strlit("sh:");
    let w = "dwn:"@;
    assert(w.len() == 4 && w[0] == 'd' && w[1] == 'w' && w[2] == 'n' && w[3] == ':');
    lemma_single_word(w, ' ');
    let v = "sh:"@;
    assert(v.len() == 3 && v[0] == 's' && v[1] == 'h' && v[2] == ':');
    lemma_single_word(v, ' ');
    assert(w != "sto:"@);
    assert(w != "sh:"@);
    assert(v != "sto:"@);
}

/// The command a line asks depends only on its words: the first word
/// alone, or the first word followed by a space and anything.
proof fn lemma_first_word(w: Seq<char>, rest: Seq<char>)
    requires
        !w.contains(' '),
    ensures
        split_all(w, ' ')[0] == w,
        split_all(w + seq![' '] + rest, ' ')[0] == w,
        split_all(w + seq![' '] + rest, ' ').len() >= 2,
        split_all(w + seq![' '] + rest, ' ')[1] == split_all(rest, ' ')[0],
{
    lemma_single_word(w, ' ');
    lemma_words_join(w, rest);
    lemma_split_all_nonempty(rest, ' ');
}

/// Law: a line whose first word is `help` asks for help, whatever follows;
/// one whose first word is `sto:` is the reserved command.
pub proof fn lemma_help_and_store(rest: Seq<char>)
    ensures
        parsed_command("help"@) == Ok::<CommandView, CommandError>(CommandView::Help),
        parsed_command("help"@ + seq![' '] + rest) == Ok::<CommandView, CommandError>(
            CommandView::Help,
        ),
        parsed_command("sto:"@) == Ok::<CommandView, CommandError>(CommandView::Store),
        parsed_command("sto:"@ + seq![' '] + rest) == Ok::<CommandView, CommandError>(
            CommandView::Store,
        ),
{
    reveal_strlit("help");
    reveal_strlit("sto:");
    reveal_strlit("sh:");
    reveal_strlit("dwn:");
    reveal_strlit("ls");
    let h = "help"@;
    assert(h.len() == 4 && h[0] == 'h' && h[1] == 'e' && h[2] == 'l' && h[3] == 'p');
    let st = "sto:"@;
    assert(st.len() == 4 && st[0] == 's' && st[1] == 't' && st[2] == 'o' && st[3] == ':');
    lemma_first_word(h, rest);
    lemma_first_word(st, rest);
    assert(h != "sto:"@);
    assert(h != "sh:"@);
    assert(h != "dwn:"@);
    assert(h != "ls"@);
}

/// Law: `ls` followed by the word `ps` lists the peers, and `ls` followed
/// by any other word, or by nothing, does nothing.
pub proof fn lemma_list_peers(word: Seq<char>, rest: Seq<char>)
    requires
        !word.contains(' '),
    ensures
        parsed_command("ls"@ + seq![' '] + word) == Ok::<CommandView, CommandError>(
            if word == "ps"@ {
                CommandView::ListPeers
            } else {
                CommandView::Ignored
            },
        ),
        parsed_command("ls"@ + seq![' '] + "ps"@ + seq![' '] + rest) == Ok::<
            CommandView,
            CommandError,
        >(CommandView::ListPeers),
        parsed_command("ls"@) == Ok::<CommandView, CommandError>(CommandView::Ignored),
{
    reveal_strlit("ls");
    reveal_strlit("ps");
    reveal_strlit("sto:");
    reveal_strlit("sh:");
    reveal_strlit("dwn:");
    let l = "ls"@;
    assert(l.len() == 2 && l[0] == 'l' && l[1] == 's');
    let p = "ps"@;
    assert(p.len() == 2 && p[0] == 'p' && p[1] == 's');
    assert(!l.contains(' '));
    assert(!p.contains(' '));
    lemma_first_word(l, word);
    lemma_single_word(word, ' ');
    let r2 = p + seq![' '] + rest;
    assert(l + seq![' '] + p + seq![' '] + rest =~= l + seq![' '] + r2);
    lemma_first_word(l, r2);
    lemma_first_word(p, rest);
    lemma_single_word(l, ' ');
    assert(l != "sto:"@);
    assert(l != "sh:"@);
    assert(l != "dwn:"@);
}

/// Law: a line whose first word is none of `sto:`, `sh:`, `dwn:`, `ls`,
/// `help` is not a known command, whatever follows.
pub proof fn lemma_unknown_command(w: Seq<char>, rest: Seq<char>)
    requires
        !w.contains(' '),
        w != "sto:"@,
        w != "sh:"@,
        w != "dwn:"@,
        w != "ls"@,
        w != "help"@,
    ensures
        parsed_command(w) == Ok::<CommandView, CommandError>(CommandView::Unknown),
        parsed_command(w + seq![' '] + rest) == Ok::<CommandView, CommandError>(
            CommandView::Unknown,
        ),
{
    lemma_first_word(w, rest);
}

} // verus!
