//! What a node offers to the network when it starts: every file of its
//! music directory, under the part of the file name before the first dot.
use vstd::prelude::*;
use vstd::utf8::encode_utf8;

use crate::command::request_search;
use crate::text::{split_once, split_once_at};
use crate::transfer::{served_name, FILE_EXTENSION, MUSIC_PATH};

verus! {

/// The directory whose files a node offers.
pub const MUSIC_DIR: &'static str = "./assets/music";

/// The name under which a file is offered: the part of its name before the
/// first dot.
pub open spec fn offered_name(file_name: Seq<char>) -> Seq<char> {
    split_once(file_name, '.').0
}

/// The name under which a file is offered.
pub fn file_stem(file_name: &str) -> (r: String)
    ensures
        r@ == offered_name(file_name@),
{
    let (head, _) = split_once_at(file_name, '.');
    head.to_owned()
}

/// A file that the node offers: its name and the record key announced for
/// it.
#[derive(Debug, Clone, PartialEq, Eq)]
pub struct ProvidedFile {
    pub name: String,
    pub key: Vec<u8>,
}

/// What a node does with its music directory when it starts.
#[derive(Debug, Clone, PartialEq, Eq)]
pub enum ProvidePlan {
    /// The directory does not exist: create it.
    CreateDirectory,
    /// The directory is empty: say so.
    EmptyDirectory,
    /// Announce each of these files, in the order of the listing.
    Provide(Vec<ProvidedFile>),
}

/// Whether `v` offers the files named in `file_names`, one each, in order,
/// under their offered names and the keys made of those names.
pub open spec fn offers(file_names: Seq<String>, v: Seq<ProvidedFile>) -> bool {
    &&& v.len() == file_names.len()
    &&& forall|i: int|
        0 <= i < v.len() ==> {
            &&& (#[trigger] v[i]).name@ == offered_name(file_names[i]@)
            &&& v[i].key@ == encode_utf8(v[i].name@)
        }
}

/// Decides what to offer, given whether the music directory exists and the
/// names of the files in it.
pub fn providing_files(dir_exists: bool, file_names: &Vec<String>) -> (r: ProvidePlan)
    ensures
        !dir_exists ==> r == ProvidePlan::CreateDirectory,
        dir_exists && file_names@.len() == 0 ==> r == ProvidePlan::EmptyDirectory,
        dir_exists && file_names@.len() > 0 ==> match r {
            ProvidePlan::Provide(v) => offers(file_names@, v@),
            _ => false,
        },
{
    if !dir_exists {
        return ProvidePlan::CreateDirectory;
    }
    let n = file_names.len();
    if n == 0 {
        return ProvidePlan::EmptyDirectory;
    }
    let mut out: Vec<ProvidedFile> = Vec::new();
    let mut i: usize = 0;
    while i < n
        invariant
            n == file_names@.len(),
            i <= n,
            out@.len() == i,
            forall|k: int|
                0 <= k < i ==> {
                    &&& (#[trigger] out@[k]).name@ == offered_name(file_names@[k]@)
                    &&& out@[k].key@ == encode_utf8(out@[k].name@)
                },
        decreases n - i,
    {
        let name = file_stem(file_names[i].as_str());
        let key = request_search(name.as_str());
        out.push(ProvidedFile { name, key });
        i += 1;
    }
    ProvidePlan::Provide(out)
}

/// Law: the file that a peer serves for a request `name` without dots is
/// one that it offers under `name`, from its music directory; so a search
/// for `name` finds the peers that can serve it.
pub proof fn lemma_served_file_is_offered(name: Seq<char>)
    requires
        !name.contains('.'),
    ensures
        offered_name(served_name(name)) == name,
        MUSIC_PATH@ == MUSIC_DIR@ + seq!['/'],
{
    reveal_strlit(".mp3");
    reveal_strlit("./assets/music/");
    reveal_strlit("./assets/music");
    let e = FILE_EXTENSION@;
    assert(e.len() == 4 && e[0] == '.');
    let s = name + e;
    assert(s[name.len() as int] == '.');
    s.index_of_first_ensures('.');
    let k = s.index_of_first('.')->0;
    if k < name.len() {
        assert(name[k] == s[k]);
    }
    assert(s.take(name.len() as int) =~= name);
    assert(MUSIC_PATH@ =~= MUSIC_DIR@ + seq!['/']);
}

/// Law: the offered name is exactly the text before the first dot: a stem
/// without dots followed by a dot and anything is offered as the stem, and
/// a name without dots is offered whole.
pub proof fn lemma_offered_name(stem: Seq<char>, rest: Seq<char>, whole: Seq<char>)
    requires
        !stem.contains('.'),
        !whole.contains('.'),
    ensures
        offered_name(stem + seq!['.'] + rest) == stem,
        offered_name(whole) == whole,
{
    let s = stem + seq!['.'] + rest;
    assert(s[stem.len() as int] == '.');
    s.index_of_first_ensures('.');
    let k = s.index_of_first('.')->0;
    if k < stem.len() {
        assert(stem[k] == s[k]);
    }
    assert(s.take(stem.len() as int) =~= stem);
    whole.index_of_first_ensures('.');
}

} // verus!
