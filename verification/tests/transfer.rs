use musify::provide::{file_stem, MUSIC_DIR};
use musify::codec::{FileRequest, FileResponse};
use musify::transfer::{
    response_download, response_file_name, response_file_path, save_file, ReceivedFile,
};

#[test]
fn served_name_and_path() {
    let req = FileRequest("song".to_string());
    assert_eq!(response_file_name(&req), "song.mp3");
    assert_eq!(response_file_path(&req), "./assets/music/song.mp3");
}

#[test]
fn response_frame_layout() {
    let req = FileRequest("song".to_string());
    let resp = response_download(&req, &[10, 20, 30]);
    let mut expected = vec![8u8];
    expected.extend_from_slice(b"song.mp3");
    expected.extend_from_slice(&[10, 20, 30]);
    assert_eq!(resp, FileResponse(expected));
}

#[test]
fn received_file_is_stored_where_it_was_served() {
    let req = FileRequest("song".to_string());
    let resp = response_download(&req, &[10, 20, 30]);
    let got = save_file(&resp).unwrap();
    assert_eq!(
        got,
        ReceivedFile {
            name: "song.mp3".to_string(),
            path: response_file_path(&req),
            contents: vec![10, 20, 30],
        }
    );
}

#[test]
fn empty_file_is_transferred() {
    let req = FileRequest("x".to_string());
    let got = save_file(&response_download(&req, &[])).unwrap();
    assert_eq!(got.name, "x.mp3");
    assert_eq!(got.contents, Vec::<u8>::new());
}

#[test]
fn malformed_responses() {
    assert_eq!(save_file(&FileResponse(vec![])), None);
    assert_eq!(save_file(&FileResponse(vec![5, b'a', b'b'])), None);
    assert_eq!(save_file(&FileResponse(vec![1, 0xFF, 9])), None);
}

#[test]
fn zero_length_name() {
    let got = save_file(&FileResponse(vec![0, 1, 2])).unwrap();
    assert_eq!(got.name, "");
    assert_eq!(got.path, "./assets/music/");
    assert_eq!(got.contents, vec![1, 2]);
}

#[test]
fn name_of_256_bytes_wraps_its_length() {
    // The length byte keeps the name length modulo 256.
    let name = "a".repeat(252);
    let req = FileRequest(name);
    let resp = response_download(&req, &[1, 2, 3]);
    assert_eq!(resp.0[0], 0);
    let got = save_file(&resp).unwrap();
    assert_eq!(got.name, "");
    assert_eq!(got.contents.len(), 256 + 3);
}

#[test]
fn served_file_is_among_offered() {
    let req = FileRequest("song".to_string());
    let served = response_file_name(&req);
    assert_eq!(file_stem(&served), "song");
    assert_eq!(response_file_path(&req), format!("{}/{}", MUSIC_DIR, served));
}
