use std::io::Write;

use switch_index::listing::{file_out, format_count, index_out, index_reply};
use switch_index::switch::{SwitchFile, SwitchService};

#[test]
fn format_count_writes_decimal() {
    assert_eq!(format_count(0).as_str(), "0");
    assert_eq!(format_count(7).as_str(), "7");
    assert_eq!(format_count(10).as_str(), "10");
    assert_eq!(format_count(12345).as_str(), "12345");
}

#[test]
fn file_out_encodes_the_url() {
    let f = SwitchFile {
        name: "a.txt".to_string(),
        rel_path: "a.txt".to_string(),
        size: 5,
    };
    let out = file_out(&f);
    assert_eq!(out.size, 5);
    assert_eq!(out.name.as_str(), "a.txt");
    assert_eq!(out.url.as_str(), "/file?path=a%2Etxt#a%2Etxt");
}

#[test]
fn file_url_decodes_back_to_the_entry() {
    let f = SwitchFile {
        name: "b.txt".to_string(),
        rel_path: "games/b.txt".to_string(),
        size: 2,
    };
    let out = file_out(&f);
    let url = out.url.as_str();
    let query = url.strip_prefix("/file?path=").expect("prefix");
    let encoded_path = query.split('#').next().expect("path part");
    let decoded = percent_encoding::percent_decode_str(encoded_path)
        .decode_utf8()
        .expect("utf8");
    assert_eq!(decoded, "games/b.txt");
}

#[test]
fn index_out_reports_every_file_and_the_count() {
    let files = vec![
        SwitchFile {
            name: "a.txt".to_string(),
            rel_path: "a.txt".to_string(),
            size: 5,
        },
        SwitchFile {
            name: "b.txt".to_string(),
            rel_path: "games/b.txt".to_string(),
            size: 2,
        },
    ];
    let reply = index_out(&files);
    assert_eq!(reply.files.len(), 2);
    assert_eq!(reply.files[1].url.as_str(), "/file?path=games%2Fb%2Etxt#b%2Etxt");
    assert!(reply.directories.is_empty());
    assert_eq!(reply.success.as_deref(), Some("Welcome. Now serving 2 files"));
    assert!(reply.referrer.is_none());
}

#[test]
fn listing_a_scanned_root_serves_its_one_file() {
    let root = tempfile::tempdir().expect("root");
    let mut f = tempfile::Builder::new()
        .prefix("a.txt")
        .rand_bytes(0)
        .disable_cleanup(true)
        .tempfile_in(root.path())
        .expect("create file");
    f.write_all(b"hello").expect("write");
    f.flush().expect("flush");

    let service = SwitchService::new(root.path().to_str().unwrap()).expect("index");
    let reply = index_reply(&service);
    assert_eq!(reply.files.len(), 1);
    assert_eq!(reply.success.as_deref(), Some("Welcome. Now serving 1 files"));

    let url = reply.files[0].url.as_str();
    let query = url.strip_prefix("/file?path=").expect("prefix");
    let encoded_path = query.split('#').next().expect("path part");
    let decoded = percent_encoding::percent_decode_str(encoded_path)
        .decode_utf8()
        .expect("utf8");
    assert_eq!(decoded, "a.txt");
    assert!(service.resolve_file(&decoded).is_some());
}
