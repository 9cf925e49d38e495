use videoinfo::handler::{
    batch_response, flatten_results, gen_imgbase64_by_path, mime_type, thumbnails_response,
};

#[test]
fn mime_by_extension() {
    assert_eq!(mime_type("/out/a/png/0001.png"), "image/png");
    assert_eq!(mime_type("x/B.PNG"), "image/png");
    assert_eq!(mime_type("x/b.jpg"), "image/jpeg");
    assert_eq!(mime_type("x/b.JpEg"), "image/jpeg");
    assert_eq!(mime_type("/out/a/gif/0.gif"), "image/gif");
    assert_eq!(mime_type("b.webp"), "image/webp");
    assert_eq!(mime_type("b.svg"), "image/svg+xml");
}

#[test]
fn unknown_or_missing_extension_is_binary() {
    assert_eq!(mime_type("b.txt"), "application/octet-stream");
    assert_eq!(mime_type("dir/noext"), "application/octet-stream");
    assert_eq!(mime_type("dir/.png"), "application/octet-stream");
    assert_eq!(mime_type("dir/"), "application/octet-stream");
    assert_eq!(mime_type("dir/.."), "application/octet-stream");
    assert_eq!(mime_type("a.png/b"), "application/octet-stream");
}

#[test]
fn data_uri_of_file() {
    let bytes = b"abc".to_vec();
    assert_eq!(gen_imgbase64_by_path("/out/m/gif/0.gif", &bytes), "data:image/gif;base64,YWJj");
    let bytes = b"hello".to_vec();
    assert_eq!(gen_imgbase64_by_path("note.bin", &bytes), "data:application/octet-stream;base64,aGVsbG8=");
    assert_eq!(gen_imgbase64_by_path("e.png", &Vec::new()), "data:image/png;base64,");
    assert_eq!(gen_imgbase64_by_path("p.gif", &b"GIF".to_vec()), "data:image/gif;base64,R0lG");
    assert_eq!(gen_imgbase64_by_path("q.png", &vec![0xfb, 0xff]), "data:image/png;base64,+/8=");
}

#[test]
fn flatten_keeps_file_order() {
    let lists = vec![
        vec!["a1".to_string(), "a2".to_string()],
        vec![],
        vec!["c1".to_string()],
    ];
    assert_eq!(flatten_results(&lists), vec!["a1", "a2", "c1"]);
    assert!(flatten_results(&Vec::new()).is_empty());
}

#[test]
fn batch_of_three_files_reports_all_previews() {
    let lists = vec![
        vec!["data:image/gif;base64,AA==".to_string()],
        vec!["data:image/gif;base64,AQ==".to_string()],
        vec!["data:image/gif;base64,Ag==".to_string(), "data:image/gif;base64,Aw==".to_string()],
    ];
    let r = thumbnails_response(&lists);
    assert_eq!(r.code, 0);
    assert_eq!(r.msg, None);
    let data = r.data.unwrap();
    assert_eq!(data.len(), 4);
    assert_eq!(data[3], "data:image/gif;base64,Aw==");
}

#[test]
fn mime_after_trailing_separator_and_backslash() {
    assert_eq!(mime_type("out\\m\\gif\\0.GIF"), "image/gif");
    assert_eq!(mime_type("out/0.png/"), "image/png");
}

#[test]
fn batch_of_successes_is_joined() {
    let results: Vec<Result<Vec<String>, String>> =
        vec![Ok(vec!["a".to_string()]), Ok(vec![]), Ok(vec!["b".to_string(), "c".to_string()])];
    let r = batch_response(&results);
    assert_eq!(r.code, 0);
    assert_eq!(r.msg, None);
    assert_eq!(r.data, Some(vec!["a".to_string(), "b".to_string(), "c".to_string()]));
}

#[test]
fn one_failure_fails_the_batch() {
    let results: Vec<Result<Vec<String>, String>> = vec![
        Ok(vec!["a".to_string()]),
        Err("probe failed".to_string()),
        Err("later".to_string()),
    ];
    let r = batch_response(&results);
    assert_eq!(r.code, -1);
    assert_eq!(r.data, None);
    assert_eq!(r.msg, Some("probe failed".to_string()));
}
