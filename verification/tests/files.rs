use bytes::Bytes;
use livetty::files::{
    download, fs_op, list_dir, mtime_ms, read_file, require_abs, upload, urlencode, write_file, Action,
    DirEntry, FsOp, Job, Meta, Outcome, PathQ, WriteReq, DOWNLOAD_MAX, HEAD, READ_MAX, UPLOAD_MAX,
};
use livetty::order::{is_before, sort, Key};
use livetty::paths::{dir, file_name, is_absolute, temp_path};
use livetty::reply::{Body, Reply};

fn q(path: &str) -> PathQ {
    PathQ { path: path.to_string() }
}

fn file(len: u64, modified: u128) -> Meta {
    Meta { is_file: true, is_dir: false, len, modified: Some(modified) }
}

fn failed(e: &str) -> Outcome {
    Outcome::Unit(Err(e.to_string()))
}

fn show(a: &Action) -> String {
    match a {
        Action::Answer(r) => format!("{} {}", r.status, body(r)),
        Action::ReadDir(p) => format!("readdir {p}"),
        Action::Stat(p) => format!("stat {p}"),
        Action::Read(p) => format!("read {p}"),
        Action::ReadText(p) => format!("text {p}"),
        Action::Exists(p) => format!("exists {p}"),
        Action::IsDir(p) => format!("isdir {p}"),
        Action::CreateDirs(p) => format!("mkdirs {p}"),
        Action::Write { path, content } => {
            format!("write {path} {}", String::from_utf8_lossy(content))
        }
        Action::Rename { from, to } => format!("rename {from} {to}"),
        Action::RemoveFile(p) => format!("rm {p}"),
        Action::RemoveDir(p) => format!("rmdir {p}"),
    }
}

fn body(r: &Reply) -> String {
    match &r.body {
        Body::Json(v) => v.to_string(),
        Body::Text(s) => s.clone(),
        Body::Bytes(b) => String::from_utf8_lossy(b).into_owned(),
    }
}

fn play(start: (Job, Action), outcomes: Vec<Outcome>) -> Vec<String> {
    let (mut job, action) = start;
    let mut seen = vec![show(&action)];
    for o in outcomes {
        let (next, action) = job.step(o);
        job = next;
        seen.push(show(&action));
    }
    assert!(matches!(job, Job::Finished));
    seen
}

#[test]
fn only_absolute_paths() {
    assert_eq!(require_abs("/a").ok(), Some("/a".to_string()));
    for p in ["", "a", "./a", "~"] {
        let e = require_abs(p).err().unwrap();
        assert_eq!((e.status, body(&e).as_str()), (400, "{\"error\":\"path must be absolute\"}"));
        let refused = vec!["400 {\"error\":\"path must be absolute\"}".to_string()];
        assert_eq!(play(list_dir(&q(p)), vec![]), refused);
        assert_eq!(play(read_file(&q(p)), vec![]), refused);
        assert_eq!(play(download(&q(p)), vec![]), refused);
        assert_eq!(play(upload(&q(p), Bytes::new(), 1), vec![]), refused);
        let w = WriteReq { path: p.to_string(), content: String::new(), expect_mtime_ms: None };
        assert_eq!(play(write_file(&w, 1), vec![]), refused);
        for op in [
            FsOp::Mkdir { path: p.to_string() },
            FsOp::Rename { path: p.to_string(), to: "/x".to_string() },
            FsOp::Rename { path: "/x".to_string(), to: p.to_string() },
            FsOp::Delete { path: p.to_string() },
            FsOp::Touch { path: p.to_string() },
        ] {
            assert_eq!(play(fs_op(&op), vec![]), refused);
        }
    }
}

#[test]
fn paths_like_std() {
    for p in [
        "/", "//", "/a", "/a/", "/a/b", "/a/b/", "/a//b", "/a/./b", "/a/b/.", "/a/b/./", "/a/..",
        "/a/../b", "/./a", "/.", "/..", "/a/.hidden", "//a", "/a///", "/é/ü", "/a b/c d", "/a/...",
    ] {
        let path = std::path::Path::new(p);
        assert_eq!(is_absolute(p), path.is_absolute());
        let name: Option<String> = file_name(p).map(|n| n.iter().collect());
        assert_eq!(name.as_deref(), path.file_name().map(|n| n.to_str().unwrap()), "{p}");
        let parent = path.parent().unwrap_or(std::path::Path::new("/"));
        assert_eq!(dir(p), parent.to_str().unwrap(), "{p}");
        let tmp = parent.join(format!(".{}.mark-{}", name.unwrap_or_default(), 42));
        assert_eq!(temp_path(p, ".mark-", 42), tmp.to_str().unwrap(), "{p}");
    }
    assert!(!is_absolute("a/b"));
}

#[test]
fn prepared_beside_the_file() {
    for p in ["/a/b", "/b", "/a//b/", "/a/./b"] {
        let t = temp_path(p, ".remote-tmp-", 7);
        assert_eq!(dir(&t), dir(p));
        assert_ne!(t, p);
    }
    assert_eq!(temp_path("/etc/hosts", ".remote-tmp-", 12), "/etc/.hosts.remote-tmp-12");
}

#[test]
fn times() {
    assert_eq!(mtime_ms(None), 0);
    assert_eq!(mtime_ms(Some(1234)), 1234);
    assert_eq!(mtime_ms(Some(u64::MAX as u128)), u64::MAX);
    assert_eq!(mtime_ms(Some(u64::MAX as u128 + 6)), 5);
}

#[test]
fn order_of_entries() {
    assert!(is_before("a", "b"));
    assert!(is_before("a", "ab"));
    assert!(is_before("Z", "a"));
    assert!(is_before("z", "é"));
    assert!(is_before("\u{ffff}", "\u{10000}"));
    assert!(!is_before("a", "a"));
    assert!(!is_before("ab", "a"));
    let names = ["b", "a", "c", "a", "Z", "é", "b"];
    let dirs = [false, true, false, false, true, true, false];
    let keys: Vec<Key> =
        names.iter().zip(dirs).map(|(n, d)| Key { is_dir: d, name: n.to_string() }).collect();
    let mut expected: Vec<usize> = (0..7).collect();
    expected.sort_by(|i, j| dirs[*j].cmp(&dirs[*i]).then_with(|| names[*i].cmp(names[*j])));
    assert_eq!(sort(&keys), expected);
    assert_eq!(sort(&keys), vec![4, 1, 5, 3, 0, 6, 2]);
    assert!(sort(&vec![]).is_empty());
}

#[test]
fn listing_a_directory() {
    let dir = Meta { is_file: false, is_dir: true, len: 4096, modified: None };
    let entries = vec![
        DirEntry { name: "b.txt".to_string(), meta: Some(file(3, 99)) },
        DirEntry { name: "lost".to_string(), meta: None },
        DirEntry { name: "sub".to_string(), meta: Some(dir) },
    ];
    assert_eq!(
        play(list_dir(&q("/d")), vec![Outcome::Entries(Ok(entries))]),
        vec![
            "readdir /d".to_string(),
            "200 {\"entries\":[\
             {\"is_dir\":true,\"mtime_ms\":0,\"name\":\"sub\",\"size\":4096},\
             {\"is_dir\":false,\"mtime_ms\":99,\"name\":\"b.txt\",\"size\":3},\
             {\"is_dir\":false,\"mtime_ms\":0,\"name\":\"lost\",\"size\":0}],\"path\":\"/d\"}"
                .to_string(),
        ]
    );
    assert_eq!(
        play(list_dir(&q("/d")), vec![Outcome::Entries(Err("gone".to_string()))])[1],
        "404 {\"error\":\"gone\"}"
    );
}

#[test]
fn opening_a_file() {
    let look = |m: Meta| play(read_file(&q("/f")), vec![Outcome::Meta(Ok(m))]);
    let open = |data: &[u8]| {
        play(
            read_file(&q("/f")),
            vec![Outcome::Meta(Ok(file(READ_MAX, 5))), Outcome::Data(Ok(data.to_vec()))],
        )
    };
    assert_eq!(
        open("hé".as_bytes()),
        vec!["stat /f", "read /f", "200 {\"content\":\"hé\",\"mtime_ms\":5}"]
    );
    assert_eq!(open(b"")[2], "200 {\"content\":\"\",\"mtime_ms\":5}");
    assert_eq!(open(b"a\0b")[2], "415 {\"error\":\"binary file, cannot edit\"}");
    assert_eq!(open(b"a\xffb")[2], "415 {\"error\":\"not valid UTF-8\"}");
    let mut late = vec![b'a'; HEAD];
    late.push(0);
    assert!(open(&late)[2].starts_with("200"));
    late[HEAD - 1] = 0;
    assert!(open(&late)[2].starts_with("415"));
    assert_eq!(
        look(Meta { is_file: false, is_dir: true, len: 0, modified: None })[1],
        "400 {\"error\":\"not a regular file\"}"
    );
    assert_eq!(
        look(file(READ_MAX + 1, 0))[1],
        "413 {\"error\":\"file too large (2097153 bytes > 2097152), open it in the terminal instead\"}"
    );
    assert_eq!(
        play(read_file(&q("/f")), vec![Outcome::Meta(Err("no".to_string()))])[1],
        "404 {\"error\":\"no\"}"
    );
    assert_eq!(
        play(
            read_file(&q("/f")),
            vec![Outcome::Meta(Ok(file(1, 0))), Outcome::Data(Err("io".to_string()))]
        )[2],
        "500 {\"error\":\"io\"}"
    );
}

fn write(expect: Option<u64>) -> (Job, Action) {
    let w = WriteReq {
        path: "/d/f".to_string(),
        content: "new".to_string(),
        expect_mtime_ms: expect,
    };
    write_file(&w, 77)
}

#[test]
fn writing_a_file() {
    let done = vec![
        "stat /d/f",
        "write /d/.f.remote-tmp-77 new",
        "rename /d/.f.remote-tmp-77 /d/f",
        "stat /d/f",
        "200 {\"mtime_ms\":6,\"ok\":true}",
    ];
    for (expect, meta) in [
        (None, Ok(file(1, 5))),
        (Some(5), Ok(file(1, 5))),
        (Some(5), Err("missing".to_string())),
        (None, Err("missing".to_string())),
    ] {
        let outcomes = vec![
            Outcome::Meta(meta),
            Outcome::Unit(Ok(())),
            Outcome::Unit(Ok(())),
            Outcome::Meta(Ok(file(3, 6))),
        ];
        assert_eq!(play(write(expect), outcomes), done);
    }
}

#[test]
fn writing_over_a_foreign_change() {
    for (disk, shown) in [(Some("theirs".to_string()), "\"theirs\""), (None, "null")] {
        assert_eq!(
            play(write(Some(4)), vec![Outcome::Meta(Ok(file(1, 5))), Outcome::Text(disk)]),
            vec![
                "stat /d/f".to_string(),
                "text /d/f".to_string(),
                format!(
                    "409 {{\"disk_content\":{shown},\"error\":\"file was modified externally\",\"mtime_ms\":5}}"
                ),
            ]
        );
    }
}

#[test]
fn failing_writes() {
    assert_eq!(
        play(write(None), vec![Outcome::Meta(Ok(file(1, 5))), failed("full")])[2],
        "500 {\"error\":\"temp file write failed: full\"}"
    );
    for cleared in [Outcome::Unit(Ok(())), failed("stuck")] {
        let outcomes =
            vec![Outcome::Meta(Ok(file(1, 5))), Outcome::Unit(Ok(())), failed("busy"), cleared];
        assert_eq!(
            play(write(None), outcomes)[3..],
            ["rm /d/.f.remote-tmp-77", "500 {\"error\":\"rename failed: busy\"}"]
        );
    }
    let outcomes = vec![
        Outcome::Meta(Ok(file(1, 5))),
        Outcome::Unit(Ok(())),
        Outcome::Unit(Ok(())),
        Outcome::Meta(Err("gone".to_string())),
    ];
    assert_eq!(play(write(None), outcomes)[4], "200 {\"mtime_ms\":0,\"ok\":true}");
}

#[test]
fn downloading() {
    let (job, action) = download(&q("/d/a\"b\\é.txt"));
    assert_eq!(show(&action), "stat /d/a\"b\\é.txt");
    let (job, action) = job.step(Outcome::Meta(Ok(file(DOWNLOAD_MAX, 0))));
    assert_eq!(show(&action), "read /d/a\"b\\é.txt");
    let (job, action) = job.step(Outcome::Data(Ok(b"\0\xff".to_vec())));
    assert!(matches!(job, Job::Finished));
    match action {
        Action::Answer(r) => {
            assert_eq!(r.status, 200);
            assert_eq!(
                r.headers,
                vec![
                    ("content-type".to_string(), "application/octet-stream".to_string()),
                    (
                        "content-disposition".to_string(),
                        "attachment; filename=\"a\\\"b\\\\é.txt\"; filename*=UTF-8''a%22b%5C%C3%A9.txt"
                            .to_string()
                    ),
                ]
            );
            assert!(matches!(r.body, Body::Bytes(b) if b == b"\0\xff"));
        }
        _ => panic!("no answer"),
    }
    let root = play(
        download(&q("/..")),
        vec![Outcome::Meta(Ok(file(1, 0))), Outcome::Data(Ok(vec![]))],
    );
    assert_eq!(root[2], "200 ");
    assert_eq!(
        play(download(&q("/f")), vec![Outcome::Meta(Ok(file(DOWNLOAD_MAX + 1, 0)))])[1],
        "413 {\"error\":\"file too large (524288001 bytes > 524288000)\"}"
    );
    let dir = Meta { is_file: false, is_dir: true, len: 0, modified: None };
    assert_eq!(
        play(download(&q("/f")), vec![Outcome::Meta(Ok(dir))])[1],
        "400 {\"error\":\"not a regular file\"}"
    );
    assert_eq!(
        play(download(&q("/f")), vec![Outcome::Meta(Err("x".to_string()))])[1],
        "404 {\"error\":\"x\"}"
    );
    assert_eq!(
        play(
            download(&q("/f")),
            vec![Outcome::Meta(Ok(file(1, 0))), Outcome::Data(Err("x".to_string()))]
        )[2],
        "500 {\"error\":\"x\"}"
    );
}

#[test]
fn percent_encoding() {
    assert_eq!(urlencode("AZaz09-._~"), "AZaz09-._~");
    assert_eq!(urlencode("a b/c%"), "a%20b%2Fc%25");
    assert_eq!(urlencode("é😀"), "%C3%A9%F0%9F%98%80");
    assert_eq!(urlencode(""), "");
}

fn put() -> (Job, Action) {
    upload(&q("/d/f"), Bytes::from_static(b"data"), 8)
}

#[test]
fn uploading() {
    let outcomes = vec![
        Outcome::Truth(false),
        Outcome::Truth(true),
        Outcome::Unit(Ok(())),
        Outcome::Unit(Ok(())),
        Outcome::Meta(Ok(file(4, 9))),
    ];
    assert_eq!(
        play(put(), outcomes),
        vec![
            "exists /d/f",
            "exists /d",
            "write /d/.f.remote-upload-8 data",
            "rename /d/.f.remote-upload-8 /d/f",
            "stat /d/f",
            "200 {\"mtime_ms\":9,\"ok\":true,\"size\":4}",
        ]
    );
    assert_eq!(UPLOAD_MAX, 500 * 1024 * 1024);
}

#[test]
fn failing_uploads() {
    assert_eq!(
        play(put(), vec![Outcome::Truth(true)])[1],
        "409 {\"error\":\"file already exists: /d/f\"}"
    );
    assert_eq!(
        play(put(), vec![Outcome::Truth(false), Outcome::Truth(false)])[2],
        "404 {\"error\":\"target directory does not exist: /d\"}"
    );
    assert_eq!(
        play(put(), vec![Outcome::Truth(false), Outcome::Truth(true), failed("full")])[3],
        "500 {\"error\":\"write failed: full\"}"
    );
    let outcomes = vec![
        Outcome::Truth(false),
        Outcome::Truth(true),
        Outcome::Unit(Ok(())),
        failed("busy"),
        Outcome::Unit(Ok(())),
    ];
    assert_eq!(
        play(put(), outcomes)[4..],
        ["rm /d/.f.remote-upload-8", "500 {\"error\":\"rename failed: busy\"}"]
    );
}

#[test]
fn changing_the_tree() {
    let at = || "/p".to_string();
    let ok = "200 {\"ok\":true}";
    assert_eq!(
        play(fs_op(&FsOp::Mkdir { path: at() }), vec![Outcome::Unit(Ok(()))]),
        vec!["mkdirs /p", ok]
    );
    assert_eq!(
        play(fs_op(&FsOp::Mkdir { path: at() }), vec![failed("no")])[1],
        "500 {\"error\":\"no\"}"
    );
    assert_eq!(
        play(
            fs_op(&FsOp::Rename { path: at(), to: "/q".to_string() }),
            vec![Outcome::Unit(Ok(()))]
        ),
        vec!["rename /p /q", ok]
    );
    assert_eq!(
        play(
            fs_op(&FsOp::Delete { path: at() }),
            vec![Outcome::Truth(true), Outcome::Unit(Ok(()))]
        ),
        vec!["isdir /p", "rmdir /p", ok]
    );
    assert_eq!(
        play(
            fs_op(&FsOp::Delete { path: at() }),
            vec![Outcome::Truth(false), Outcome::Unit(Ok(()))]
        ),
        vec!["isdir /p", "rm /p", ok]
    );
    assert_eq!(
        play(
            fs_op(&FsOp::Touch { path: at() }),
            vec![Outcome::Truth(false), Outcome::Unit(Ok(()))]
        ),
        vec!["exists /p", "write /p ", ok]
    );
    assert_eq!(
        play(fs_op(&FsOp::Touch { path: at() }), vec![Outcome::Truth(true)])[1],
        "500 {\"error\":\"file already exists\"}"
    );
}
