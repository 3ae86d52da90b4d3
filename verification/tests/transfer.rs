use sidewire::client::ExecResult;
use sidewire::device_id::{DeviceId, HexError};
use sidewire::messages::SecurityMode;
use sidewire::registry::ConnectionMode;
use sidewire::settings::{resolve_config, DaemonOptions};
use sidewire::transfer::{
    check_made, found_paths, local_relative, one_file, push_entry, push_row, push_source,
    remote_join, transfer_jobs, whole_tree, EntryAction, EntryKind, PathPart, Totals,
};

fn names(parts: &[&str]) -> Vec<PathPart> {
    parts.iter().map(|p| PathPart::Name(p.to_string())).collect()
}

#[test]
fn trees_come_back() {
    for base in ["/", "/sdcard", "/sdcard///", "", "relative/x"] {
        let parts = ["a", "b c", "...", "d\\e"];
        let path = remote_join(base, &names(&parts), "shown").unwrap();
        assert_eq!(local_relative(base, &path, false).unwrap(), parts);
    }
    let parts = ["a", "b c", "...", "1:d"];
    let path = remote_join("/sdcard/", &names(&parts), "shown").unwrap();
    assert_eq!(local_relative("/sdcard/", &path, true).unwrap(), parts);
    assert_eq!(remote_join("/", &[], "s").unwrap(), "/");
    assert_eq!(remote_join("/a/", &[], "s").unwrap(), "/a");
    assert_eq!(
        remote_join("/a/", &[PathPart::Current, PathPart::Name("x".to_string())], "s").unwrap(),
        "/a/x"
    );
    assert_eq!(
        remote_join("/a", &[PathPart::Other], "../x").unwrap_err(),
        "unsupported local path component in ../x"
    );
}

#[test]
fn remote_paths_stay_inside() {
    assert_eq!(
        local_relative("/a", "/b/c", false).unwrap_err(),
        "'/b/c' is outside '/a'"
    );
    assert_eq!(
        local_relative("/a", "/a/../x", false).unwrap_err(),
        "unsafe remote path '/a/../x'"
    );
    assert_eq!(local_relative("/a/", "/a//./x/", false).unwrap(), vec!["x"]);
    assert_eq!(local_relative("/", "/x", false).unwrap(), vec!["x"]);
    assert!(local_relative("/a", "/a", false).unwrap().is_empty());
    for bad in ["/a/C:", "/a/x\\y", "/a/\\y", "/a/..\\y", "/a/..", "/a/c:x"] {
        assert!(local_relative("/a", bad, true).is_err(), "{bad}");
    }
    assert_eq!(local_relative("/a", "/a/x\\", true).unwrap(), vec!["x"]);
    assert_eq!(local_relative("/a", "/a/x\\.", true).unwrap(), vec!["x"]);
    assert_eq!(local_relative("/a", "/a/x:y/C", true).is_err(), true);
    assert_eq!(local_relative("/a", "/a/1:y", true).unwrap(), vec!["1:y"]);
}

fn ran(stdout: &str, stderr: &str, code: Option<i32>) -> ExecResult {
    ExecResult { stdout: stdout.to_string(), stderr: stderr.to_string(), code }
}

#[test]
fn searches_are_read() {
    assert_eq!(
        found_paths("/r", &ran("/r\0/r/a b\0", "", Some(0))).unwrap(),
        vec!["/r", "/r/a b"]
    );
    assert_eq!(
        found_paths("/r", &ran("", " denied\n", Some(1))).unwrap_err(),
        "find /r: denied"
    );
    assert!(check_made("/r", &ran("", "", Some(0))).is_ok());
    assert_eq!(
        check_made("/r", &ran("", "no\n", None)).unwrap_err(),
        "mkdir /r: no"
    );
}

#[test]
fn transfers_are_counted() {
    assert_eq!(transfer_jobs(0), 1);
    assert_eq!(transfer_jobs(4), 4);
    assert_eq!(transfer_jobs(99), 16);
    let mut totals = Totals::new();
    totals.add_file(10).unwrap();
    totals.add_file(5).unwrap();
    assert_eq!(
        whole_tree("pushed", totals, 3),
        "pushed 2 files in 3 directories (15 bytes)"
    );
    assert_eq!(
        totals.add_file(u64::MAX).unwrap_err(),
        "transfer byte count overflow"
    );
    assert_eq!(totals.files, 3);
    assert_eq!(one_file("pulled", 9), "pulled 1 file (9 bytes)");
    assert_eq!(push_row("n", "01234567", "said"), "[n:01234567] said");
    assert_eq!(push_entry(EntryKind::File, "p").unwrap(), EntryAction::Send);
    assert_eq!(push_entry(EntryKind::Directory, "p").unwrap(), EntryAction::Walk);
    assert_eq!(push_entry(EntryKind::Other, "p").unwrap(), EntryAction::Nothing);
    assert_eq!(
        push_entry(EntryKind::Symlink, "p").unwrap_err(),
        "recursive push does not follow symlink p"
    );
    assert!(push_source(EntryKind::Directory, "p").unwrap());
    assert!(!push_source(EntryKind::File, "p").unwrap());
    assert_eq!(
        push_source(EntryKind::Other, "p").unwrap_err(),
        "local path is not a regular file or directory: p"
    );
}

fn options(mode: ConnectionMode) -> DaemonOptions {
    DaemonOptions {
        mode,
        listen: "0.0.0.0:1".to_string(),
        server: "h:2".to_string(),
        name: "cli".to_string(),
        device_id: None,
        insecure: false,
    }
}

#[test]
fn daemon_settings_come_from_the_file() {
    let spare = DeviceId([9; 16]);
    let file = "# comment\n\nmode = \"OUTBOUND\"\nhost=10.0.0.7\nport=99\nname=\"A 32\"\n\
        device_id=000102030405060708090a0b0c0d0e0f\nsecurity=insecure\npairing_file=/p\n\
        pairs_dir=\npairing_port=x\nclipboard_helper=/h\nunknown=1\nno equals\n";
    let c = resolve_config(&options(ConnectionMode::Inbound), Some(file), spare).unwrap();
    assert_eq!(c.mode, ConnectionMode::Outbound);
    assert_eq!(c.endpoint, "10.0.0.7:99");
    assert_eq!(c.name, "A 32");
    assert_eq!(c.device_id.short(), "00010203");
    assert_eq!(c.security, SecurityMode::Insecure);
    assert_eq!(c.pairing_file.as_deref(), Some("/p"));
    assert_eq!(c.pairs_dir, None);
    assert_eq!(c.pairing_port, 58323);
    assert_eq!(c.clipboard_helper.as_deref(), Some("/h"));
}

#[test]
fn daemon_settings_without_a_file() {
    let spare = DeviceId([9; 16]);
    let c = resolve_config(&options(ConnectionMode::Inbound), None, spare).unwrap();
    assert_eq!(c.endpoint, "0.0.0.0:1");
    assert!(c.device_id == spare);
    assert_eq!(c.security, SecurityMode::Secure);
    let c = resolve_config(&options(ConnectionMode::Outbound), None, spare).unwrap();
    assert_eq!(c.endpoint, "h:2");
    let c = resolve_config(&options(ConnectionMode::Outbound), Some("port=70000"), spare).unwrap();
    assert_eq!(c.endpoint, "127.0.0.1:58321");
    let c = resolve_config(&options(ConnectionMode::Outbound), Some("mode=inbound\nport=7"), spare)
        .unwrap();
    assert_eq!(c.endpoint, "0.0.0.0:7");
    let mut bad = options(ConnectionMode::Inbound);
    bad.device_id = Some("zz".to_string());
    assert_eq!(
        resolve_config(&bad, None, spare).unwrap_err(),
        HexError::DeviceId
    );
    assert!(resolve_config(&options(ConnectionMode::Inbound), Some("device_id=1"), spare).is_err());
}
