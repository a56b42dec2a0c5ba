use remote_backup::archive::archive_entry_name;
use remote_backup::cipher::{decrypt_data, encrypt_data};
use remote_backup::pipeline::{BackupRun, Stage};
use remote_backup::retention::{evict_if_over_limit, BackupObject};

fn p(s: &str) -> Vec<String> {
    s.split('/').filter(|c| !c.is_empty()).map(|c| c.to_string()).collect()
}

#[test]
fn one_backup_cycle() {
    // the source tree, with file contents
    let root = p("/src");
    let tree: Vec<(&str, &[u8])> =
        vec![("/src/a.txt", b"hi"), ("/src/.secret", b"x"), ("/src/sub/b.txt", b"yo")];
    let mut remote = vec![
        BackupObject { name: "backup-1".to_string(), mtime: 100 },
        BackupObject { name: "backup-2".to_string(), mtime: 200 },
    ];
    let key = vec![9u8; 32];
    let max_backups = 2;

    let mut run = BackupRun::new(false);
    // Build: a simple container of (name, contents) records
    let mut names = Vec::new();
    let mut container = Vec::new();
    for (path, data) in &tree {
        if let Some(rel) = archive_entry_name(&root, &p(path), true, &Vec::new()) {
            let name = rel.join("/");
            container.extend_from_slice(name.as_bytes());
            container.push(0);
            container.extend_from_slice(data);
            container.push(0);
            names.push(name);
        }
    }
    assert_eq!(names, vec!["a.txt", "sub/b.txt"]);
    run.advance(Ok(()));
    assert_eq!(run.stage, Stage::Encrypt);
    let sealed = encrypt_data(&container, &key).unwrap();
    run.advance(Ok(()));
    assert_eq!(run.stage, Stage::Retain);
    if let Some(i) = evict_if_over_limit(&remote, max_backups) {
        remote.remove(i);
    }
    run.advance(Ok(()));
    assert_eq!(run.stage, Stage::Upload);
    remote.push(BackupObject { name: "backup-3.tar.xz.enc".to_string(), mtime: 300 });
    run.advance(Ok(()));
    assert_eq!(run.stage, Stage::Cleanup);
    run.advance(Ok(()));
    assert!(run.is_done());
    assert_eq!(run.result(), Ok(()));

    let left: Vec<&str> = remote.iter().map(|o| o.name.as_str()).collect();
    assert_eq!(left, vec!["backup-2", "backup-3.tar.xz.enc"]);
    assert_eq!(decrypt_data(&sealed, &key).unwrap(), container);
}
