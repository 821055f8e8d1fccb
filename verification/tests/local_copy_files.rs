use loadsmith_plugins::local_copy::{LocalCopyConfig, LocalCopyPlugin};
use std::collections::HashMap;

/// Files by their paths.
type Files = HashMap<String, Vec<u8>>;

fn deliver(p: &mut LocalCopyPlugin, files: &mut Files, path: &str) {
    let target = p.deliver(path).unwrap();
    let content = files[path].clone();
    files.insert(target, content);
    p.object_delivered();
}

#[test]
fn copies_into_dest_dir() {
    let mut files = Files::new();
    files.insert("/tmp/lc-test/src/part.0001.parquet".into(), b"hello".to_vec());

    let mut p = LocalCopyPlugin::new(None);
    p.configure(LocalCopyConfig { dest: "/tmp/lc-test/dst".into() });
    deliver(&mut p, &mut files, "/tmp/lc-test/src/part.0001.parquet");

    assert_eq!(files["/tmp/lc-test/dst/part.0001.parquet"], b"hello");
    assert_eq!(p.finalize(), 1);
}

#[test]
fn redelivery_is_idempotent() {
    let mut files = Files::new();
    files.insert("/tmp/lc-idem/src/part.parquet".into(), b"data".to_vec());

    let mut p = LocalCopyPlugin::new(None);
    p.configure(LocalCopyConfig { dest: "/tmp/lc-idem/dst".into() });
    deliver(&mut p, &mut files, "/tmp/lc-idem/src/part.parquet");
    deliver(&mut p, &mut files, "/tmp/lc-idem/src/part.parquet"); // the same path again

    assert_eq!(files["/tmp/lc-idem/dst/part.parquet"], b"data");
    assert_eq!(files.len(), 2);
}
