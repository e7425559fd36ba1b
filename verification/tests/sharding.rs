use sharder::digest::hex_sha256;
use sharder::plan::Config;
use sharder::plan::Entry;
use sharder::plan::plan_entry;
use sharder::plan::plan_run;
use sharder::shard::ShardMode;
use sharder::shard::matches_extension;
use sharder::shard::shard_key;
use sharder::shard::shard_prefix;

const HELLO_SHA256_HEX: &[u8] = b"2cf24dba5fb0a30e26e83b2ac5b9e29e1b161e5c1fa7425e73043362938b9824";

#[test]
fn prefix_of_filename_key() {
    assert_eq!(shard_prefix(b"a.md", 2), b"a.".to_vec());
    assert_eq!(shard_prefix(b"notes.md", 2), b"no".to_vec());
}

#[test]
fn prefix_lowercases_ascii() {
    assert_eq!(shard_prefix(b"NOTES.MD", 2), b"no".to_vec());
    assert_eq!(shard_prefix(b"MiXeD", 5), b"mixed".to_vec());
}

#[test]
fn prefix_leaves_non_letters_alone() {
    assert_eq!(shard_prefix(b"1_2-3", 5), b"1_2-3".to_vec());
}

#[test]
fn prefix_of_short_key_is_whole_key() {
    assert_eq!(shard_prefix(b"a", 2), b"a".to_vec());
    assert_eq!(shard_prefix(b"", 2), b"".to_vec());
}

#[test]
fn prefix_with_zero_shard_len_is_empty() {
    assert_eq!(shard_prefix(b"notes.md", 0), b"".to_vec());
}

#[test]
fn prefix_length_bound() {
    for len in 0..10usize {
        let p = shard_prefix(b"notes.md", len);
        assert!(p.len() <= len);
        if len <= 8 {
            assert_eq!(p.len(), len);
        } else {
            assert_eq!(p.len(), 8);
        }
    }
}

#[test]
fn extension_filter_is_exact_and_case_sensitive() {
    let md = b"md".to_vec();
    assert!(matches_extension(&Some(b"md".to_vec()), &md));
    assert!(!matches_extension(&Some(b"MD".to_vec()), &md));
    assert!(!matches_extension(&Some(b"txt".to_vec()), &md));
    assert!(!matches_extension(&Some(b"m".to_vec()), &md));
    assert!(!matches_extension(&None, &md));
}

#[test]
fn hex_sha256_of_hello() {
    assert_eq!(hex_sha256(b"hello"), HELLO_SHA256_HEX.to_vec());
}

#[test]
fn hex_sha256_of_empty_input() {
    assert_eq!(
        hex_sha256(b""),
        b"e3b0c44298fc1c149afbf4c8996fb92427ae41e4649b934ca495991b7852b855".to_vec()
    );
}

#[test]
fn filename_key_is_the_name_verbatim() {
    assert_eq!(
        shard_key(ShardMode::Filename, b"Notes.MD", b"whatever"),
        b"Notes.MD".to_vec()
    );
}

#[test]
fn content_key_is_the_hex_digest() {
    assert_eq!(
        shard_key(ShardMode::Content, b"a.md", b"hello"),
        HELLO_SHA256_HEX.to_vec()
    );
}

#[test]
fn content_key_ignores_the_name() {
    let k1 = shard_key(ShardMode::Content, b"a.md", b"same bytes");
    let k2 = shard_key(ShardMode::Content, b"b.md", b"same bytes");
    assert_eq!(k1, k2);
    assert_eq!(shard_prefix(&k1, 2), shard_prefix(&k2, 2));
}

#[test]
fn differing_contents_get_differing_keys() {
    let k1 = shard_key(ShardMode::Content, b"a.md", b"hello");
    let k2 = shard_key(ShardMode::Content, b"a.md", b"world");
    assert_ne!(k1, k2);
    assert_ne!(shard_prefix(&k1, 64), shard_prefix(&k2, 64));
}

#[test]
fn content_mode_prefix_of_hello() {
    let key = shard_key(ShardMode::Content, b"a.md", b"hello");
    assert_eq!(shard_prefix(&key, 4), b"2cf2".to_vec());
}

fn entry(name: &[u8], extension: Option<&[u8]>, content: &[u8]) -> Entry {
    Entry {
        name: name.to_vec(),
        extension: extension.map(|e| e.to_vec()),
        content: content.to_vec(),
    }
}

fn config(mode: ShardMode, file_type: &[u8], shard_len: usize) -> Config {
    Config {
        mode,
        file_type: file_type.to_vec(),
        shard_len,
    }
}

#[test]
fn plan_entry_filters_out_other_extensions() {
    let c = config(ShardMode::Filename, b"md", 2);
    assert!(plan_entry(&c, &entry(b"a.txt", Some(b"txt"), b"x")).is_none());
    assert!(plan_entry(&c, &entry(b"a", None, b"x")).is_none());
}

#[test]
fn plan_entry_keeps_name_and_content() {
    let c = config(ShardMode::Filename, b"md", 2);
    let w = plan_entry(&c, &entry(b"Notes.md", Some(b"md"), b"body")).unwrap();
    assert_eq!(w.prefix, b"no".to_vec());
    assert_eq!(w.name, b"Notes.md".to_vec());
    assert_eq!(w.content, b"body".to_vec());
}

#[test]
fn plan_run_of_example_scenario() {
    let c = config(ShardMode::Filename, b"md", 2);
    let entries = vec![
        entry(b"a.md", Some(b"md"), b"hello"),
        entry(b"notes.md", Some(b"md"), b"world"),
        entry(b"skip.txt", Some(b"txt"), b"nope"),
    ];
    let writes = plan_run(&c, &entries);
    assert_eq!(writes.len(), 2);
    assert_eq!(writes[0].prefix, b"a.".to_vec());
    assert_eq!(writes[0].name, b"a.md".to_vec());
    assert_eq!(writes[0].content, b"hello".to_vec());
    assert_eq!(writes[1].prefix, b"no".to_vec());
    assert_eq!(writes[1].name, b"notes.md".to_vec());
    assert_eq!(writes[1].content, b"world".to_vec());
}

#[test]
fn plan_run_content_mode_scenario() {
    let c = config(ShardMode::Content, b"md", 4);
    let entries = vec![entry(b"a.md", Some(b"md"), b"hello")];
    let writes = plan_run(&c, &entries);
    assert_eq!(writes.len(), 1);
    assert_eq!(writes[0].prefix, b"2cf2".to_vec());
    assert_eq!(writes[0].name, b"a.md".to_vec());
}

#[test]
fn plan_run_is_deterministic() {
    let c = config(ShardMode::Content, b"md", 2);
    let make = || {
        vec![
            entry(b"a.md", Some(b"md"), b"hello"),
            entry(b"b.md", Some(b"md"), b"world"),
            entry(b"c.txt", Some(b"txt"), b"other"),
        ]
    };
    let w1 = plan_run(&c, &make());
    let w2 = plan_run(&c, &make());
    assert_eq!(w1.len(), w2.len());
    for (a, b) in w1.iter().zip(w2.iter()) {
        assert_eq!(a.prefix, b.prefix);
        assert_eq!(a.name, b.name);
        assert_eq!(a.content, b.content);
    }
}

#[test]
fn filtered_out_entries_contribute_no_write() {
    let c = config(ShardMode::Filename, b"md", 2);
    let with_bad = vec![
        entry(b"a.md", Some(b"md"), b"hello"),
        entry(b"b.rs", Some(b"rs"), b"fn"),
    ];
    let without = vec![entry(b"a.md", Some(b"md"), b"hello")];
    let w1 = plan_run(&c, &with_bad);
    let w2 = plan_run(&c, &without);
    assert_eq!(w1.len(), w2.len());
    for (a, b) in w1.iter().zip(w2.iter()) {
        assert_eq!(a.prefix, b.prefix);
        assert_eq!(a.name, b.name);
        assert_eq!(a.content, b.content);
    }
}

#[test]
fn collision_overwrite_keeps_the_last_content() {
    let c = config(ShardMode::Filename, b"md", 2);
    let entries = vec![
        entry(b"dup.md", Some(b"md"), b"first"),
        entry(b"dup.md", Some(b"md"), b"second"),
    ];
    let writes = plan_run(&c, &entries);
    assert_eq!(writes.len(), 2);
    assert_eq!(writes[0].prefix, writes[1].prefix);
    assert_eq!(writes[0].name, writes[1].name);
    let mut tree: std::collections::HashMap<(Vec<u8>, Vec<u8>), Vec<u8>> =
        std::collections::HashMap::new();
    for w in writes {
        tree.insert((w.prefix, w.name), w.content);
    }
    assert_eq!(tree.len(), 1);
    assert_eq!(
        tree[&(b"du".to_vec(), b"dup.md".to_vec())],
        b"second".to_vec()
    );
}
