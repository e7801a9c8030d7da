//! Configuration files.
use medienzeit::config::{lookup, protocol, read_kv, Protocol};

#[test]
fn a_file_is_keys_and_values() {
    let file = "# note = no\nuser = \"papa\"\r\n  pass=\"a=b\"  \njunk\nuser = other\n";
    let kv = read_kv(file, true);
    assert_eq!(
        kv,
        vec![
            ("user".to_string(), "papa".to_string()),
            ("pass".to_string(), "a=b".to_string()),
            ("user".to_string(), "other".to_string()),
        ]
    );
    assert_eq!(lookup(&kv, "user"), Some("other"));
    assert_eq!(lookup(&kv, "pass"), Some("a=b"));
    assert_eq!(lookup(&kv, "nope"), None);
    assert_eq!(read_kv("# note = no", false), vec![("# note".to_string(), "no".to_string())]);
}

#[test]
fn a_reader_speaks_one_protocol() {
    assert_eq!(protocol("iso15693"), Some(Protocol::Iso15693));
    assert_eq!(protocol("iso14443a"), Some(Protocol::Iso14443a));
    assert_eq!(protocol("ISO15693"), None);
}
