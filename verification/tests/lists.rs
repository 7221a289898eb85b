use blastdns::lists::{list_entries, load_hosts, load_resolvers};

#[test]
fn comments_and_blank_lines_are_left_out() {
    let text = "# resolvers\n1.1.1.1:53   # first\r\n\n   \t\n  8.8.8.8\n#9.9.9.9\n[::1]:53";
    assert_eq!(list_entries(text), vec!["1.1.1.1:53", "8.8.8.8", "[::1]:53"]);
}

#[test]
fn white_space_within_an_entry_stays() {
    assert_eq!(list_entries(" a b \nc\n"), vec!["a b", "c"]);
    assert_eq!(list_entries("a\rb"), vec!["a\rb"]);
}

#[test]
fn entries_are_clean() {
    for entry in list_entries("a#b\n # \n\u{a0}c\u{a0}#\n\n\nd") {
        assert!(!entry.is_empty());
        assert_eq!(entry.trim(), entry);
        assert!(!entry.contains('#') && !entry.contains('\n'));
    }
}

#[test]
fn empty_lists_are_refused() {
    assert_eq!(
        load_resolvers("# none\n\n", "resolvers.txt"),
        Err("resolver list `resolvers.txt` is empty".to_string())
    );
    assert_eq!(
        load_hosts("", "hosts.txt"),
        Err("host list `hosts.txt` is empty".to_string())
    );
}

#[test]
fn lists_are_loaded_in_order() {
    assert_eq!(
        load_resolvers("b\na\nb\n", "resolvers.txt"),
        Ok(vec!["b".to_string(), "a".to_string(), "b".to_string()])
    );
    assert_eq!(load_hosts("one.example", "hosts.txt"), Ok(vec!["one.example".to_string()]));
}
