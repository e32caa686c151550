use denon_control::avahi::{receiver_in_browse_output, split_char, str_contains};

#[test]
fn receiver_is_taken_from_the_first_resolved_record() {
    let output = "+;eth0;IPv4;DENON-AVR-1912;_raop._tcp;local\n\
                  =;eth0;IPv4;DENON-AVR-1912;_raop._tcp;local;DENON-AVR-1912.local;192.168.0.7;1004;\"am=AVR-1912\"\n\
                  =;eth0;IPv4;OTHER;_raop._tcp;local;other.local;192.168.0.8;1004;\"am=Other\"\n";
    assert_eq!(
        Some(String::from("DENON-AVR-1912.local")),
        receiver_in_browse_output(output)
    );
}

#[test]
fn no_receiver_without_matching_record() {
    assert_eq!(None, receiver_in_browse_output(""));
    assert_eq!(
        None,
        receiver_in_browse_output("+;eth0;IPv4;DENON-AVR-1912;_raop._tcp;local\n")
    );
    assert_eq!(
        None,
        receiver_in_browse_output("=;eth0;IPv4;OTHER;_raop._tcp;local;other.local\n")
    );
    // a resolved DENON record that is too short to name a host
    assert_eq!(None, receiver_in_browse_output("=;DENON\n"));
}

#[test]
fn split_char_keeps_empty_pieces() {
    let pieces = split_char("a;b;;c", ';');
    assert_eq!(vec!["a", "b", "", "c"], pieces);
    assert_eq!(vec!["abc"], split_char("abc", ';'));
    assert_eq!(vec![""], split_char("", ';'));
    assert_eq!(vec!["a", ""], split_char("a;", ';'));
}

#[test]
fn str_contains_finds_runs() {
    assert!(str_contains("DENON-AVR", "DENON"));
    assert!(str_contains("abc", ""));
    assert!(!str_contains("abc", "abd"));
    assert!(!str_contains("ab", "abc"));
}
