use hoot::contact::{contact_sort_key, Contact};
use hoot::profile::ProfileMetadata;

fn contact(petname: Option<&str>, display: Option<&str>, name: Option<&str>, picture: Option<&str>) -> Contact {
    Contact {
        pubkey: "npub1key".to_string(),
        petname: petname.map(|s| s.to_string()),
        metadata: ProfileMetadata {
            name: name.map(|s| s.to_string()),
            display_name: display.map(|s| s.to_string()),
            picture: picture.map(|s| s.to_string()),
        },
    }
}

#[test]
fn display_name_prefers_petname_then_display_then_name() {
    assert_eq!(contact(Some("Bob"), Some("Robert"), Some("bob"), None).display_name(), "Bob");
    assert_eq!(contact(None, Some("Robert"), Some("bob"), None).display_name(), "Robert");
    assert_eq!(contact(None, None, Some("bob"), None).display_name(), "bob");
    assert_eq!(contact(None, None, None, None).display_name(), "npub1key");
}

#[test]
fn initials_take_first_letters_of_two_words() {
    assert_eq!(contact(None, Some("ada lovelace byron"), None, None).initials(), "AL");
    assert_eq!(contact(None, Some("  grace\thopper "), None, None).initials(), "GH");
    assert_eq!(contact(None, Some("x"), None, None).initials(), "X");
    assert_eq!(contact(None, Some("   "), None, None).initials(), "  ");
    assert_eq!(contact(None, None, None, None).initials(), "N");
}

#[test]
fn picture_url_skips_empty() {
    assert_eq!(contact(None, None, None, Some("")).picture_url(), None);
    assert_eq!(contact(None, None, None, Some("https://x/y.png")).picture_url(), Some("https://x/y.png"));
    assert_eq!(contact(None, None, None, None).picture_url(), None);
}

#[test]
fn sort_key_is_lower_case_name() {
    assert_eq!(contact_sort_key(&contact(None, Some("ÉMILE Zola"), None, None)), "émile zola");
}
