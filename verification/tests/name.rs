use bsc_core::name;
use bsc_core::name::Error;

#[test]
fn names_that_pass() {
    for good in ["default", "a", "Z", "my-tube", "+", "/path/to", ";", ".hidden", "$x", "_a_", "(a)", "a-", "a--b"] {
        assert!(name::is_name(good), "{:?}", good);
        assert!(name::validate_name(good).is_ok(), "{:?}", good);
    }
}

#[test]
fn names_that_fail() {
    for bad in ["", "-tube", "a b", "tube1", "1tube", "a?b", "?", "a\n", " a", "b\u{e9}ta", "\u{e9}", "a,b", "a\u{0}"] {
        assert!(!name::is_name(bad), "{:?}", bad);
        match name::validate_name(bad) {
            Err(Error::InvalidName(refused)) => assert_eq!(refused, bad),
            Ok(()) => panic!("{:?}", bad),
        }
    }
}

#[test]
fn character_classes() {
    assert!(name::is_alpha('a') && name::is_alpha('z') && name::is_alpha('A') && name::is_alpha('Z'));
    assert!(!name::is_alpha('@') && !name::is_alpha('[') && !name::is_alpha('`') && !name::is_alpha('{'));
    assert!(!name::is_alpha('0') && !name::is_alpha('\u{e9}'));
    for c in ['+', '/', ';', '.', '$', '_', '(', ')'] {
        assert!(name::is_special_start(c));
        assert!(name::is_name_start(c));
        assert!(name::is_name_char(c));
    }
    assert!(!name::is_special_start('-') && !name::is_special_start('?'));
    assert!(!name::is_name_start('-'));
    assert!(name::is_name_char('-'));
    assert!(!name::is_name_char('0') && !name::is_name_char(' '));
}

#[test]
fn invalid_name_message() {
    let e = Error::InvalidName(String::from("-x"));
    assert_eq!(
        e.message(),
        "Invalid name '-x'. Names should be ASCII strings and  `[A-Za-z0-9+/;?$_()][A-Za-z0-9-+/;?$_()]*`"
    );
}
