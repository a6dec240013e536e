use keldurben_hub::auth::bearer_token;
use keldurben_hub::auth::blank;
use keldurben_hub::auth::credentials_acceptable;
use keldurben_hub::auth::generate_avatar_from_username;
use keldurben_hub::auth::white_space;
use keldurben_hub::auth::Claims;
use keldurben_hub::auth::LoginRequest;
use keldurben_hub::auth::RegisterRequest;
use keldurben_hub::auth::AVATARS;
use keldurben_hub::auth::TOKEN_LIFETIME;

#[test]
fn avatar_table_has_its_entries() {
    assert_eq!(AVATARS.len(), 190);
    assert_eq!(AVATARS[0], "🐶");
    assert_eq!(AVATARS[189], "☁️");
}

#[test]
fn avatar_of_the_empty_name_is_the_first() {
    assert_eq!(generate_avatar_from_username(""), "🐶");
}

#[test]
fn avatar_is_picked_by_the_sum_of_code_points() {
    // 'a' is 97.
    assert_eq!(generate_avatar_from_username("a"), AVATARS[97]);
    assert_eq!(generate_avatar_from_username("a"), "🦥");
    // 97 + 98 = 195, and 195 - 190 = 5.
    assert_eq!(generate_avatar_from_username("ab"), "🦊");
    assert_eq!(generate_avatar_from_username("ba"), "🦊");
    // "Alice": 65 + 108 + 105 + 99 + 101 = 478, and 478 - 380 = 98.
    assert_eq!(generate_avatar_from_username("Alice"), AVATARS[98]);
}

#[test]
fn avatar_counts_code_points_not_bytes() {
    // U+00E9 is 233, and 233 - 190 = 43.
    assert_eq!(generate_avatar_from_username("é"), AVATARS[43]);
    // U+1F436 is 128054, and 128054 = 673 * 190 + 184.
    assert_eq!(generate_avatar_from_username("🐶"), AVATARS[184]);
}

#[test]
fn avatar_sum_wraps_at_32_bits() {
    let name: String = std::iter::repeat('\u{10FFFF}').take(4000).collect();
    let sum: u64 = 4000u64 * 0x10FFFF;
    let wrapped = (sum % (1u64 << 32)) as usize;
    assert!(sum > u32::MAX as u64);
    assert_eq!(generate_avatar_from_username(&name), AVATARS[wrapped % 190]);
}

#[test]
fn token_holds_for_thirty_days() {
    assert_eq!(TOKEN_LIFETIME, 30 * 24 * 60 * 60);
    let claims = Claims::issue("id-1".to_string(), "Alice".to_string(), 1_700_000_000);
    assert_eq!(claims.sub, "id-1");
    assert_eq!(claims.username, "Alice");
    assert_eq!(claims.exp, 1_702_592_000);
}

#[test]
fn token_expiry_stops_at_the_top() {
    let claims = Claims::issue("x".to_string(), "y".to_string(), i64::MAX - 5);
    assert_eq!(claims.exp, i64::MAX);
    let claims = Claims::issue("x".to_string(), "y".to_string(), i64::MAX - TOKEN_LIFETIME);
    assert_eq!(claims.exp, i64::MAX);
    let claims = Claims::issue("x".to_string(), "y".to_string(), -TOKEN_LIFETIME);
    assert_eq!(claims.exp, 0);
}

#[test]
fn requests_hold_name_and_password() {
    let login = LoginRequest { username: "Alice".to_string(), password: "pw".to_string() };
    let register = RegisterRequest { username: "Bob".to_string(), password: "secret".to_string() };
    assert_eq!(login.username, "Alice");
    assert_eq!(login.password, "pw");
    assert_eq!(register.username, "Bob");
    assert_eq!(register.password, "secret");
}

#[test]
fn white_space_is_what_the_standard_library_says() {
    let mut count = 0;
    for code in 0..=0x10FFFFu32 {
        if let Some(c) = char::from_u32(code) {
            assert_eq!(white_space(c), c.is_whitespace(), "U+{:04X}", code);
            if white_space(c) {
                count += 1;
            }
        }
    }
    assert_eq!(count, 25);
}

#[test]
fn blank_texts_are_those_that_trim_to_nothing() {
    let texts = ["", " ", "\t\n ", "\u{3000}\u{2003}", "a", " a ", "\u{200b}", "  x", "\u{a0}"];
    for text in texts {
        assert_eq!(blank(text), text.trim().is_empty(), "{:?}", text);
    }
    assert!(blank(""));
    assert!(blank(" \t\r\n"));
    assert!(!blank(" . "));
}

#[test]
fn an_account_needs_a_name_and_four_bytes_of_password() {
    assert!(credentials_acceptable("Alice", "abcd"));
    assert!(credentials_acceptable(" A ", "abcde"));
    assert!(!credentials_acceptable("Alice", "abc"));
    assert!(!credentials_acceptable("Alice", ""));
    assert!(!credentials_acceptable("", "abcd"));
    assert!(!credentials_acceptable("   ", "abcd"));
    assert!(!credentials_acceptable("\t\n", "abcdefgh"));
    // The length counts bytes: two characters of two bytes each are enough.
    assert!(credentials_acceptable("Alice", "éé"));
    assert!(!credentials_acceptable("Alice", "éa"));
}

#[test]
fn bearer_token_follows_the_word_and_one_space() {
    assert_eq!(bearer_token("Bearer abc.def"), Some("abc.def".to_string()));
    assert_eq!(bearer_token("Bearer "), Some("".to_string()));
    assert_eq!(bearer_token("Bearer  x"), Some(" x".to_string()));
    assert_eq!(bearer_token("Bearer tökén"), Some("tökén".to_string()));
    assert_eq!(bearer_token("Bearer"), None);
    assert_eq!(bearer_token("bearer abc"), None);
    assert_eq!(bearer_token("Basic abc"), None);
    assert_eq!(bearer_token(""), None);
    assert_eq!(bearer_token(" Bearer abc"), None);
    assert_eq!(bearer_token("Bearér abc"), None);
    for header in ["Bearer abc", "Bearer", "Bearerabc", "x", "Bearer a b"] {
        assert_eq!(bearer_token(header), header.strip_prefix("Bearer ").map(|t| t.to_string()));
    }
}
