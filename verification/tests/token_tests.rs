use quiz_game_rust::jwtoken::TokenError;
use quiz_game_rust::jwtoken::decode_token;
use quiz_game_rust::jwtoken::generate_token;
use quiz_game_rust::models::lobby::User;

fn sample_user() -> User {
    User {
        id: "conn-1".to_string(),
        name: "Alice".to_string(),
        avatarPath: "avatars/alice.png".to_string(),
        roomId: "room-1".to_string(),
        isHost: true,
        userColor: "#FF0000".to_string(),
    }
}

#[test]
fn token_round_trip_keeps_claims() {
    let user = sample_user();
    let token = generate_token(&user, 1000).unwrap();
    let claims = decode_token(&token, 1500).unwrap();
    assert_eq!(claims.id, "conn-1");
    assert_eq!(claims.name, "Alice");
    assert_eq!(claims.avatarPath, "avatars/alice.png");
    assert_eq!(claims.roomId, "room-1");
    assert!(claims.isHost);
    assert_eq!(claims.userColor, "#FF0000");
    assert_eq!(claims.exp, 1000 + 86400);
}

#[test]
fn token_round_trip_with_unicode_fields() {
    let mut user = sample_user();
    user.name = "Алиса 🎲".to_string();
    user.avatarPath = "аватары/ალისა.png".to_string();
    let token = generate_token(&user, 7).unwrap();
    let claims = decode_token(&token, 8).unwrap();
    assert_eq!(claims.name, "Алиса 🎲");
    assert_eq!(claims.avatarPath, "аватары/ალისა.png");
}

#[test]
fn token_expires_after_a_day() {
    let user = sample_user();
    let token = generate_token(&user, 1000).unwrap();
    assert_eq!(decode_token(&token, 1000 + 86400), Err(TokenError::Expired));
    assert!(decode_token(&token, 1000 + 86399).is_ok());
}

#[test]
fn tampered_token_is_rejected() {
    let user = sample_user();
    let token = generate_token(&user, 1000).unwrap();
    // Flip one payload character: either the payload no longer parses or
    // the signature no longer matches; the token must not be accepted.
    let mut chars: Vec<char> = token.chars().collect();
    let idx = 8;
    chars[idx] = if chars[idx] == '0' { '1' } else { '0' };
    let tampered: String = chars.into_iter().collect();
    assert!(decode_token(&tampered, 1500).is_err());
}

#[test]
fn forged_signature_is_rejected() {
    let user = sample_user();
    let token = generate_token(&user, 1000).unwrap();
    let dot = token.rfind('.').unwrap();
    let forged = format!("{}.{}", &token[..dot], "AAAAAAAAAAAAAAAAAAAAAAAAAAAAAAAAAAAAAAAAAAA");
    assert_eq!(decode_token(&forged, 1500), Err(TokenError::InvalidSignature));
}

#[test]
fn garbage_tokens_are_malformed() {
    assert_eq!(decode_token(&"".to_string(), 0), Err(TokenError::Malformed));
    assert_eq!(decode_token(&"hello".to_string(), 0), Err(TokenError::Malformed));
    assert_eq!(decode_token(&"HS256.zz.sig".to_string(), 0), Err(TokenError::Malformed));
    assert_eq!(decode_token(&"HS256.".to_string(), 0), Err(TokenError::Malformed));
}

#[test]
fn error_messages_are_stable() {
    assert_eq!(TokenError::Expired.message(), "Token expired");
    assert_eq!(TokenError::Malformed.message(), "Invalid token");
    assert_eq!(TokenError::InvalidSignature.message(), "Invalid token signature");
}
