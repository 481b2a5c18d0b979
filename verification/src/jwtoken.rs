use vstd::prelude::*;
use crate::encoding::chars_of_str;
use crate::encoding::dehex_chars;
use crate::encoding::hex_chars;
use crate::encoding::hex_fixed;
use crate::encoding::hex_fixed_chars;
use crate::encoding::append_hex_chars;
use crate::encoding::hex_val_of;
use crate::encoding::hexv;
use crate::encoding::lemma_hex_chars_digits;
use crate::encoding::lemma_hex_chars_len;
use crate::encoding::lemma_hex_fixed_digits;
use crate::encoding::lemma_hex_fixed_len;
use crate::encoding::lemma_hexv_of_fixed;
use crate::encoding::lemma_parse_of_hex_chars;
use crate::encoding::lemma_pow16_monotonic;
use crate::encoding::parse_hex_chars;
use crate::encoding::parse_hexv;
use crate::encoding::pow16;
use crate::encoding::string_from_chars;
use crate::models::lobby::User;
use vstd::string::StringExecFns;

verus! {

/// The claim record a bearer token carries: the user's projected fields and
/// an expiry as Unix seconds.
#[allow(non_snake_case)]
#[derive(Debug, PartialEq, Eq)]
pub struct Claims {
    pub id: String,
    pub name: String,
    pub avatarPath: String,
    pub roomId: String,
    pub isHost: bool,
    pub userColor: String,
    pub exp: u64,
}

impl Clone for Claims {
    fn clone(&self) -> (res: Self)
        ensures
            res == *self,
    {
        Claims {
            id: self.id.clone(),
            name: self.name.clone(),
            avatarPath: self.avatarPath.clone(),
            roomId: self.roomId.clone(),
            isHost: self.isHost,
            userColor: self.userColor.clone(),
            exp: self.exp,
        }
    }
}

/// The mathematical content of a claim record.
pub struct ClaimsData {
    pub id: Seq<char>,
    pub name: Seq<char>,
    pub avatar_path: Seq<char>,
    pub room_id: Seq<char>,
    pub is_host: bool,
    pub user_color: Seq<char>,
    pub exp: nat,
}

pub open spec fn claims_data(c: Claims) -> ClaimsData {
    ClaimsData {
        id: c.id@,
        name: c.name@,
        avatar_path: c.avatarPath@,
        room_id: c.roomId@,
        is_host: c.isHost,
        user_color: c.userColor@,
        exp: c.exp as nat,
    }
}

/// The claim record issued for a user at a given time: the user's fields
/// and an expiry one day ahead.
pub open spec fn spec_claims_for(u: User, now: nat) -> ClaimsData {
    ClaimsData {
        id: u.id@,
        name: u.name@,
        avatar_path: u.avatarPath@,
        room_id: u.roomId@,
        is_host: u.isHost,
        user_color: u.userColor@,
        exp: now + 86400,
    }
}

/// Why a token was not accepted.
#[derive(Clone, Copy, Debug, PartialEq, Eq)]
pub enum TokenError {
    /// The token does not have the three-segment shape.
    Malformed,
    /// The signature segment is not the signature of the first two segments.
    InvalidSignature,
    /// The token is past its expiry.
    Expired,
}

impl TokenError {
    /// The error text reported to the client.
    pub fn message(&self) -> (r: String)
        ensures
            r@ == match *self {
                TokenError::Malformed => "Invalid token"@,
                TokenError::InvalidSignature => "Invalid token signature"@,
                TokenError::Expired => "Token expired"@,
            },
    {
        let r = match *self {
            TokenError::Malformed => String::from_str("Invalid token"),
            TokenError::InvalidSignature => String::from_str("Invalid token signature"),
            TokenError::Expired => String::from_str("Token expired"),
        };
        proof {
            reveal_strlit("Invalid token");
            reveal_strlit("Invalid token signature");
            reveal_strlit("Token expired");
        }
        r
    }
}

/// The base64url HMAC-SHA256 signature of a message under a key, exactly as
/// the signing primitive computes it.
pub uninterp spec fn hs256_signature(message: Seq<char>, key: Seq<char>) -> Seq<char>;

/// Relies on jsonwebtoken's crypto::sign: for HS256 with a secret key it
/// returns the base64url HMAC-SHA256 of the message, a function of message
/// and secret alone; per its source it cannot fail for this algorithm.
#[verifier::external_body]
fn sign_hs256(message: &Vec<char>, secret: &str) -> (sig: Vec<char>)
    ensures
        sig@ == hs256_signature(message@, secret@),
{
    let msg: String = message.iter().collect();
    let key = jsonwebtoken::EncodingKey::from_secret(secret.as_bytes());
    match jsonwebtoken::crypto::sign(msg.as_bytes(), &key, jsonwebtoken::Algorithm::HS256) {
        Ok(sig) => sig.chars().collect(),
        Err(_) => Vec::new(),
    }
}

/// Relies on jsonwebtoken's crypto::verify: for HS256 it recomputes the
/// signature of the message under the secret and compares; true exactly
/// when the given text is that signature (its base64url reading is strict,
/// so exactly one text matches).
#[verifier::external_body]
fn verify_hs256(signature: &Vec<char>, message: &Vec<char>, secret: &str) -> (r: bool)
    ensures
        r == (signature@ == hs256_signature(message@, secret@)),
{
    let sig: String = signature.iter().collect();
    let msg: String = message.iter().collect();
    let key = jsonwebtoken::DecodingKey::from_secret(secret.as_bytes());
    match jsonwebtoken::crypto::verify(&sig, msg.as_bytes(), &key, jsonwebtoken::Algorithm::HS256) {
        Ok(r) => r,
        Err(_) => false,
    }
}

pub open spec fn header_chars() -> Seq<char> {
    "HS256"@
}

pub open spec fn secret_chars() -> Seq<char> {
    "secret"@
}

/// A claim field written into the payload: its length as sixteen hex
/// digits, then each character as six hex digits.
pub open spec fn field_enc(s: Seq<char>) -> Seq<char> {
    hex_fixed(s.len() as int, 16) + hex_chars(s)
}

/// Whether a claim record fits the payload format: each count fits sixteen
/// hex digits, which every machine-representable string and timestamp does.
pub open spec fn claims_fit(d: ClaimsData) -> bool {
    &&& d.id.len() < pow16(16)
    &&& d.name.len() < pow16(16)
    &&& d.avatar_path.len() < pow16(16)
    &&& d.room_id.len() < pow16(16)
    &&& d.user_color.len() < pow16(16)
    &&& d.exp < pow16(16)
}

/// The payload segment of a token: the five string fields, the host flag as
/// one character, and the expiry as sixteen hex digits.
pub open spec fn payload_of(d: ClaimsData) -> Seq<char> {
    field_enc(d.id) + field_enc(d.name) + field_enc(d.avatar_path) + field_enc(d.room_id) + seq![
        if d.is_host {
            '1'
        } else {
            '0'
        },
    ] + field_enc(d.user_color) + hex_fixed(d.exp as int, 16)
}

/// The whole token: header, payload and signature segments joined by dots.
pub open spec fn spec_token(d: ClaimsData) -> Seq<char> {
    let message = header_chars() + seq!['.'] + payload_of(d);
    message + seq!['.'] + hs256_signature(message, secret_chars())
}

/// One field read from the payload at `pos`: the field and the position
/// after it.
pub open spec fn parse_field(s: Seq<char>, pos: int) -> Option<(Seq<char>, int)> {
    if !(0 <= pos && pos + 16 <= s.len()) {
        None
    } else {
        let n = hexv(s.subrange(pos, pos + 16));
        if n < 0 {
            None
        } else if pos + 16 + 6 * n > s.len() {
            None
        } else {
            match parse_hex_chars(s.subrange(pos + 16, pos + 16 + 6 * n)) {
                Some(t) => Some((t, pos + 16 + 6 * n)),
                None => None,
            }
        }
    }
}

/// The claim record a payload segment holds, if it is exactly in the
/// payload format.
pub open spec fn spec_parse_payload(s: Seq<char>) -> Option<ClaimsData> {
    match parse_field(s, 0) {
        None => None,
        Some((id, p1)) => match parse_field(s, p1) {
            None => None,
            Some((name, p2)) => match parse_field(s, p2) {
                None => None,
                Some((avatar_path, p3)) => match parse_field(s, p3) {
                    None => None,
                    Some((room_id, p4)) => {
                        if !(p4 < s.len() && (s[p4] == '0' || s[p4] == '1')) {
                            None
                        } else {
                            match parse_field(s, p4 + 1) {
                                None => None,
                                Some((user_color, p5)) => {
                                    if p5 + 16 != s.len() {
                                        None
                                    } else {
                                        let e = hexv(s.subrange(p5, p5 + 16));
                                        if e < 0 {
                                            None
                                        } else {
                                            Some(
                                                ClaimsData {
                                                    id,
                                                    name,
                                                    avatar_path,
                                                    room_id,
                                                    is_host: s[p4] == '1',
                                                    user_color,
                                                    exp: e as nat,
                                                },
                                            )
                                        }
                                    }
                                },
                            }
                        }
                    },
                },
            },
        },
    }
}

/// The position of the first dot at or after `from`, or -1.
pub open spec fn find_dot(t: Seq<char>, from: int) -> int
    decreases t.len() - from,
{
    if from < 0 || from >= t.len() {
        -1
    } else if t[from] == '.' {
        from
    } else {
        find_dot(t, from + 1)
    }
}

/// The token has the three-segment shape with a readable payload.
pub open spec fn token_wf(t: Seq<char>) -> bool {
    &&& t.len() >= 6
    &&& t.take(5) == header_chars()
    &&& t[5] == '.'
    &&& find_dot(t, 6) >= 0
    &&& spec_parse_payload(t.subrange(6, find_dot(t, 6))) is Some
}

/// The claim record of a well-formed token.
pub open spec fn token_payload(t: Seq<char>) -> ClaimsData {
    spec_parse_payload(t.subrange(6, find_dot(t, 6)))->Some_0
}

/// The signature segment signs the first two segments.
pub open spec fn token_signed(t: Seq<char>) -> bool {
    t.subrange(find_dot(t, 6) + 1, t.len() as int) == hs256_signature(
        t.take(find_dot(t, 6)),
        secret_chars(),
    )
}

/// The token is not yet expired at `now`.
pub open spec fn token_fresh(t: Seq<char>, now: nat) -> bool {
    now < token_payload(t).exp
}

/// Appends one claim field to the payload being built. A string's count of
/// characters always fits the sixteen-digit length field.
fn append_field(out: &mut Vec<char>, s: &String)
    ensures
        final(out)@ == old(out)@ + field_enc(s@),
        s@.len() < pow16(16),
{
    proof {
        assert(pow16(16) == 0x10000000000000000) by {
            reveal_with_fuel(pow16, 17);
        }
    }
    let cs = chars_of_str(s.as_str());
    let count = cs.len();
    let mut len_digits = hex_fixed_chars(count as u64, 16);
    out.append(&mut len_digits);
    append_hex_chars(out, &cs);
    proof {
        assert(final(out)@ =~= old(out)@ + field_enc(s@));
    }
}

/// Builds the payload segment for a claim record.
fn build_payload(c: &Claims) -> (v: Vec<char>)
    ensures
        claims_fit(claims_data(*c)),
        v@ == payload_of(claims_data(*c)),
{
    proof {
        assert(pow16(16) == 0x10000000000000000) by {
            reveal_with_fuel(pow16, 17);
        }
    }
    let mut out: Vec<char> = Vec::new();
    append_field(&mut out, &c.id);
    append_field(&mut out, &c.name);
    append_field(&mut out, &c.avatarPath);
    append_field(&mut out, &c.roomId);
    out.push(if c.isHost {
        '1'
    } else {
        '0'
    });
    append_field(&mut out, &c.userColor);
    let mut exp_digits = hex_fixed_chars(c.exp, 16);
    out.append(&mut exp_digits);
    proof {
        assert(out@ =~= payload_of(claims_data(*c)));
    }
    out
}

/// Issues the signed bearer token for `user` at time `now`: header, payload
/// and HMAC-SHA256 signature joined by dots. Issuing never fails.
pub fn generate_token(user: &User, now: u64) -> (r: Result<String, TokenError>)
    requires
        now + 86400 <= u64::MAX,
    ensures
        r matches Ok(t) && claims_fit(spec_claims_for(*user, now as nat)) && t@ == spec_token(
            spec_claims_for(*user, now as nat),
        ),
{
    proof {
        assert(pow16(16) == 0x10000000000000000) by {
            reveal_with_fuel(pow16, 17);
        }
    }
    let claims = Claims {
        id: user.id.clone(),
        name: user.name.clone(),
        avatarPath: user.avatarPath.clone(),
        roomId: user.roomId.clone(),
        isHost: user.isHost,
        userColor: user.userColor.clone(),
        exp: now + 86400,
    };
    proof {
        assert(claims_data(claims) =~~= spec_claims_for(*user, now as nat)) by {
            assert(claims.exp as nat == now as nat + 86400);
        }
    }
    let mut payload = build_payload(&claims);
    let mut message = chars_of_str("HS256");
    message.push('.');
    message.append(&mut payload);
    proof {
        assert(message@ =~= header_chars() + seq!['.'] + payload_of(
            spec_claims_for(*user, now as nat),
        ));
    }
    let mut signature = sign_hs256(&message, "secret");
    let mut token_chars = message;
    token_chars.push('.');
    token_chars.append(&mut signature);
    proof {
        assert(token_chars@ =~= spec_token(spec_claims_for(*user, now as nat)));
    }
    Ok(string_from_chars(&token_chars))
}

/// Copies `s[from .. to]` out into a fresh vector.
fn copy_range(s: &Vec<char>, from: usize, to: usize) -> (r: Vec<char>)
    requires
        from <= to <= s@.len(),
    ensures
        r@ == s@.subrange(from as int, to as int),
{
    let mut r: Vec<char> = Vec::new();
    let mut k: usize = from;
    while k < to
        invariant
            from <= k <= to <= s@.len(),
            r@ == s@.subrange(from as int, k as int),
        decreases to - k,
    {
        r.push(s[k]);
        k += 1;
        proof {
            assert(r@ =~= s@.subrange(from as int, k as int));
        }
    }
    r
}

/// The position of the first dot at or after `from`, if any.
fn find_dot_exec(s: &Vec<char>, from: usize) -> (r: Option<usize>)
    requires
        from <= s@.len(),
    ensures
        match r {
            Some(p) => from <= p < s@.len() && find_dot(s@, from as int) == p as int,
            None => find_dot(s@, from as int) == -1,
        },
{
    let mut k: usize = from;
    while k < s.len()
        invariant
            from <= k <= s@.len(),
            find_dot(s@, from as int) == find_dot(s@, k as int),
        decreases s@.len() - k,
    {
        if s[k] == '.' {
            return Some(k);
        }
        k += 1;
    }
    None
}

/// Reads one claim field of the payload at `pos`.
fn parse_field_exec(s: &Vec<char>, pos: usize) -> (r: Option<(Vec<char>, usize)>)
    requires
        pos <= s@.len(),
    ensures
        match r {
            Some(v) => parse_field(s@, pos as int) == Some((v.0@, v.1 as int)) && pos < v.1
                <= s@.len(),
            None => parse_field(s@, pos as int) is None,
        },
{
    if s.len() < 16 || pos > s.len() - 16 {
        return None;
    }
    let n = match parse_hexv(s, pos, pos + 16) {
        Some(n) => n,
        None => {
            return None;
        },
    };
    proof {
        crate::encoding::lemma_hexv_bound(s@.subrange(pos as int, pos as int + 16));
    }
    let remaining: u64 = (s.len() - pos - 16) as u64;
    if n > remaining / 6 {
        proof {
            assert(pos as int + 16 + 6 * (n as int) > s@.len());
        }
        return None;
    }
    let need: u64 = 6 * n;
    proof {
        assert(need <= remaining);
    }
    let data_end = pos + 16 + (need as usize);
    let data = match dehex_chars(s, pos + 16, data_end) {
        Some(d) => d,
        None => {
            return None;
        },
    };
    Some((data, data_end))
}

/// Reads a whole payload segment back into a claim record.
fn parse_payload_exec(s: &Vec<char>) -> (r: Option<Claims>)
    ensures
        match r {
            Some(c) => spec_parse_payload(s@) == Some(claims_data(c)),
            None => spec_parse_payload(s@) is None,
        },
{
    let (id_chars, p1) = match parse_field_exec(s, 0) {
        Some(v) => v,
        None => {
            return None;
        },
    };
    let (name_chars, p2) = match parse_field_exec(s, p1) {
        Some(v) => v,
        None => {
            return None;
        },
    };
    let (avatar_chars, p3) = match parse_field_exec(s, p2) {
        Some(v) => v,
        None => {
            return None;
        },
    };
    let (room_chars, p4) = match parse_field_exec(s, p3) {
        Some(v) => v,
        None => {
            return None;
        },
    };
    if p4 >= s.len() {
        return None;
    }
    let host_char = s[p4];
    if host_char != '0' && host_char != '1' {
        return None;
    }
    let (color_chars, p5) = match parse_field_exec(s, p4 + 1) {
        Some(v) => v,
        None => {
            return None;
        },
    };
    if s.len() < 16 || p5 != s.len() - 16 {
        proof {
            assert(p5 as int + 16 != s@.len());
        }
        return None;
    }
    let e = match parse_hexv(s, p5, p5 + 16) {
        Some(e) => e,
        None => {
            return None;
        },
    };
    let c = Claims {
        id: string_from_chars(&id_chars),
        name: string_from_chars(&name_chars),
        avatarPath: string_from_chars(&avatar_chars),
        roomId: string_from_chars(&room_chars),
        isHost: host_char == '1',
        userColor: string_from_chars(&color_chars),
        exp: e,
    };
    Some(c)
}

/// Decodes and validates a bearer token at time `now`: checks the
/// three-segment shape, the payload format, the HMAC-SHA256 signature over
/// the first two segments, and the expiry, and hands back the claim record.
pub fn decode_token(token: &String, now: u64) -> (r: Result<Claims, TokenError>)
    ensures
        match r {
            Ok(c) => token_wf(token@) && token_signed(token@) && token_fresh(token@, now as nat)
                && claims_data(c) == token_payload(token@),
            Err(e) => {
                ||| (e == TokenError::Malformed && !token_wf(token@))
                ||| (e == TokenError::InvalidSignature && token_wf(token@) && !token_signed(
                    token@,
                ))
                ||| (e == TokenError::Expired && token_wf(token@) && token_signed(token@)
                    && !token_fresh(token@, now as nat))
            },
        },
{
    let tv = chars_of_str(token.as_str());
    if tv.len() < 6 {
        return Err(TokenError::Malformed);
    }
    let header = chars_of_str("HS256");
    proof {
        reveal_strlit("HS256");
    }
    let mut k: usize = 0;
    while k < 5
        invariant
            0 <= k <= 5,
            tv@.len() >= 6,
            tv@ == token@,
            header@ == header_chars(),
            header@.len() == 5,
            forall|j: int| 0 <= j < k ==> tv@[j] == header@[j],
        decreases 5 - k,
    {
        if tv[k] != header[k] {
            proof {
                assert(tv@.take(5)[k as int] != header_chars()[k as int]);
            }
            return Err(TokenError::Malformed);
        }
        k += 1;
    }
    proof {
        assert(tv@.take(5) =~= header_chars());
    }
    if tv[5] != '.' {
        return Err(TokenError::Malformed);
    }
    let p = match find_dot_exec(&tv, 6) {
        Some(p) => p,
        None => {
            return Err(TokenError::Malformed);
        },
    };
    let payload_vec = copy_range(&tv, 6, p);
    let claims = match parse_payload_exec(&payload_vec) {
        Some(c) => c,
        None => {
            return Err(TokenError::Malformed);
        },
    };
    let message = copy_range(&tv, 0, p);
    let signature = copy_range(&tv, p + 1, tv.len());
    proof {
        assert(message@ =~= token@.take(p as int));
    }
    if !verify_hs256(&signature, &message, "secret") {
        return Err(TokenError::InvalidSignature);
    }
    if now < claims.exp {
        Ok(claims)
    } else {
        Err(TokenError::Expired)
    }
}

/// No dot occurs in `s`.
pub open spec fn no_dot(s: Seq<char>) -> bool {
    forall|i: int| 0 <= i < s.len() ==> s[i] != '.'
}

pub proof fn lemma_no_dot_concat(a: Seq<char>, b: Seq<char>)
    requires
        no_dot(a),
        no_dot(b),
    ensures
        no_dot(a + b),
{
    assert forall|i: int| 0 <= i < (a + b).len() implies (a + b)[i] != '.' by {
        if i < a.len() {
            assert((a + b)[i] == a[i]);
        } else {
            assert((a + b)[i] == b[i - a.len()]);
        }
    }
}

pub proof fn lemma_field_enc_no_dot(s: Seq<char>)
    ensures
        no_dot(field_enc(s)),
        field_enc(s).len() == 16 + 6 * s.len(),
{
    lemma_hex_fixed_digits(s.len() as int, 16);
    lemma_hex_chars_digits(s);
    lemma_hex_fixed_len(s.len() as int, 16);
    lemma_hex_chars_len(s);
    assert forall|i: int| 0 <= i < hex_fixed(s.len() as int, 16).len() implies hex_fixed(
        s.len() as int,
        16,
    )[i] != '.' by {
        assert(hex_val_of(hex_fixed(s.len() as int, 16)[i]) >= 0);
    }
    assert forall|i: int| 0 <= i < hex_chars(s).len() implies hex_chars(s)[i] != '.' by {
        assert(hex_val_of(hex_chars(s)[i]) >= 0);
    }
    lemma_no_dot_concat(hex_fixed(s.len() as int, 16), hex_chars(s));
}

pub proof fn lemma_payload_no_dot(d: ClaimsData)
    ensures
        no_dot(payload_of(d)),
{
    lemma_field_enc_no_dot(d.id);
    lemma_field_enc_no_dot(d.name);
    lemma_field_enc_no_dot(d.avatar_path);
    lemma_field_enc_no_dot(d.room_id);
    lemma_field_enc_no_dot(d.user_color);
    lemma_hex_fixed_digits(d.exp as int, 16);
    lemma_hex_fixed_len(d.exp as int, 16);
    let h = seq![
        if d.is_host {
            '1'
        } else {
            '0'
        },
    ];
    assert(no_dot(h));
    assert forall|i: int| 0 <= i < hex_fixed(d.exp as int, 16).len() implies hex_fixed(
        d.exp as int,
        16,
    )[i] != '.' by {
        assert(hex_val_of(hex_fixed(d.exp as int, 16)[i]) >= 0);
    }
    lemma_no_dot_concat(field_enc(d.id), field_enc(d.name));
    lemma_no_dot_concat(field_enc(d.id) + field_enc(d.name), field_enc(d.avatar_path));
    lemma_no_dot_concat(
        field_enc(d.id) + field_enc(d.name) + field_enc(d.avatar_path),
        field_enc(d.room_id),
    );
    lemma_no_dot_concat(
        field_enc(d.id) + field_enc(d.name) + field_enc(d.avatar_path) + field_enc(d.room_id),
        h,
    );
    lemma_no_dot_concat(
        field_enc(d.id) + field_enc(d.name) + field_enc(d.avatar_path) + field_enc(d.room_id) + h,
        field_enc(d.user_color),
    );
    lemma_no_dot_concat(
        field_enc(d.id) + field_enc(d.name) + field_enc(d.avatar_path) + field_enc(d.room_id) + h
            + field_enc(d.user_color),
        hex_fixed(d.exp as int, 16),
    );
}

/// Scanning from `from` over dot-free text finds the dot at `q`.
pub proof fn lemma_find_dot_at(t: Seq<char>, from: int, q: int)
    requires
        0 <= from <= q < t.len(),
        forall|j: int| from <= j < q ==> t[j] != '.',
        t[q] == '.',
    ensures
        find_dot(t, from) == q,
    decreases q - from,
{
    if from < q {
        lemma_find_dot_at(t, from + 1, q);
    }
}

/// A field written at position `pre.len()` reads back exactly.
pub proof fn lemma_parse_field_at(s: Seq<char>, pre: Seq<char>, fld: Seq<char>, post: Seq<char>)
    requires
        s == pre + field_enc(fld) + post,
        fld.len() < pow16(16),
    ensures
        parse_field(s, pre.len() as int) == Some(
            (fld, pre.len() as int + 16 + 6 * fld.len() as int),
        ),
{
    let pos = pre.len() as int;
    lemma_hex_fixed_len(fld.len() as int, 16);
    lemma_hex_chars_len(fld);
    assert(s.subrange(pos, pos + 16) =~= hex_fixed(fld.len() as int, 16));
    lemma_hexv_of_fixed(fld.len() as int, 16);
    assert(s.subrange(pos + 16, pos + 16 + 6 * fld.len()) =~= hex_chars(fld));
    lemma_parse_of_hex_chars(fld);
}

/// Reading back a written payload recovers the claim record exactly.
#[verifier::rlimit(60)]
pub proof fn lemma_parse_of_payload(d: ClaimsData)
    requires
        claims_fit(d),
    ensures
        spec_parse_payload(payload_of(d)) == Some(d),
{
    let s = payload_of(d);
    let a = field_enc(d.id);
    let b = field_enc(d.name);
    let c = field_enc(d.avatar_path);
    let e = field_enc(d.room_id);
    let h = seq![
        if d.is_host {
            '1'
        } else {
            '0'
        },
    ];
    let f = field_enc(d.user_color);
    let g = hex_fixed(d.exp as int, 16);
    lemma_field_enc_no_dot(d.id);
    lemma_field_enc_no_dot(d.name);
    lemma_field_enc_no_dot(d.avatar_path);
    lemma_field_enc_no_dot(d.room_id);
    lemma_field_enc_no_dot(d.user_color);
    lemma_hex_fixed_len(d.exp as int, 16);

    assert(s =~= Seq::<char>::empty() + a + (b + c + e + h + f + g));
    lemma_parse_field_at(s, Seq::<char>::empty(), d.id, b + c + e + h + f + g);
    let p1 = a.len() as int;
    assert(parse_field(s, 0) == Some((d.id, p1)));

    assert(s =~= a + b + (c + e + h + f + g));
    lemma_parse_field_at(s, a, d.name, c + e + h + f + g);
    let p2 = p1 + b.len();
    assert(parse_field(s, p1) == Some((d.name, p2)));

    assert(s =~= (a + b) + c + (e + h + f + g));
    lemma_parse_field_at(s, a + b, d.avatar_path, e + h + f + g);
    let p3 = p2 + c.len();
    assert(parse_field(s, p2) == Some((d.avatar_path, p3)));

    assert(s =~= (a + b + c) + e + (h + f + g));
    lemma_parse_field_at(s, a + b + c, d.room_id, h + f + g);
    let p4 = p3 + e.len();
    assert(parse_field(s, p3) == Some((d.room_id, p4)));

    assert(s[p4] == h[0]);
    assert(s[p4] == '0' || s[p4] == '1');
    assert((s[p4] == '1') == d.is_host);

    assert(s =~= (a + b + c + e + h) + f + g);
    lemma_parse_field_at(s, a + b + c + e + h, d.user_color, g);
    let p5 = p4 + 1 + f.len();
    assert(parse_field(s, p4 + 1) == Some((d.user_color, p5)));

    assert(p5 + 16 == s.len());
    assert(s.subrange(p5, p5 + 16) =~= g);
    lemma_hexv_of_fixed(d.exp as int, 16);
    assert(hexv(s.subrange(p5, p5 + 16)) == d.exp as int);

    assert(spec_parse_payload(s) == Some(d)) by {
        let parsed = spec_parse_payload(s)->Some_0;
        assert(parsed.id == d.id && parsed.name == d.name && parsed.avatar_path == d.avatar_path
            && parsed.room_id == d.room_id && parsed.is_host == d.is_host && parsed.user_color
            == d.user_color && parsed.exp == d.exp);
    }
}

/// Issuing then reading back: a token built from a claim record that fits
/// the format is well formed, carries that record, is signed, and is fresh
/// before its expiry.
pub proof fn lemma_token_round_trip(d: ClaimsData, now: nat)
    requires
        claims_fit(d),
        now < d.exp,
    ensures
        token_wf(spec_token(d)),
        token_signed(spec_token(d)),
        token_fresh(spec_token(d), now),
        token_payload(spec_token(d)) == d,
{
    let t = spec_token(d);
    let payload = payload_of(d);
    let message = header_chars() + seq!['.'] + payload;
    let sig = hs256_signature(message, secret_chars());
    reveal_strlit("HS256");
    assert(t.len() == message.len() + 1 + sig.len());
    assert(t.take(5) =~= header_chars());
    assert(t[5] == '.');
    lemma_payload_no_dot(d);
    let q = 6 + payload.len() as int;
    assert forall|j: int| 6 <= j < q implies t[j] != '.' by {
        assert(t[j] == payload[j - 6]);
    }
    assert(t[q] == '.');
    lemma_find_dot_at(t, 6, q);
    assert(t.subrange(6, q) =~= payload);
    lemma_parse_of_payload(d);
    assert(token_wf(t));
    assert(token_payload(t) == d);
    assert(t.take(q) =~= message);
    assert(t.subrange(q + 1, t.len() as int) =~= sig);
    assert(token_signed(t));
}

} // verus!
