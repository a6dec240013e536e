//! Credentials as they cross the boundary of the hub: the requests of the
//! login exchange, the claims that a token carries, and the avatar given to a
//! new account. Storing accounts, hashing passwords and signing tokens are
//! someone else's work.

use vstd::prelude::*;
use vstd::std_specs::iter::IteratorSpec;

verus! {

/// A request to log in.
#[derive(Debug)]
pub struct LoginRequest {
    pub username: String,
    pub password: String,
}

/// A request to open an account.
#[derive(Debug)]
pub struct RegisterRequest {
    pub username: String,
    pub password: String,
}

/// What a token says: whose it is, and until when it holds, in seconds since
/// the Unix epoch.
#[derive(Debug)]
pub struct Claims {
    pub sub: String,
    pub username: String,
    pub exp: i64,
}

/// How long a token holds: thirty days, in seconds.
pub const TOKEN_LIFETIME: i64 = 2_592_000;

/// The avatars that new accounts are given.
pub const AVATARS: [&'static str; 190] = [
    "🐶", "🐱", "🐭", "🐹", "🐰", "🦊", "🐻", "🐼", "🐨", "🐯",
    "🦁", "🐮", "🐷", "🐸", "🐵", "🐔", "🐧", "🐦", "🐤", "🐣",
    "🦆", "🦅", "🦉", "🦇", "🐺", "🐗", "🐴", "🦄", "🐝", "🐛",
    "🦋", "🐌", "🐞", "🐜", "🦟", "🦗", "🕷", "🕸", "🦂", "🐢",
    "🐍", "🦎", "🦖", "🦕", "🐙", "🦑", "🦐", "🦞", "🦀", "🐡",
    "🐠", "🐟", "🐬", "🐳", "🐋", "🦈", "🐊", "🐅", "🐆", "🦓",
    "🦍", "🦧", "🐘", "🦛", "🦏", "🐪", "🐫", "🦒", "🦘", "🐃",
    "🐂", "🐄", "🐎", "🐖", "🐏", "🐑", "🦙", "🐐", "🦏", "🦌",
    "🐕", "🐩", "🦮", "🐕‍🦺", "🐈", "🐓", "🦃", "🦚", "🦜", "🦢",
    "🦩", "🕊", "🐇", "🦝", "🦨", "🦡", "🦦", "🦥", "🐁", "🐀",
    "🐿", "🦔", "🐾", "🐉", "🐲", "🌵", "🎄", "🌲", "🌳", "🌴",
    "🌱", "🌿", "☘️", "🍀", "🎍", "🎋", "🍃", "🍂", "🍁", "🍄",
    "🐚", "🌾", "💐", "🌷", "🌹", "🥀", "🌺", "🌸", "🌼", "🌻",
    "🌞", "🌝", "🌛", "🌜", "🌚", "🌕", "🌖", "🌗", "🌘", "🌑",
    "🌒", "🌓", "🌔", "🌙", "⭐", "🌟", "💫", "✨", "☄️", "💥",
    "🔥", "💢", "💯", "💢", "💥", "💫", "💦", "💨", "🕳️", "💣",
    "💤", "💨", "💦", "💧", "🌊", "☔", "⛈️", "🌩️", "⚡", "🔥",
    "❄️", "☃️", "⛄", "🌨️", "🌧️", "🌦️", "🌤️", "⛅", "🌥️", "☁️",
    "🌦️", "🌤️", "⛅", "🌥️", "☁️", "🌦️", "🌤️", "⛅", "🌥️", "☁️",
];

/// The end of a token's life when it is issued at `now`, held at the top of
/// the `i64` range.
pub open spec fn expiry(now: int) -> int {
    if now + TOKEN_LIFETIME > i64::MAX {
        i64::MAX as int
    } else {
        now + TOKEN_LIFETIME
    }
}

/// Sum of the code points of `text`, wrapping at 32 bits.
pub open spec fn code_sum(text: Seq<char>) -> int
    decreases text.len(),
{
    if text.len() == 0 {
        0
    } else {
        (code_sum(text.drop_last()) + text.last() as u32 as int) % 0x1_0000_0000
    }
}

/// The position in `AVATARS` of the avatar of the account named `username`.
pub open spec fn avatar_index(username: Seq<char>) -> int {
    code_sum(username) % (AVATARS@.len() as int)
}

impl Claims {
    /// The claims of a token issued at `now` for the account `sub`.
    pub fn issue(sub: String, username: String, now: i64) -> (claims: Claims)
        ensures
            claims.sub == sub,
            claims.username == username,
            claims.exp == expiry(now as int),
    {
        let exp: i64 = if now > i64::MAX - TOKEN_LIFETIME {
            i64::MAX
        } else {
            now + TOKEN_LIFETIME
        };
        Claims { sub, username, exp }
    }
}

/// The avatar of a new account: picked from `AVATARS` by the sum of the code
/// points of the account's name.
pub fn generate_avatar_from_username(username: &str) -> (avatar: String)
    ensures
        0 <= avatar_index(username@) < AVATARS@.len(),
        avatar@ == AVATARS@[avatar_index(username@)]@,
{
    let mut sum: u32 = 0;
    let n: usize = username.unicode_len();
    let mut i: usize = 0;
    while i < n
        invariant
            0 <= i <= n,
            n == username@.len(),
            sum == code_sum(username@.take(i as int)),
        decreases n - i,
    {
        let c = username.get_char(i);
        proof {
            assert(username@.take(i + 1).drop_last() =~= username@.take(i as int));
        }
        sum = sum.wrapping_add(c as u32);
        i = i + 1;
    }
    proof {
        assert(username@.take(n as int) =~= username@);
    }
    let index: usize = (sum as usize) % AVATARS.len();
    AVATARS[index].to_owned()
}

/// The shortest password that an account may have, in bytes.
pub const MIN_PASSWORD_LEN: usize = 4;

/// Whether `c` is white space: a character with the Unicode property
/// White_Space.
pub open spec fn is_white_space(c: char) -> bool {
    let code = c as u32;
    ||| 0x09 <= code <= 0x0d
    ||| code == 0x20
    ||| code == 0x85
    ||| code == 0xa0
    ||| code == 0x1680
    ||| 0x2000 <= code <= 0x200a
    ||| code == 0x2028
    ||| code == 0x2029
    ||| code == 0x202f
    ||| code == 0x205f
    ||| code == 0x3000
}

/// Whether `text` holds nothing but white space.
pub open spec fn is_blank(text: Seq<char>) -> bool {
    forall|i: int| 0 <= i < text.len() ==> is_white_space(#[trigger] text[i])
}

/// Whether `header` is a bearer credential: the word `Bearer`, one space, and
/// the token.
pub open spec fn is_bearer(header: Seq<char>) -> bool {
    header.len() >= 7 && header.take(7) == "Bearer "@
}

/// Whether a character is white space.
pub fn white_space(c: char) -> (yes: bool)
    ensures
        yes == is_white_space(c),
{
    let code: u32 = c as u32;
    (0x09 <= code && code <= 0x0d) || code == 0x20 || code == 0x85 || code == 0xa0 || code
        == 0x1680 || (0x2000 <= code && code <= 0x200a) || code == 0x2028 || code == 0x2029
        || code == 0x202f || code == 0x205f || code == 0x3000
}

/// Whether a text holds nothing but white space.
pub fn blank(text: &str) -> (yes: bool)
    ensures
        yes == is_blank(text@),
{
    broadcast use vstd::string::axiom_spec_iter;

    for c in it: text.chars()
        invariant
            it.seq() == text@,
            forall|j: int| 0 <= j < it.index() ==> is_white_space(#[trigger] text@[j]),
    {
        if !white_space(c) {
            return false;
        }
    }
    true
}

/// Whether an account may be opened under this name and password: the name
/// is not blank and the password has at least four bytes.
pub fn credentials_acceptable(username: &str, password: &str) -> (ok: bool)
    ensures
        ok == (!is_blank(username@) && password.len() >= MIN_PASSWORD_LEN),
{
    !blank(username) && password.len() >= MIN_PASSWORD_LEN
}

/// The token of a bearer credential; nothing for a header of another form.
pub fn bearer_token(header: &str) -> (token: Option<String>)
    ensures
        token is Some <==> is_bearer(header@),
        token is Some ==> token->0@ == header@.skip(7),
{
    proof {
        reveal_strlit("Bearer ");
    }
    let n: usize = header.unicode_len();
    if n < 7 {
        return None;
    }
    let word = "Bearer ";
    let mut i: usize = 0;
    while i < 7
        invariant
            0 <= i <= 7,
            n == header@.len(),
            n >= 7,
            word@ == "Bearer "@,
            word@.len() == 7,
            forall|j: int| 0 <= j < i ==> header@[j] == word@[j],
        decreases 7 - i,
    {
        if header.get_char(i) != word.get_char(i) {
            assert(header@.take(7)[i as int] != "Bearer "@[i as int]);
            return None;
        }
        i = i + 1;
    }
    assert(header@.take(7) =~= "Bearer "@);
    let rest = header.substring_char(7, n);
    assert(header@.subrange(7, n as int) =~= header@.skip(7));
    Some(rest.to_owned())
}

} // verus!
