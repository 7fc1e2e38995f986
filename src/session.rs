//! A reader's session settings: login details, colours, and how answers of
//! the server map to errors.
use vstd::prelude::*;

use crate::server::{hash_password, hex_encode, hex_lower, password_digest, ApiError};
use crate::text::{chars_of, push_all, string_from, trim_range, trimmed};

verus! {

/// An opaque 8-bit RGB colour.
#[derive(Debug, Clone, Copy, PartialEq, Eq, Structural)]
pub struct Rgb {
    pub r: u8,
    pub g: u8,
    pub b: u8,
}

impl Rgb {
    /// A grey of the given level.
    pub fn gray(level: u8) -> (c: Rgb)
        ensures
            c == (Rgb { r: level, g: level, b: level }),
    {
        Rgb { r: level, g: level, b: level }
    }
}

/// Value of a hexadecimal digit, either case.
pub open spec fn hex_value(c: char) -> Option<int> {
    if '0' <= c <= '9' {
        Some(c as int - '0' as int)
    } else if 'a' <= c <= 'f' {
        Some(c as int - 'a' as int + 10)
    } else if 'A' <= c <= 'F' {
        Some(c as int - 'A' as int + 10)
    } else {
        None
    }
}

/// Value of a two-character component: two hex digits, or a plus sign
/// followed by one.
pub open spec fn component_value(a: char, b: char) -> Option<int> {
    if a == '+' {
        hex_value(b)
    } else {
        match (hex_value(a), hex_value(b)) {
            (Some(x), Some(y)) => Some(16 * x + y),
            _ => None,
        }
    }
}

/// `s` without its leading `#` characters.
pub open spec fn without_hashes(s: Seq<char>) -> Seq<char>
    decreases s.len(),
{
    if s.len() > 0 && s[0] == '#' {
        without_hashes(s.drop_first())
    } else {
        s
    }
}

/// The colour that a `#rrggbb` string denotes: after any leading `#`, exactly
/// six characters making three components.
pub open spec fn hex_color_of(s: Seq<char>) -> Option<Rgb> {
    let h = without_hashes(s);
    if h.len() != 6 {
        None
    } else {
        match (
            component_value(h[0], h[1]),
            component_value(h[2], h[3]),
            component_value(h[4], h[5]),
        ) {
            (Some(r), Some(g), Some(b)) => Some(Rgb { r: r as u8, g: g as u8, b: b as u8 }),
            _ => None,
        }
    }
}

/// Value of a hexadecimal digit.
fn hex_digit_value(c: char) -> (r: Option<u8>)
    ensures
        match hex_value(c) {
            Some(v) => r == Some(v as u8),
            None => r is None,
        },
{
    if '0' <= c && c <= '9' {
        Some((c as u32 - '0' as u32) as u8)
    } else if 'a' <= c && c <= 'f' {
        Some((c as u32 - 'a' as u32 + 10) as u8)
    } else if 'A' <= c && c <= 'F' {
        Some((c as u32 - 'A' as u32 + 10) as u8)
    } else {
        None
    }
}

/// Value of a two-character component.
fn component(a: char, b: char) -> (r: Option<u8>)
    ensures
        match component_value(a, b) {
            Some(v) => r == Some(v as u8),
            None => r is None,
        },
{
    if a == '+' {
        return hex_digit_value(b);
    }
    match (hex_digit_value(a), hex_digit_value(b)) {
        (Some(x), Some(y)) => Some(16 * x + y),
        _ => None,
    }
}

/// Parses a `#rrggbb` colour.
pub fn parse_hex_color(hex: &str) -> (r: Option<Rgb>)
    ensures
        r == hex_color_of(hex@),
{
    let s = chars_of(hex);
    let mut i: usize = 0;
    assert(s@.subrange(0, s.len() as int) == s@);
    while i < s.len() && s[i] == '#'
        invariant
            0 <= i <= s.len(),
            without_hashes(s@) == without_hashes(s@.subrange(i as int, s.len() as int)),
        decreases s.len() - i,
    {
        assert(s@.subrange(i as int, s.len() as int).drop_first() == s@.subrange(
            i + 1,
            s.len() as int,
        ));
        i += 1;
    }
    assert(s@.subrange(0, s.len() as int) == s@);
    if s.len() - i != 6 {
        return None;
    }
    let ghost h = s@.subrange(i as int, s.len() as int);
    assert(h[0] == s@[i as int] && h[1] == s@[i + 1] && h[2] == s@[i + 2] && h[3] == s@[i + 3]
        && h[4] == s@[i + 4] && h[5] == s@[i + 5]);
    let r = component(s[i], s[i + 1]);
    let g = component(s[i + 2], s[i + 3]);
    let b = component(s[i + 4], s[i + 5]);
    match (r, g, b) {
        (Some(r), Some(g), Some(b)) => Some(Rgb { r, g, b }),
        _ => None,
    }
}

/// A background is dark when its weighted luminance is below one half:
/// 0.299 red + 0.587 green + 0.114 blue, on components scaled to one.
pub open spec fn dark(c: Rgb) -> bool {
    299 * c.r + 587 * c.g + 114 * c.b < 127500
}

/// Whether a background colour is dark.
pub fn is_dark(c: Rgb) -> (r: bool)
    ensures
        r == dark(c),
{
    299 * (c.r as u32) + 587 * (c.g as u32) + 114 * (c.b as u32) < 127500
}

/// Panel colour for a reading background: dark grey on dark, light grey on light.
pub fn ui_background(background: Rgb) -> (r: Rgb)
    ensures
        r == if dark(background) {
            Rgb { r: 40, g: 40, b: 40 }
        } else {
            Rgb { r: 230, g: 230, b: 230 }
        },
{
    if is_dark(background) {
        Rgb::gray(40)
    } else {
        Rgb::gray(230)
    }
}

/// Panel text colour for a reading background: white on dark, black on light.
pub fn ui_text_color(background: Rgb) -> (r: Rgb)
    ensures
        r == if dark(background) {
            Rgb { r: 255, g: 255, b: 255 }
        } else {
            Rgb { r: 0, g: 0, b: 0 }
        },
{
    if is_dark(background) {
        Rgb::gray(255)
    } else {
        Rgb::gray(0)
    }
}

/// What a reader enters to connect.
#[derive(Debug, Clone)]
pub struct LoginInfo {
    pub server_ip: String,
    pub server_port: String,
    pub display_name: String,
    pub user_color: Rgb,
    pub password: String,
}

impl Default for LoginInfo {
    fn default() -> (r: LoginInfo)
        ensures
            r.server_ip@ == "localhost"@,
            r.server_port@ == "15470"@,
            r.display_name@.len() == 0,
            r.user_color == (Rgb { r: 100, g: 150, b: 255 }),
            r.password@.len() == 0,
    {
        LoginInfo {
            server_ip: "localhost".to_owned(),
            server_port: "15470".to_owned(),
            display_name: String::new(),
            user_color: Rgb { r: 100, g: 150, b: 255 },
            password: String::new(),
        }
    }
}

/// Why a login cannot start a session.
#[derive(Debug, Clone, Copy, PartialEq, Eq, Structural)]
pub enum LoginError {
    /// The display name is empty once trimmed.
    EmptyDisplayName,
}

/// What a session needs to talk to the server.
#[derive(Debug, Clone)]
pub struct SessionConfig {
    pub server_url: String,
    pub user_name: String,
    pub user_color: String,
    pub password_hash: Option<String>,
}

/// The `#rrggbb` notation of a colour.
pub open spec fn color_hex_of(c: Rgb) -> Seq<char> {
    "#"@ + hex_lower(seq![c.r, c.g, c.b])
}

/// Formats a colour as `#rrggbb`.
pub fn color_to_hex(c: Rgb) -> (r: String)
    ensures
        r@ == color_hex_of(c),
{
    let bytes: [u8; 3] = [c.r, c.g, c.b];
    let digits = hex_encode(&bytes);
    assert(bytes@ == seq![c.r, c.g, c.b]);
    let mut out = chars_of("#");
    push_all(&mut out, &chars_of(digits.as_str()));
    string_from(&out)
}

/// The digest sent for a password: none when the password is empty.
pub open spec fn login_digest(password: Seq<char>) -> Option<Seq<char>> {
    if password.len() == 0 {
        None
    } else {
        Some(password_digest(password))
    }
}

/// Prepares a session from login details: the display name is trimmed and
/// must not be empty; the server URL is `http://ip:port`; the colour is sent
/// as `#rrggbb`; a non-empty password is sent as its digest.
pub fn prepare_session(login: &LoginInfo) -> (r: Result<SessionConfig, LoginError>)
    ensures
        trimmed(login.display_name@).len() == 0 ==> r == Err::<SessionConfig, LoginError>(
            LoginError::EmptyDisplayName,
        ),
        trimmed(login.display_name@).len() > 0 ==> r is Ok && ({
            let c = r->Ok_0;
            &&& c.user_name@ == trimmed(login.display_name@)
            &&& c.server_url@ == "http://"@ + login.server_ip@ + ":"@ + login.server_port@
            &&& c.user_color@ == color_hex_of(login.user_color)
            &&& match c.password_hash {
                Some(h) => login_digest(login.password@) == Some(h@),
                None => login_digest(login.password@) is None,
            }
        }),
{
    let name = chars_of(login.display_name.as_str());
    let (lo, hi) = trim_range(&name, 0, name.len());
    assert(name@.subrange(0, name@.len() as int) == name@);
    if lo == hi {
        return Err(LoginError::EmptyDisplayName);
    }
    let mut trimmed_name: Vec<char> = Vec::new();
    let mut k = lo;
    while k < hi
        invariant
            lo <= k <= hi <= name.len(),
            trimmed_name@ == name@.subrange(lo as int, k as int),
        decreases hi - k,
    {
        trimmed_name.push(name[k]);
        k += 1;
        assert(trimmed_name@ =~= name@.subrange(lo as int, k as int));
    }
    let mut url = chars_of("http://");
    push_all(&mut url, &chars_of(login.server_ip.as_str()));
    push_all(&mut url, &chars_of(":"));
    push_all(&mut url, &chars_of(login.server_port.as_str()));
    let password_hash = if login.password.as_str().is_empty() {
        None
    } else {
        Some(hash_password(login.password.as_str()))
    };
    Ok(
        SessionConfig {
            server_url: string_from(&url),
            user_name: string_from(&trimmed_name),
            user_color: color_to_hex(login.user_color),
            password_hash,
        },
    )
}

/// Which request an answer belongs to.
#[derive(Debug, Clone, Copy, PartialEq, Eq, Structural)]
pub enum FetchStage {
    Health,
    Document,
    Positions,
}

/// The error that an HTTP status stands for: none for success; a failed
/// health check means the server is unreachable; otherwise 401 is an
/// authorization error, 404 an unknown resource, anything else a server fault.
pub open spec fn status_error(stage: FetchStage, status: u16) -> Option<ApiError> {
    if 200 <= status <= 299 {
        None
    } else if stage == FetchStage::Health {
        Some(ApiError::Connectivity)
    } else if status == 401 {
        Some(ApiError::Authorization)
    } else if status == 404 {
        Some(ApiError::NotFound)
    } else {
        Some(ApiError::ServerFault)
    }
}

/// Classifies the status of an answer.
pub fn classify_status(stage: FetchStage, status: u16) -> (r: Option<ApiError>)
    ensures
        r == status_error(stage, status),
{
    if 200 <= status && status <= 299 {
        None
    } else if stage == FetchStage::Health {
        Some(ApiError::Connectivity)
    } else if status == 401 {
        Some(ApiError::Authorization)
    } else if status == 404 {
        Some(ApiError::NotFound)
    } else {
        Some(ApiError::ServerFault)
    }
}

} // verus!
