//! Server-side request handling: the shared-secret authorization, the password
//! digest, and the logic behind each endpoint.
use vstd::prelude::*;

use sha2::Digest;

use crate::document::Document;
use crate::presence::{ConnectedUser, PresenceStore, Position, UserRecord};
use crate::text::{chars_of, has_suffix, ends_with};

verus! {

/// The SHA-256 digest of a byte sequence.
pub uninterp spec fn sha256_of(data: Seq<u8>) -> Seq<u8>;

/// Relies on `sha2::Sha256::digest`: the SHA-256 digest of the input, whose
/// output size is 32 bytes.
#[verifier::external_body]
fn sha256_digest(data: &[u8]) -> (r: Vec<u8>)
    ensures
        r@ == sha256_of(data@),
        r@.len() == 32,
{
    sha2::Sha256::digest(data).to_vec()
}

/// Lowercase hexadecimal digit for a nibble.
pub open spec fn hex_digit(d: int) -> char {
    if d < 10 {
        ((d + 48) as u8) as char
    } else {
        ((d + 87) as u8) as char
    }
}

/// Lowercase hexadecimal notation: two digits per byte, high nibble first.
pub open spec fn hex_lower(b: Seq<u8>) -> Seq<char>
    decreases b.len(),
{
    if b.len() == 0 {
        Seq::empty()
    } else {
        hex_lower(b.drop_last()) + seq![hex_digit(b.last() as int / 16), hex_digit(b.last() as int % 16)]
    }
}

/// Relies on `hex::encode`: two lowercase hex digits per byte, high nibble first.
#[verifier::external_body]
pub(crate) fn hex_encode(data: &[u8]) -> (r: String)
    ensures
        r@ == hex_lower(data@),
{
    hex::encode(data)
}

/// The digest that stands for a password on the wire: lowercase hex of the
/// SHA-256 digest of its UTF-8 bytes.
pub open spec fn password_digest(password: Seq<char>) -> Seq<char> {
    hex_lower(sha256_of(vstd::utf8::encode_utf8(password)))
}

/// Hashes a password into the digest that is compared on the server.
pub fn hash_password(password: &str) -> (r: String)
    ensures
        r@ == password_digest(password@),
{
    let bytes = password.as_bytes();
    let digest = sha256_digest(bytes);
    hex_encode(digest.as_slice())
}

/// Errors of the client/server protocol.
#[derive(Debug, Clone, Copy, PartialEq, Eq, Structural)]
pub enum ApiError {
    /// The server could not be reached or failed its health check.
    Connectivity,
    /// The password digest was required and missing or wrong.
    Authorization,
    /// No image has the requested id.
    NotFound,
    /// A document or positions fetch answered with another failure status.
    ServerFault,
}

impl ApiError {
    /// The HTTP status that the server answers with for this error.
    pub fn status_code(&self) -> (r: u16)
        ensures
            r == match *self {
                ApiError::Authorization => 401u16,
                ApiError::NotFound => 404u16,
                ApiError::Connectivity => 503u16,
                ApiError::ServerFault => 500u16,
            },
    {
        match self {
            ApiError::Authorization => 401,
            ApiError::NotFound => 404,
            ApiError::Connectivity => 503,
            ApiError::ServerFault => 500,
        }
    }
}

/// Answer of the health endpoint.
#[derive(Debug, Clone)]
pub struct HealthResponse {
    pub status: String,
    pub requires_password: bool,
}

/// The credential that protected requests carry.
#[derive(Debug, Clone)]
pub struct AuthRequest {
    pub password_hash: Option<String>,
}

/// A reader's published position, with its credential.
#[derive(Debug, Clone)]
pub struct PositionUpdate {
    pub name: String,
    pub color: String,
    pub position: Position,
    pub password_hash: Option<String>,
}

/// Answer of the positions endpoint: every live reader, one per identity.
#[derive(Debug, Clone)]
pub struct UsersResponse {
    pub users: Vec<ConnectedUser>,
}

/// The view of an optional string.
pub open spec fn opt_view(o: Option<String>) -> Option<Seq<char>> {
    match o {
        Some(s) => Some(s@),
        None => None,
    }
}

/// A request is authorized when no secret is configured, or when the
/// request carries exactly the configured digest.
pub open spec fn admits(expected: Option<Seq<char>>, provided: Option<Seq<char>>) -> bool {
    match expected {
        None => true,
        Some(e) => provided == Some(e),
    }
}

/// Whether a request with the given digest is authorized against `expected`.
pub fn check_auth(expected: &Option<String>, provided: &Option<String>) -> (r: bool)
    ensures
        r == admits(opt_view(*expected), opt_view(*provided)),
{
    match (expected, provided) {
        (None, _) => true,
        (Some(e), Some(p)) => *e == *p,
        (Some(_), None) => false,
    }
}

/// Content type served for an image id, chosen by its extension.
pub open spec fn content_type_of(id: Seq<char>) -> Seq<char> {
    if has_suffix(id, ".jpg"@) || has_suffix(id, ".jpeg"@) {
        "image/jpeg"@
    } else if has_suffix(id, ".png"@) {
        "image/png"@
    } else if has_suffix(id, ".gif"@) {
        "image/gif"@
    } else if has_suffix(id, ".webp"@) {
        "image/webp"@
    } else {
        "application/octet-stream"@
    }
}

/// The content type to serve an image with.
pub fn content_type_for(id: &str) -> (r: String)
    ensures
        r@ == content_type_of(id@),
{
    let c = chars_of(id);
    if ends_with(&c, &chars_of(".jpg")) || ends_with(&c, &chars_of(".jpeg")) {
        "image/jpeg".to_owned()
    } else if ends_with(&c, &chars_of(".png")) {
        "image/png".to_owned()
    } else if ends_with(&c, &chars_of(".gif")) {
        "image/gif".to_owned()
    } else if ends_with(&c, &chars_of(".webp")) {
        "image/webp".to_owned()
    } else {
        "application/octet-stream".to_owned()
    }
}

/// An image resource of the document.
#[derive(Debug, Clone)]
pub struct ImageEntry {
    pub id: String,
    pub data: Vec<u8>,
}

/// The index of the latest entry with the given id.
pub open spec fn latest_with_id(s: Seq<ImageEntry>, id: Seq<char>) -> Option<int>
    decreases s.len(),
{
    if s.len() == 0 {
        None
    } else if s.last().id@ == id {
        Some(s.len() - 1)
    } else {
        latest_with_id(s.drop_last(), id)
    }
}

/// The document's images by id; a later insert of an id replaces an earlier one.
pub struct ImageStore {
    entries: Vec<ImageEntry>,
}

impl ImageStore {
    /// The entries in insertion order.
    pub closed spec fn entries(&self) -> Seq<ImageEntry> {
        self.entries@
    }

    /// An empty store.
    pub fn new() -> (r: ImageStore)
        ensures
            r.entries().len() == 0,
    {
        ImageStore { entries: Vec::new() }
    }

    /// Adds an image.
    pub fn insert(&mut self, id: String, data: Vec<u8>)
        ensures
            final(self).entries() == old(self).entries().push(ImageEntry { id, data }),
    {
        self.entries.push(ImageEntry { id, data });
    }

    /// Number of entries.
    pub fn len(&self) -> (r: usize)
        ensures
            r == self.entries().len(),
    {
        self.entries.len()
    }

    /// The bytes of the image with this id, if any.
    pub fn get(&self, id: &str) -> (r: Option<&Vec<u8>>)
        ensures
            match latest_with_id(self.entries(), id@) {
                Some(i) => r == Some(&self.entries()[i].data),
                None => r is None,
            },
    {
        let key = chars_of(id);
        let mut i: usize = self.entries.len();
        assert(self.entries@.subrange(0, i as int) == self.entries@);
        while i > 0
            invariant
                0 <= i <= self.entries@.len(),
                key@ == id@,
                latest_with_id(self.entries@, id@) == latest_with_id(
                    self.entries@.subrange(0, i as int),
                    id@,
                ),
            decreases i,
        {
            let entry = &self.entries[i - 1];
            let ghost pre = self.entries@.subrange(0, i as int);
            proof {
                assert(pre.drop_last() == self.entries@.subrange(0, i - 1));
                assert(pre.last() == self.entries@[i - 1]);
            }
            let entry_id = chars_of(entry.id.as_str());
            if vec_eq(&entry_id, &key) {
                return Some(&entry.data);
            }
            i -= 1;
        }
        None
    }
}

/// Whether two character vectors are equal.
fn vec_eq(a: &Vec<char>, b: &Vec<char>) -> (r: bool)
    ensures
        r == (a@ == b@),
{
    if a.len() != b.len() {
        return false;
    }
    let mut i: usize = 0;
    while i < a.len()
        invariant
            a.len() == b.len(),
            0 <= i <= a.len(),
            forall|j: int| 0 <= j < i ==> a@[j] == b@[j],
        decreases a.len() - i,
    {
        if a[i] != b[i] {
            return false;
        }
        i += 1;
    }
    assert(a@ =~= b@);
    true
}

/// Answer of the health endpoint: always up; says whether a digest is required.
pub fn health(password_hash: &Option<String>) -> (r: HealthResponse)
    ensures
        r.status@ == "ok"@,
        r.requires_password == password_hash.is_some(),
{
    HealthResponse { status: "ok".to_owned(), requires_password: password_hash.is_some() }
}

/// The document, if the request is authorized.
pub fn serve_document<'a>(
    password_hash: &Option<String>,
    document: &'a Document,
    auth: &AuthRequest,
) -> (r: Result<&'a Document, ApiError>)
    ensures
        admits(opt_view(*password_hash), opt_view(auth.password_hash)) ==> r == Ok::<
            &Document,
            ApiError,
        >(document),
        !admits(opt_view(*password_hash), opt_view(auth.password_hash)) ==> r == Err::<
            &Document,
            ApiError,
        >(ApiError::Authorization),
{
    if !check_auth(password_hash, &auth.password_hash) {
        return Err(ApiError::Authorization);
    }
    Ok(document)
}

/// An image's bytes and content type, if the request is authorized and
/// the id is known.
pub fn serve_image<'a>(
    password_hash: &Option<String>,
    images: &'a ImageStore,
    id: &str,
    auth: &AuthRequest,
) -> (r: Result<(&'a Vec<u8>, String), ApiError>)
    ensures
        !admits(opt_view(*password_hash), opt_view(auth.password_hash)) ==> r == Err::<
            (&Vec<u8>, String),
            ApiError,
        >(ApiError::Authorization),
        admits(opt_view(*password_hash), opt_view(auth.password_hash)) ==> match latest_with_id(
            images.entries(),
            id@,
        ) {
            Some(i) => r is Ok && r->Ok_0.0 == &images.entries()[i].data && r->Ok_0.1@
                == content_type_of(id@),
            None => r == Err::<(&Vec<u8>, String), ApiError>(ApiError::NotFound),
        },
{
    if !check_auth(password_hash, &auth.password_hash) {
        return Err(ApiError::Authorization);
    }
    match images.get(id) {
        Some(data) => Ok((data, content_type_for(id))),
        None => Err(ApiError::NotFound),
    }
}

/// All live readers, if the request is authorized.
pub fn serve_positions(
    password_hash: &Option<String>,
    store: &PresenceStore,
    auth: &AuthRequest,
) -> (r: Result<UsersResponse, ApiError>)
    requires
        store.wf(),
    ensures
        !admits(opt_view(*password_hash), opt_view(auth.password_hash)) ==> r is Err && r->Err_0
            == ApiError::Authorization,
        admits(opt_view(*password_hash), opt_view(auth.password_hash)) ==> r is Ok
            && r->Ok_0.users.len() == store.records().len() && forall|i: int|
            0 <= i < r->Ok_0.users.len() ==> #[trigger] r->Ok_0.users[i]
                == store.records()[i].user,
{
    if !check_auth(password_hash, &auth.password_hash) {
        return Err(ApiError::Authorization);
    }
    Ok(UsersResponse { users: store.snapshot() })
}

/// Records a reader's position at time `now`, if the update is authorized;
/// a rejected update leaves the store as it was.
pub fn apply_update(
    password_hash: &Option<String>,
    store: &mut PresenceStore,
    update: PositionUpdate,
    now: u64,
) -> (r: Result<(), ApiError>)
    requires
        old(store).wf(),
    ensures
        final(store).wf(),
        !admits(opt_view(*password_hash), opt_view(update.password_hash)) ==> r == Err::<
            (),
            ApiError,
        >(ApiError::Authorization) && final(store).model() == old(store).model(),
        admits(opt_view(*password_hash), opt_view(update.password_hash)) ==> r == Ok::<
            (),
            ApiError,
        >(()) && final(store).model() == old(store).model().insert(
            update.name@,
            UserRecord {
                user: ConnectedUser {
                    name: update.name,
                    color: update.color,
                    position: update.position,
                },
                last_heartbeat: now,
            },
        ),
{
    if !check_auth(password_hash, &update.password_hash) {
        return Err(ApiError::Authorization);
    }
    let user = ConnectedUser { name: update.name, color: update.color, position: update.position };
    store.upsert(user, now);
    Ok(())
}

/// With no secret configured every request is admitted, whatever digest it
/// carries; with a secret configured a request is admitted exactly when it
/// carries that digest, and one with a wrong or absent digest is rejected.
pub proof fn lemma_authorization(expected: Option<Seq<char>>, provided: Option<Seq<char>>)
    ensures
        expected is None ==> admits(expected, provided),
        expected is Some ==> (admits(expected, provided) <==> provided == expected),
        expected is Some && provided is None ==> !admits(expected, provided),
{
}

} // verus!
